use crate::ast::{ASTNode, BinaryExpr, Expr, Literal, Op, ParenExpr, UnaryExpr, AST};
use crate::scanner::{lemma_scan_bounds, scan, scan_end, skip_ws, Scanner};
use crate::source::Source;
use crate::span::Span;
use crate::token::{Token, TokenType, TokenView};
use std::rc::Rc;
use vstd::prelude::*;
use vstd::string::*;

verus! {

/// The tokens the parser sees when scanning from `pos`: lexical errors are
/// passed over, and the stream ends with the first `Eof`.
pub open spec fn tokens_from(g: Seq<Seq<char>>, pos: int) -> Seq<TokenView>
    decreases g.len() - pos,
    via tokens_from_decreases
{
    if !(0 <= pos <= g.len()) {
        Seq::empty()
    } else if scan(g, pos).token_type == TokenType::Eof {
        seq![scan(g, pos)]
    } else if scan(g, pos).token_type == TokenType::Error {
        tokens_from(g, scan_end(g, pos))
    } else {
        seq![scan(g, pos)] + tokens_from(g, scan_end(g, pos))
    }
}

#[via_fn]
proof fn tokens_from_decreases(g: Seq<Seq<char>>, pos: int) {
    if 0 <= pos <= g.len() {
        lemma_scan_bounds(g, pos);
    }
}

/// The lexical errors passed over when moving from `pos` to the next token
/// that is not one.
pub open spec fn skipped_errors(g: Seq<Seq<char>>, pos: int) -> Seq<TokenView>
    decreases g.len() - pos,
    via skipped_errors_decreases
{
    if 0 <= pos <= g.len() && scan(g, pos).token_type == TokenType::Error {
        seq![scan(g, pos)] + skipped_errors(g, scan_end(g, pos))
    } else {
        Seq::empty()
    }
}

#[via_fn]
proof fn skipped_errors_decreases(g: Seq<Seq<char>>, pos: int) {
    if 0 <= pos <= g.len() {
        lemma_scan_bounds(g, pos);
    }
}

/// Whether scanning token by token from `a` passes through position `b`.
pub open spec fn reaches(g: Seq<Seq<char>>, a: int, b: int) -> bool
    decreases g.len() - a,
    via reaches_decreases
{
    a == b || (0 <= a <= g.len() && a < scan_end(g, a) && reaches(g, scan_end(g, a), b))
}

#[via_fn]
proof fn reaches_decreases(g: Seq<Seq<char>>, a: int, b: int) {
    if 0 <= a <= g.len() {
        lemma_scan_bounds(g, a);
    }
}

/// The lexical errors met when scanning token by token from `pos` until `stop`.
pub open spec fn errors_until(g: Seq<Seq<char>>, pos: int, stop: int) -> Seq<TokenView>
    decreases g.len() - pos,
    via errors_until_decreases
{
    if 0 <= pos < stop && pos <= g.len() && pos < scan_end(g, pos) {
        let here = if scan(g, pos).token_type == TokenType::Error {
            seq![scan(g, pos)]
        } else {
            Seq::empty()
        };
        here + errors_until(g, scan_end(g, pos), stop)
    } else {
        Seq::empty()
    }
}

#[via_fn]
proof fn errors_until_decreases(g: Seq<Seq<char>>, pos: int, stop: int) {
    if 0 <= pos <= g.len() {
        lemma_scan_bounds(g, pos);
    }
}

proof fn lemma_reaches_le(g: Seq<Seq<char>>, a: int, b: int)
    requires
        0 <= a <= g.len(),
        reaches(g, a, b),
    ensures
        a <= b <= g.len(),
    decreases g.len() - a,
{
    lemma_scan_bounds(g, a);
    if a != b {
        lemma_reaches_le(g, scan_end(g, a), b);
    }
}

proof fn lemma_reaches_trans(g: Seq<Seq<char>>, a: int, b: int, c: int)
    requires
        0 <= a <= g.len(),
        reaches(g, a, b),
        reaches(g, b, c),
    ensures
        reaches(g, a, c),
    decreases g.len() - a,
{
    lemma_scan_bounds(g, a);
    if a != b {
        lemma_reaches_trans(g, scan_end(g, a), b, c);
    }
}

proof fn lemma_errors_split(g: Seq<Seq<char>>, a: int, b: int, c: int)
    requires
        0 <= a <= g.len(),
        reaches(g, a, b),
        b <= c,
    ensures
        errors_until(g, a, c) == errors_until(g, a, b) + errors_until(g, b, c),
    decreases g.len() - a,
{
    lemma_scan_bounds(g, a);
    if a == b {
        assert(errors_until(g, a, b) =~= Seq::<TokenView>::empty());
        assert(errors_until(g, a, c) =~= errors_until(g, a, b) + errors_until(g, b, c));
    } else {
        let n = scan_end(g, a);
        lemma_errors_split(g, n, b, c);
        lemma_reaches_le(g, n, b);
        let here = if scan(g, a).token_type == TokenType::Error {
            seq![scan(g, a)]
        } else {
            Seq::<TokenView>::empty()
        };
        assert(errors_until(g, a, c) == here + errors_until(g, n, c));
        assert(errors_until(g, a, b) == here + errors_until(g, n, b));
        assert(errors_until(g, a, c) =~= errors_until(g, a, b) + errors_until(g, b, c));
    }
}

/// One scanning step from a position on the scan chain keeps the errors met
/// so far equal to those of the chain, extended by the token just scanned.
proof fn lemma_errors_step(g: Seq<Seq<char>>, p: int)
    requires
        0 <= p <= g.len(),
        reaches(g, 0, p),
    ensures
        reaches(g, 0, scan_end(g, p)),
        errors_until(g, 0, scan_end(g, p)) == errors_until(g, 0, p) + if scan(g, p).token_type
            == TokenType::Error {
            seq![scan(g, p)]
        } else {
            Seq::<TokenView>::empty()
        },
{
    lemma_scan_bounds(g, p);
    let n = scan_end(g, p);
    if p < n {
        assert(reaches(g, n, n));
        assert(reaches(g, p, n));
        lemma_reaches_trans(g, 0, p, n);
        lemma_errors_split(g, 0, p, n);
        assert(errors_until(g, n, n) =~= Seq::<TokenView>::empty());
        assert(errors_until(g, p, n) =~= if scan(g, p).token_type == TokenType::Error {
            seq![scan(g, p)]
        } else {
            Seq::<TokenView>::empty()
        });
    } else {
        assert(errors_until(g, 0, n) =~= errors_until(g, 0, p) + Seq::<TokenView>::empty());
    }
}

pub open spec fn token_views(ts: Seq<Token>) -> Seq<TokenView> {
    ts.map_values(|t: Token| t@)
}

/// The error raised when a factor cannot start with a token of kind `k`.
pub open spec fn unexpected_message(k: TokenType) -> Seq<char> {
    "Error, unexpected token: '"@ + k.spec_name() + "'."@
}

pub open spec fn missing_paren_message() -> Seq<char> {
    "Expect ')' after grouping expression."@
}

/// The tokens left after consuming the first one; the final `Eof` stays.
pub open spec fn consumed(ts: Seq<TokenView>) -> Seq<TokenView> {
    if is_kind(ts, TokenType::Eof) {
        ts
    } else {
        ts.drop_first()
    }
}

/// A parse of a prefix of `ts`: the tree and the tokens left over, or an error message.
pub type Parsed = Result<(Expr, Seq<TokenView>), Seq<char>>;

pub open spec fn is_kind(ts: Seq<TokenView>, k: TokenType) -> bool {
    ts.len() > 0 && ts[0].token_type == k
}

/// `sum := term (('+' | '-') term)*`
pub open spec fn parse_sum_spec(ts: Seq<TokenView>) -> Parsed
    decreases ts.len(), 3nat,
{
    match parse_term_spec(ts) {
        Ok((n, r)) => if r.len() < ts.len() {
            sum_rest_spec(n, r)
        } else {
            Ok((n, r))
        },
        Err(m) => Err(m),
    }
}

/// The `(('+' | '-') term)*` tail of a sum whose left part is `left`.
pub open spec fn sum_rest_spec(left: Expr, ts: Seq<TokenView>) -> Parsed
    decreases ts.len(), 0nat,
{
    if is_kind(ts, TokenType::Plus) || is_kind(ts, TokenType::Minus) {
        let op = if ts[0].token_type == TokenType::Plus {
            Op::Add
        } else {
            Op::Subtract
        };
        match parse_term_spec(ts.drop_first()) {
            Ok((right, r)) => {
                let node = Expr::Binary {
                    left: Box::new(left),
                    op,
                    right: Box::new(right),
                    start: left.start(),
                    end: right.end(),
                };
                if r.len() < ts.len() {
                    sum_rest_spec(node, r)
                } else {
                    Ok((node, r))
                }
            },
            Err(m) => Err(m),
        }
    } else {
        Ok((left, ts))
    }
}

/// `term := factor (('*' | '/') factor)*`
pub open spec fn parse_term_spec(ts: Seq<TokenView>) -> Parsed
    decreases ts.len(), 2nat,
{
    match parse_factor_spec(ts) {
        Ok((n, r)) => if r.len() < ts.len() {
            term_rest_spec(n, r)
        } else {
            Ok((n, r))
        },
        Err(m) => Err(m),
    }
}

/// The `(('*' | '/') factor)*` tail of a term whose left part is `left`.
pub open spec fn term_rest_spec(left: Expr, ts: Seq<TokenView>) -> Parsed
    decreases ts.len(), 0nat,
{
    if is_kind(ts, TokenType::Star) || is_kind(ts, TokenType::Slash) {
        let op = if ts[0].token_type == TokenType::Star {
            Op::Multiply
        } else {
            Op::Divide
        };
        match parse_factor_spec(ts.drop_first()) {
            Ok((right, r)) => {
                let node = Expr::Binary {
                    left: Box::new(left),
                    op,
                    right: Box::new(right),
                    start: left.start(),
                    end: right.end(),
                };
                if r.len() < ts.len() {
                    term_rest_spec(node, r)
                } else {
                    Ok((node, r))
                }
            },
            Err(m) => Err(m),
        }
    } else {
        Ok((left, ts))
    }
}

/// `factor := NUMBER | TRUE | FALSE | '(' sum ')' | '-' factor`
pub open spec fn parse_factor_spec(ts: Seq<TokenView>) -> Parsed
    decreases ts.len(), 1nat,
{
    if ts.len() == 0 {
        Err(unexpected_message(TokenType::Eof))
    } else {
        let t = ts[0];
        match t.token_type {
            TokenType::Number => Ok(
                (Expr::Number { digits: t.value, start: t.start, end: t.end }, ts.drop_first()),
            ),
            TokenType::True => Ok(
                (Expr::Bool { value: true, start: t.start, end: t.end }, ts.drop_first()),
            ),
            TokenType::False => Ok(
                (Expr::Bool { value: false, start: t.start, end: t.end }, ts.drop_first()),
            ),
            TokenType::LeftParen => match parse_sum_spec(ts.drop_first()) {
                Ok((inner, r)) => if is_kind(r, TokenType::RightParen) {
                    Ok(
                        (
                            Expr::Paren { inner: Box::new(inner), start: t.start, end: r[0].end },
                            r.drop_first(),
                        ),
                    )
                } else {
                    Err(missing_paren_message())
                },
                Err(m) => Err(m),
            },
            TokenType::Minus => match parse_factor_spec(ts.drop_first()) {
                Ok((arg, r)) => Ok(
                    (
                        Expr::Unary { op: Op::Subtract, arg: Box::new(arg), start: t.start, end: arg.end() },
                        r,
                    ),
                ),
                Err(m) => Err(m),
            },
            _ => Err(unexpected_message(t.token_type)),
        }
    }
}

/// Kinds that form a whole factor on their own.
pub open spec fn is_literal_kind(k: TokenType) -> bool {
    k == TokenType::Number || k == TokenType::True || k == TokenType::False
}

/// Kinds a factor can start with.
pub open spec fn starts_factor(k: TokenType) -> bool {
    is_literal_kind(k) || k == TokenType::LeftParen || k == TokenType::Minus
}

/// The expression a source of clusters `g` parses to, or the parse error.
pub open spec fn parse_source(g: Seq<Seq<char>>) -> Result<Expr, Seq<char>> {
    match parse_sum_spec(tokens_from(g, 0)) {
        Ok((e, _)) => Ok(e),
        Err(m) => Err(m),
    }
}

/// Every composite node's span is computed from its parts: a binary node
/// runs from its left operand's start to its right operand's end, and a unary
/// node ends where its operand ends.
pub open spec fn spans_composed(e: Expr) -> bool
    decreases e,
{
    match e {
        Expr::Binary { left, right, start, end, .. } => start == left.start() && end
            == right.end() && spans_composed(*left) && spans_composed(*right),
        Expr::Unary { arg, end, .. } => end == arg.end() && spans_composed(*arg),
        Expr::Paren { inner, .. } => spans_composed(*inner),
        _ => true,
    }
}

/// Every tree a sum parses to has composed spans.
pub proof fn lemma_sum_spans(ts: Seq<TokenView>)
    ensures
        parse_sum_spec(ts) is Ok ==> spans_composed(parse_sum_spec(ts)->Ok_0.0),
    decreases ts.len(), 3nat,
{
    lemma_term_spans(ts);
    if let Ok((n, r)) = parse_term_spec(ts) {
        if r.len() < ts.len() {
            lemma_sum_rest_spans(n, r);
        }
    }
}

proof fn lemma_sum_rest_spans(left: Expr, ts: Seq<TokenView>)
    requires
        spans_composed(left),
    ensures
        sum_rest_spec(left, ts) is Ok ==> spans_composed(sum_rest_spec(left, ts)->Ok_0.0),
    decreases ts.len(), 0nat,
{
    if is_kind(ts, TokenType::Plus) || is_kind(ts, TokenType::Minus) {
        lemma_term_spans(ts.drop_first());
        if let Ok((right, r)) = parse_term_spec(ts.drop_first()) {
            let op = if ts[0].token_type == TokenType::Plus {
                Op::Add
            } else {
                Op::Subtract
            };
            let node = Expr::Binary {
                left: Box::new(left),
                op,
                right: Box::new(right),
                start: left.start(),
                end: right.end(),
            };
            if r.len() < ts.len() {
                lemma_sum_rest_spans(node, r);
            }
        }
    }
}

/// Every tree a term parses to has composed spans.
pub proof fn lemma_term_spans(ts: Seq<TokenView>)
    ensures
        parse_term_spec(ts) is Ok ==> spans_composed(parse_term_spec(ts)->Ok_0.0),
    decreases ts.len(), 2nat,
{
    lemma_factor_spans(ts);
    if let Ok((n, r)) = parse_factor_spec(ts) {
        if r.len() < ts.len() {
            lemma_term_rest_spans(n, r);
        }
    }
}

proof fn lemma_term_rest_spans(left: Expr, ts: Seq<TokenView>)
    requires
        spans_composed(left),
    ensures
        term_rest_spec(left, ts) is Ok ==> spans_composed(term_rest_spec(left, ts)->Ok_0.0),
    decreases ts.len(), 0nat,
{
    if is_kind(ts, TokenType::Star) || is_kind(ts, TokenType::Slash) {
        lemma_factor_spans(ts.drop_first());
        if let Ok((right, r)) = parse_factor_spec(ts.drop_first()) {
            let op = if ts[0].token_type == TokenType::Star {
                Op::Multiply
            } else {
                Op::Divide
            };
            let node = Expr::Binary {
                left: Box::new(left),
                op,
                right: Box::new(right),
                start: left.start(),
                end: right.end(),
            };
            if r.len() < ts.len() {
                lemma_term_rest_spans(node, r);
            }
        }
    }
}

/// Every tree a factor parses to has composed spans.
pub proof fn lemma_factor_spans(ts: Seq<TokenView>)
    ensures
        parse_factor_spec(ts) is Ok ==> spans_composed(parse_factor_spec(ts)->Ok_0.0),
    decreases ts.len(), 1nat,
{
    if ts.len() > 0 {
        if ts[0].token_type == TokenType::LeftParen {
            lemma_sum_spans(ts.drop_first());
        } else if ts[0].token_type == TokenType::Minus {
            lemma_factor_spans(ts.drop_first());
        }
    }
}

/// Whatever a source parses to has composed spans.
pub proof fn lemma_parse_source_spans(g: Seq<Seq<char>>)
    ensures
        parse_source(g) is Ok ==> spans_composed(parse_source(g)->Ok_0),
{
    lemma_sum_spans(tokens_from(g, 0));
}

/// The tokens lie in `[lo, hi]`, each span ordered, each token ending where
/// or before the next one starts.
pub open spec fn ordered_from(ts: Seq<TokenView>, lo: int, hi: int) -> bool
    decreases ts.len(),
{
    ts.len() == 0 || (lo <= ts[0].start <= ts[0].end <= hi && ordered_from(
        ts.drop_first(),
        ts[0].end,
        hi,
    ))
}

/// Every node's span is ordered: its start is at most its end.
pub open spec fn spans_ordered(e: Expr) -> bool
    decreases e,
{
    e.start() <= e.end() && match e {
        Expr::Binary { left, right, .. } => spans_ordered(*left) && spans_ordered(*right),
        Expr::Unary { arg, .. } => spans_ordered(*arg),
        Expr::Paren { inner, .. } => spans_ordered(*inner),
        _ => true,
    }
}

/// What holds of a successful parse of an ordered stream bounded by `[lo, hi]`.
pub open spec fn parsed_within(p: Parsed, lo: int, hi: int) -> bool {
    p is Ok ==> {
        let (e, r) = p->Ok_0;
        &&& lo <= e.start()
        &&& e.end() <= hi
        &&& spans_ordered(e)
        &&& ordered_from(r, e.end(), hi)
    }
}

proof fn lemma_tokens_ordered(g: Seq<Seq<char>>, pos: int)
    requires
        0 <= pos <= g.len(),
    ensures
        ordered_from(tokens_from(g, pos), pos, g.len() as int),
    decreases g.len() - pos,
{
    lemma_scan_bounds(g, pos);
    let t = scan(g, pos);
    let e = scan_end(g, pos);
    if t.token_type == TokenType::Eof {
        assert(seq![t].drop_first() =~= Seq::<TokenView>::empty());
        assert(ordered_from(Seq::<TokenView>::empty(), t.end, g.len() as int));
    } else if t.token_type == TokenType::Error {
        lemma_tokens_ordered(g, e);
        let ts = tokens_from(g, e);
        if ts.len() > 0 {
            assert(ordered_from(ts.drop_first(), ts[0].end, g.len() as int));
        }
    } else {
        lemma_tokens_ordered(g, e);
        assert((seq![t] + tokens_from(g, e)).drop_first() =~= tokens_from(g, e));
    }
}

proof fn lemma_sum_ordered(ts: Seq<TokenView>, lo: int, hi: int)
    requires
        ordered_from(ts, lo, hi),
    ensures
        parsed_within(parse_sum_spec(ts), lo, hi),
    decreases ts.len(), 3nat,
{
    lemma_term_ordered(ts, lo, hi);
    if let Ok((n, r)) = parse_term_spec(ts) {
        if r.len() < ts.len() {
            lemma_sum_rest_ordered(n, r, lo, hi);
        }
    }
}

proof fn lemma_sum_rest_ordered(left: Expr, ts: Seq<TokenView>, lo: int, hi: int)
    requires
        ordered_from(ts, left.end(), hi),
        lo <= left.start(),
        left.end() <= hi,
        spans_ordered(left),
    ensures
        parsed_within(sum_rest_spec(left, ts), lo, hi),
    decreases ts.len(), 0nat,
{
    if is_kind(ts, TokenType::Plus) || is_kind(ts, TokenType::Minus) {
        lemma_term_ordered(ts.drop_first(), ts[0].end, hi);
        if let Ok((right, r)) = parse_term_spec(ts.drop_first()) {
            let op = if ts[0].token_type == TokenType::Plus {
                Op::Add
            } else {
                Op::Subtract
            };
            let node = Expr::Binary {
                left: Box::new(left),
                op,
                right: Box::new(right),
                start: left.start(),
                end: right.end(),
            };
            if r.len() < ts.len() {
                lemma_sum_rest_ordered(node, r, lo, hi);
            }
        }
    }
}

proof fn lemma_term_ordered(ts: Seq<TokenView>, lo: int, hi: int)
    requires
        ordered_from(ts, lo, hi),
    ensures
        parsed_within(parse_term_spec(ts), lo, hi),
    decreases ts.len(), 2nat,
{
    lemma_factor_ordered(ts, lo, hi);
    if let Ok((n, r)) = parse_factor_spec(ts) {
        if r.len() < ts.len() {
            lemma_term_rest_ordered(n, r, lo, hi);
        }
    }
}

proof fn lemma_term_rest_ordered(left: Expr, ts: Seq<TokenView>, lo: int, hi: int)
    requires
        ordered_from(ts, left.end(), hi),
        lo <= left.start(),
        left.end() <= hi,
        spans_ordered(left),
    ensures
        parsed_within(term_rest_spec(left, ts), lo, hi),
    decreases ts.len(), 0nat,
{
    if is_kind(ts, TokenType::Star) || is_kind(ts, TokenType::Slash) {
        lemma_factor_ordered(ts.drop_first(), ts[0].end, hi);
        if let Ok((right, r)) = parse_factor_spec(ts.drop_first()) {
            let op = if ts[0].token_type == TokenType::Star {
                Op::Multiply
            } else {
                Op::Divide
            };
            let node = Expr::Binary {
                left: Box::new(left),
                op,
                right: Box::new(right),
                start: left.start(),
                end: right.end(),
            };
            if r.len() < ts.len() {
                lemma_term_rest_ordered(node, r, lo, hi);
            }
        }
    }
}

proof fn lemma_factor_ordered(ts: Seq<TokenView>, lo: int, hi: int)
    requires
        ordered_from(ts, lo, hi),
    ensures
        parsed_within(parse_factor_spec(ts), lo, hi),
    decreases ts.len(), 1nat,
{
    if ts.len() > 0 {
        if ts[0].token_type == TokenType::LeftParen {
            lemma_sum_ordered(ts.drop_first(), ts[0].end, hi);
            if let Ok((inner, r)) = parse_sum_spec(ts.drop_first()) {
                if is_kind(r, TokenType::RightParen) {
                    assert(ordered_from(r.drop_first(), r[0].end, hi));
                }
            }
        } else if ts[0].token_type == TokenType::Minus {
            lemma_factor_ordered(ts.drop_first(), ts[0].end, hi);
        }
    }
}

/// Every span in whatever a source parses to is ordered and lies within the
/// source: `0 <= start <= end <= length`.
pub proof fn lemma_parse_source_ordered(g: Seq<Seq<char>>)
    ensures
        parse_source(g) is Ok ==> {
            let e = parse_source(g)->Ok_0;
            0 <= e.start() && e.end() <= g.len() && spans_ordered(e)
        },
{
    lemma_tokens_ordered(g, 0);
    lemma_sum_ordered(tokens_from(g, 0), 0, g.len() as int);
}

pub open spec fn is_additive_node(e: Expr) -> bool {
    e is Binary && (e->Binary_op == Op::Add || e->Binary_op == Op::Subtract)
}

/// The shape the grammar gives trees: chains of `+`/`-` and of `*`/`/` nest
/// to the left (a right operand is never a node of its own level), a product
/// never has a sum as an operand, and unary minus takes a single factor.
/// Only parentheses reset the levels.
pub open spec fn well_grouped(e: Expr) -> bool
    decreases e,
{
    match e {
        Expr::Binary { left, op, right, .. } => well_grouped(*left) && well_grouped(*right) && if op
            == Op::Add || op == Op::Subtract {
            !is_additive_node(*right)
        } else {
            !is_additive_node(*left) && !(*right is Binary)
        },
        Expr::Unary { arg, .. } => well_grouped(*arg) && !(*arg is Binary),
        Expr::Paren { inner, .. } => well_grouped(*inner),
        _ => true,
    }
}

proof fn lemma_sum_grouped(ts: Seq<TokenView>)
    ensures
        parse_sum_spec(ts) is Ok ==> well_grouped(parse_sum_spec(ts)->Ok_0.0),
    decreases ts.len(), 3nat,
{
    lemma_term_grouped(ts);
    if let Ok((n, r)) = parse_term_spec(ts) {
        if r.len() < ts.len() {
            lemma_sum_rest_grouped(n, r);
        }
    }
}

proof fn lemma_sum_rest_grouped(left: Expr, ts: Seq<TokenView>)
    requires
        well_grouped(left),
    ensures
        sum_rest_spec(left, ts) is Ok ==> well_grouped(sum_rest_spec(left, ts)->Ok_0.0),
    decreases ts.len(), 0nat,
{
    if is_kind(ts, TokenType::Plus) || is_kind(ts, TokenType::Minus) {
        lemma_term_grouped(ts.drop_first());
        if let Ok((right, r)) = parse_term_spec(ts.drop_first()) {
            let op = if ts[0].token_type == TokenType::Plus {
                Op::Add
            } else {
                Op::Subtract
            };
            let node = Expr::Binary {
                left: Box::new(left),
                op,
                right: Box::new(right),
                start: left.start(),
                end: right.end(),
            };
            if r.len() < ts.len() {
                lemma_sum_rest_grouped(node, r);
            }
        }
    }
}

proof fn lemma_term_grouped(ts: Seq<TokenView>)
    ensures
        parse_term_spec(ts) is Ok ==> well_grouped(parse_term_spec(ts)->Ok_0.0)
            && !is_additive_node(parse_term_spec(ts)->Ok_0.0),
    decreases ts.len(), 2nat,
{
    lemma_factor_grouped(ts);
    if let Ok((n, r)) = parse_factor_spec(ts) {
        if r.len() < ts.len() {
            lemma_term_rest_grouped(n, r);
        }
    }
}

proof fn lemma_term_rest_grouped(left: Expr, ts: Seq<TokenView>)
    requires
        well_grouped(left),
        !is_additive_node(left),
    ensures
        term_rest_spec(left, ts) is Ok ==> well_grouped(term_rest_spec(left, ts)->Ok_0.0)
            && !is_additive_node(term_rest_spec(left, ts)->Ok_0.0),
    decreases ts.len(), 0nat,
{
    if is_kind(ts, TokenType::Star) || is_kind(ts, TokenType::Slash) {
        lemma_factor_grouped(ts.drop_first());
        if let Ok((right, r)) = parse_factor_spec(ts.drop_first()) {
            let op = if ts[0].token_type == TokenType::Star {
                Op::Multiply
            } else {
                Op::Divide
            };
            let node = Expr::Binary {
                left: Box::new(left),
                op,
                right: Box::new(right),
                start: left.start(),
                end: right.end(),
            };
            if r.len() < ts.len() {
                lemma_term_rest_grouped(node, r);
            }
        }
    }
}

proof fn lemma_factor_grouped(ts: Seq<TokenView>)
    ensures
        parse_factor_spec(ts) is Ok ==> well_grouped(parse_factor_spec(ts)->Ok_0.0)
            && !(parse_factor_spec(ts)->Ok_0.0 is Binary),
    decreases ts.len(), 1nat,
{
    if ts.len() > 0 {
        if ts[0].token_type == TokenType::LeftParen {
            lemma_sum_grouped(ts.drop_first());
        } else if ts[0].token_type == TokenType::Minus {
            lemma_factor_grouped(ts.drop_first());
        }
    }
}

/// Whatever a source parses to is well grouped: every chain of `+`/`-` and
/// of `*`/`/` nests to the left, and unary minus binds a single factor.
pub proof fn lemma_parse_source_grouped(g: Seq<Seq<char>>)
    ensures
        parse_source(g) is Ok ==> well_grouped(parse_source(g)->Ok_0),
{
    lemma_sum_grouped(tokens_from(g, 0));
}

/// A parenthesised factor spans from the start of `(` to the end of the
/// matching `)`; when both delimiters are one position wide and touch the
/// inner expression, it is exactly two positions wider than that expression.
pub proof fn lemma_paren_width(ts: Seq<TokenView>)
    requires
        ts.len() > 0,
        ts[0].token_type == TokenType::LeftParen,
        parse_factor_spec(ts) is Ok,
    ensures
        ({
            let inner = parse_sum_spec(ts.drop_first())->Ok_0.0;
            let close = parse_sum_spec(ts.drop_first())->Ok_0.1[0];
            let e = parse_factor_spec(ts)->Ok_0.0;
            &&& parse_sum_spec(ts.drop_first()) is Ok
            &&& close.token_type == TokenType::RightParen
            &&& e == Expr::Paren { inner: Box::new(inner), start: ts[0].start, end: close.end }
            &&& (ts[0].end == ts[0].start + 1 && inner.start() == ts[0].end && close.start
                == inner.end() && close.end == close.start + 1) ==> e.end() - e.start() == (
            inner.end() - inner.start()) + 2
        }),
{
}

/// The leaf a number token parses to.
pub open spec fn number_leaf(t: TokenView) -> Expr {
    Expr::Number { digits: t.value, start: t.start, end: t.end }
}

pub open spec fn additive_op(k: TokenType) -> Op {
    if k == TokenType::Plus {
        Op::Add
    } else {
        Op::Subtract
    }
}

pub open spec fn multiplicative_op(k: TokenType) -> Op {
    if k == TokenType::Star {
        Op::Multiply
    } else {
        Op::Divide
    }
}

pub open spec fn binary_leaf(left: Expr, op: Op, right: Expr) -> Expr {
    Expr::Binary {
        left: Box::new(left),
        op,
        right: Box::new(right),
        start: left.start(),
        end: right.end(),
    }
}

pub open spec fn is_additive(k: TokenType) -> bool {
    k == TokenType::Plus || k == TokenType::Minus
}

pub open spec fn is_multiplicative(k: TokenType) -> bool {
    k == TokenType::Star || k == TokenType::Slash
}

/// `a ± b ± c` groups as `(a ± b) ± c`, when the chain ends there.
pub proof fn lemma_sum_left_assoc(ts: Seq<TokenView>)
    requires
        ts.len() >= 6,
        ts[0].token_type == TokenType::Number,
        is_additive(ts[1].token_type),
        ts[2].token_type == TokenType::Number,
        is_additive(ts[3].token_type),
        ts[4].token_type == TokenType::Number,
        !is_additive(ts[5].token_type),
        !is_multiplicative(ts[5].token_type),
    ensures
        parse_sum_spec(ts) == Ok::<(Expr, Seq<TokenView>), Seq<char>>(
            (
                binary_leaf(
                    binary_leaf(number_leaf(ts[0]), additive_op(ts[1].token_type), number_leaf(ts[2])),
                    additive_op(ts[3].token_type),
                    number_leaf(ts[4]),
                ),
                ts.subrange(5, ts.len() as int),
            ),
        ),
{
    let t1 = ts.drop_first();
    let t2 = t1.drop_first();
    let t3 = t2.drop_first();
    let t4 = t3.drop_first();
    let t5 = t4.drop_first();
    assert(t5 =~= ts.subrange(5, ts.len() as int));
    let n0 = number_leaf(ts[0]);
    let b1 = binary_leaf(n0, additive_op(ts[1].token_type), number_leaf(ts[2]));
    let b2 = binary_leaf(b1, additive_op(ts[3].token_type), number_leaf(ts[4]));
    assert(parse_factor_spec(ts) == Ok::<(Expr, Seq<TokenView>), Seq<char>>((n0, t1)));
    assert(term_rest_spec(n0, t1) == Ok::<(Expr, Seq<TokenView>), Seq<char>>((n0, t1)));
    assert(parse_term_spec(ts) == Ok::<(Expr, Seq<TokenView>), Seq<char>>((n0, t1)));
    assert(parse_factor_spec(t2) == Ok::<(Expr, Seq<TokenView>), Seq<char>>((number_leaf(ts[2]), t3)));
    assert(term_rest_spec(number_leaf(ts[2]), t3) == Ok::<(Expr, Seq<TokenView>), Seq<char>>((number_leaf(ts[2]), t3)));
    assert(parse_term_spec(t2) == Ok::<(Expr, Seq<TokenView>), Seq<char>>((number_leaf(ts[2]), t3)));
    assert(parse_factor_spec(t4) == Ok::<(Expr, Seq<TokenView>), Seq<char>>((number_leaf(ts[4]), t5)));
    assert(term_rest_spec(number_leaf(ts[4]), t5) == Ok::<(Expr, Seq<TokenView>), Seq<char>>((number_leaf(ts[4]), t5)));
    assert(parse_term_spec(t4) == Ok::<(Expr, Seq<TokenView>), Seq<char>>((number_leaf(ts[4]), t5)));
    assert(sum_rest_spec(b2, t5) == Ok::<(Expr, Seq<TokenView>), Seq<char>>((b2, t5)));
    assert(sum_rest_spec(b1, t3) == Ok::<(Expr, Seq<TokenView>), Seq<char>>((b2, t5)));
    assert(sum_rest_spec(n0, t1) == Ok::<(Expr, Seq<TokenView>), Seq<char>>((b2, t5)));
}

/// `a × b × c` (each `×` a `*` or `/`) groups as `(a × b) × c`, when the chain ends there.
pub proof fn lemma_term_left_assoc(ts: Seq<TokenView>)
    requires
        ts.len() >= 6,
        ts[0].token_type == TokenType::Number,
        is_multiplicative(ts[1].token_type),
        ts[2].token_type == TokenType::Number,
        is_multiplicative(ts[3].token_type),
        ts[4].token_type == TokenType::Number,
        !is_multiplicative(ts[5].token_type),
    ensures
        parse_term_spec(ts) == Ok::<(Expr, Seq<TokenView>), Seq<char>>(
            (
                binary_leaf(
                    binary_leaf(
                        number_leaf(ts[0]),
                        multiplicative_op(ts[1].token_type),
                        number_leaf(ts[2]),
                    ),
                    multiplicative_op(ts[3].token_type),
                    number_leaf(ts[4]),
                ),
                ts.subrange(5, ts.len() as int),
            ),
        ),
{
    let t1 = ts.drop_first();
    let t2 = t1.drop_first();
    let t3 = t2.drop_first();
    let t4 = t3.drop_first();
    let t5 = t4.drop_first();
    assert(t5 =~= ts.subrange(5, ts.len() as int));
    let n0 = number_leaf(ts[0]);
    let b1 = binary_leaf(n0, multiplicative_op(ts[1].token_type), number_leaf(ts[2]));
    let b2 = binary_leaf(b1, multiplicative_op(ts[3].token_type), number_leaf(ts[4]));
    assert(parse_factor_spec(ts) == Ok::<(Expr, Seq<TokenView>), Seq<char>>((n0, t1)));
    assert(parse_factor_spec(t2) == Ok::<(Expr, Seq<TokenView>), Seq<char>>((number_leaf(ts[2]), t3)));
    assert(parse_factor_spec(t4) == Ok::<(Expr, Seq<TokenView>), Seq<char>>((number_leaf(ts[4]), t5)));
    assert(term_rest_spec(b2, t5) == Ok::<(Expr, Seq<TokenView>), Seq<char>>((b2, t5)));
    assert(term_rest_spec(b1, t3) == Ok::<(Expr, Seq<TokenView>), Seq<char>>((b2, t5)));
    assert(term_rest_spec(n0, t1) == Ok::<(Expr, Seq<TokenView>), Seq<char>>((b2, t5)));
}

/// `-a ± b` groups as `(-a) ± b`: unary minus binds tighter than a sum.
pub proof fn lemma_unary_binds_to_factor(ts: Seq<TokenView>)
    requires
        ts.len() >= 5,
        ts[0].token_type == TokenType::Minus,
        ts[1].token_type == TokenType::Number,
        is_additive(ts[2].token_type),
        ts[3].token_type == TokenType::Number,
        !is_additive(ts[4].token_type),
        !is_multiplicative(ts[4].token_type),
    ensures
        parse_sum_spec(ts) == Ok::<(Expr, Seq<TokenView>), Seq<char>>(
            (
                binary_leaf(
                    Expr::Unary {
                        op: Op::Subtract,
                        arg: Box::new(number_leaf(ts[1])),
                        start: ts[0].start,
                        end: ts[1].end,
                    },
                    additive_op(ts[2].token_type),
                    number_leaf(ts[3]),
                ),
                ts.subrange(4, ts.len() as int),
            ),
        ),
{
    let t1 = ts.drop_first();
    let t2 = t1.drop_first();
    let t3 = t2.drop_first();
    let t4 = t3.drop_first();
    assert(t4 =~= ts.subrange(4, ts.len() as int));
    let n1 = number_leaf(ts[1]);
    let u = Expr::Unary { op: Op::Subtract, arg: Box::new(n1), start: ts[0].start, end: ts[1].end };
    let b = binary_leaf(u, additive_op(ts[2].token_type), number_leaf(ts[3]));
    assert(parse_factor_spec(t1) == Ok::<(Expr, Seq<TokenView>), Seq<char>>((n1, t2)));
    assert(parse_factor_spec(ts) == Ok::<(Expr, Seq<TokenView>), Seq<char>>((u, t2)));
    assert(term_rest_spec(u, t2) == Ok::<(Expr, Seq<TokenView>), Seq<char>>((u, t2)));
    assert(parse_term_spec(ts) == Ok::<(Expr, Seq<TokenView>), Seq<char>>((u, t2)));
    assert(parse_factor_spec(t3) == Ok::<(Expr, Seq<TokenView>), Seq<char>>((number_leaf(ts[3]), t4)));
    assert(term_rest_spec(number_leaf(ts[3]), t4) == Ok::<(Expr, Seq<TokenView>), Seq<char>>((number_leaf(ts[3]), t4)));
    assert(parse_term_spec(t3) == Ok::<(Expr, Seq<TokenView>), Seq<char>>((number_leaf(ts[3]), t4)));
    assert(sum_rest_spec(b, t4) == Ok::<(Expr, Seq<TokenView>), Seq<char>>((b, t4)));
    assert(sum_rest_spec(u, t2) == Ok::<(Expr, Seq<TokenView>), Seq<char>>((b, t4)));
}

/// A fatal parse error, with its message.
#[derive(Debug)]
pub struct ParserError(pub String);

/// Whether an executable parse result agrees with a parse of the model.
pub open spec fn agrees(r: Result<ASTNode, ParserError>, rest: Seq<TokenView>, p: Parsed) -> bool {
    match r {
        Ok(n) => p is Ok && p->Ok_0.0 == n@ && p->Ok_0.1 == rest,
        Err(e) => p is Err && p->Err_0 == e.0@,
    }
}

pub struct Parser {
    pub scanner: Scanner,
    pub previous: Option<Token>,
    pub current: Option<Token>,
    /// The lexical errors met so far, in order.
    pub diagnostics: Vec<Token>,
}

impl Parser {
    pub open spec fn source_view(&self) -> Seq<Seq<char>> {
        self.scanner.source@
    }

    /// The scanner stands on the scan chain from the start, and the
    /// diagnostics are exactly the lexical errors met along it so far.
    pub open spec fn wf(&self) -> bool {
        &&& self.scanner.wf()
        &&& reaches(self.source_view(), 0, self.scanner.current as int)
        &&& token_views(self.diagnostics@) == errors_until(
            self.source_view(),
            0,
            self.scanner.current as int,
        )
        &&& match self.current {
            Some(t) => t.token_type != TokenType::Error && (t.token_type == TokenType::Eof ==> (
            self.scanner.current == self.source_view().len() && t@ == scan(
                self.source_view(),
                self.scanner.current as int,
            ))),
            None => true,
        }
    }

    /// The tokens not yet consumed, the current one first.
    pub open spec fn pending(&self) -> Seq<TokenView> {
        let rest = tokens_from(self.source_view(), self.scanner.current as int);
        match self.current {
            None => rest,
            Some(t) => if t.token_type == TokenType::Eof {
                seq![t@]
            } else {
                seq![t@] + rest
            },
        }
    }

    pub fn new(source: Rc<Source>) -> (r: Parser)
        ensures
            r.wf(),
            r.current is None,
            r.source_view() == source@,
            r.pending() == tokens_from(source@, 0),
            r.diagnostics@.len() == 0,
            r.previous is None,
            r.scanner.current == 0,
            r.scanner.previous == 0,
    {
        let r = Parser {
            scanner: Scanner::new(source),
            previous: None,
            current: None,
            diagnostics: Vec::new(),
        };
        assert(token_views(r.diagnostics@) =~= errors_until(source@, 0, 0));
        r
    }

    /// Parses one sum from the start of the source.
    pub fn parse(&mut self) -> (r: Result<AST, ParserError>)
        requires
            old(self).wf(),
            old(self).current is None,
        ensures
            match r {
                Ok(ast) => ast.items@.len() == 1 && parse_sum_spec(old(self).pending()) is Ok
                    && parse_sum_spec(old(self).pending())->Ok_0.0 == ast.items@[0]@,
                Err(e) => parse_sum_spec(old(self).pending()) == Err::<(Expr, Seq<TokenView>), _>(
                    e.0@,
                ),
            },
            final(self).wf(),
            final(self).source_view() == old(self).source_view(),
            token_views(final(self).diagnostics@) == errors_until(
                final(self).source_view(),
                0,
                final(self).scanner.current as int,
            ),
    {
        self.advance();
        match self.expression() {
            Ok(node) => Ok(AST::new(vec![node])),
            Err(e) => Err(e),
        }
    }

    /// Moves to the next token that is not a lexical error.
    fn advance(&mut self)
        requires
            old(self).wf(),
        ensures
            final(self).wf(),
            final(self).current is Some,
            final(self).source_view() == old(self).source_view(),
            final(self).pending() == if old(self).current is None {
                old(self).pending()
            } else {
                consumed(old(self).pending())
            },
            old(self).current is Some && old(self).current->Some_0.token_type == TokenType::Eof
                ==> final(self).current->Some_0@ == old(self).current->Some_0@,
            token_views(final(self).diagnostics@) == token_views(old(self).diagnostics@)
                + skipped_errors(old(self).source_view(), old(self).scanner.current as int),
            final(self).previous == old(self).current,
    {
        let ghost g = self.source_view();
        let ghost seen = token_views(self.diagnostics@) + skipped_errors(
            g,
            self.scanner.current as int,
        );
        let ghost target = tokens_from(g, self.scanner.current as int);
        proof {
            lemma_scan_bounds(g, self.scanner.current as int);
            if old(self).current is Some {
                if old(self).current->Some_0.token_type == TokenType::Eof {
                    assert(old(self).pending() =~= target);
                } else {
                    assert(old(self).pending().drop_first() =~= target);
                }
            }
        }
        self.previous = self.current.take();
        loop
            invariant_except_break
                self.current is None,
                tokens_from(g, self.scanner.current as int) == target,
                seen == token_views(self.diagnostics@) + skipped_errors(
                    g,
                    self.scanner.current as int,
                ),
            invariant
                self.scanner.wf(),
                self.source_view() == g,
                self.previous == old(self).current,
                old(self).current is Some && old(self).current->Some_0.token_type == TokenType::Eof
                    ==> target == seq![old(self).current->Some_0@],
                reaches(g, 0, self.scanner.current as int),
                token_views(self.diagnostics@) == errors_until(g, 0, self.scanner.current as int),
            ensures
                seen == token_views(self.diagnostics@),
                self.previous == old(self).current,
                self.wf(),
                self.source_view() == g,
                self.current is Some,
                self.pending() == target,
            decreases g.len() - self.scanner.current,
        {
            proof {
                lemma_scan_bounds(g, self.scanner.current as int);
                lemma_errors_step(g, self.scanner.current as int);
            }
            let token = self.scanner.scan_token();
            if token.token_type != TokenType::Error {
                self.current = Some(token);
                proof {
                    if token.token_type != TokenType::Eof {
                        assert(self.pending() =~= target);
                    } else {
                        assert(skip_ws(g, self.scanner.current as int) == g.len());
                        assert(token@.value =~= scan(g, self.scanner.current as int).value);
                    }
                    assert(seen =~= token_views(self.diagnostics@));
                }
                break;
            }
            let ghost before = self.diagnostics@;
            self.diagnostics.push(token);
            proof {
                assert(token_views(self.diagnostics@) =~= token_views(before).push(token@));
                assert(token_views(self.diagnostics@) =~= token_views(before) + seq![token@]);
                assert(seen =~= token_views(self.diagnostics@) + skipped_errors(
                    g,
                    self.scanner.current as int,
                ));
            }
        }
        proof {
            assert(self.pending()[0] == self.current->Some_0@);
            assert(target[0] == self.pending()[0]);
        }
    }

    /// Whether the current token has kind `k`.
    fn check(&self, k: TokenType) -> (r: bool)
        requires
            self.current is Some,
        ensures
            r == (self.current->Some_0.token_type == k),
    {
        self.current.as_ref().unwrap().token_type == k
    }

    /// Consumes the current token if it has kind `k`.
    fn match_token(&mut self, k: TokenType) -> (r: bool)
        requires
            old(self).wf(),
            old(self).current is Some,
        ensures
            final(self).wf(),
            final(self).current is Some,
            final(self).source_view() == old(self).source_view(),
            r == is_kind(old(self).pending(), k),
            r ==> final(self).pending() == consumed(old(self).pending()),
            r ==> final(self).previous == old(self).current,
            !r ==> *final(self) == *old(self),
    {
        if !self.check(k) {
            false
        } else {
            self.advance();
            true
        }
    }

    /// Consumes a token of kind `k`, which must be there.
    fn consume(&mut self, k: TokenType, err_msg: &str) -> (r: Result<(), ParserError>)
        requires
            old(self).wf(),
            old(self).current is Some,
        ensures
            final(self).wf(),
            final(self).current is Some,
            final(self).source_view() == old(self).source_view(),
            r is Ok == is_kind(old(self).pending(), k),
            r is Ok ==> final(self).pending() == consumed(old(self).pending()),
            r is Ok ==> final(self).previous == old(self).current,
            r is Err ==> *final(self) == *old(self),
            match r {
                Ok(_) => true,
                Err(e) => e.0@ == err_msg@,
            },
    {
        if self.match_token(k) {
            Ok(())
        } else {
            Err(ParserError(String::from_str(err_msg)))
        }
    }

    fn expression(&mut self) -> (r: Result<ASTNode, ParserError>)
        requires
            old(self).wf(),
            old(self).current is Some,
        ensures
            final(self).wf(),
            final(self).current is Some,
            final(self).source_view() == old(self).source_view(),
            agrees(r, final(self).pending(), parse_sum_spec(old(self).pending())),
    {
        self.parse_sum()
    }

    fn parse_sum(&mut self) -> (r: Result<ASTNode, ParserError>)
        requires
            old(self).wf(),
            old(self).current is Some,
        ensures
            final(self).wf(),
            final(self).current is Some,
            final(self).source_view() == old(self).source_view(),
            agrees(r, final(self).pending(), parse_sum_spec(old(self).pending())),
            r is Ok ==> final(self).pending().len() < old(self).pending().len(),
            r is Ok ==> well_grouped(r->Ok_0@),
        decreases old(self).pending().len(), 3nat,
    {
        proof {
            lemma_sum_grouped(old(self).pending());
        }
        let ghost ts = self.pending();
        let mut node = match self.parse_term() {
            Ok(n) => n,
            Err(e) => return Err(e),
        };
        loop
            invariant
                self.wf(),
                self.current is Some,
                self.source_view() == old(self).source_view(),
                ts == old(self).pending(),
                self.pending().len() < ts.len(),
                parse_sum_spec(ts) == sum_rest_spec(node@, self.pending()),
                parse_sum_spec(ts) is Ok ==> well_grouped(parse_sum_spec(ts)->Ok_0.0),
            decreases self.pending().len(),
        {
            let op = if self.match_token(TokenType::Plus) {
                Op::Add
            } else if self.match_token(TokenType::Minus) {
                Op::Subtract
            } else {
                return Ok(node);
            };
            let right = match self.parse_term() {
                Ok(n) => n,
                Err(e) => return Err(e),
            };
            let span = Span { start: node.position().start, end: right.position().end };
            node = ASTNode::BinaryExpr(Box::new(BinaryExpr { left: node, op, right }), span);
        }
    }

    fn parse_term(&mut self) -> (r: Result<ASTNode, ParserError>)
        requires
            old(self).wf(),
            old(self).current is Some,
        ensures
            final(self).wf(),
            final(self).current is Some,
            final(self).source_view() == old(self).source_view(),
            agrees(r, final(self).pending(), parse_term_spec(old(self).pending())),
            r is Ok ==> final(self).pending().len() < old(self).pending().len(),
            r is Ok ==> well_grouped(r->Ok_0@) && !is_additive_node(r->Ok_0@),
        decreases old(self).pending().len(), 2nat,
    {
        proof {
            lemma_term_grouped(old(self).pending());
        }
        let ghost ts = self.pending();
        let mut node = match self.parse_factor() {
            Ok(n) => n,
            Err(e) => return Err(e),
        };
        loop
            invariant
                self.wf(),
                self.current is Some,
                self.source_view() == old(self).source_view(),
                ts == old(self).pending(),
                self.pending().len() < ts.len(),
                parse_term_spec(ts) == term_rest_spec(node@, self.pending()),
                parse_term_spec(ts) is Ok ==> well_grouped(parse_term_spec(ts)->Ok_0.0)
                    && !is_additive_node(parse_term_spec(ts)->Ok_0.0),
            decreases self.pending().len(),
        {
            let op = if self.match_token(TokenType::Star) {
                Op::Multiply
            } else if self.match_token(TokenType::Slash) {
                Op::Divide
            } else {
                return Ok(node);
            };
            let right = match self.parse_factor() {
                Ok(n) => n,
                Err(e) => return Err(e),
            };
            let span = Span { start: node.position().start, end: right.position().end };
            node = ASTNode::BinaryExpr(Box::new(BinaryExpr { left: node, op, right }), span);
        }
    }

    fn parse_factor(&mut self) -> (r: Result<ASTNode, ParserError>)
        requires
            old(self).wf(),
            old(self).current is Some,
        ensures
            final(self).wf(),
            final(self).current is Some,
            final(self).source_view() == old(self).source_view(),
            agrees(r, final(self).pending(), parse_factor_spec(old(self).pending())),
            r is Ok ==> final(self).pending().len() < old(self).pending().len(),
            r is Ok ==> well_grouped(r->Ok_0@) && !(r->Ok_0@ is Binary),
            is_literal_kind(old(self).current->Some_0.token_type) ==> final(self).previous
                == old(self).current,
            old(self).current->Some_0.token_type == TokenType::LeftParen && r is Ok
                ==> final(self).previous is Some && final(self).previous->Some_0@
                == parse_sum_spec(old(self).pending().drop_first())->Ok_0.1[0],
            !starts_factor(old(self).current->Some_0.token_type) ==> *final(self) == *old(self),
        decreases old(self).pending().len(), 1nat,
    {
        proof {
            lemma_factor_grouped(old(self).pending());
        }
        let ghost ts = self.pending();
        let tok = self.current.as_ref().unwrap();
        let start = tok.span.start;
        let end = tok.span.end;
        match tok.token_type {
            TokenType::Number => {
                let node = ASTNode::Literal(Literal::Number(tok.value.clone()), Span { start, end });
                self.advance();
                Ok(node)
            },
            TokenType::True => {
                self.advance();
                Ok(ASTNode::Literal(Literal::Bool(true), Span { start, end }))
            },
            TokenType::False => {
                self.advance();
                Ok(ASTNode::Literal(Literal::Bool(false), Span { start, end }))
            },
            TokenType::LeftParen => {
                self.advance();
                let expr = match self.parse_sum() {
                    Ok(n) => n,
                    Err(e) => return Err(e),
                };
                let close_end = self.current.as_ref().unwrap().span.end;
                match self.consume(TokenType::RightParen, "Expect ')' after grouping expression.") {
                    Ok(()) => {},
                    Err(e) => return Err(e),
                }
                let span = Span { start, end: close_end };
                Ok(ASTNode::ParenExpr(Box::new(ParenExpr { expr }), span))
            },
            TokenType::Minus => {
                self.advance();
                let arg = match self.parse_factor() {
                    Ok(n) => n,
                    Err(e) => return Err(e),
                };
                let span = Span { start, end: arg.position().end };
                Ok(ASTNode::UnaryExpr(Box::new(UnaryExpr { op: Op::Subtract, arg }), span))
            },
            k => {
                let mut msg = String::from_str("Error, unexpected token: '");
                msg.append(k.name());
                msg.append("'.");
                Err(ParserError(msg))
            },
        }
    }
}

} // verus!
