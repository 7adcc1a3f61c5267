use crate::source::{text_of, Source};
use crate::span::Span;
use crate::token::{Token, TokenType, TokenView};
use std::rc::Rc;
use vstd::prelude::*;
use vstd::string::*;

verus! {

/// The whitespace the language skips: tab, vertical tab, form feed, carriage
/// return, space, NEXT LINE, the two bidi marks, LINE and PARAGRAPH SEPARATOR.
pub open spec fn is_whitespace_char(c: char) -> bool {
    c == '\u{0009}' || c == '\u{000B}' || c == '\u{000C}' || c == '\u{000D}' || c == '\u{0020}'
        || c == '\u{0085}' || c == '\u{200E}' || c == '\u{200F}' || c == '\u{2028}' || c
        == '\u{2029}'
}

pub open spec fn is_alpha_char(c: char) -> bool {
    ('a' <= c && c <= 'z') || ('A' <= c && c <= 'Z') || c == '_'
}

pub open spec fn is_digit_char(c: char) -> bool {
    '0' <= c && c <= '9'
}

/// A cluster is whitespace when it is one whitespace character.
pub open spec fn whitespace_cluster(s: Seq<char>) -> bool {
    s.len() == 1 && is_whitespace_char(s[0])
}

/// A cluster is alphabetic when all of its characters are ASCII letters or `_`.
pub open spec fn alpha_cluster(s: Seq<char>) -> bool {
    forall|i: int| 0 <= i < s.len() ==> is_alpha_char(#[trigger] s[i])
}

/// A cluster is a digit when it is exactly one ASCII digit.
pub open spec fn digit_cluster(s: Seq<char>) -> bool {
    s.len() == 1 && is_digit_char(s[0])
}

/// The position of the first cluster at or after `pos` that is not whitespace.
pub open spec fn skip_ws(g: Seq<Seq<char>>, pos: int) -> int
    decreases g.len() - pos,
{
    if 0 <= pos < g.len() && whitespace_cluster(g[pos]) {
        skip_ws(g, pos + 1)
    } else {
        pos
    }
}

/// The end of the run of alphabetic clusters starting at `pos`.
pub open spec fn munch_alpha(g: Seq<Seq<char>>, pos: int) -> int
    decreases g.len() - pos,
{
    if 0 <= pos < g.len() && alpha_cluster(g[pos]) {
        munch_alpha(g, pos + 1)
    } else {
        pos
    }
}

/// The end of the run of digit clusters starting at `pos`.
pub open spec fn munch_digits(g: Seq<Seq<char>>, pos: int) -> int
    decreases g.len() - pos,
{
    if 0 <= pos < g.len() && digit_cluster(g[pos]) {
        munch_digits(g, pos + 1)
    } else {
        pos
    }
}

/// The kind of a one-cluster operator or delimiter.
pub open spec fn punct_kind(c: Seq<char>) -> Option<TokenType> {
    if c.len() != 1 {
        None
    } else if c[0] == '+' {
        Some(TokenType::Plus)
    } else if c[0] == '-' {
        Some(TokenType::Minus)
    } else if c[0] == '*' {
        Some(TokenType::Star)
    } else if c[0] == '/' {
        Some(TokenType::Slash)
    } else if c[0] == '(' {
        Some(TokenType::LeftParen)
    } else if c[0] == ')' {
        Some(TokenType::RightParen)
    } else {
        None
    }
}

/// Keywords are matched verbatim; any other word is an identifier.
pub open spec fn keyword_kind(t: Seq<char>) -> TokenType {
    if t == seq!['t', 'r', 'u', 'e'] {
        TokenType::True
    } else if t == seq!['f', 'a', 'l', 's', 'e'] {
        TokenType::False
    } else {
        TokenType::Ident
    }
}

/// Where the lexeme that starts at `s` ends.
pub open spec fn lexeme_end(g: Seq<Seq<char>>, s: int) -> int {
    if s >= g.len() {
        s
    } else if punct_kind(g[s]) is Some {
        s + 1
    } else if alpha_cluster(g[s]) {
        munch_alpha(g, s + 1)
    } else if digit_cluster(g[s]) {
        munch_digits(g, s + 1)
    } else {
        s + 1
    }
}

/// The kind of the lexeme `[s, e)`.
pub open spec fn lexeme_kind(g: Seq<Seq<char>>, s: int, e: int) -> TokenType {
    if s >= g.len() {
        TokenType::Eof
    } else if punct_kind(g[s]) is Some {
        punct_kind(g[s]).unwrap()
    } else if alpha_cluster(g[s]) {
        keyword_kind(text_of(g, s, e))
    } else if digit_cluster(g[s]) {
        TokenType::Number
    } else {
        TokenType::Error
    }
}

/// The diagnostic carried by the error token for cluster `c`.
pub open spec fn error_message(c: Seq<char>) -> Seq<char> {
    "Unexpected character: '"@ + c + "'"@
}

/// Where the scanner stands after scanning one token from `pos`.
pub open spec fn scan_end(g: Seq<Seq<char>>, pos: int) -> int {
    lexeme_end(g, skip_ws(g, pos))
}

/// The token scanned from `pos`.
pub open spec fn scan(g: Seq<Seq<char>>, pos: int) -> TokenView {
    let s = skip_ws(g, pos);
    let e = lexeme_end(g, s);
    let k = lexeme_kind(g, s, e);
    TokenView {
        token_type: k,
        value: if k == TokenType::Error {
            error_message(g[s])
        } else {
            text_of(g, s, e)
        },
        start: s,
        end: e,
    }
}

proof fn lemma_skip_ws_bounds(g: Seq<Seq<char>>, pos: int)
    requires
        0 <= pos <= g.len(),
    ensures
        pos <= skip_ws(g, pos) <= g.len(),
    decreases g.len() - pos,
{
    if pos < g.len() && whitespace_cluster(g[pos]) {
        lemma_skip_ws_bounds(g, pos + 1);
    }
}

proof fn lemma_munch_bounds(g: Seq<Seq<char>>, pos: int)
    requires
        0 <= pos <= g.len(),
    ensures
        pos <= munch_alpha(g, pos) <= g.len(),
        pos <= munch_digits(g, pos) <= g.len(),
    decreases g.len() - pos,
{
    if pos < g.len() {
        lemma_munch_bounds(g, pos + 1);
    }
}

/// The end of a scan lies between its start and the end of the text, and the
/// scanner moves on unless it has reached the end.
pub proof fn lemma_scan_bounds(g: Seq<Seq<char>>, pos: int)
    requires
        0 <= pos <= g.len(),
    ensures
        pos <= skip_ws(g, pos) <= scan_end(g, pos) <= g.len(),
        scan(g, pos).start == skip_ws(g, pos),
        scan(g, pos).end == scan_end(g, pos),
        scan(g, pos).token_type == TokenType::Eof <==> skip_ws(g, pos) == g.len(),
        scan(g, pos).token_type == TokenType::Eof ==> scan_end(g, pos) == g.len(),
        scan(g, pos).token_type != TokenType::Eof ==> pos < scan_end(g, pos),
{
    lemma_skip_ws_bounds(g, pos);
    let s = skip_ws(g, pos);
    if s < g.len() {
        lemma_munch_bounds(g, s + 1);
    }
}

/// Scanning an empty source gives `Eof` at once, with the empty span at offset zero.
pub proof fn lemma_empty_source_eof(g: Seq<Seq<char>>)
    requires
        g.len() == 0,
    ensures
        scan(g, 0).token_type == TokenType::Eof,
        scan(g, 0).start == 0,
        scan(g, 0).end == 0,
        scan(g, 0).value == Seq::<char>::empty(),
        scan_end(g, 0) == 0,
{
}

/// A cluster that fits no class gives an `Error` token whose message quotes
/// exactly that cluster; the token covers that one cluster, and scanning
/// resumes right after it.
pub proof fn lemma_error_token(g: Seq<Seq<char>>, pos: int)
    requires
        0 <= pos <= g.len(),
        scan(g, pos).token_type == TokenType::Error,
    ensures
        0 <= scan(g, pos).start < g.len(),
        scan(g, pos).value == "Unexpected character: '"@ + g[scan(g, pos).start] + "'"@,
        scan(g, pos).end == scan(g, pos).start + 1,
        scan_end(g, pos) == scan(g, pos).start + 1,
{
    lemma_scan_bounds(g, pos);
}

/// An operator or delimiter token covers exactly one cluster.
pub proof fn lemma_punct_width(g: Seq<Seq<char>>, pos: int)
    requires
        0 <= pos <= g.len(),
        scan(g, pos).token_type == TokenType::LeftParen || scan(g, pos).token_type
            == TokenType::RightParen || scan(g, pos).token_type == TokenType::Plus || scan(g, pos).token_type
            == TokenType::Minus || scan(g, pos).token_type == TokenType::Star || scan(g, pos).token_type
            == TokenType::Slash,
    ensures
        scan(g, pos).end == scan(g, pos).start + 1,
{
    lemma_scan_bounds(g, pos);
}

pub struct Scanner {
    pub source: Rc<Source>,
    pub current: usize,
    pub previous: usize,
}

impl Scanner {
    pub open spec fn wf(&self) -> bool {
        self.previous <= self.current <= self.source@.len()
    }

    pub fn new(source: Rc<Source>) -> (r: Scanner)
        ensures
            r.source@ == source@,
            r.current == 0,
            r.previous == 0,
            r.wf(),
    {
        Scanner { source: source, current: 0, previous: 0 }
    }

    /// Number of clusters not yet consumed.
    fn remaining(&self) -> (r: usize)
        requires
            self.wf(),
        ensures
            r == self.source@.len() - self.current,
    {
        self.source.graphemes.len() - self.current
    }

    fn peek(&self) -> (r: Option<&String>)
        requires
            self.wf(),
        ensures
            match r {
                Some(c) => self.current < self.source@.len() && c@ == self.source@[self.current as int],
                None => self.current == self.source@.len(),
            },
    {
        if self.remaining() == 0 {
            None
        } else {
            Some(&self.source.graphemes[self.current])
        }
    }

    fn advance(&mut self) -> (r: Option<String>)
        requires
            old(self).wf(),
        ensures
            final(self).source == old(self).source,
            final(self).previous == old(self).previous,
            match r {
                Some(c) => old(self).current < old(self).source@.len()
                    && c@ == old(self).source@[old(self).current as int]
                    && final(self).current == old(self).current + 1,
                None => old(self).current == old(self).source@.len()
                    && final(self).current == old(self).current,
            },
            final(self).wf(),
    {
        if self.current >= self.source.graphemes.len() {
            None
        } else {
            let c = self.source.graphemes[self.current].clone();
            self.current = self.current + 1;
            Some(c)
        }
    }

    fn make_token(&mut self, token_type: TokenType) -> (t: Token)
        requires
            old(self).wf(),
        ensures
            t.token_type == token_type,
            t.value@ == text_of(old(self).source@, old(self).previous as int, old(self).current as int),
            t.span == (Span { start: old(self).previous, end: old(self).current }),
            final(self).source == old(self).source,
            final(self).current == old(self).current,
            final(self).previous == old(self).current,
            final(self).wf(),
    {
        let value = self.source.text(Span::new(self.previous, self.current));
        let token = Token::new(token_type, value, Span::new(self.previous, self.current));
        self.previous = self.current;
        token
    }

    fn make_error_token(&mut self, msg: String) -> (t: Token)
        requires
            old(self).wf(),
        ensures
            t.token_type == TokenType::Error,
            t.value@ == msg@,
            t.span == (Span { start: old(self).previous, end: old(self).current }),
            *final(self) == *old(self),
    {
        let span = Span::new(self.previous, self.current);
        Token::new(TokenType::Error, msg, span)
    }

    fn skip_whitespace(&mut self)
        requires
            old(self).wf(),
        ensures
            final(self).source == old(self).source,
            final(self).current == skip_ws(old(self).source@, old(self).current as int),
            final(self).previous == final(self).current,
            final(self).wf(),
    {
        loop
            invariant
                self.source == old(self).source,
                old(self).current <= self.current <= self.source@.len(),
                self.previous <= self.current,
                skip_ws(self.source@, self.current as int) == skip_ws(
                    self.source@,
                    old(self).current as int,
                ),
            ensures
                self.source == old(self).source,
                self.current == skip_ws(self.source@, old(self).current as int),
                self.current <= self.source@.len(),
            decreases self.source@.len() - self.current,
        {
            let c = self.peek();
            match c {
                Some(c) => {
                    if !is_whitespace(c.as_str()) {
                        break;
                    }
                },
                None => {
                    break;
                },
            }
            self.advance();
        }
        self.previous = self.current;
    }

    fn number(&mut self) -> (t: Token)
        requires
            old(self).wf(),
        ensures
            t.token_type == TokenType::Number,
            t.value@ == text_of(
                old(self).source@,
                old(self).previous as int,
                munch_digits(old(self).source@, old(self).current as int),
            ),
            t.span == (Span {
                start: old(self).previous,
                end: munch_digits(old(self).source@, old(self).current as int) as usize,
            }),
            final(self).source == old(self).source,
            final(self).current == munch_digits(old(self).source@, old(self).current as int),
            final(self).previous == final(self).current,
            final(self).wf(),
    {
        loop
            invariant
                self.source == old(self).source,
                self.previous == old(self).previous,
                old(self).current <= self.current <= self.source@.len(),
                self.previous <= self.current,
                munch_digits(self.source@, self.current as int) == munch_digits(
                    self.source@,
                    old(self).current as int,
                ),
            ensures
                self.source == old(self).source,
                self.previous == old(self).previous,
                self.previous <= self.current <= self.source@.len(),
                self.current == munch_digits(self.source@, old(self).current as int),
            decreases self.source@.len() - self.current,
        {
            match self.peek() {
                Some(c) => {
                    if !is_digit(c.as_str()) {
                        break;
                    }
                },
                None => {
                    break;
                },
            }
            self.advance();
        }
        self.make_token(TokenType::Number)
    }

    fn identifier_type(&self) -> (r: TokenType)
        requires
            self.wf(),
        ensures
            r == keyword_kind(
                text_of(self.source@, self.previous as int, self.current as int),
            ),
    {
        let text = self.source.text(Span::new(self.previous, self.current));
        let t = String::from_str("true");
        let f = String::from_str("false");
        proof {
            reveal_strlit("true");
            reveal_strlit("false");
            assert(t@ =~= seq!['t', 'r', 'u', 'e']);
            assert(f@ =~= seq!['f', 'a', 'l', 's', 'e']);
        }
        if text == t {
            TokenType::True
        } else if text == f {
            TokenType::False
        } else {
            TokenType::Ident
        }
    }

    fn identifier(&mut self) -> (t: Token)
        requires
            old(self).wf(),
        ensures
            t.value@ == text_of(
                old(self).source@,
                old(self).previous as int,
                munch_alpha(old(self).source@, old(self).current as int),
            ),
            t.token_type == keyword_kind(t.value@),
            t.span == (Span {
                start: old(self).previous,
                end: munch_alpha(old(self).source@, old(self).current as int) as usize,
            }),
            final(self).source == old(self).source,
            final(self).current == munch_alpha(old(self).source@, old(self).current as int),
            final(self).previous == final(self).current,
            final(self).wf(),
    {
        loop
            invariant
                self.source == old(self).source,
                self.previous == old(self).previous,
                old(self).current <= self.current <= self.source@.len(),
                self.previous <= self.current,
                munch_alpha(self.source@, self.current as int) == munch_alpha(
                    self.source@,
                    old(self).current as int,
                ),
            ensures
                self.source == old(self).source,
                self.previous == old(self).previous,
                self.previous <= self.current <= self.source@.len(),
                self.current == munch_alpha(self.source@, old(self).current as int),
            decreases self.source@.len() - self.current,
        {
            match self.peek() {
                Some(c) => {
                    if !is_alpha(c.as_str()) {
                        break;
                    }
                },
                None => {
                    break;
                },
            }
            self.advance();
        }
        let token_type = self.identifier_type();
        self.make_token(token_type)
    }

    /// Scans the next token. Whitespace is skipped first; an unclassifiable
    /// cluster gives an `Error` token and scanning can go on after it.
    pub fn scan_token(&mut self) -> (t: Token)
        requires
            old(self).wf(),
        ensures
            t@ == scan(old(self).source@, old(self).current as int),
            final(self).source == old(self).source,
            final(self).current == scan_end(old(self).source@, old(self).current as int),
            final(self).previous == if t.token_type == TokenType::Error {
                t.span.start
            } else {
                t.span.end
            },
            final(self).wf(),
    {
        let ghost g = self.source@;
        proof {
            lemma_scan_bounds(g, self.current as int);
        }
        self.skip_whitespace();
        let c = self.advance();
        let t = match c {
            None => self.make_token(TokenType::Eof),
            Some(c) => {
                let s = c.as_str();
                if is_single(s, '+') {
                    self.make_token(TokenType::Plus)
                } else if is_single(s, '-') {
                    self.make_token(TokenType::Minus)
                } else if is_single(s, '/') {
                    self.make_token(TokenType::Slash)
                } else if is_single(s, '*') {
                    self.make_token(TokenType::Star)
                } else if is_single(s, '(') {
                    self.make_token(TokenType::LeftParen)
                } else if is_single(s, ')') {
                    self.make_token(TokenType::RightParen)
                } else if is_alpha(s) {
                    self.identifier()
                } else if is_digit(s) {
                    self.number()
                } else {
                    let mut msg = String::from_str("Unexpected character: '");
                    msg.append(s);
                    msg.append("'");
                    self.make_error_token(msg)
                }
            },
        };
        assert(t@.value =~= scan(g, old(self).current as int).value);
        t
    }
}

/// Whether `s` is the one character `c`.
fn is_single(s: &str, c: char) -> (r: bool)
    ensures
        r == (s@.len() == 1 && s@[0] == c),
{
    if s.unicode_len() == 1 {
        let d = s.get_char(0);
        d == c
    } else {
        false
    }
}

pub fn is_whitespace(s: &str) -> (r: bool)
    ensures
        r == whitespace_cluster(s@),
{
    if s.unicode_len() != 1 {
        return false;
    }
    let c = s.get_char(0);
    c == '\u{0009}' || c == '\u{000B}' || c == '\u{000C}' || c == '\u{000D}' || c == '\u{0020}'
        || c == '\u{0085}' || c == '\u{200E}' || c == '\u{200F}' || c == '\u{2028}' || c
        == '\u{2029}'
}

pub fn is_alpha(s: &str) -> (r: bool)
    ensures
        r == alpha_cluster(s@),
{
    let n = s.unicode_len();
    let mut i: usize = 0;
    while i < n
        invariant
            n == s@.len(),
            i <= n,
            forall|j: int| 0 <= j < i ==> is_alpha_char(#[trigger] s@[j]),
        decreases n - i,
    {
        let c = s.get_char(i);
        if !(('a' <= c && c <= 'z') || ('A' <= c && c <= 'Z') || c == '_') {
            return false;
        }
        i = i + 1;
    }
    true
}

pub fn is_digit(s: &str) -> (r: bool)
    ensures
        r == digit_cluster(s@),
{
    if s.unicode_len() != 1 {
        return false;
    }
    let c = s.get_char(0);
    '0' <= c && c <= '9'
}

} // verus!
