use core::cmp::Ordering;
use vstd::prelude::*;
use vstd::string::*;

verus! {

/// A function descriptor. Functions are equal when their names are.
#[derive(Debug)]
pub struct Function {
    pub arity: u8,
    pub name: String,
}

impl Function {
    pub fn new(arity: u8, name: String) -> (r: Function)
        ensures
            r.arity == arity,
            r.name@ == name@,
    {
        Function { arity, name }
    }
}

impl PartialEq for Function {
    fn eq(&self, other: &Function) -> (r: bool) {
        self.name == other.name
    }
}

impl vstd::std_specs::cmp::PartialEqSpecImpl for Function {
    open spec fn obeys_eq_spec() -> bool {
        true
    }

    open spec fn eq_spec(&self, other: &Function) -> bool {
        self.name@ == other.name@
    }
}

impl Eq for Function {}

/// Lexicographic order of two names, character by character.
pub open spec fn name_cmp(a: Seq<char>, b: Seq<char>) -> Ordering
    decreases a.len(),
{
    if a.len() == 0 {
        if b.len() == 0 {
            Ordering::Equal
        } else {
            Ordering::Less
        }
    } else if b.len() == 0 {
        Ordering::Greater
    } else if a[0] < b[0] {
        Ordering::Less
    } else if a[0] > b[0] {
        Ordering::Greater
    } else {
        name_cmp(a.drop_first(), b.drop_first())
    }
}

/// Compares two names lexicographically.
pub fn compare_names(a: &str, b: &str) -> (r: Ordering)
    ensures
        r == name_cmp(a@, b@),
{
    let n = a.unicode_len();
    let m = b.unicode_len();
    let mut i: usize = 0;
    proof {
        assert(a@.skip(0) =~= a@);
        assert(b@.skip(0) =~= b@);
    }
    while i < n && i < m
        invariant
            n == a@.len(),
            m == b@.len(),
            i <= n,
            i <= m,
            name_cmp(a@, b@) == name_cmp(a@.skip(i as int), b@.skip(i as int)),
        decreases n - i,
    {
        let x = a.get_char(i);
        let y = b.get_char(i);
        if x < y {
            return Ordering::Less;
        }
        if x > y {
            return Ordering::Greater;
        }
        proof {
            assert(a@.skip(i as int).drop_first() =~= a@.skip(i + 1));
            assert(b@.skip(i as int).drop_first() =~= b@.skip(i + 1));
        }
        i = i + 1;
    }
    if i < n {
        Ordering::Greater
    } else if i < m {
        Ordering::Less
    } else {
        Ordering::Equal
    }
}

impl PartialOrd for Function {
    fn partial_cmp(&self, other: &Function) -> (r: Option<Ordering>) {
        Some(compare_names(self.name.as_str(), other.name.as_str()))
    }
}

impl vstd::std_specs::cmp::PartialOrdSpecImpl for Function {
    open spec fn obeys_partial_cmp_spec() -> bool {
        true
    }

    open spec fn partial_cmp_spec(&self, other: &Function) -> Option<Ordering> {
        Some(name_cmp(self.name@, other.name@))
    }
}

/// The variant of a runtime value.
#[derive(Clone, Copy, Debug, PartialEq, Eq, Structural)]
pub enum ValueKind {
    Number,
    Boolean,
    String,
    Function,
    Nil,
}

/// The arithmetic and logical operators of the runtime.
#[derive(Clone, Copy, Debug, PartialEq, Eq, Structural)]
pub enum Operator {
    Add,
    Subtract,
    Multiply,
    Divide,
    Negate,
    Not,
}

/// How an operator acts on operands of the kinds it accepts.
#[derive(Clone, Copy, Debug, PartialEq, Eq, Structural)]
pub enum Action {
    /// Arithmetic on numbers.
    Arithmetic,
    /// Appends the right string onto the left buffer, which the result shares.
    Concatenate,
    /// Negation of a boolean.
    Negate,
}

/// An operand-type violation: the operator is undefined on these operands.
#[derive(Clone, Copy, Debug, PartialEq, Eq, Structural)]
pub enum RuntimeError {
    OperandsMustBeNumbers,
    OperandMustBeBoolean,
}

impl RuntimeError {
    pub open spec fn spec_message(self) -> Seq<char> {
        match self {
            RuntimeError::OperandsMustBeNumbers => "Operands must be numbers"@,
            RuntimeError::OperandMustBeBoolean => "Operand must be boolean"@,
        }
    }

    pub fn message(self) -> (r: &'static str)
        ensures
            r@ == self.spec_message(),
    {
        match self {
            RuntimeError::OperandsMustBeNumbers => "Operands must be numbers",
            RuntimeError::OperandMustBeBoolean => "Operand must be boolean",
        }
    }
}

pub open spec fn is_binary(op: Operator) -> bool {
    op == Operator::Add || op == Operator::Subtract || op == Operator::Multiply || op
        == Operator::Divide
}

/// Which operand kinds each binary operator accepts, and what it does on them.
pub open spec fn binary_rule(op: Operator, l: ValueKind, r: ValueKind) -> Result<Action, RuntimeError> {
    if l == ValueKind::Number && r == ValueKind::Number {
        Ok(Action::Arithmetic)
    } else if op == Operator::Add && l == ValueKind::String && r == ValueKind::String {
        Ok(Action::Concatenate)
    } else {
        Err(RuntimeError::OperandsMustBeNumbers)
    }
}

/// Which operand kind each unary operator accepts, and what it does on it.
pub open spec fn unary_rule(op: Operator, k: ValueKind) -> Result<Action, RuntimeError> {
    if op == Operator::Not {
        if k == ValueKind::Boolean {
            Ok(Action::Negate)
        } else {
            Err(RuntimeError::OperandMustBeBoolean)
        }
    } else if k == ValueKind::Number {
        Ok(Action::Arithmetic)
    } else {
        Err(RuntimeError::OperandsMustBeNumbers)
    }
}

/// Decides a binary operation from the kinds of its operands. Mixed kinds are
/// never coerced: only two numbers, or two strings under `+`, are accepted.
pub fn check_binary(op: Operator, l: ValueKind, r: ValueKind) -> (res: Result<Action, RuntimeError>)
    requires
        is_binary(op),
    ensures
        res == binary_rule(op, l, r),
        res is Ok ==> l == r,
        res is Ok <==> (l == ValueKind::Number && r == ValueKind::Number) || (op == Operator::Add
            && l == ValueKind::String && r == ValueKind::String),
{
    match (l, r) {
        (ValueKind::Number, ValueKind::Number) => Ok(Action::Arithmetic),
        (ValueKind::String, ValueKind::String) => match op {
            Operator::Add => Ok(Action::Concatenate),
            _ => Err(RuntimeError::OperandsMustBeNumbers),
        },
        _ => Err(RuntimeError::OperandsMustBeNumbers),
    }
}

/// Decides unary minus (on a number) or logical not (on a boolean).
pub fn check_unary(op: Operator, k: ValueKind) -> (res: Result<Action, RuntimeError>)
    requires
        op == Operator::Negate || op == Operator::Not,
    ensures
        res == unary_rule(op, k),
{
    match op {
        Operator::Not => match k {
            ValueKind::Boolean => Ok(Action::Negate),
            _ => Err(RuntimeError::OperandMustBeBoolean),
        },
        _ => match k {
            ValueKind::Number => Ok(Action::Arithmetic),
            _ => Err(RuntimeError::OperandsMustBeNumbers),
        },
    }
}

/// Appends `right` onto the left buffer in place.
pub fn concatenate(left: &mut String, right: &String)
    ensures
        final(left)@ == old(left)@ + right@,
{
    left.append(right.as_str());
}

} // verus!
