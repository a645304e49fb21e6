use vstd::prelude::*;

verus! {

/// A binary arithmetic operator of the calculator.
#[derive(Debug, Clone, Copy, PartialEq, Eq, Structural)]
pub enum Operator {
    Add,
    Subtract,
    Multiply,
    Divide,
}

/// The operator that a token spells, if any.
pub open spec fn operator_of(s: Seq<char>) -> Option<Operator> {
    if s.len() != 1 {
        None
    } else if s[0] == '+' {
        Some(Operator::Add)
    } else if s[0] == '-' {
        Some(Operator::Subtract)
    } else if s[0] == '*' {
        Some(Operator::Multiply)
    } else if s[0] == '/' {
        Some(Operator::Divide)
    } else {
        None
    }
}

impl Operator {
    /// Reads an operator symbol; any other token is refused.
    pub fn from_str(s: &str) -> (r: Result<Operator, ()>)
        ensures
            r matches Ok(op) ==> operator_of(s@) == Some(op),
            r is Err <==> operator_of(s@) is None,
    {
        let n = s.unicode_len();
        if n != 1 {
            return Err(());
        }
        let c = s.get_char(0);
        if c == '+' {
            Ok(Operator::Add)
        } else if c == '-' {
            Ok(Operator::Subtract)
        } else if c == '*' {
            Ok(Operator::Multiply)
        } else if c == '/' {
            Ok(Operator::Divide)
        } else {
            Err(())
        }
    }
}

} // verus!
