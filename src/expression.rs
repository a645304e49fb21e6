use vstd::prelude::*;
use std::collections::VecDeque;
use crate::literal::{is_float_literal, is_float_literal_str};
use crate::operator::{operator_of, Operator};

verus! {

/// Why a token sequence is not an expression.
#[derive(Debug, Clone, Copy, PartialEq, Eq, Structural)]
pub enum ParseError {
    /// A token that stands where a number belongs is not a number.
    InvalidNumber,
    /// A token that stands where an operator belongs is not one of `+ - * /`.
    InvalidOperator,
    /// No token is left where an operand belongs.
    EmptyOperand,
}

/// An expression as parsed: each number leaf keeps the literal it was read from.
#[derive(Debug)]
pub enum Expression {
    Number(String),
    Operation(Box<Expression>, Operator, Box<Expression>),
}

/// The mathematical form of an expression tree.
pub enum Tree {
    Num(Seq<char>),
    Op(Box<Tree>, Operator, Box<Tree>),
}

/// The tree that an expression holds.
pub open spec fn tree_of(e: Expression) -> Tree
    decreases e,
{
    match e {
        Expression::Number(s) => Tree::Num(s@),
        Expression::Operation(l, op, r) => Tree::Op(Box::new(tree_of(*l)), op, Box::new(tree_of(*r))),
    }
}

impl View for Expression {
    type V = Tree;

    open spec fn view(&self) -> Tree {
        tree_of(*self)
    }
}

/// Every left operand is a number leaf: the tree is a chain that groups to the right.
pub open spec fn is_right_chain(t: Tree) -> bool
    decreases t,
{
    match t {
        Tree::Num(_) => true,
        Tree::Op(l, _, r) => *l is Num && is_right_chain(*r),
    }
}

/// The tree that a token sequence denotes: a number, then optionally an operator and
/// the expression that all remaining tokens denote.
pub open spec fn parse_tokens(toks: Seq<Seq<char>>) -> Result<Tree, ParseError>
    decreases toks.len(),
{
    if toks.len() == 0 {
        Err(ParseError::EmptyOperand)
    } else if !is_float_literal(toks[0]) {
        Err(ParseError::InvalidNumber)
    } else if toks.len() == 1 {
        Ok(Tree::Num(toks[0]))
    } else {
        match operator_of(toks[1]) {
            None => Err(ParseError::InvalidOperator),
            Some(op) => match parse_tokens(toks.skip(2)) {
                Err(e) => Err(e),
                Ok(rhs) => Ok(Tree::Op(Box::new(Tree::Num(toks[0])), op, Box::new(rhs))),
            },
        }
    }
}

/// The texts of a sequence of tokens.
pub open spec fn texts(toks: Seq<&str>) -> Seq<Seq<char>> {
    toks.map_values(|t: &str| t@)
}

/// The tree of a parse result, or its error.
pub open spec fn parsed(r: Result<Expression, ParseError>) -> Result<Tree, ParseError> {
    match r {
        Ok(e) => Ok(e@),
        Err(err) => Err(err),
    }
}

impl Expression {
    /// Parses a token sequence, front first, into a right-grouped expression.
    pub fn try_from(tokens: VecDeque<&str>) -> (r: Result<Expression, ParseError>)
        ensures
            parsed(r) == parse_tokens(texts(tokens@)),
            r matches Ok(e) ==> is_right_chain(e@),
        decreases tokens@.len(),
    {
        let ghost toks = texts(tokens@);
        let mut tokens = tokens;
        let first = match tokens.pop_front() {
            None => return Err(ParseError::EmptyOperand),
            Some(t) => t,
        };
        assert(toks[0] == first@);
        if !is_float_literal_str(first) {
            return Err(ParseError::InvalidNumber);
        }
        let lhs = Expression::Number(first.to_owned());
        assert(lhs@ == Tree::Num(first@));
        if tokens.len() == 0 {
            return Ok(lhs);
        }
        let second = match tokens.pop_front() {
            None => return Err(ParseError::EmptyOperand),
            Some(t) => t,
        };
        assert(toks[1] == second@);
        let op = match Operator::from_str(second) {
            Err(_) => return Err(ParseError::InvalidOperator),
            Ok(op) => op,
        };
        assert(texts(tokens@) =~= toks.skip(2));
        let rhs = match Expression::try_from(tokens) {
            Err(e) => return Err(e),
            Ok(rhs) => rhs,
        };
        let e = Expression::Operation(Box::new(lhs), op, Box::new(rhs));
        assert(e@ == Tree::Op(Box::new(Tree::Num(first@)), op, Box::new(rhs@)));
        Ok(e)
    }
}


/// `a op1 b op2 c` groups to the right: `a op1 (b op2 c)`.
pub proof fn lemma_right_associative(
    a: Seq<char>,
    o1: Seq<char>,
    b: Seq<char>,
    o2: Seq<char>,
    c: Seq<char>,
)
    requires
        is_float_literal(a),
        is_float_literal(b),
        is_float_literal(c),
        operator_of(o1) is Some,
        operator_of(o2) is Some,
    ensures
        parse_tokens(seq![a, o1, b, o2, c]) == Ok::<Tree, ParseError>(
            Tree::Op(
                Box::new(Tree::Num(a)),
                operator_of(o1).unwrap(),
                Box::new(
                    Tree::Op(
                        Box::new(Tree::Num(b)),
                        operator_of(o2).unwrap(),
                        Box::new(Tree::Num(c)),
                    ),
                ),
            ),
        ),
{
    let s = seq![a, o1, b, o2, c];
    assert(s.skip(2) =~= seq![b, o2, c]);
    assert(s.skip(2).skip(2) =~= seq![c]);
    assert(parse_tokens(seq![c]) == Ok::<Tree, ParseError>(Tree::Num(c)));
    assert(parse_tokens(s.skip(2)) == Ok::<Tree, ParseError>(
        Tree::Op(Box::new(Tree::Num(b)), operator_of(o2).unwrap(), Box::new(Tree::Num(c))),
    ));
}

/// A sequence of an even number of tokens, the empty one or one that ends in an operator
/// where an operand belongs, is never an expression.
pub proof fn lemma_even_length_rejected(toks: Seq<Seq<char>>)
    requires
        toks.len() % 2 == 0,
    ensures
        parse_tokens(toks) is Err,
    decreases toks.len(),
{
    if toks.len() >= 2 {
        lemma_even_length_rejected(toks.skip(2));
    }
}

/// Parsing depends on the token texts alone: the same tokens parse the same way every time.
pub proof fn lemma_parse_repeatable(a: Seq<&str>, b: Seq<&str>)
    requires
        texts(a) == texts(b),
    ensures
        parse_tokens(texts(a)) == parse_tokens(texts(b)),
{
}

} // verus!
