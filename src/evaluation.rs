use vstd::prelude::*;
use crate::expression::{parse_tokens, Expression, ParseError, Tree};
use crate::literal::is_float_literal;
use crate::operator::Operator;

verus! {

/// Why an expression has no value.
#[derive(Debug, Clone, Copy, PartialEq, Eq, Structural)]
pub enum EvalError {
    /// A right operand of `/` is exactly zero.
    DivisionByZero,
}

/// One instruction of an expression in postfix order.
#[derive(Debug)]
pub enum Step {
    /// Push the value of this number literal.
    Load(String),
    /// Pop the right, then the left operand, and push their combination.
    Apply(Operator),
}

/// The mathematical form of a step.
pub enum StepModel {
    Load(Seq<char>),
    Apply(Operator),
}

impl View for Step {
    type V = StepModel;

    open spec fn view(&self) -> StepModel {
        match self {
            Step::Load(s) => StepModel::Load(s@),
            Step::Apply(op) => StepModel::Apply(*op),
        }
    }
}

/// The forms of a sequence of steps.
pub open spec fn step_views(s: Seq<Step>) -> Seq<StepModel> {
    s.map_values(|x: Step| x@)
}

/// The instructions that evaluate a tree: left operand, right operand, then the operator.
pub open spec fn postfix(t: Tree) -> Seq<StepModel>
    decreases t,
{
    match t {
        Tree::Num(s) => seq![StepModel::Load(s)],
        Tree::Op(l, op, r) => postfix(*l) + postfix(*r) + seq![StepModel::Apply(op)],
    }
}

/// Run from a stack of `d` values, `p` never pops an empty stack, each `Apply` finds two
/// operands, and exactly one value is left at the end.
pub open spec fn runs_from(p: Seq<StepModel>, d: int) -> bool
    decreases p.len(),
{
    if p.len() == 0 {
        d == 1
    } else {
        match p[0] {
            StepModel::Load(_) => runs_from(p.drop_first(), d + 1),
            StepModel::Apply(_) => d >= 2 && runs_from(p.drop_first(), d - 1),
        }
    }
}

proof fn lemma_postfix_runs(t: Tree, rest: Seq<StepModel>, d: int)
    requires
        d >= 0,
        runs_from(rest, d + 1),
    ensures
        runs_from(postfix(t) + rest, d),
    decreases t,
{
    match t {
        Tree::Num(s) => {
            assert((postfix(t) + rest).drop_first() =~= rest);
        },
        Tree::Op(l, op, r) => {
            let tail = seq![StepModel::Apply(op)] + rest;
            assert(tail.drop_first() =~= rest);
            lemma_postfix_runs(*r, tail, d + 1);
            lemma_postfix_runs(*l, postfix(*r) + tail, d);
            assert(postfix(t) + rest =~= postfix(*l) + (postfix(*r) + tail));
        },
    }
}

/// Appends the instructions of `e` to `out`.
fn emit(e: &Expression, out: &mut Vec<Step>)
    ensures
        step_views(final(out)@) == step_views(old(out)@) + postfix(e@),
    decreases e,
{
    match e {
        Expression::Number(s) => {
            let t = s.clone();
            out.push(Step::Load(t));
            assert(step_views(final(out)@) =~= step_views(old(out)@) + postfix(e@));
        },
        Expression::Operation(l, op, r) => {
            emit(l, out);
            emit(r, out);
            let ghost mid = step_views(out@);
            out.push(Step::Apply(*op));
            assert(step_views(out@) =~= mid + seq![StepModel::Apply(*op)]);
            assert(step_views(out@) =~= step_views(old(out)@) + postfix(e@));
        },
    }
}


/// What the evaluator asks of the one who holds the values.
#[derive(Debug)]
pub enum Action {
    /// Push the value of this number literal.
    Load(String),
    /// Pop the right, then the left operand, and push `left op right`.
    Apply(Operator),
    /// The evaluation has failed and stays failed.
    Fail(EvalError),
    /// The one value on the stack is the result.
    Finish,
}

/// An evaluation in progress: the postfix instructions of an expression, the next one
/// to run, and how many values the stack holds.
pub struct Evaluation {
    program: Vec<Step>,
    pc: usize,
    depth: usize,
    failed: bool,
}

impl Evaluation {
    /// The instructions of the evaluation.
    pub closed spec fn steps(&self) -> Seq<StepModel> {
        step_views(self.program@)
    }

    /// How many instructions have run.
    pub closed spec fn position(&self) -> int {
        self.pc as int
    }

    /// How many values the stack holds.
    pub closed spec fn depth(&self) -> int {
        self.depth as int
    }

    /// Whether a division by zero has stopped the evaluation.
    pub closed spec fn failed(&self) -> bool {
        self.failed
    }

    /// What is left of the program runs correctly from the current stack.
    pub open spec fn wf(&self) -> bool {
        &&& 0 <= self.position() <= self.steps().len()
        &&& 0 <= self.depth() <= self.position()
        &&& !self.failed() ==> runs_from(self.steps().skip(self.position()), self.depth())
    }

    /// Starts the evaluation of `e` on an empty stack.
    pub fn new(e: &Expression) -> (m: Evaluation)
        ensures
            m.wf(),
            m.steps() == postfix(e@),
            m.position() == 0,
            m.depth() == 0,
            !m.failed(),
    {
        let mut program: Vec<Step> = Vec::new();
        emit(e, &mut program);
        let m = Evaluation { program, pc: 0, depth: 0, failed: false };
        proof {
            assert(step_views(Seq::<Step>::empty()) =~= Seq::<StepModel>::empty());
            assert(m.steps() =~= postfix(e@));
            lemma_postfix_runs(e@, Seq::empty(), 0);
            assert(postfix(e@) + Seq::<StepModel>::empty() =~= postfix(e@));
            assert(m.steps().skip(0) =~= m.steps());
        }
        m
    }

    /// Takes the next decision. `top_is_zero` says whether the value on top of the stack
    /// is exactly zero; it matters only when that value is the divisor of the next step.
    pub fn next(&mut self, top_is_zero: bool) -> (a: Action)
        requires
            old(self).wf(),
        ensures
            final(self).wf(),
            final(self).steps() == old(self).steps(),
            old(self).failed() ==> a == Action::Fail(EvalError::DivisionByZero) && *final(self)
                == *old(self),
            !old(self).failed() && old(self).position() == old(self).steps().len() ==> a is Finish
                && old(self).depth() == 1 && *final(self) == *old(self),
            !old(self).failed() && old(self).position() < old(self).steps().len() ==> (match old(
                self,
            ).steps()[old(self).position()] {
                StepModel::Load(t) => a matches Action::Load(s) && s@ == t && final(self).position()
                    == old(self).position() + 1 && final(self).depth() == old(self).depth() + 1
                    && !final(self).failed(),
                StepModel::Apply(op) => old(self).depth() >= 2 && if op == Operator::Divide
                    && top_is_zero {
                    a == Action::Fail(EvalError::DivisionByZero) && final(self).failed()
                        && final(self).position() == old(self).position() && final(self).depth()
                        == old(self).depth()
                } else {
                    a == Action::Apply(op) && final(self).position() == old(self).position() + 1
                        && final(self).depth() == old(self).depth() - 1 && !final(self).failed()
                },
            }),
    {
        if self.failed {
            return Action::Fail(EvalError::DivisionByZero);
        }
        if self.pc >= self.program.len() {
            proof {
                assert(self.steps().skip(self.position()).len() == 0);
            }
            return Action::Finish;
        }
        let ghost rest = self.steps().skip(self.position());
        assert(rest[0] == self.program@[self.pc as int]@);
        assert(rest.drop_first() =~= self.steps().skip(self.position() + 1));
        match &self.program[self.pc] {
            Step::Load(s) => {
                let t = s.clone();
                self.pc = self.pc + 1;
                self.depth = self.depth + 1;
                Action::Load(t)
            },
            Step::Apply(op) => {
                let op = *op;
                if top_is_zero && op == Operator::Divide {
                    self.failed = true;
                    Action::Fail(EvalError::DivisionByZero)
                } else {
                    self.pc = self.pc + 1;
                    self.depth = self.depth - 1;
                    Action::Apply(op)
                }
            },
        }
    }
}


/// A single number token parses to that number, and its evaluation loads that literal
/// and finishes with it as the one value.
pub proof fn lemma_single_number_evaluation(n: Seq<char>)
    requires
        is_float_literal(n),
    ensures
        parse_tokens(seq![n]) == Ok::<Tree, ParseError>(Tree::Num(n)),
        postfix(Tree::Num(n)) == seq![StepModel::Load(n)],
        runs_from(seq![StepModel::Load(n)], 0),
{
    assert(seq![StepModel::Load(n)].drop_first() =~= Seq::<StepModel>::empty());
    assert(runs_from(Seq::<StepModel>::empty(), 1));
}

} // verus!
