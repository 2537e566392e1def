//! Evaluation: a tree to the exact schedule of arithmetic steps that reduces
//! it to one number.
//!
//! The library keeps no machine numbers of its own: a numeric value is its
//! decimal text, and the arithmetic on machine floating-point numbers is the
//! caller's. What the library fixes — completely — is the order: a node's
//! right subtree is reduced first, then its left subtree, then the node's own
//! operation combines the two. `calculate` returns that schedule as a
//! postfix program for a small stack machine:
//!
//! - `Push(t)`: push the numeric value of the decimal text `t`;
//! - `Add`, `Multiply`: pop `x`, pop `y`, push `y + x` resp. `y * x`;
//! - `Divide`: pop `x`, pop `y`, push `x / y`;
//! - `Power`: pop `x`, pop `y`, push `x` raised to `y`.
//!
//! The first value popped is always the node's left operand, the second the
//! value of its right subtree. Together with the right-nested trees the
//! parser builds, this reproduces conventional right-associative
//! exponentiation, and it makes a chain `a/b/c` reduce as `a/(b/c)` — a
//! preserved trait of this calculator, not an oversight.

use vstd::prelude::*;

use crate::parser::CalcIssue;
use crate::parser::Expr;
use crate::parser::GrammarItem;
use crate::parser::ParseNode;
use crate::parser::spec_parse_text;

verus! {

/// One step of the evaluation schedule, as handed to the caller.
#[derive(Debug, Clone, PartialEq)]
pub enum EvalStep {
    /// Push the numeric value of this decimal text.
    Push(String),
    Add,
    Multiply,
    Divide,
    Power,
}

/// The mathematical model of a step.
pub enum Step {
    Push(Seq<char>),
    Add,
    Multiply,
    Divide,
    Power,
}

impl View for EvalStep {
    type V = Step;

    open spec fn view(&self) -> Step {
        match self {
            EvalStep::Push(t) => Step::Push(t@),
            EvalStep::Add => Step::Add,
            EvalStep::Multiply => Step::Multiply,
            EvalStep::Divide => Step::Divide,
            EvalStep::Power => Step::Power,
        }
    }
}

/// The model of a schedule.
pub open spec fn steps_view(steps: Seq<EvalStep>) -> Seq<Step> {
    steps.map_values(|s: EvalStep| s@)
}

/// The schedule that reduces `e`: the right subtree's schedule, then the
/// left subtree's, then the node's own operation; a group adds nothing of
/// its own.
pub open spec fn expr_steps(e: Expr) -> Seq<Step>
    decreases e,
{
    match e {
        Expr::Number(t) => seq![Step::Push(t)],
        Expr::Group(inner) => expr_steps(*inner),
        Expr::Sum(l, r) => expr_steps(*r) + expr_steps(*l) + seq![Step::Add],
        Expr::Product(l, r) => expr_steps(*r) + expr_steps(*l) + seq![Step::Multiply],
        Expr::Division(l, r) => expr_steps(*r) + expr_steps(*l) + seq![Step::Divide],
        Expr::Power(l, r) => expr_steps(*r) + expr_steps(*l) + seq![Step::Power],
    }
}

impl ParseNode {
    /// The evaluation schedule of this tree: exactly `expr_steps` of its
    /// model. Reducing the tree is running this schedule; a caller that
    /// carries the arithmetic out on its numbers of choice gets the tree's
    /// value.
    pub fn calculate(&self) -> (r: Vec<EvalStep>)
        requires
            self.wf(),
        ensures
            steps_view(r@) == expr_steps(self@),
        decreases *self,
    {
        match &self.entry {
            GrammarItem::Number(v) => {
                let mut r: Vec<EvalStep> = Vec::new();
                r.push(EvalStep::Push(v.clone()));
                proof {
                    assert(steps_view(r@) =~= expr_steps(self@));
                }
                r
            },
            GrammarItem::Paren => self.children[0].calculate(),
            _ => {
                let mut r = self.children[1].calculate();
                let ghost right_steps = r@;
                let mut left = self.children[0].calculate();
                let ghost left_steps = left@;
                r.append(&mut left);
                let step = match &self.entry {
                    GrammarItem::Sum => EvalStep::Add,
                    GrammarItem::Product => EvalStep::Multiply,
                    GrammarItem::Division => EvalStep::Divide,
                    _ => EvalStep::Power,
                };
                r.push(step);
                proof {
                    assert(steps_view(r@) =~= steps_view(right_steps) + steps_view(left_steps)
                        + seq![r@.last()@]);
                    assert(steps_view(r@) =~= expr_steps(self@));
                }
                r
            },
        }
    }
}

/// The net number of values a schedule leaves on the stack: one for each
/// push, one fewer for each operation, which pops two and pushes one.
pub open spec fn stack_gain(s: Seq<Step>) -> int
    decreases s.len(),
{
    if s.len() == 0 {
        0
    } else {
        step_gain(s[0]) + stack_gain(s.drop_first())
    }
}

/// The net stack effect of one step.
pub open spec fn step_gain(s: Step) -> int {
    match s {
        Step::Push(_) => 1,
        _ => -1,
    }
}

/// A schedule a stack machine can run from an empty stack: it leaves exactly
/// one value, and wherever an operation stands, at least two values are on
/// the stack for it to pop.
pub open spec fn schedule_ok(s: Seq<Step>) -> bool {
    &&& stack_gain(s) == 1
    &&& forall|i: int|
        0 <= i < s.len() && !(s[i] is Push) ==> stack_gain(#[trigger] s.take(i)) >= 2
}

/// The pipeline is a function of the text and the rate table alone: two
/// parses of the same text under the same table yield the same tree, and the
/// schedules computed from those trees are the same. Since `parse` returns
/// exactly `spec_parse_text` and `calculate` exactly `expr_steps`, a fresh
/// parse and evaluation of the same text can never differ from an earlier
/// one.
pub proof fn lemma_pipeline_deterministic(
    s: Seq<char>,
    rt: Seq<(Seq<char>, Seq<char>)>,
    r1: Result<Expr, CalcIssue>,
    r2: Result<Expr, CalcIssue>,
)
    requires
        r1 == spec_parse_text(s, rt),
        r2 == spec_parse_text(s, rt),
    ensures
        r1 == r2,
        r1 is Ok ==> expr_steps(r1->Ok_0) == expr_steps(r2->Ok_0),
{
}

proof fn lemma_stack_gain_add(a: Seq<Step>, b: Seq<Step>)
    ensures
        stack_gain(a + b) == stack_gain(a) + stack_gain(b),
    decreases a.len(),
{
    if a.len() == 0 {
        assert(a + b =~= b);
    } else {
        assert((a + b).drop_first() =~= a.drop_first() + b);
        lemma_stack_gain_add(a.drop_first(), b);
    }
}

/// Every schedule the evaluator produces is runnable: it never asks the
/// stack for a value that is not there, and it ends with exactly the one
/// value of the whole expression.
pub proof fn lemma_schedule_ok(e: Expr)
    ensures
        schedule_ok(expr_steps(e)),
    decreases e,
{
    match e {
        Expr::Number(t) => {
            let s = expr_steps(e);
            assert(s =~= seq![Step::Push(t)]);
            assert(s.drop_first() =~= Seq::<Step>::empty());
            assert(stack_gain(s.drop_first()) == 0);
            assert(stack_gain(s) == step_gain(s[0]) + stack_gain(s.drop_first()));
        },
        Expr::Group(inner) => {
            lemma_schedule_ok(*inner);
        },
        Expr::Sum(l, r) => {
            lemma_schedule_ok(*l);
            lemma_schedule_ok(*r);
            lemma_schedule_binary(expr_steps(*l), expr_steps(*r), Step::Add);
        },
        Expr::Product(l, r) => {
            lemma_schedule_ok(*l);
            lemma_schedule_ok(*r);
            lemma_schedule_binary(expr_steps(*l), expr_steps(*r), Step::Multiply);
        },
        Expr::Division(l, r) => {
            lemma_schedule_ok(*l);
            lemma_schedule_ok(*r);
            lemma_schedule_binary(expr_steps(*l), expr_steps(*r), Step::Divide);
        },
        Expr::Power(l, r) => {
            lemma_schedule_ok(*l);
            lemma_schedule_ok(*r);
            lemma_schedule_binary(expr_steps(*l), expr_steps(*r), Step::Power);
        },
    }
}

/// The schedule of one operator node is runnable, given that its children's
/// schedules are.
proof fn lemma_schedule_binary(sl: Seq<Step>, sr: Seq<Step>, op: Step)
    requires
        schedule_ok(sl),
        schedule_ok(sr),
        !(op is Push),
    ensures
        schedule_ok(sr + sl + seq![op]),
{
    let s = sr + sl + seq![op];
    lemma_stack_gain_add(sr, sl);
    lemma_stack_gain_add(sr + sl, seq![op]);
    assert(stack_gain(seq![op]) == step_gain(op) + stack_gain(seq![op].drop_first()));
    assert(seq![op].drop_first() =~= Seq::<Step>::empty());
    assert(stack_gain(s) == 1);
    assert forall|i: int| 0 <= i < s.len() && !(s[i] is Push) implies stack_gain(
        #[trigger] s.take(i),
    ) >= 2 by {
        if i < sr.len() {
            assert(s.take(i) =~= sr.take(i));
            assert(sr[i] == s[i]);
        } else if i < sr.len() + sl.len() {
            let k = i - sr.len();
            assert(s.take(i) =~= sr + sl.take(k));
            lemma_stack_gain_add(sr, sl.take(k));
            assert(sl[k] == s[i]);
            if !(sl[k] is Push) {
                assert(stack_gain(sl.take(k)) >= 2);
            }
        } else {
            assert(i == sr.len() + sl.len());
            assert(s.take(i) =~= sr + sl);
        }
    }
}

} // verus!
