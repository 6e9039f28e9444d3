//! The computation language of the engine.
//!
//! A memo's computation and a reaction's body are values of a small
//! expression language over cell reads, memo reads and arithmetic.  The
//! engine interprets these programs; dependency discovery happens at the
//! `ReadCell` / `ReadMemo` steps, exactly as the reads occur.

use vstd::prelude::*;

use crate::value::{ValV, Value, clone_value};

verus! {

/// Mathematical view of an expression.
#[verifier::ext_equal]
pub ghost enum ExprV {
    Const(ValV),
    ReadCell(usize),
    ReadMemo(usize),
    Add(Box<ExprV>, Box<ExprV>),
    Sub(Box<ExprV>, Box<ExprV>),
    Mul(Box<ExprV>, Box<ExprV>),
    ParseInt(Box<ExprV>),
    IfElse(Box<ExprV>, Box<ExprV>, Box<ExprV>),
}

/// A pure computation over the reactive graph: it reads cells and memos
/// and combines what it read.
pub enum Expr {
    /// A constant value.
    Const(Value),
    /// The current value of a cell; reading it registers the reader.
    ReadCell(usize),
    /// The (possibly recomputed) value of a memo.
    ReadMemo(usize),
    /// Integer addition; faults on overflow or non-integers.
    Add(Box<Expr>, Box<Expr>),
    /// Integer subtraction.
    Sub(Box<Expr>, Box<Expr>),
    /// Integer multiplication.
    Mul(Box<Expr>, Box<Expr>),
    /// The integer denoted by a byte string.
    ParseInt(Box<Expr>),
    /// Chooses a branch by a boolean condition.
    IfElse(Box<Expr>, Box<Expr>, Box<Expr>),
}

impl View for Expr {
    type V = ExprV;

    open spec fn view(&self) -> ExprV
        decreases self,
    {
        match self {
            Expr::Const(v) => ExprV::Const(v@),
            Expr::ReadCell(c) => ExprV::ReadCell(*c),
            Expr::ReadMemo(m) => ExprV::ReadMemo(*m),
            Expr::Add(a, b) => ExprV::Add(Box::new((**a)@), Box::new((**b)@)),
            Expr::Sub(a, b) => ExprV::Sub(Box::new((**a)@), Box::new((**b)@)),
            Expr::Mul(a, b) => ExprV::Mul(Box::new((**a)@), Box::new((**b)@)),
            Expr::ParseInt(a) => ExprV::ParseInt(Box::new((**a)@)),
            Expr::IfElse(c, t, f) => ExprV::IfElse(
                Box::new((**c)@),
                Box::new((**t)@),
                Box::new((**f)@),
            ),
        }
    }
}

/// Mathematical view of a reaction body.
#[verifier::ext_equal]
pub ghost enum BodyV {
    Skip,
    Observe(ExprV),
    SetSlot(usize, ExprV),
    IfElse(ExprV, Box<BodyV>, Box<BodyV>),
    Then(Box<BodyV>, Box<BodyV>),
}

/// A reaction's program: reads establish subscriptions, and writes go to
/// non-reactive output slots.
pub enum Body {
    /// Does nothing.
    Skip,
    /// Evaluates an expression for its reads alone.
    Observe(Expr),
    /// Evaluates an expression and stores the result in an output slot.
    SetSlot(usize, Expr),
    /// Chooses a branch by a boolean condition.
    IfElse(Expr, Box<Body>, Box<Body>),
    /// Runs two bodies in order.
    Then(Box<Body>, Box<Body>),
}

impl View for Body {
    type V = BodyV;

    open spec fn view(&self) -> BodyV
        decreases self,
    {
        match self {
            Body::Skip => BodyV::Skip,
            Body::Observe(e) => BodyV::Observe(e@),
            Body::SetSlot(s, e) => BodyV::SetSlot(*s, e@),
            Body::IfElse(c, t, f) => BodyV::IfElse(c@, Box::new((**t)@), Box::new((**f)@)),
            Body::Then(a, b) => BodyV::Then(Box::new((**a)@), Box::new((**b)@)),
        }
    }
}

/// Every cell the expression mentions exists, and every memo it mentions
/// was created before `memo_bound`.  A memo's own computation satisfies
/// this with the memo's own identity as the bound, which is what makes
/// evaluation well-founded.
pub open spec fn expr_wf(e: ExprV, n_cells: nat, memo_bound: nat) -> bool
    decreases e,
{
    match e {
        ExprV::Const(_) => true,
        ExprV::ReadCell(c) => (c as nat) < n_cells,
        ExprV::ReadMemo(m) => (m as nat) < memo_bound,
        ExprV::Add(a, b) => expr_wf(*a, n_cells, memo_bound) && expr_wf(*b, n_cells, memo_bound),
        ExprV::Sub(a, b) => expr_wf(*a, n_cells, memo_bound) && expr_wf(*b, n_cells, memo_bound),
        ExprV::Mul(a, b) => expr_wf(*a, n_cells, memo_bound) && expr_wf(*b, n_cells, memo_bound),
        ExprV::ParseInt(a) => expr_wf(*a, n_cells, memo_bound),
        ExprV::IfElse(c, t, f) => expr_wf(*c, n_cells, memo_bound) && expr_wf(
            *t,
            n_cells,
            memo_bound,
        ) && expr_wf(*f, n_cells, memo_bound),
    }
}

/// More cells and a larger memo bound keep an expression well-formed.
pub proof fn lemma_expr_wf_widen(e: ExprV, c1: nat, c2: nat, b1: nat, b2: nat)
    requires
        expr_wf(e, c1, b1),
        c1 <= c2,
        b1 <= b2,
    ensures
        expr_wf(e, c2, b2),
    decreases e,
{
    match e {
        ExprV::Add(a, b) => {
            lemma_expr_wf_widen(*a, c1, c2, b1, b2);
            lemma_expr_wf_widen(*b, c1, c2, b1, b2);
        },
        ExprV::Sub(a, b) => {
            lemma_expr_wf_widen(*a, c1, c2, b1, b2);
            lemma_expr_wf_widen(*b, c1, c2, b1, b2);
        },
        ExprV::Mul(a, b) => {
            lemma_expr_wf_widen(*a, c1, c2, b1, b2);
            lemma_expr_wf_widen(*b, c1, c2, b1, b2);
        },
        ExprV::ParseInt(a) => {
            lemma_expr_wf_widen(*a, c1, c2, b1, b2);
        },
        ExprV::IfElse(c, t, f) => {
            lemma_expr_wf_widen(*c, c1, c2, b1, b2);
            lemma_expr_wf_widen(*t, c1, c2, b1, b2);
            lemma_expr_wf_widen(*f, c1, c2, b1, b2);
        },
        _ => {},
    }
}

/// The size of an expression, for termination measures.
pub open spec fn expr_size(e: ExprV) -> nat
    decreases e,
{
    match e {
        ExprV::Const(_) => 1,
        ExprV::ReadCell(_) => 1,
        ExprV::ReadMemo(_) => 1,
        ExprV::Add(a, b) => 1 + expr_size(*a) + expr_size(*b),
        ExprV::Sub(a, b) => 1 + expr_size(*a) + expr_size(*b),
        ExprV::Mul(a, b) => 1 + expr_size(*a) + expr_size(*b),
        ExprV::ParseInt(a) => 1 + expr_size(*a),
        ExprV::IfElse(c, t, f) => 1 + expr_size(*c) + expr_size(*t) + expr_size(*f),
    }
}

/// More cells, memos and slots keep a body well-formed.
pub proof fn lemma_body_wf_widen(b: BodyV, c1: nat, c2: nat, m1: nat, m2: nat, s1: nat, s2: nat)
    requires
        body_wf(b, c1, m1, s1),
        c1 <= c2,
        m1 <= m2,
        s1 <= s2,
    ensures
        body_wf(b, c2, m2, s2),
    decreases b,
{
    match b {
        BodyV::Observe(e) => {
            lemma_expr_wf_widen(e, c1, c2, m1, m2);
        },
        BodyV::SetSlot(s, e) => {
            lemma_expr_wf_widen(e, c1, c2, m1, m2);
        },
        BodyV::IfElse(c, t, f) => {
            lemma_expr_wf_widen(c, c1, c2, m1, m2);
            lemma_body_wf_widen(*t, c1, c2, m1, m2, s1, s2);
            lemma_body_wf_widen(*f, c1, c2, m1, m2, s1, s2);
        },
        BodyV::Then(a, b2) => {
            lemma_body_wf_widen(*a, c1, c2, m1, m2, s1, s2);
            lemma_body_wf_widen(*b2, c1, c2, m1, m2, s1, s2);
        },
        _ => {},
    }
}

/// Every cell, memo and slot the body mentions exists.
pub open spec fn body_wf(b: BodyV, n_cells: nat, n_memos: nat, n_slots: nat) -> bool
    decreases b,
{
    match b {
        BodyV::Skip => true,
        BodyV::Observe(e) => expr_wf(e, n_cells, n_memos),
        BodyV::SetSlot(s, e) => (s as nat) < n_slots && expr_wf(e, n_cells, n_memos),
        BodyV::IfElse(c, t, f) => expr_wf(c, n_cells, n_memos) && body_wf(
            *t,
            n_cells,
            n_memos,
            n_slots,
        ) && body_wf(*f, n_cells, n_memos, n_slots),
        BodyV::Then(a, b) => body_wf(*a, n_cells, n_memos, n_slots) && body_wf(
            *b,
            n_cells,
            n_memos,
            n_slots,
        ),
    }
}

/// Decides `expr_wf` for a given expression.
pub fn check_expr(e: &Expr, n_cells: usize, memo_bound: usize) -> (r: bool)
    ensures
        r == expr_wf(e@, n_cells as nat, memo_bound as nat),
    decreases e,
{
    match e {
        Expr::Const(_) => true,
        Expr::ReadCell(c) => *c < n_cells,
        Expr::ReadMemo(m) => *m < memo_bound,
        Expr::Add(a, b) => check_expr(a, n_cells, memo_bound) && check_expr(
            b,
            n_cells,
            memo_bound,
        ),
        Expr::Sub(a, b) => check_expr(a, n_cells, memo_bound) && check_expr(
            b,
            n_cells,
            memo_bound,
        ),
        Expr::Mul(a, b) => check_expr(a, n_cells, memo_bound) && check_expr(
            b,
            n_cells,
            memo_bound,
        ),
        Expr::ParseInt(a) => check_expr(a, n_cells, memo_bound),
        Expr::IfElse(c, t, f) => check_expr(c, n_cells, memo_bound) && check_expr(
            t,
            n_cells,
            memo_bound,
        ) && check_expr(f, n_cells, memo_bound),
    }
}

/// Decides `body_wf` for a given body.
pub fn check_body(b: &Body, n_cells: usize, n_memos: usize, n_slots: usize) -> (r: bool)
    ensures
        r == body_wf(b@, n_cells as nat, n_memos as nat, n_slots as nat),
    decreases b,
{
    match b {
        Body::Skip => true,
        Body::Observe(e) => check_expr(e, n_cells, n_memos),
        Body::SetSlot(s, e) => *s < n_slots && check_expr(e, n_cells, n_memos),
        Body::IfElse(c, t, f) => check_expr(c, n_cells, n_memos) && check_body(
            t,
            n_cells,
            n_memos,
            n_slots,
        ) && check_body(f, n_cells, n_memos, n_slots),
        Body::Then(a, b2) => check_body(a, n_cells, n_memos, n_slots) && check_body(
            b2,
            n_cells,
            n_memos,
            n_slots,
        ),
    }
}

/// A copy of an expression, with the same mathematical view.
pub fn clone_expr(e: &Expr) -> (r: Expr)
    ensures
        r@ == e@,
    decreases e,
{
    match e {
        Expr::Const(v) => Expr::Const(clone_value(v)),
        Expr::ReadCell(c) => Expr::ReadCell(*c),
        Expr::ReadMemo(m) => Expr::ReadMemo(*m),
        Expr::Add(a, b) => Expr::Add(Box::new(clone_expr(a)), Box::new(clone_expr(b))),
        Expr::Sub(a, b) => Expr::Sub(Box::new(clone_expr(a)), Box::new(clone_expr(b))),
        Expr::Mul(a, b) => Expr::Mul(Box::new(clone_expr(a)), Box::new(clone_expr(b))),
        Expr::ParseInt(a) => Expr::ParseInt(Box::new(clone_expr(a))),
        Expr::IfElse(c, t, f) => Expr::IfElse(
            Box::new(clone_expr(c)),
            Box::new(clone_expr(t)),
            Box::new(clone_expr(f)),
        ),
    }
}

/// A copy of a body, with the same mathematical view.
pub fn clone_body(b: &Body) -> (r: Body)
    ensures
        r@ == b@,
    decreases b,
{
    match b {
        Body::Skip => Body::Skip,
        Body::Observe(e) => Body::Observe(clone_expr(e)),
        Body::SetSlot(s, e) => Body::SetSlot(*s, clone_expr(e)),
        Body::IfElse(c, t, f) => Body::IfElse(
            clone_expr(c),
            Box::new(clone_body(t)),
            Box::new(clone_body(f)),
        ),
        Body::Then(a, b2) => Body::Then(Box::new(clone_body(a)), Box::new(clone_body(b2))),
    }
}

} // verus!
