//! Proved laws of the engine.
//!
//! These theorems state, over the semantics, what the engine guarantees
//! across operations: evaluation never unsubscribes or kills anything
//! (`eval_frame`), a collecting pass subscribes the reaction to every
//! cell the collector names, invalidation computes nothing and only
//! shrinks the cache, a write runs exactly the live subscribed reactions
//! and no other, memoization returns the cached value without re-running
//! the computation, and a dropped entity is silent and leaves the cache.

use vstd::prelude::*;

use crate::cache::{
    entries_lookup, entries_promote, entries_put, entries_remove, lemma_lookup_remove_other,
    lemma_lookup_remove_same,
};
use crate::expr::{BodyV, ExprV};
use crate::sem::{
    body_s, bump_computes_s, cache_promote_s, cache_put_s, cache_remove_s, cell_set_s,
    collecting_s, compute_memo_s, drop_memo_s, eval_s, flush_cell_s, flush_list_s, inv_cell_s,
    inv_list_s, inv_memo_s, memo_alive_s, memo_get_s, new_react_deps_s, pop_memo_s, push_memo_s,
    react_alive_s, reg_cell_s, reg_memo_s, replay_s,
};
use crate::state::{RtV, at_rest, inv_rt, no_dup};
use crate::value::{ValV, bump_s};

verus! {

/// What evaluation can never do: change a value, a body, an aliveness
/// flag or a computation, unsubscribe a reaction, or leave the stacks
/// unbalanced.
pub open spec fn eval_frame(a: RtV, b: RtV) -> bool {
    &&& b.cells.len() == a.cells.len()
    &&& b.memos.len() == a.memos.len()
    &&& b.reacts == a.reacts
    &&& b.slots == a.slots
    &&& b.mstack == a.mstack
    &&& b.rstack == a.rstack
    &&& forall|i: int| 0 <= i < a.cells.len() ==> (#[trigger] b.cells[i]).value == a.cells[i].value
    &&& forall|i: int, r: usize|
        0 <= i < a.cells.len() && #[trigger] a.cells[i].subs.contains(r)
            ==> b.cells[i].subs.contains(r)
    &&& forall|i: int|
        0 <= i < a.cells.len() ==> (no_dup(a.cells[i].subs) ==> no_dup(
            (#[trigger] b.cells[i]).subs,
        ))
    &&& forall|i: int|
        0 <= i < a.memos.len() ==> (#[trigger] b.memos[i]).alive == a.memos[i].alive
            && b.memos[i].expr == a.memos[i].expr
}

pub proof fn lemma_eval_frame_trans(a: RtV, b: RtV, c: RtV)
    requires
        eval_frame(a, b),
        eval_frame(b, c),
    ensures
        eval_frame(a, c),
{
    assert forall|i: int, r: usize|
        0 <= i < a.cells.len() && #[trigger] a.cells[i].subs.contains(r) implies c.cells[
        i].subs.contains(r) by {
        assert(b.cells[i].subs.contains(r));
    }
}

/// A cell registration keeps the frame: it can only add a subscriber.
proof fn lemma_reg_cell_frame(rt: RtV, c: int)
    requires
        0 <= c < rt.cells.len(),
    ensures
        eval_frame(rt, reg_cell_s(rt, c)),
{
    let b = reg_cell_s(rt, c);
    assert forall|i: int, r: usize|
        0 <= i < rt.cells.len() && #[trigger] rt.cells[i].subs.contains(r) implies b.cells[
        i].subs.contains(r) by {
        if i == c {
            let k = choose|k: int| 0 <= k < rt.cells[i].subs.len() && rt.cells[i].subs[k] == r;
            assert(b.cells[i].subs[k] == r);
        }
    }
    assert forall|i: int|
        0 <= i < rt.cells.len() && no_dup(rt.cells[i].subs) implies no_dup(b.cells[i].subs) by {
        if i == c && b.cells[i].subs.len() == rt.cells[i].subs.len() + 1 {
            let s0 = rt.cells[i].subs;
            let r = b.cells[i].subs.last();
            assert(!s0.contains(r));
            assert forall|j1: int, j2: int|
                0 <= j1 < j2 < b.cells[i].subs.len() implies b.cells[i].subs[j1] != b.cells[
            i].subs[j2] by {
                if j2 == s0.len() {
                    assert(b.cells[i].subs[j1] == s0[j1]);
                    if s0[j1] == r {
                        assert(s0.contains(r));
                    }
                }
            }
        }
    }
}

/// A memo registration keeps the frame.
proof fn lemma_reg_memo_frame(rt: RtV, m: int)
    requires
        0 <= m < rt.memos.len(),
    ensures
        eval_frame(rt, reg_memo_s(rt, m)),
{
}

/// Evaluation keeps the frame.
pub proof fn lemma_eval_frame_holds(rt: RtV, e: ExprV, bound: nat)
    ensures
        eval_frame(rt, eval_s(rt, e, bound).0),
    decreases bound, 0int, crate::expr::expr_size(e),
{
    match e {
        ExprV::Const(_) => {},
        ExprV::ReadCell(c) => {
            if (c as int) < rt.cells.len() {
                lemma_reg_cell_frame(rt, c as int);
            }
        },
        ExprV::ReadMemo(m) => {
            if (m as nat) < bound && memo_alive_s(rt, m) {
                let rta = reg_memo_s(rt, m as int);
                let rt1 = push_memo_s(rta, m);
                lemma_reg_memo_frame(rt, m as int);
                if collecting_s(rt1) {
                    let rt2 = cache_remove_s(rt1, m);
                    lemma_compute_frame(rt2, m);
                    let (rt3, res) = compute_memo_s(rt2, m);
                    let rtp = pop_memo_s(rt3);
                    assert(rtp.mstack =~= rt.mstack);
                    assert forall|i: int, r: usize|
                        0 <= i < rt.cells.len() && #[trigger] rt.cells[i].subs.contains(r) implies
                        rtp.cells[i].subs.contains(r) by {
                        assert(rta.cells[i].subs.contains(r));
                        assert(rt2.cells[i].subs.contains(r));
                        assert(rt3.cells[i].subs.contains(r));
                    }
                    assert(eval_frame(rt, rtp));
                } else {
                    match entries_lookup(rt1.cache, m) {
                        Some(v) => {
                            let rtp = pop_memo_s(cache_promote_s(rt1, m));
                            assert(rtp.mstack =~= rt.mstack);
                            assert forall|i: int, r: usize|
                                0 <= i < rt.cells.len() && #[trigger] rt.cells[i].subs.contains(r)
                                implies rtp.cells[i].subs.contains(r) by {
                                assert(rta.cells[i].subs.contains(r));
                            }
                            assert(eval_frame(rt, rtp));
                        },
                        None => {
                            lemma_compute_frame(rt1, m);
                            let (rt3, res) = compute_memo_s(rt1, m);
                            let rtp = pop_memo_s(rt3);
                            assert(rtp.mstack =~= rt.mstack);
                            assert forall|i: int, r: usize|
                                0 <= i < rt.cells.len() && #[trigger] rt.cells[i].subs.contains(r)
                                implies rtp.cells[i].subs.contains(r) by {
                                assert(rta.cells[i].subs.contains(r));
                                assert(rt1.cells[i].subs.contains(r));
                                assert(rt3.cells[i].subs.contains(r));
                            }
                            assert(eval_frame(rt, rtp));
                        },
                    }
                }
            }
        },
        ExprV::Add(a, b) => {
            lemma_eval_frame_holds(rt, *a, bound);
            let (rt1, r1) = eval_s(rt, *a, bound);
            lemma_eval_frame_holds(rt1, *b, bound);
            let (rt2, r2) = eval_s(rt1, *b, bound);
            lemma_eval_frame_trans(rt, rt1, rt2);
        },
        ExprV::Sub(a, b) => {
            lemma_eval_frame_holds(rt, *a, bound);
            let (rt1, r1) = eval_s(rt, *a, bound);
            lemma_eval_frame_holds(rt1, *b, bound);
            let (rt2, r2) = eval_s(rt1, *b, bound);
            lemma_eval_frame_trans(rt, rt1, rt2);
        },
        ExprV::Mul(a, b) => {
            lemma_eval_frame_holds(rt, *a, bound);
            let (rt1, r1) = eval_s(rt, *a, bound);
            lemma_eval_frame_holds(rt1, *b, bound);
            let (rt2, r2) = eval_s(rt1, *b, bound);
            lemma_eval_frame_trans(rt, rt1, rt2);
        },
        ExprV::ParseInt(a) => {
            lemma_eval_frame_holds(rt, *a, bound);
        },
        ExprV::IfElse(c, t, f) => {
            lemma_eval_frame_holds(rt, *c, bound);
            let (rt1, r1) = eval_s(rt, *c, bound);
            match r1 {
                Some(ValV::Bool(bv)) => {
                    if bv {
                        lemma_eval_frame_holds(rt1, *t, bound);
                        lemma_eval_frame_trans(rt, rt1, eval_s(rt1, *t, bound).0);
                    } else {
                        lemma_eval_frame_holds(rt1, *f, bound);
                        lemma_eval_frame_trans(rt, rt1, eval_s(rt1, *f, bound).0);
                    }
                },
                _ => {},
            }
        },
    }
}

/// Running a memo's computation keeps the frame.
proof fn lemma_compute_frame(rt: RtV, m: usize)
    requires
        (m as int) < rt.memos.len(),
    ensures
        eval_frame(rt, compute_memo_s(rt, m).0),
    decreases m as nat, 1int, 0nat,
{
    let rt1 = bump_computes_s(rt, m as int);
    lemma_eval_frame_holds(rt1, rt1.memos[m as int].expr, m as nat);
    let (rt2, res) = eval_s(rt1, rt1.memos[m as int].expr, m as nat);
    assert(eval_frame(rt, rt1));
    lemma_eval_frame_trans(rt, rt1, rt2);
    match res {
        Some(v) => {
            assert(eval_frame(rt2, cache_put_s(rt2, m, v)));
            lemma_eval_frame_trans(rt, rt2, cache_put_s(rt2, m, v));
        },
        None => {},
    }
}

/// What a body run can additionally do: write output slots — so only
/// the slot count is framed.
pub open spec fn body_frame(a: RtV, b: RtV) -> bool {
    &&& b.cells.len() == a.cells.len()
    &&& b.memos.len() == a.memos.len()
    &&& b.reacts == a.reacts
    &&& b.slots.len() == a.slots.len()
    &&& b.mstack == a.mstack
    &&& b.rstack == a.rstack
    &&& forall|i: int| 0 <= i < a.cells.len() ==> (#[trigger] b.cells[i]).value == a.cells[i].value
    &&& forall|i: int, r: usize|
        0 <= i < a.cells.len() && #[trigger] a.cells[i].subs.contains(r)
            ==> b.cells[i].subs.contains(r)
    &&& forall|i: int|
        0 <= i < a.cells.len() ==> (no_dup(a.cells[i].subs) ==> no_dup(
            (#[trigger] b.cells[i]).subs,
        ))
    &&& forall|i: int|
        0 <= i < a.memos.len() ==> (#[trigger] b.memos[i]).alive == a.memos[i].alive
            && b.memos[i].expr == a.memos[i].expr
}

pub proof fn lemma_body_frame_trans(a: RtV, b: RtV, c: RtV)
    requires
        body_frame(a, b),
        body_frame(b, c),
    ensures
        body_frame(a, c),
{
    assert forall|i: int, r: usize|
        0 <= i < a.cells.len() && #[trigger] a.cells[i].subs.contains(r) implies c.cells[
        i].subs.contains(r) by {
        assert(b.cells[i].subs.contains(r));
    }
}

/// A body run keeps its frame.
pub proof fn lemma_body_frame_holds(rt: RtV, b: BodyV, bound: nat)
    ensures
        body_frame(rt, body_s(rt, b, bound).0),
    decreases b,
{
    match b {
        BodyV::Skip => {},
        BodyV::Observe(e) => {
            lemma_eval_frame_holds(rt, e, bound);
        },
        BodyV::SetSlot(s, e) => {
            lemma_eval_frame_holds(rt, e, bound);
        },
        BodyV::IfElse(c, t, f) => {
            lemma_eval_frame_holds(rt, c, bound);
            let (rt1, r) = eval_s(rt, c, bound);
            match r {
                Some(ValV::Bool(bv)) => {
                    if bv {
                        lemma_body_frame_holds(rt1, *t, bound);
                        lemma_body_frame_trans(rt, rt1, body_s(rt1, *t, bound).0);
                    } else {
                        lemma_body_frame_holds(rt1, *f, bound);
                        lemma_body_frame_trans(rt, rt1, body_s(rt1, *f, bound).0);
                    }
                },
                _ => {},
            }
        },
        BodyV::Then(a, b2) => {
            lemma_body_frame_holds(rt, *a, bound);
            let (rt1, ok) = body_s(rt, *a, bound);
            if ok {
                lemma_body_frame_holds(rt1, *b2, bound);
                lemma_body_frame_trans(rt, rt1, body_s(rt1, *b2, bound).0);
            }
        },
    }
}

// ---------------------------------------------------------------------
// idempotent writes
// ---------------------------------------------------------------------

/// Writing a cell's current value back reports no change and does
/// nothing at all: no invalidation, no cache eviction, no reaction
/// replay — the whole state is untouched.
pub proof fn lemma_idempotent_write(rt: RtV, c: usize, v: ValV)
    requires
        (c as int) < rt.cells.len(),
        v == rt.cells[c as int].value,
    ensures
        cell_set_s(rt, c, v) == (rt, false),
{
}

// ---------------------------------------------------------------------
// invalidation
// ---------------------------------------------------------------------

/// What invalidation can never do: it computes nothing, runs nothing,
/// reads nothing, changes no value, no subscription and no aliveness; it
/// only evicts cache entries and prunes dead dependents.
pub open spec fn inv_frame(a: RtV, b: RtV) -> bool {
    &&& b.cells.len() == a.cells.len()
    &&& b.memos.len() == a.memos.len()
    &&& b.reacts == a.reacts
    &&& b.slots == a.slots
    &&& b.mstack == a.mstack
    &&& b.rstack == a.rstack
    &&& forall|i: int|
        0 <= i < a.cells.len() ==> {
            let cf = #[trigger] b.cells[i];
            let co = a.cells[i];
            cf.value == co.value && cf.subs == co.subs && cf.reads == co.reads
        }
    &&& forall|i: int|
        0 <= i < a.memos.len() ==> {
            let mf = #[trigger] b.memos[i];
            let mo = a.memos[i];
            mf.alive == mo.alive && mf.expr == mo.expr && mf.computes == mo.computes
        }
    &&& forall|i: int, x: usize|
        0 <= i < a.memos.len() && #[trigger] a.memos[i].deps.contains(x) && memo_alive_s(a, x)
            ==> b.memos[i].deps.contains(x)
    &&& forall|k: usize|
        #[trigger] entries_lookup(b.cache, k) is Some ==> entries_lookup(a.cache, k) is Some
}

pub proof fn lemma_inv_frame_trans(a: RtV, b: RtV, c: RtV)
    requires
        inv_frame(a, b),
        inv_frame(b, c),
    ensures
        inv_frame(a, c),
{
    assert forall|i: int, x: usize|
        0 <= i < a.memos.len() && #[trigger] a.memos[i].deps.contains(x) && memo_alive_s(a, x)
        implies c.memos[i].deps.contains(x) by {
        assert(b.memos[i].deps.contains(x));
        assert(memo_alive_s(b, x));
    }
}

/// A cache removal only removes.
proof fn lemma_remove_is_frame(rt: RtV, d: usize)
    ensures
        inv_frame(rt, cache_remove_s(rt, d)),
{
    let b = cache_remove_s(rt, d);
    assert forall|k: usize| #[trigger] entries_lookup(b.cache, k) is Some implies entries_lookup(
        rt.cache,
        k,
    ) is Some by {
        if k == d {
            lemma_lookup_remove_same(rt.cache, d);
        } else {
            lemma_lookup_remove_other(rt.cache, d, k);
        }
    }
}

/// Invalidating a memo keeps the invalidation frame.
pub proof fn lemma_inv_memo_frame(rt: RtV, m: usize, n: nat)
    ensures
        inv_frame(rt, inv_memo_s(rt, m, n)),
    decreases n - m, 1int, 0int,
{
    if (m as nat) < n && (m as int) < rt.memos.len() {
        let ds = rt.memos[m as int].deps;
        lemma_inv_list_frame(rt, ds, 0, m as int, n);
        let rt1 = inv_list_s(rt, ds, 0, m as int, n);
        let out = inv_memo_s(rt, m, n);
        let p = crate::sem::live_memo_pred(rt1);
        assert forall|i: int, x: usize|
            0 <= i < rt.memos.len() && #[trigger] rt.memos[i].deps.contains(x) && memo_alive_s(
                rt,
                x,
            ) implies out.memos[i].deps.contains(x) by {
            assert(rt1.memos[i].deps.contains(x));
            if i == m as int {
                assert(ds.contains(x));
                let j = choose|j: int| 0 <= j < ds.len() && ds[j] == x;
                assert(memo_alive_s(rt1, x));
                ds.lemma_filter_contains(p, j);
                assert(out.memos[i].deps == ds.filter(p));
            }
        }
    }
}

/// Invalidating a dependent list keeps the invalidation frame.
pub proof fn lemma_inv_list_frame(rt: RtV, ds: Seq<usize>, i: int, floor: int, n: nat)
    ensures
        inv_frame(rt, inv_list_s(rt, ds, i, floor, n)),
    decreases n - floor, 0int, ds.len() - i,
{
    if i < 0 || i >= ds.len() || floor < -1 {
    } else {
        let d = ds[i];
        if memo_alive_s(rt, d) && floor < d && (d as nat) < n {
            lemma_remove_is_frame(rt, d);
            lemma_inv_memo_frame(cache_remove_s(rt, d), d, n);
            let rt1 = inv_memo_s(cache_remove_s(rt, d), d, n);
            lemma_inv_frame_trans(rt, cache_remove_s(rt, d), rt1);
            lemma_inv_list_frame(rt1, ds, i + 1, floor, n);
            lemma_inv_frame_trans(rt, rt1, inv_list_s(rt1, ds, i + 1, floor, n));
        } else {
            lemma_inv_list_frame(rt, ds, i + 1, floor, n);
        }
    }
}

/// Invalidating a cell keeps the invalidation frame.
pub proof fn lemma_inv_cell_frame(rt: RtV, c: int)
    requires
        0 <= c < rt.cells.len(),
    ensures
        inv_frame(rt, inv_cell_s(rt, c)),
{
    let ds = rt.cells[c].deps;
    lemma_inv_list_frame(rt, ds, 0, -1, rt.memos.len());
}

/// Processing a dependent list evicts every live dependent it meets.
proof fn lemma_inv_list_removes(rt: RtV, ds: Seq<usize>, i: int, floor: int, n: nat, j: int)
    requires
        0 <= i <= j < ds.len(),
        -1 <= floor,
        memo_alive_s(rt, ds[j]),
        floor < ds[j],
        (ds[j] as nat) < n,
    ensures
        entries_lookup(inv_list_s(rt, ds, i, floor, n).cache, ds[j]) is None,
    decreases ds.len() - i,
{
    let d = ds[i];
    let rt1 = if memo_alive_s(rt, d) && floor < d && (d as nat) < n {
        inv_memo_s(cache_remove_s(rt, d), d, n)
    } else {
        rt
    };
    if memo_alive_s(rt, d) && floor < d && (d as nat) < n {
        lemma_remove_is_frame(rt, d);
        lemma_inv_memo_frame(cache_remove_s(rt, d), d, n);
        lemma_inv_frame_trans(rt, cache_remove_s(rt, d), rt1);
    }
    if i == j {
        lemma_lookup_remove_same(rt.cache, d);
        assert(entries_lookup(cache_remove_s(rt, d).cache, d) is None);
        assert(entries_lookup(rt1.cache, d) is None);
        lemma_inv_list_frame(rt1, ds, i + 1, floor, n);
        assert(entries_lookup(inv_list_s(rt1, ds, i + 1, floor, n).cache, d) is None);
    } else {
        assert(memo_alive_s(rt1, ds[j]));
        lemma_inv_list_removes(rt1, ds, i + 1, floor, n, j);
    }
}

/// Invalidating a memo evicts every live direct dependent.
pub proof fn lemma_inv_memo_removes_dep(rt: RtV, m: usize, n: nat, j: int)
    requires
        (m as nat) < n,
        (m as int) < rt.memos.len(),
        0 <= j < rt.memos[m as int].deps.len(),
        memo_alive_s(rt, rt.memos[m as int].deps[j]),
        m < rt.memos[m as int].deps[j],
        (rt.memos[m as int].deps[j] as nat) < n,
    ensures
        entries_lookup(inv_memo_s(rt, m, n).cache, rt.memos[m as int].deps[j]) is None,
{
    let ds = rt.memos[m as int].deps;
    lemma_inv_list_removes(rt, ds, 0, m as int, n, j);
}

/// Processing a dependent list also evicts the live dependents of each
/// live dependent it meets: invalidation is transitive.
proof fn lemma_inv_list_removes2(
    rt: RtV,
    ds: Seq<usize>,
    i: int,
    floor: int,
    n: nat,
    j: int,
    d2: usize,
)
    requires
        0 <= i <= j < ds.len(),
        -1 <= floor,
        memo_alive_s(rt, ds[j]),
        floor < ds[j],
        (ds[j] as nat) < n,
        rt.memos[ds[j] as int].deps.contains(d2),
        memo_alive_s(rt, d2),
        ds[j] < d2,
        (d2 as nat) < n,
    ensures
        entries_lookup(inv_list_s(rt, ds, i, floor, n).cache, d2) is None,
    decreases ds.len() - i,
{
    let d = ds[i];
    let rt1 = if memo_alive_s(rt, d) && floor < d && (d as nat) < n {
        inv_memo_s(cache_remove_s(rt, d), d, n)
    } else {
        rt
    };
    if memo_alive_s(rt, d) && floor < d && (d as nat) < n {
        lemma_remove_is_frame(rt, d);
        lemma_inv_memo_frame(cache_remove_s(rt, d), d, n);
        lemma_inv_frame_trans(rt, cache_remove_s(rt, d), rt1);
    }
    if i == j {
        let rtr = cache_remove_s(rt, d);
        let k = choose|k: int|
            0 <= k < rtr.memos[d as int].deps.len() && rtr.memos[d as int].deps[k] == d2;
        lemma_inv_memo_removes_dep(rtr, d, n, k);
        assert(entries_lookup(rt1.cache, d2) is None);
        lemma_inv_list_frame(rt1, ds, i + 1, floor, n);
    } else {
        assert(memo_alive_s(rt1, ds[j]));
        assert(rt1.memos[ds[j] as int].deps.contains(d2));
        assert(memo_alive_s(rt1, d2));
        lemma_inv_list_removes2(rt1, ds, i + 1, floor, n, j, d2);
    }
}

// ---------------------------------------------------------------------
// the transitive-invalidation law
// ---------------------------------------------------------------------

/// Writing a new value into a cell evicts the cell's live dependent
/// memos and, transitively, their live dependents from the result cache
/// — and, with no reaction subscribed, computes nothing: the next read
/// recomputes, not the write itself.
pub proof fn lemma_transitive_invalidation(rt: RtV, c: usize, v: ValV, m1: usize, m2: usize)
    requires
        inv_rt(rt),
        at_rest(rt),
        (c as int) < rt.cells.len(),
        v != rt.cells[c as int].value,
        rt.cells[c as int].subs.len() == 0,
        rt.cells[c as int].deps.contains(m1),
        memo_alive_s(rt, m1),
        rt.memos[m1 as int].deps.contains(m2),
        memo_alive_s(rt, m2),
    ensures
        ({
            let out = cell_set_s(rt, c, v).0;
            &&& cell_set_s(rt, c, v).1
            &&& entries_lookup(out.cache, m1) is None
            &&& entries_lookup(out.cache, m2) is None
            &&& forall|j: int|
                0 <= j < rt.memos.len() ==> (#[trigger] out.memos[j]).computes
                    == rt.memos[j].computes
            &&& forall|j: int|
                0 <= j < rt.reacts.len() ==> (#[trigger] out.reacts[j]).runs == rt.reacts[j].runs
        }),
{
    let n = rt.memos.len();
    let ds = rt.cells[c as int].deps;
    let rt1 = inv_cell_s(rt, c as int);
    lemma_inv_cell_frame(rt, c as int);

    // m1 is evicted directly, m2 transitively
    let j1 = choose|j: int| 0 <= j < ds.len() && ds[j] == m1;
    assert(crate::state::cell_ok(rt, rt.cells[c as int]));
    assert((m1 as nat) < n);
    lemma_inv_list_removes(rt, ds, 0, -1, n, j1);
    assert(crate::state::memo_ok(rt, m1 as int));
    let k2 = choose|k: int|
        0 <= k < rt.memos[m1 as int].deps.len() && rt.memos[m1 as int].deps[k] == m2;
    assert(m1 < m2 && (m2 as nat) < n);
    lemma_inv_list_removes2(rt, ds, 0, -1, n, j1, m2);
    assert(entries_lookup(rt1.cache, m1) is None);
    assert(entries_lookup(rt1.cache, m2) is None);

    // storing the value changes no cache entry
    let rt2 = RtV {
        cells: rt1.cells.update(
            c as int,
            crate::state::CellV { value: v, ..rt1.cells[c as int] },
        ),
        ..rt1
    };

    // with no subscriber, the flush replays nothing
    assert(rt2.cells[c as int].subs =~= rt.cells[c as int].subs);
    assert(rt2.cells[c as int].subs.len() == 0);
    let out = flush_cell_s(rt2, c as int);
    assert(out.cache == rt2.cache);
    assert(out.memos == rt2.memos);
    assert(out.reacts == rt2.reacts);
}

// ---------------------------------------------------------------------
// replaying and flushing
// ---------------------------------------------------------------------

/// Replaying a reaction runs exactly that reaction once, and leaves
/// every other reaction exactly as it was.
pub proof fn lemma_replay_effects(rt: RtV, r: usize)
    requires
        (r as int) < rt.reacts.len(),
    ensures
        ({
            let out = replay_s(rt, r);
            &&& out.reacts.len() == rt.reacts.len()
            &&& out.reacts[r as int].runs == bump_s(rt.reacts[r as int].runs)
            &&& out.reacts[r as int].alive == rt.reacts[r as int].alive
            &&& out.reacts[r as int].body == rt.reacts[r as int].body
            &&& forall|r2: int|
                0 <= r2 < rt.reacts.len() && r2 != r ==> #[trigger] out.reacts[r2] == rt.reacts[r2]
            &&& out.cells.len() == rt.cells.len()
            &&& out.memos.len() == rt.memos.len()
        }),
{
    let rt1 = RtV { rstack: rt.rstack.push((r, false)), ..rt };
    lemma_body_frame_holds(rt1, rt1.reacts[r as int].body, rt1.memos.len());
    let (rt2, ok) = body_s(rt1, rt1.reacts[r as int].body, rt1.memos.len());
    assert(rt2.reacts == rt.reacts);
}

/// Flushing a list never creates or destroys entities.
proof fn lemma_flush_list_lens(rt: RtV, ss: Seq<usize>, i: int)
    ensures
        ({
            let out = flush_list_s(rt, ss, i);
            out.cells.len() == rt.cells.len() && out.memos.len() == rt.memos.len()
                && out.reacts.len() == rt.reacts.len()
        }),
    decreases ss.len() - i,
{
    if i < 0 || i >= ss.len() {
    } else {
        let d = ss[i];
        if react_alive_s(rt, d) {
            lemma_replay_effects(rt, d);
            lemma_flush_list_lens(replay_s(rt, d), ss, i + 1);
        } else {
            lemma_flush_list_lens(rt, ss, i + 1);
        }
    }
}

/// Flushing a list that never mentions a reaction leaves it untouched.
proof fn lemma_flush_list_not_run(rt: RtV, ss: Seq<usize>, i: int, r: usize)
    requires
        (r as int) < rt.reacts.len(),
        forall|j: int| i <= j < ss.len() ==> ss[j] != r,
    ensures
        ({
            let out = flush_list_s(rt, ss, i);
            out.reacts.len() == rt.reacts.len() && out.reacts[r as int] == rt.reacts[r as int]
        }),
    decreases ss.len() - i,
{
    if i < 0 || i >= ss.len() {
    } else {
        let d = ss[i];
        if react_alive_s(rt, d) {
            lemma_replay_effects(rt, d);
            let rt1 = replay_s(rt, d);
            lemma_flush_list_not_run(rt1, ss, i + 1, r);
        } else {
            lemma_flush_list_not_run(rt, ss, i + 1, r);
        }
    }
}

/// Flushing a duplicate-free list that holds a live reaction runs it
/// exactly once.
proof fn lemma_flush_list_runs_once(rt: RtV, ss: Seq<usize>, i: int, j: int, r: usize)
    requires
        no_dup(ss),
        0 <= i <= j < ss.len(),
        ss[j] == r,
        react_alive_s(rt, r),
    ensures
        ({
            let out = flush_list_s(rt, ss, i);
            out.reacts.len() == rt.reacts.len() && out.reacts[r as int].runs == bump_s(
                rt.reacts[r as int].runs,
            )
        }),
    decreases ss.len() - i,
{
    let d = ss[i];
    if i == j {
        lemma_replay_effects(rt, r);
        let rt1 = replay_s(rt, r);
        assert(forall|k: int| i + 1 <= k < ss.len() ==> ss[k] != r);
        lemma_flush_list_not_run(rt1, ss, i + 1, r);
    } else {
        assert(d != r);
        if react_alive_s(rt, d) {
            lemma_replay_effects(rt, d);
            let rt1 = replay_s(rt, d);
            assert(rt1.reacts[r as int] == rt.reacts[r as int]);
            lemma_flush_list_runs_once(rt1, ss, i + 1, j, r);
        } else {
            lemma_flush_list_runs_once(rt, ss, i + 1, j, r);
        }
    }
}

// ---------------------------------------------------------------------
// reaction isolation and subscription completeness
// ---------------------------------------------------------------------

/// Writing a cell never re-runs a reaction that is not subscribed to
/// that cell.
pub proof fn lemma_reaction_isolation(rt: RtV, c: usize, v: ValV, r: usize)
    requires
        (c as int) < rt.cells.len(),
        (r as int) < rt.reacts.len(),
        !rt.cells[c as int].subs.contains(r),
    ensures
        cell_set_s(rt, c, v).0.reacts[r as int].runs == rt.reacts[r as int].runs,
{
    if rt.cells[c as int].value == v {
    } else {
        let rt1 = inv_cell_s(rt, c as int);
        lemma_inv_cell_frame(rt, c as int);
        let rt2 = RtV {
            cells: rt1.cells.update(
                c as int,
                crate::state::CellV { value: v, ..rt1.cells[c as int] },
            ),
            ..rt1
        };
        let ss = rt2.cells[c as int].subs;
        assert(ss == rt.cells[c as int].subs);
        assert forall|j: int| 0 <= j < ss.len() implies ss[j] != r by {
            if ss[j] == r {
                assert(rt.cells[c as int].subs.contains(r));
            }
        }
        lemma_flush_list_not_run(rt2, ss, 0, r);
    }
}

/// Writing a new value into a cell runs every live reaction subscribed
/// to it exactly once.
pub proof fn lemma_write_runs_subscriber(rt: RtV, c: usize, v: ValV, r: usize)
    requires
        (c as int) < rt.cells.len(),
        (r as int) < rt.reacts.len(),
        no_dup(rt.cells[c as int].subs),
        rt.cells[c as int].subs.contains(r),
        react_alive_s(rt, r),
        v != rt.cells[c as int].value,
    ensures
        cell_set_s(rt, c, v).0.reacts[r as int].runs == bump_s(rt.reacts[r as int].runs),
{
    let rt1 = inv_cell_s(rt, c as int);
    lemma_inv_cell_frame(rt, c as int);
    let rt2 = RtV {
        cells: rt1.cells.update(
            c as int,
            crate::state::CellV { value: v, ..rt1.cells[c as int] },
        ),
        ..rt1
    };
    let ss = rt2.cells[c as int].subs;
    assert(ss == rt.cells[c as int].subs);
    let j = choose|j: int| 0 <= j < ss.len() && ss[j] == r;
    assert(react_alive_s(rt2, r));
    lemma_flush_list_runs_once(rt2, ss, 0, j, r);
}

/// During a collecting pass, reading a cell subscribes the collecting
/// reaction to it.
pub proof fn lemma_collecting_read_subscribes(rt: RtV, ca: usize, bound: nat)
    requires
        collecting_s(rt),
        (ca as int) < rt.cells.len(),
    ensures
        eval_s(rt, ExprV::ReadCell(ca), bound).0.cells[ca as int].subs.contains(
            rt.rstack.last().0,
        ),
        eval_s(rt, ExprV::ReadCell(ca), bound).1 is Some,
{
    let r = rt.rstack.last().0;
    let out = reg_cell_s(rt, ca as int);
    if !rt.cells[ca as int].subs.contains(r) {
        assert(out.cells[ca as int].subs.last() == r);
    } else {
        let k = choose|k: int|
            0 <= k < rt.cells[ca as int].subs.len() && rt.cells[ca as int].subs[k] == r;
        assert(out.cells[ca as int].subs[k] == r);
    }
}

/// A reaction created with a collector naming two cells is subscribed
/// to both, whatever its body reads on its first run.
pub proof fn lemma_subscription_completeness(rt: RtV, b: BodyV, ca: usize, cb: usize)
    requires
        (ca as int) < rt.cells.len(),
        (cb as int) < rt.cells.len(),
        rt.reacts.len() < usize::MAX,
    ensures
        ({
            let id = rt.reacts.len() as usize;
            let deps = BodyV::Then(
                Box::new(BodyV::Observe(ExprV::ReadCell(ca))),
                Box::new(BodyV::Observe(ExprV::ReadCell(cb))),
            );
            let out = new_react_deps_s(rt, b, deps);
            &&& out.cells[ca as int].subs.contains(id)
            &&& out.cells[cb as int].subs.contains(id)
            &&& react_alive_s(out, id)
            &&& out.cells.len() == rt.cells.len()
            &&& out.reacts.len() == rt.reacts.len() + 1
            &&& no_dup(rt.cells[ca as int].subs) ==> no_dup(out.cells[ca as int].subs)
            &&& no_dup(rt.cells[cb as int].subs) ==> no_dup(out.cells[cb as int].subs)
            &&& out.cells[ca as int].value == rt.cells[ca as int].value
            &&& out.cells[cb as int].value == rt.cells[cb as int].value
        }),
{
    let id = rt.reacts.len() as usize;
    let deps = BodyV::Then(
        Box::new(BodyV::Observe(ExprV::ReadCell(ca))),
        Box::new(BodyV::Observe(ExprV::ReadCell(cb))),
    );
    let rt1 = RtV {
        reacts: rt.reacts.push(crate::state::ReactV { body: b, alive: true, runs: 0 }),
        ..rt
    };
    let rt2 = RtV { rstack: rt1.rstack.push((id, true)), ..rt1 };
    assert(collecting_s(rt2));
    assert(rt2.rstack.last() == (id, true));
    let bound = rt2.memos.len();
    lemma_collecting_read_subscribes(rt2, ca, bound);
    let (rt3a, ok1) = body_s(rt2, BodyV::Observe(ExprV::ReadCell(ca)), bound);
    assert(ok1);
    assert(rt3a.cells[ca as int].subs.contains(id));
    lemma_eval_frame_holds(rt2, ExprV::ReadCell(ca), bound);
    assert(rt3a.rstack == rt2.rstack);
    assert(collecting_s(rt3a));
    lemma_collecting_read_subscribes(rt3a, cb, bound);
    let (rt3, ok2) = body_s(rt3a, BodyV::Observe(ExprV::ReadCell(cb)), bound);
    lemma_eval_frame_holds(rt3a, ExprV::ReadCell(cb), bound);
    assert(rt3.cells[cb as int].subs.contains(id));
    assert(rt3.cells[ca as int].subs.contains(id));
    assert((rt3, ok2) == body_s(rt2, deps, bound));
    let rt4 = RtV { rstack: rt3.rstack.drop_last(), ..rt3 };
    lemma_replay_effects(rt4, id);
    let rt5 = RtV { rstack: rt4.rstack.push((id, false)), ..rt4 };
    lemma_body_frame_holds(rt5, rt5.reacts[id as int].body, rt5.memos.len());
    let (rt6, ok3) = body_s(rt5, rt5.reacts[id as int].body, rt5.memos.len());
    let out = new_react_deps_s(rt, b, deps);
    assert(rt6.cells[ca as int].subs.contains(id));
    assert(rt6.cells[cb as int].subs.contains(id));
    assert(out.cells == rt6.cells);
    assert(out.cells[ca as int].subs.contains(id));
    assert(out.cells[cb as int].subs.contains(id));
    assert(rt3.reacts == rt2.reacts);
    assert(rt4.reacts[id as int].alive);
    assert(react_alive_s(out, id));
    assert(out.cells.len() == rt.cells.len());
    assert(out.reacts.len() == rt.reacts.len() + 1);
    assert(no_dup(rt.cells[ca as int].subs) ==> no_dup(out.cells[ca as int].subs));
    assert(no_dup(rt.cells[cb as int].subs) ==> no_dup(out.cells[cb as int].subs));
    assert(out.cells[ca as int].value == rt.cells[ca as int].value);
    assert(out.cells[cb as int].value == rt.cells[cb as int].value);
}

/// The completeness law end to end: after creating a reaction whose
/// collector names two cells, writing a new value into either cell
/// re-runs that reaction — even if its first run never read that cell.
pub proof fn lemma_deps_reaction_reruns(rt: RtV, b: BodyV, ca: usize, cb: usize, v: ValV, t: usize)
    requires
        inv_rt(rt),
        (ca as int) < rt.cells.len(),
        (cb as int) < rt.cells.len(),
        rt.reacts.len() < usize::MAX,
        t == ca || t == cb,
        v != rt.cells[t as int].value,
    ensures
        ({
            let id = rt.reacts.len() as usize;
            let deps = BodyV::Then(
                Box::new(BodyV::Observe(ExprV::ReadCell(ca))),
                Box::new(BodyV::Observe(ExprV::ReadCell(cb))),
            );
            let out = new_react_deps_s(rt, b, deps);
            cell_set_s(out, t, v).0.reacts[id as int].runs == bump_s(out.reacts[id as int].runs)
        }),
{
    let id = rt.reacts.len() as usize;
    let deps = BodyV::Then(
        Box::new(BodyV::Observe(ExprV::ReadCell(ca))),
        Box::new(BodyV::Observe(ExprV::ReadCell(cb))),
    );
    let out = new_react_deps_s(rt, b, deps);
    lemma_subscription_completeness(rt, b, ca, cb);
    assert(crate::state::cell_ok(rt, rt.cells[t as int]));
    assert(no_dup(rt.cells[t as int].subs));
    lemma_write_runs_subscriber(out, t, v, id);
}

// ---------------------------------------------------------------------
// memoization
// ---------------------------------------------------------------------

/// Two consecutive reads of a memo with nothing in between return the
/// same value, and the second read runs no computation at all.
pub proof fn lemma_memoization(rt: RtV, m: usize)
    requires
        at_rest(rt),
        (m as int) < rt.memos.len(),
        memo_get_s(rt, m).1 is Some,
    ensures
        ({
            let (rt1, r1) = memo_get_s(rt, m);
            let (rt2, r2) = memo_get_s(rt1, m);
            &&& r2 == r1
            &&& forall|j: int|
                0 <= j < rt1.memos.len() ==> (#[trigger] rt2.memos[j]).computes == rt1.memos[
                    j].computes
        }),
{
    let bound = rt.memos.len();
    let e = ExprV::ReadMemo(m);
    assert(memo_alive_s(rt, m));
    let rta = reg_memo_s(rt, m as int);
    assert(rta == rt);
    let rt1s = push_memo_s(rta, m);
    assert(!collecting_s(rt1s));
    let (rt1, r1) = memo_get_s(rt, m);
    let v = r1.unwrap();
    match entries_lookup(rt1s.cache, m) {
        Some(v0) => {
            let rtp = pop_memo_s(cache_promote_s(rt1s, m));
            assert(rtp.mstack =~= rt.mstack);
            assert(rt1 == rtp);
            assert(rt1.cache == entries_promote(rt.cache, m));
            assert(rt1.cache[0] == (m, v0));
            assert(entries_lookup(rt1.cache, m) == Some(v0));
            assert(r1 == Some(v0));
            assert(memo_alive_s(rt1, m));
            assert(at_rest(rt1));
        },
        None => {
            let (rtc, res) = compute_memo_s(rt1s, m);
            assert(res is Some);
            let rtb = bump_computes_s(rt1s, m as int);
            lemma_eval_frame_holds(rtb, rtb.memos[m as int].expr, m as nat);
            let (rte, res2) = eval_s(rtb, rtb.memos[m as int].expr, m as nat);
            let v2 = res2.unwrap();
            assert(rtc == cache_put_s(rte, m, v2));
            assert(rtc.cache[0] == (m, v2));
            let rtp = pop_memo_s(rtc);
            assert(rt1 == rtp);
            assert(rtp.mstack =~= rt.mstack);
            assert(entries_lookup(rt1.cache, m) == Some(v2));
            assert(r1 == Some(v2));
            assert(memo_alive_s(rt1, m));
            assert(at_rest(rt1));
        },
    }
    // the second read hits the cache at its head
    let rta2 = reg_memo_s(rt1, m as int);
    assert(rta2 == rt1);
    let rt2s = push_memo_s(rta2, m);
    assert(!collecting_s(rt2s));
    assert(entries_lookup(rt2s.cache, m) == Some(v));
    let (rt2, r2) = memo_get_s(rt1, m);
    assert(r2 == Some(v));
    assert(rt2.memos == rt1.memos);
}

// ---------------------------------------------------------------------
// drops and pruning
// ---------------------------------------------------------------------

/// A dropped memo is dead and holds no cache entry.
pub proof fn lemma_drop_memo_silent(rt: RtV, m: usize)
    requires
        (m as int) < rt.memos.len(),
    ensures
        entries_lookup(drop_memo_s(rt, m).cache, m) is None,
        !memo_alive_s(drop_memo_s(rt, m), m),
{
    lemma_lookup_remove_same(rt.cache, m);
}

/// After a write, the written cell's subscriber list holds only live
/// reactions: the flush prunes every dead entry it meets.
pub proof fn lemma_write_prunes_dead_subscribers(rt: RtV, c: usize, v: ValV)
    requires
        (c as int) < rt.cells.len(),
        v != rt.cells[c as int].value,
    ensures
        ({
            let out = cell_set_s(rt, c, v).0;
            forall|r: usize|
                #[trigger] out.cells[c as int].subs.contains(r) ==> react_alive_s(out, r)
        }),
{
    let rt1 = inv_cell_s(rt, c as int);
    lemma_inv_cell_frame(rt, c as int);
    let rt2 = RtV {
        cells: rt1.cells.update(
            c as int,
            crate::state::CellV { value: v, ..rt1.cells[c as int] },
        ),
        ..rt1
    };
    let ss = rt2.cells[c as int].subs;
    let rtf = flush_list_s(rt2, ss, 0);
    lemma_flush_list_lens(rt2, ss, 0);
    let p = crate::sem::live_react_pred(rtf);
    let out = cell_set_s(rt, c, v).0;
    assert(out.cells[c as int].subs == ss.filter(p));
    assert forall|r: usize| #[trigger] out.cells[c as int].subs.contains(r) implies react_alive_s(
        out,
        r,
    ) by {
        let k = choose|k: int|
            0 <= k < out.cells[c as int].subs.len() && out.cells[c as int].subs[k] == r;
        ss.lemma_filter_pred(p, k);
        assert(react_alive_s(rtf, r));
        assert(out.reacts == rtf.reacts);
    }
}

/// After an invalidation, the cell's dependent list holds only live
/// memos: the traversal prunes every dead entry it meets.
pub proof fn lemma_invalidate_prunes_dead_dependents(rt: RtV, c: usize)
    requires
        (c as int) < rt.cells.len(),
    ensures
        ({
            let out = inv_cell_s(rt, c as int);
            forall|x: usize|
                #[trigger] out.cells[c as int].deps.contains(x) ==> memo_alive_s(out, x)
        }),
{
    let ds = rt.cells[c as int].deps;
    let rt1 = inv_list_s(rt, ds, 0, -1, rt.memos.len());
    lemma_inv_list_frame(rt, ds, 0, -1, rt.memos.len());
    let p = crate::sem::live_memo_pred(rt1);
    let out = inv_cell_s(rt, c as int);
    assert(out.cells[c as int].deps == ds.filter(p));
    assert forall|x: usize| #[trigger] out.cells[c as int].deps.contains(x) implies memo_alive_s(
        out,
        x,
    ) by {
        let k = choose|k: int|
            0 <= k < out.cells[c as int].deps.len() && out.cells[c as int].deps[k] == x;
        ds.lemma_filter_pred(p, k);
        assert(memo_alive_s(rt1, x));
        assert(out.memos == rt1.memos);
    }
}

// ---------------------------------------------------------------------
// untracked replay collects nothing
// ---------------------------------------------------------------------

/// Whatever is in a filtered sequence was in the sequence.
proof fn lemma_filter_subset(s: Seq<usize>, p: spec_fn(usize) -> bool, x: usize)
    requires
        s.filter(p).contains(x),
    ensures
        s.contains(x),
    decreases s.len(),
{
    reveal(Seq::filter);
    if s.len() > 0 {
        if p(s.last()) && x == s.last() {
            assert(s[s.len() - 1] == x);
        } else {
            let f = s.drop_last().filter(p);
            if p(s.last()) {
                let k = choose|k: int| 0 <= k < s.filter(p).len() && s.filter(p)[k] == x;
                assert(f.push(s.last())[k] == x);
                assert(f.contains(x));
            }
            lemma_filter_subset(s.drop_last(), p, x);
            let k2 = choose|k2: int| 0 <= k2 < s.drop_last().len() && s.drop_last()[k2] == x;
            assert(s[k2] == x);
        }
    }
}

/// Evaluation subscribes nobody but the innermost collecting reaction.
pub proof fn lemma_eval_subs_only(rt: RtV, e: ExprV, bound: nat)
    ensures
        forall|i: int, r: usize|
            0 <= i < rt.cells.len() && #[trigger] eval_s(rt, e, bound).0.cells[i].subs.contains(r)
                ==> rt.cells[i].subs.contains(r) || (collecting_s(rt) && r == rt.rstack.last().0),
    decreases bound, 0int, crate::expr::expr_size(e),
{
    lemma_eval_frame_holds(rt, e, bound);
    let out = eval_s(rt, e, bound).0;
    match e {
        ExprV::Const(_) => {},
        ExprV::ReadCell(c) => {},
        ExprV::ReadMemo(m) => {
            if (m as nat) < bound && memo_alive_s(rt, m) {
                let rta = reg_memo_s(rt, m as int);
                let rt1 = push_memo_s(rta, m);
                if collecting_s(rt1) {
                    let rt2 = cache_remove_s(rt1, m);
                    lemma_compute_subs_only(rt2, m);
                    let (rt3, res) = compute_memo_s(rt2, m);
                    assert forall|i: int, r: usize|
                        0 <= i < rt.cells.len() && #[trigger] out.cells[i].subs.contains(r)
                        implies rt.cells[i].subs.contains(r) || (collecting_s(rt) && r
                            == rt.rstack.last().0) by {
                        assert(rt3.cells[i].subs.contains(r));
                    }
                } else {
                    match entries_lookup(rt1.cache, m) {
                        Some(v) => {},
                        None => {
                            lemma_compute_subs_only(rt1, m);
                            let (rt3, res) = compute_memo_s(rt1, m);
                            assert forall|i: int, r: usize|
                                0 <= i < rt.cells.len() && #[trigger] out.cells[i].subs.contains(r)
                                implies rt.cells[i].subs.contains(r) || (collecting_s(rt) && r
                                    == rt.rstack.last().0) by {
                                assert(rt3.cells[i].subs.contains(r));
                            }
                        },
                    }
                }
            }
        },
        ExprV::Add(a, b) => {
            lemma_eval_subs_only(rt, *a, bound);
            let (rt1, r1) = eval_s(rt, *a, bound);
            lemma_eval_frame_holds(rt, *a, bound);
            lemma_eval_subs_only(rt1, *b, bound);
            let (rt2, r2) = eval_s(rt1, *b, bound);
            assert forall|i: int, r: usize|
                0 <= i < rt.cells.len() && #[trigger] out.cells[i].subs.contains(r) implies
                rt.cells[i].subs.contains(r) || (collecting_s(rt) && r == rt.rstack.last().0) by {
                if r1 is Some {
                    assert(rt2.cells[i].subs.contains(r));
                    assert(rt1.cells[i].subs.contains(r) || (collecting_s(rt1) && r
                        == rt1.rstack.last().0));
                }
            }
        },
        ExprV::Sub(a, b) => {
            lemma_eval_subs_only(rt, *a, bound);
            let (rt1, r1) = eval_s(rt, *a, bound);
            lemma_eval_frame_holds(rt, *a, bound);
            lemma_eval_subs_only(rt1, *b, bound);
            let (rt2, r2) = eval_s(rt1, *b, bound);
            assert forall|i: int, r: usize|
                0 <= i < rt.cells.len() && #[trigger] out.cells[i].subs.contains(r) implies
                rt.cells[i].subs.contains(r) || (collecting_s(rt) && r == rt.rstack.last().0) by {
                if r1 is Some {
                    assert(rt2.cells[i].subs.contains(r));
                    assert(rt1.cells[i].subs.contains(r) || (collecting_s(rt1) && r
                        == rt1.rstack.last().0));
                }
            }
        },
        ExprV::Mul(a, b) => {
            lemma_eval_subs_only(rt, *a, bound);
            let (rt1, r1) = eval_s(rt, *a, bound);
            lemma_eval_frame_holds(rt, *a, bound);
            lemma_eval_subs_only(rt1, *b, bound);
            let (rt2, r2) = eval_s(rt1, *b, bound);
            assert forall|i: int, r: usize|
                0 <= i < rt.cells.len() && #[trigger] out.cells[i].subs.contains(r) implies
                rt.cells[i].subs.contains(r) || (collecting_s(rt) && r == rt.rstack.last().0) by {
                if r1 is Some {
                    assert(rt2.cells[i].subs.contains(r));
                    assert(rt1.cells[i].subs.contains(r) || (collecting_s(rt1) && r
                        == rt1.rstack.last().0));
                }
            }
        },
        ExprV::ParseInt(a) => {
            lemma_eval_subs_only(rt, *a, bound);
        },
        ExprV::IfElse(c, t, f) => {
            lemma_eval_subs_only(rt, *c, bound);
            let (rt1, r1) = eval_s(rt, *c, bound);
            lemma_eval_frame_holds(rt, *c, bound);
            match r1 {
                Some(ValV::Bool(bv)) => {
                    let br = if bv {
                        *t
                    } else {
                        *f
                    };
                    lemma_eval_subs_only(rt1, br, bound);
                    assert forall|i: int, r: usize|
                        0 <= i < rt.cells.len() && #[trigger] out.cells[i].subs.contains(r)
                        implies rt.cells[i].subs.contains(r) || (collecting_s(rt) && r
                            == rt.rstack.last().0) by {
                        assert(eval_s(rt1, br, bound).0.cells[i].subs.contains(r));
                        assert(rt1.cells[i].subs.contains(r) || (collecting_s(rt1) && r
                            == rt1.rstack.last().0));
                    }
                },
                _ => {},
            }
        },
    }
}

/// Running a memo's computation subscribes nobody but the innermost
/// collecting reaction.
proof fn lemma_compute_subs_only(rt: RtV, m: usize)
    requires
        (m as int) < rt.memos.len(),
    ensures
        forall|i: int, r: usize|
            0 <= i < rt.cells.len() && #[trigger] compute_memo_s(rt, m).0.cells[i].subs.contains(r)
                ==> rt.cells[i].subs.contains(r) || (collecting_s(rt) && r == rt.rstack.last().0),
    decreases m as nat, 1int, 0nat,
{
    let rt1 = bump_computes_s(rt, m as int);
    lemma_eval_subs_only(rt1, rt1.memos[m as int].expr, m as nat);
}

/// A body run subscribes nobody but the innermost collecting reaction.
pub proof fn lemma_body_subs_only(rt: RtV, b: BodyV, bound: nat)
    ensures
        forall|i: int, r: usize|
            0 <= i < rt.cells.len() && #[trigger] body_s(rt, b, bound).0.cells[i].subs.contains(r)
                ==> rt.cells[i].subs.contains(r) || (collecting_s(rt) && r == rt.rstack.last().0),
    decreases b,
{
    let out = body_s(rt, b, bound).0;
    match b {
        BodyV::Skip => {},
        BodyV::Observe(e) => {
            lemma_eval_subs_only(rt, e, bound);
        },
        BodyV::SetSlot(s2, e) => {
            lemma_eval_subs_only(rt, e, bound);
        },
        BodyV::IfElse(c, t, f) => {
            lemma_eval_subs_only(rt, c, bound);
            let (rt1, r1) = eval_s(rt, c, bound);
            lemma_eval_frame_holds(rt, c, bound);
            match r1 {
                Some(ValV::Bool(bv)) => {
                    let br = if bv {
                        *t
                    } else {
                        *f
                    };
                    lemma_body_subs_only(rt1, br, bound);
                    assert forall|i: int, r: usize|
                        0 <= i < rt.cells.len() && #[trigger] out.cells[i].subs.contains(r)
                        implies rt.cells[i].subs.contains(r) || (collecting_s(rt) && r
                            == rt.rstack.last().0) by {
                        assert(body_s(rt1, br, bound).0.cells[i].subs.contains(r));
                        assert(rt1.cells[i].subs.contains(r) || (collecting_s(rt1) && r
                            == rt1.rstack.last().0));
                    }
                },
                _ => {},
            }
        },
        BodyV::Then(a, b2) => {
            lemma_body_subs_only(rt, *a, bound);
            let (rt1, ok) = body_s(rt, *a, bound);
            lemma_body_frame_holds(rt, *a, bound);
            if ok {
                lemma_body_subs_only(rt1, *b2, bound);
                assert forall|i: int, r: usize|
                    0 <= i < rt.cells.len() && #[trigger] out.cells[i].subs.contains(r) implies
                    rt.cells[i].subs.contains(r) || (collecting_s(rt) && r
                        == rt.rstack.last().0) by {
                    assert(body_s(rt1, *b2, bound).0.cells[i].subs.contains(r));
                    assert(rt1.cells[i].subs.contains(r) || (collecting_s(rt1) && r
                        == rt1.rstack.last().0));
                }
            }
        },
    }
}

/// An untracked replay registers no new subscription at all: a
/// re-triggered reaction's dependency set is fixed by its collecting
/// pass, never by its re-runs.
pub proof fn lemma_replay_collects_nothing(rt: RtV, r: usize)
    requires
        (r as int) < rt.reacts.len(),
    ensures
        forall|i: int, r2: usize|
            0 <= i < rt.cells.len() && #[trigger] replay_s(rt, r).cells[i].subs.contains(r2)
                ==> rt.cells[i].subs.contains(r2),
{
    let rt1 = RtV { rstack: rt.rstack.push((r, false)), ..rt };
    assert(!collecting_s(rt1));
    lemma_body_subs_only(rt1, rt1.reacts[r as int].body, rt1.memos.len());
    let (rt2, ok) = body_s(rt1, rt1.reacts[r as int].body, rt1.memos.len());
    assert forall|i: int, r2: usize|
        0 <= i < rt.cells.len() && #[trigger] replay_s(rt, r).cells[i].subs.contains(r2) implies
        rt.cells[i].subs.contains(r2) by {
        assert(rt2.cells[i].subs.contains(r2));
    }
}

/// A write registers no new subscription anywhere: its replays are
/// untracked, and its pruning only removes.
pub proof fn lemma_write_collects_nothing(rt: RtV, c: usize, v: ValV)
    requires
        (c as int) < rt.cells.len(),
    ensures
        forall|i: int, r: usize|
            0 <= i < rt.cells.len() && #[trigger] cell_set_s(rt, c, v).0.cells[i].subs.contains(r)
                ==> rt.cells[i].subs.contains(r),
{
    if rt.cells[c as int].value == v {
    } else {
        let rt1 = inv_cell_s(rt, c as int);
        lemma_inv_cell_frame(rt, c as int);
        let rt2 = RtV {
            cells: rt1.cells.update(
                c as int,
                crate::state::CellV { value: v, ..rt1.cells[c as int] },
            ),
            ..rt1
        };
        let ss = rt2.cells[c as int].subs;
        lemma_flush_list_collects_nothing(rt2, ss, 0);
        let rtf = flush_list_s(rt2, ss, 0);
        lemma_flush_list_lens(rt2, ss, 0);
        let out = cell_set_s(rt, c, v).0;
        let p = crate::sem::live_react_pred(rtf);
        assert forall|i: int, r: usize|
            0 <= i < rt.cells.len() && #[trigger] out.cells[i].subs.contains(r) implies rt.cells[
        i].subs.contains(r) by {
            if i == c as int {
                lemma_filter_subset(ss, p, r);
                assert(rt2.cells[i].subs.contains(r));
            } else {
                assert(rtf.cells[i].subs.contains(r));
                assert(rt2.cells[i].subs.contains(r));
            }
        }
    }
}

/// Flushing a subscriber list registers no new subscription.
proof fn lemma_flush_list_collects_nothing(rt: RtV, ss: Seq<usize>, i: int)
    ensures
        forall|i2: int, r: usize|
            0 <= i2 < rt.cells.len() && #[trigger] flush_list_s(rt, ss, i).cells[i2].subs.contains(
                r,
            ) ==> rt.cells[i2].subs.contains(r),
    decreases ss.len() - i,
{
    if i < 0 || i >= ss.len() {
    } else {
        let d = ss[i];
        if react_alive_s(rt, d) {
            lemma_replay_collects_nothing(rt, d);
            let rt1 = replay_s(rt, d);
            lemma_replay_effects(rt, d);
            lemma_flush_list_collects_nothing(rt1, ss, i + 1);
            assert forall|i2: int, r: usize|
                0 <= i2 < rt.cells.len() && #[trigger] flush_list_s(rt, ss, i).cells[
            i2].subs.contains(r) implies rt.cells[i2].subs.contains(r) by {
                assert(rt1.cells[i2].subs.contains(r));
            }
        } else {
            lemma_flush_list_collects_nothing(rt, ss, i + 1);
        }
    }
}

// ---------------------------------------------------------------------
// the dead stay silent
// ---------------------------------------------------------------------

/// Flushing never runs a dead reaction.
proof fn lemma_flush_list_dead_still(rt: RtV, ss: Seq<usize>, i: int, r: usize)
    requires
        (r as int) < rt.reacts.len(),
        !react_alive_s(rt, r),
    ensures
        ({
            let out = flush_list_s(rt, ss, i);
            out.reacts.len() == rt.reacts.len() && out.reacts[r as int] == rt.reacts[r as int]
        }),
    decreases ss.len() - i,
{
    if i < 0 || i >= ss.len() {
    } else {
        let d = ss[i];
        if react_alive_s(rt, d) {
            lemma_replay_effects(rt, d);
            let rt1 = replay_s(rt, d);
            assert(d != r);
            lemma_flush_list_dead_still(rt1, ss, i + 1, r);
        } else {
            lemma_flush_list_dead_still(rt, ss, i + 1, r);
        }
    }
}

/// A dropped reaction is never re-run by any later write.
pub proof fn lemma_dead_reaction_stays_silent(rt: RtV, c: usize, v: ValV, r: usize)
    requires
        (c as int) < rt.cells.len(),
        (r as int) < rt.reacts.len(),
        !react_alive_s(rt, r),
    ensures
        cell_set_s(rt, c, v).0.reacts[r as int].runs == rt.reacts[r as int].runs,
{
    if rt.cells[c as int].value == v {
    } else {
        let rt1 = inv_cell_s(rt, c as int);
        lemma_inv_cell_frame(rt, c as int);
        let rt2 = RtV {
            cells: rt1.cells.update(
                c as int,
                crate::state::CellV { value: v, ..rt1.cells[c as int] },
            ),
            ..rt1
        };
        assert(!react_alive_s(rt2, r));
        lemma_flush_list_dead_still(rt2, rt2.cells[c as int].subs, 0, r);
    }
}

/// Evaluation never runs a dead memo's computation.
pub proof fn lemma_eval_dead_memo_still(rt: RtV, e: ExprV, bound: nat, m: usize)
    requires
        (m as int) < rt.memos.len(),
        !memo_alive_s(rt, m),
    ensures
        eval_s(rt, e, bound).0.memos[m as int].computes == rt.memos[m as int].computes,
    decreases bound, 0int, crate::expr::expr_size(e),
{
    lemma_eval_frame_holds(rt, e, bound);
    let out = eval_s(rt, e, bound).0;
    match e {
        ExprV::Const(_) => {},
        ExprV::ReadCell(c) => {},
        ExprV::ReadMemo(k) => {
            if (k as nat) < bound && memo_alive_s(rt, k) {
                assert(k != m);
                let rta = reg_memo_s(rt, k as int);
                let rt1 = push_memo_s(rta, k);
                if collecting_s(rt1) {
                    let rt2 = cache_remove_s(rt1, k);
                    lemma_compute_dead_memo_still(rt2, k, m);
                } else {
                    match entries_lookup(rt1.cache, k) {
                        Some(v) => {},
                        None => {
                            lemma_compute_dead_memo_still(rt1, k, m);
                        },
                    }
                }
            }
        },
        ExprV::Add(a, b) => {
            lemma_eval_dead_memo_still(rt, *a, bound, m);
            let (rt1, r1) = eval_s(rt, *a, bound);
            lemma_eval_frame_holds(rt, *a, bound);
            if r1 is Some {
                lemma_eval_dead_memo_still(rt1, *b, bound, m);
            }
        },
        ExprV::Sub(a, b) => {
            lemma_eval_dead_memo_still(rt, *a, bound, m);
            let (rt1, r1) = eval_s(rt, *a, bound);
            lemma_eval_frame_holds(rt, *a, bound);
            if r1 is Some {
                lemma_eval_dead_memo_still(rt1, *b, bound, m);
            }
        },
        ExprV::Mul(a, b) => {
            lemma_eval_dead_memo_still(rt, *a, bound, m);
            let (rt1, r1) = eval_s(rt, *a, bound);
            lemma_eval_frame_holds(rt, *a, bound);
            if r1 is Some {
                lemma_eval_dead_memo_still(rt1, *b, bound, m);
            }
        },
        ExprV::ParseInt(a) => {
            lemma_eval_dead_memo_still(rt, *a, bound, m);
        },
        ExprV::IfElse(c, t, f) => {
            lemma_eval_dead_memo_still(rt, *c, bound, m);
            let (rt1, r1) = eval_s(rt, *c, bound);
            lemma_eval_frame_holds(rt, *c, bound);
            match r1 {
                Some(ValV::Bool(bv)) => {
                    if bv {
                        lemma_eval_dead_memo_still(rt1, *t, bound, m);
                    } else {
                        lemma_eval_dead_memo_still(rt1, *f, bound, m);
                    }
                },
                _ => {},
            }
        },
    }
}

/// A memo's computation never runs a dead memo's computation.
proof fn lemma_compute_dead_memo_still(rt: RtV, k: usize, m: usize)
    requires
        (k as int) < rt.memos.len(),
        (m as int) < rt.memos.len(),
        !memo_alive_s(rt, m),
        k != m,
    ensures
        compute_memo_s(rt, k).0.memos[m as int].computes == rt.memos[m as int].computes,
    decreases k as nat, 1int, 0nat,
{
    let rt1 = bump_computes_s(rt, k as int);
    assert(!memo_alive_s(rt1, m));
    lemma_eval_dead_memo_still(rt1, rt1.memos[k as int].expr, k as nat, m);
}

/// A body run never runs a dead memo's computation.
pub proof fn lemma_body_dead_memo_still(rt: RtV, b: BodyV, bound: nat, m: usize)
    requires
        (m as int) < rt.memos.len(),
        !memo_alive_s(rt, m),
    ensures
        body_s(rt, b, bound).0.memos[m as int].computes == rt.memos[m as int].computes,
    decreases b,
{
    lemma_body_frame_holds(rt, b, bound);
    match b {
        BodyV::Skip => {},
        BodyV::Observe(e) => {
            lemma_eval_dead_memo_still(rt, e, bound, m);
        },
        BodyV::SetSlot(s2, e) => {
            lemma_eval_dead_memo_still(rt, e, bound, m);
        },
        BodyV::IfElse(c, t, f) => {
            lemma_eval_dead_memo_still(rt, c, bound, m);
            let (rt1, r1) = eval_s(rt, c, bound);
            lemma_eval_frame_holds(rt, c, bound);
            match r1 {
                Some(ValV::Bool(bv)) => {
                    if bv {
                        lemma_body_dead_memo_still(rt1, *t, bound, m);
                    } else {
                        lemma_body_dead_memo_still(rt1, *f, bound, m);
                    }
                },
                _ => {},
            }
        },
        BodyV::Then(a, b2) => {
            lemma_body_dead_memo_still(rt, *a, bound, m);
            let (rt1, ok) = body_s(rt, *a, bound);
            lemma_body_frame_holds(rt, *a, bound);
            if ok {
                lemma_body_dead_memo_still(rt1, *b2, bound, m);
            }
        },
    }
}

/// A dropped memo never recomputes: any later read of it, direct or
/// through another memo, faults instead of running its computation.
pub proof fn lemma_dead_memo_stays_silent(rt: RtV, m: usize, k: usize)
    requires
        (m as int) < rt.memos.len(),
        !memo_alive_s(rt, m),
        (k as int) < rt.memos.len(),
    ensures
        memo_get_s(rt, k).0.memos[m as int].computes == rt.memos[m as int].computes,
        m == k ==> memo_get_s(rt, k).1 is None,
{
    lemma_eval_dead_memo_still(rt, ExprV::ReadMemo(k), rt.memos.len(), m);
}

} // verus!
