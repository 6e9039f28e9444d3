//! The operational semantics of the engine, over the ghost state.
//!
//! Each public operation of the runtime is specified by a function here
//! that maps the state before the operation to the state after it,
//! together with the operation's result.  The executable engine ensures
//! equality with these functions; the proved laws are theorems about
//! them.

use vstd::prelude::*;

use crate::cache::{entries_lookup, entries_promote, entries_put, entries_remove};
use crate::expr::{BodyV, ExprV};
use crate::state::{CellV, MemoV, ReactV, RtV};
use crate::value::{ValV, bump_s, parse_int_s};

verus! {

// ---------------------------------------------------------------------
// small state updates
// ---------------------------------------------------------------------

/// Whether the innermost reaction on the stack is in its collecting pass.
pub open spec fn collecting_s(rt: RtV) -> bool {
    rt.rstack.len() > 0 && rt.rstack.last().1
}

pub open spec fn memo_alive_s(rt: RtV, d: usize) -> bool {
    (d as int) < rt.memos.len() && rt.memos[d as int].alive
}

pub open spec fn react_alive_s(rt: RtV, r: usize) -> bool {
    (r as int) < rt.reacts.len() && rt.reacts[r as int].alive
}

/// The liveness test used when pruning memo dependent lists.
pub open spec fn live_memo_pred(rt: RtV) -> spec_fn(usize) -> bool {
    |d: usize| memo_alive_s(rt, d)
}

/// The liveness test used when pruning reaction subscriber lists.
pub open spec fn live_react_pred(rt: RtV) -> spec_fn(usize) -> bool {
    |r: usize| react_alive_s(rt, r)
}

pub open spec fn cache_remove_s(rt: RtV, m: usize) -> RtV {
    RtV { cache: entries_remove(rt.cache, m), ..rt }
}

pub open spec fn cache_put_s(rt: RtV, m: usize, v: ValV) -> RtV {
    RtV { cache: entries_put(rt.cache, m, v, rt.cap), ..rt }
}

pub open spec fn cache_promote_s(rt: RtV, m: usize) -> RtV {
    RtV { cache: entries_promote(rt.cache, m), ..rt }
}

pub open spec fn push_memo_s(rt: RtV, m: usize) -> RtV {
    RtV { mstack: rt.mstack.push(m), ..rt }
}

pub open spec fn pop_memo_s(rt: RtV) -> RtV {
    RtV { mstack: rt.mstack.drop_last(), ..rt }
}

pub open spec fn bump_computes_s(rt: RtV, m: int) -> RtV {
    RtV {
        memos: rt.memos.update(
            m,
            MemoV { computes: bump_s(rt.memos[m].computes), ..rt.memos[m] },
        ),
        ..rt
    }
}

pub open spec fn bump_runs_s(rt: RtV, r: int) -> RtV {
    RtV {
        reacts: rt.reacts.update(r, ReactV { runs: bump_s(rt.reacts[r].runs), ..rt.reacts[r] }),
        ..rt
    }
}

// ---------------------------------------------------------------------
// dependency registration
// ---------------------------------------------------------------------

/// What reading cell `c` does besides producing the value: the memo on
/// top of the memo stack becomes a dependent (once), the innermost
/// collecting reaction becomes a subscriber (once), and the read counter
/// moves.
pub open spec fn reg_cell_s(rt: RtV, c: int) -> RtV {
    let cell = rt.cells[c];
    let cell1 = if rt.mstack.len() > 0 && !cell.deps.contains(rt.mstack.last()) {
        CellV { deps: cell.deps.push(rt.mstack.last()), ..cell }
    } else {
        cell
    };
    let cell2 = if collecting_s(rt) && !cell1.subs.contains(rt.rstack.last().0) {
        CellV { subs: cell1.subs.push(rt.rstack.last().0), ..cell1 }
    } else {
        cell1
    };
    let cell3 = CellV { reads: bump_s(cell2.reads), ..cell2 };
    RtV { cells: rt.cells.update(c, cell3), ..rt }
}

/// What reading memo `m` does to its dependent list: the memo on top of
/// the memo stack becomes a dependent (once).
pub open spec fn reg_memo_s(rt: RtV, m: int) -> RtV {
    let memo = rt.memos[m];
    if rt.mstack.len() > 0 && !memo.deps.contains(rt.mstack.last()) {
        RtV { memos: rt.memos.update(m, MemoV { deps: memo.deps.push(rt.mstack.last()), ..memo }), ..rt }
    } else {
        rt
    }
}

// ---------------------------------------------------------------------
// evaluation
// ---------------------------------------------------------------------

pub open spec fn add_vals_s(a: ValV, b: ValV) -> Option<ValV> {
    match (a, b) {
        (ValV::Int(x), ValV::Int(y)) => if i64::MIN <= x + y <= i64::MAX {
            Some(ValV::Int((x + y) as i64))
        } else {
            None
        },
        _ => None,
    }
}

pub open spec fn sub_vals_s(a: ValV, b: ValV) -> Option<ValV> {
    match (a, b) {
        (ValV::Int(x), ValV::Int(y)) => if i64::MIN <= x - y <= i64::MAX {
            Some(ValV::Int((x - y) as i64))
        } else {
            None
        },
        _ => None,
    }
}

pub open spec fn mul_vals_s(a: ValV, b: ValV) -> Option<ValV> {
    match (a, b) {
        (ValV::Int(x), ValV::Int(y)) => if i64::MIN <= x * y <= i64::MAX {
            Some(ValV::Int((x * y) as i64))
        } else {
            None
        },
        _ => None,
    }
}

pub open spec fn parse_val_s(v: ValV) -> Option<ValV> {
    match v {
        ValV::Str(s) => match parse_int_s(s) {
            Some(i) => Some(ValV::Int(i)),
            None => None,
        },
        _ => None,
    }
}

/// Evaluating an expression: reads register dependencies as they occur; a
/// memo read resolves through the result cache, except that a collecting
/// reaction forces a recomputation so that every reachable cell is
/// visited; a recomputed value is stored in the cache.  `None` stands for
/// an evaluation fault (a type error, arithmetic overflow, a dead or
/// out-of-range identity).  `bound` bounds the memos the expression may
/// mention, which is what makes evaluation well-founded.
pub open spec fn eval_s(rt: RtV, e: ExprV, bound: nat) -> (RtV, Option<ValV>)
    decreases bound, 0int, e,
{
    match e {
        ExprV::Const(v) => (rt, Some(v)),
        ExprV::ReadCell(c) => {
            if (c as int) < rt.cells.len() {
                (reg_cell_s(rt, c as int), Some(rt.cells[c as int].value))
            } else {
                (rt, None)
            }
        },
        ExprV::ReadMemo(m) => {
            if (m as nat) < bound && memo_alive_s(rt, m) {
                let rt1 = push_memo_s(reg_memo_s(rt, m as int), m);
                if collecting_s(rt1) {
                    let (rt2, res) = compute_memo_s(cache_remove_s(rt1, m), m);
                    (pop_memo_s(rt2), res)
                } else {
                    match entries_lookup(rt1.cache, m) {
                        Some(v) => (pop_memo_s(cache_promote_s(rt1, m)), Some(v)),
                        None => {
                            let (rt2, res) = compute_memo_s(rt1, m);
                            (pop_memo_s(rt2), res)
                        },
                    }
                }
            } else {
                (rt, None)
            }
        },
        ExprV::Add(a, b) => {
            let (rt1, r1) = eval_s(rt, *a, bound);
            match r1 {
                Some(v1) => {
                    let (rt2, r2) = eval_s(rt1, *b, bound);
                    match r2 {
                        Some(v2) => (rt2, add_vals_s(v1, v2)),
                        None => (rt2, None),
                    }
                },
                None => (rt1, None),
            }
        },
        ExprV::Sub(a, b) => {
            let (rt1, r1) = eval_s(rt, *a, bound);
            match r1 {
                Some(v1) => {
                    let (rt2, r2) = eval_s(rt1, *b, bound);
                    match r2 {
                        Some(v2) => (rt2, sub_vals_s(v1, v2)),
                        None => (rt2, None),
                    }
                },
                None => (rt1, None),
            }
        },
        ExprV::Mul(a, b) => {
            let (rt1, r1) = eval_s(rt, *a, bound);
            match r1 {
                Some(v1) => {
                    let (rt2, r2) = eval_s(rt1, *b, bound);
                    match r2 {
                        Some(v2) => (rt2, mul_vals_s(v1, v2)),
                        None => (rt2, None),
                    }
                },
                None => (rt1, None),
            }
        },
        ExprV::ParseInt(a) => {
            let (rt1, r1) = eval_s(rt, *a, bound);
            match r1 {
                Some(v1) => (rt1, parse_val_s(v1)),
                None => (rt1, None),
            }
        },
        ExprV::IfElse(c, t, f) => {
            let (rt1, r1) = eval_s(rt, *c, bound);
            match r1 {
                Some(ValV::Bool(bv)) => if bv {
                    eval_s(rt1, *t, bound)
                } else {
                    eval_s(rt1, *f, bound)
                },
                _ => (rt1, None),
            }
        },
    }
}

/// Running memo `m`'s own computation after a miss (or a forced miss):
/// the computation counter moves, the computation is evaluated with `m`
/// itself as the bound, and a produced value is stored in the cache.
pub open spec fn compute_memo_s(rt: RtV, m: usize) -> (RtV, Option<ValV>)
    decreases m as nat, 1int, rt.memos[m as int].expr,
{
    let rt1 = bump_computes_s(rt, m as int);
    let (rt2, res) = eval_s(rt1, rt1.memos[m as int].expr, m as nat);
    match res {
        Some(v) => (cache_put_s(rt2, m, v), Some(v)),
        None => (rt2, None),
    }
}

// ---------------------------------------------------------------------
// reaction bodies
// ---------------------------------------------------------------------

/// Running a body.  A fault stops the body; the second component says
/// whether it ran to completion.
pub open spec fn body_s(rt: RtV, b: BodyV, bound: nat) -> (RtV, bool)
    decreases b,
{
    match b {
        BodyV::Skip => (rt, true),
        BodyV::Observe(e) => {
            let (rt1, r) = eval_s(rt, e, bound);
            (rt1, r is Some)
        },
        BodyV::SetSlot(s, e) => {
            let (rt1, r) = eval_s(rt, e, bound);
            match r {
                Some(v) => if (s as int) < rt1.slots.len() {
                    (RtV { slots: rt1.slots.update(s as int, v), ..rt1 }, true)
                } else {
                    (rt1, false)
                },
                None => (rt1, false),
            }
        },
        BodyV::IfElse(c, t, f) => {
            let (rt1, r) = eval_s(rt, c, bound);
            match r {
                Some(ValV::Bool(bv)) => if bv {
                    body_s(rt1, *t, bound)
                } else {
                    body_s(rt1, *f, bound)
                },
                _ => (rt1, false),
            }
        },
        BodyV::Then(a, b2) => {
            let (rt1, ok) = body_s(rt, *a, bound);
            if ok {
                body_s(rt1, *b2, bound)
            } else {
                (rt1, false)
            }
        },
    }
}

// ---------------------------------------------------------------------
// invalidation
// ---------------------------------------------------------------------

/// Invalidating memo `m`: walk its dependents, evict each live one from
/// the cache and invalidate it in turn, and prune the dead entries.
/// `n` is the (constant) number of memos, which bounds the walk because
/// dependency edges go from a memo to a strictly later one.
pub open spec fn inv_memo_s(rt: RtV, m: usize, n: nat) -> RtV
    decreases n - m, 1int, 0int,
{
    if (m as nat) < n && (m as int) < rt.memos.len() {
        let ds = rt.memos[m as int].deps;
        let rt1 = inv_list_s(rt, ds, 0, m as int, n);
        RtV {
            memos: rt1.memos.update(
                m as int,
                MemoV { deps: ds.filter(live_memo_pred(rt1)), ..rt1.memos[m as int] },
            ),
            ..rt1
        }
    } else {
        rt
    }
}

/// Invalidating the dependents `ds[i..]` of an owner later than `floor`.
pub open spec fn inv_list_s(rt: RtV, ds: Seq<usize>, i: int, floor: int, n: nat) -> RtV
    decreases n - floor, 0int, ds.len() - i,
{
    if i < 0 || i >= ds.len() || floor < -1 {
        rt
    } else {
        let d = ds[i];
        let rt1 = if memo_alive_s(rt, d) && floor < d && (d as nat) < n {
            inv_memo_s(cache_remove_s(rt, d), d, n)
        } else {
            rt
        };
        inv_list_s(rt1, ds, i + 1, floor, n)
    }
}

/// Invalidating everything downstream of cell `c`, pruning its dead
/// dependents.
pub open spec fn inv_cell_s(rt: RtV, c: int) -> RtV {
    let ds = rt.cells[c].deps;
    let rt1 = inv_list_s(rt, ds, 0, -1, rt.memos.len());
    RtV {
        cells: rt1.cells.update(
            c,
            CellV { deps: ds.filter(live_memo_pred(rt1)), ..rt1.cells[c] },
        ),
        ..rt1
    }
}

// ---------------------------------------------------------------------
// reactions
// ---------------------------------------------------------------------

/// Replaying reaction `r` untracked: its body runs under a
/// non-collecting stack entry, so no new dependencies are registered.
pub open spec fn replay_s(rt: RtV, r: usize) -> RtV {
    let rt1 = RtV { rstack: rt.rstack.push((r, false)), ..rt };
    let (rt2, ok) = body_s(rt1, rt1.reacts[r as int].body, rt1.memos.len());
    let rt3 = bump_runs_s(rt2, r as int);
    RtV { rstack: rt3.rstack.drop_last(), ..rt3 }
}

/// Replaying the still-alive subscribers `ss[i..]` in order.
pub open spec fn flush_list_s(rt: RtV, ss: Seq<usize>, i: int) -> RtV
    decreases ss.len() - i,
{
    if i < 0 || i >= ss.len() {
        rt
    } else {
        let r = ss[i];
        let rt1 = if react_alive_s(rt, r) {
            replay_s(rt, r)
        } else {
            rt
        };
        flush_list_s(rt1, ss, i + 1)
    }
}

/// Re-running every live reaction subscribed to cell `c`, pruning the
/// dead entries.
pub open spec fn flush_cell_s(rt: RtV, c: int) -> RtV {
    let ss = rt.cells[c].subs;
    let rt1 = flush_list_s(rt, ss, 0);
    RtV {
        cells: rt1.cells.update(
            c,
            CellV { subs: ss.filter(live_react_pred(rt1)), ..rt1.cells[c] },
        ),
        ..rt1
    }
}

// ---------------------------------------------------------------------
// the public operations
// ---------------------------------------------------------------------

/// Reading a cell from outside or inside an evaluation.
pub open spec fn cell_get_s(rt: RtV, c: usize) -> (RtV, Option<ValV>) {
    eval_s(rt, ExprV::ReadCell(c), rt.memos.len())
}

/// Reading a memo from outside an evaluation.
pub open spec fn memo_get_s(rt: RtV, m: usize) -> (RtV, Option<ValV>) {
    eval_s(rt, ExprV::ReadMemo(m), rt.memos.len())
}

/// Writing a cell: a write of the current value does nothing at all;
/// otherwise dependents are invalidated, the value is stored, and the
/// subscribed reactions are replayed.
pub open spec fn cell_set_s(rt: RtV, c: usize, v: ValV) -> (RtV, bool) {
    if (c as int) < rt.cells.len() {
        if rt.cells[c as int].value == v {
            (rt, false)
        } else {
            let rt1 = inv_cell_s(rt, c as int);
            let rt2 = RtV {
                cells: rt1.cells.update(c as int, CellV { value: v, ..rt1.cells[c as int] }),
                ..rt1
            };
            (flush_cell_s(rt2, c as int), true)
        }
    } else {
        (rt, false)
    }
}

pub open spec fn new_cell_s(rt: RtV, v: ValV) -> RtV {
    RtV {
        cells: rt.cells.push(CellV { value: v, deps: Seq::empty(), subs: Seq::empty(), reads: 0 }),
        ..rt
    }
}

pub open spec fn new_slot_s(rt: RtV, v: ValV) -> RtV {
    RtV { slots: rt.slots.push(v), ..rt }
}

pub open spec fn new_memo_s(rt: RtV, e: ExprV) -> RtV {
    RtV {
        memos: rt.memos.push(MemoV { expr: e, deps: Seq::empty(), alive: true, computes: 0 }),
        ..rt
    }
}

/// Creating a reaction: the body runs once, eagerly, in collecting mode,
/// discovering and registering its dependencies.
pub open spec fn new_react_s(rt: RtV, b: BodyV) -> RtV {
    let id = rt.reacts.len() as usize;
    let rt1 = RtV { reacts: rt.reacts.push(ReactV { body: b, alive: true, runs: 0 }), ..rt };
    let rt2 = RtV { rstack: rt1.rstack.push((id, true)), ..rt1 };
    let (rt3, ok) = body_s(rt2, b, rt2.memos.len());
    let rt4 = bump_runs_s(rt3, id as int);
    RtV { rstack: rt4.rstack.drop_last(), ..rt4 }
}

/// Creating a reaction with an explicit dependency collector: the
/// collector (alone) runs in collecting mode, then the body runs once,
/// untracked.
pub open spec fn new_react_deps_s(rt: RtV, b: BodyV, d: BodyV) -> RtV {
    let id = rt.reacts.len() as usize;
    let rt1 = RtV { reacts: rt.reacts.push(ReactV { body: b, alive: true, runs: 0 }), ..rt };
    let rt2 = RtV { rstack: rt1.rstack.push((id, true)), ..rt1 };
    let (rt3, ok) = body_s(rt2, d, rt2.memos.len());
    let rt4 = RtV { rstack: rt3.rstack.drop_last(), ..rt3 };
    replay_s(rt4, id)
}

/// Dropping a memo: it is gone from the cache at once; upstream entries
/// are pruned by later traversals.
pub open spec fn drop_memo_s(rt: RtV, m: usize) -> RtV {
    if (m as int) < rt.memos.len() {
        let rt1 = cache_remove_s(rt, m);
        RtV {
            memos: rt1.memos.update(m as int, MemoV { alive: false, ..rt1.memos[m as int] }),
            ..rt1
        }
    } else {
        rt
    }
}

/// Dropping a reaction: cells that hold it drop the dead entry on their
/// next write.
pub open spec fn drop_react_s(rt: RtV, r: usize) -> RtV {
    if (r as int) < rt.reacts.len() {
        RtV {
            reacts: rt.reacts.update(r as int, ReactV { alive: false, ..rt.reacts[r as int] }),
            ..rt
        }
    } else {
        rt
    }
}

} // verus!
