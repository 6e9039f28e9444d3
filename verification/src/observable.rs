//! The invalidation protocol and reaction flushing.
//!
//! A changed cell walks its dependents, evicting each live memo from the
//! result cache and recursively invalidating the memo's own dependents;
//! dead entries met on the way are pruned.  After the new value is
//! stored, the cell's live subscribers are replayed untracked, pruning
//! dead subscribers likewise.

use vstd::prelude::*;

use crate::cache::cache_pop;
use crate::engine::exec_body;
use crate::runtime::{Runtime, copy_ids};
use crate::sem::{
    cache_remove_s, flush_list_s, inv_list_s, inv_memo_s, memo_alive_s, react_alive_s, replay_s,
};
use crate::state::{MemoV, RtV, inv_rt, no_dup};
use crate::value::bump;

verus! {

/// One step of building a filtered prefix.
proof fn lemma_filter_step(s: Seq<usize>, i: int, p: spec_fn(usize) -> bool)
    requires
        0 <= i < s.len(),
    ensures
        s.subrange(0, i + 1).filter(p) == (if p(s[i]) {
            s.subrange(0, i).filter(p).push(s[i])
        } else {
            s.subrange(0, i).filter(p)
        }),
{
    reveal(Seq::filter);
    let pre = s.subrange(0, i);
    let pre1 = s.subrange(0, i + 1);
    assert(pre1.drop_last() =~= pre);
    assert(pre1.last() == s[i]);
}

/// The empty prefix filters to the empty sequence.
proof fn lemma_filter_empty(s: Seq<usize>, p: spec_fn(usize) -> bool)
    ensures
        s.subrange(0, 0).filter(p) == Seq::<usize>::empty(),
{
    reveal(Seq::filter);
    assert(s.subrange(0, 0) =~= Seq::<usize>::empty());
}

/// The live entries of an identity list of memos, order kept.
fn keep_live_memos(rt: &Runtime, ds: &Vec<usize>) -> (kept: Vec<usize>)
    requires
        rt.lens_ok(),
        no_dup(ds@),
    ensures
        kept@ == ds@.filter(crate::sem::live_memo_pred(rt@)),
        no_dup(kept@),
        forall|j: int| 0 <= j < kept@.len() ==> ds@.contains(#[trigger] kept@[j]),
{
    let ghost p = crate::sem::live_memo_pred(rt@);
    let mut kept: Vec<usize> = Vec::new();
    let mut i: usize = 0;
    proof {
        lemma_filter_empty(ds@, p);
    }
    while i < ds.len()
        invariant
            i <= ds@.len(),
            rt.lens_ok(),
            no_dup(ds@),
            p == crate::sem::live_memo_pred(rt@),
            kept@ == ds@.subrange(0, i as int).filter(p),
            no_dup(kept@),
            forall|j: int|
                0 <= j < kept@.len() ==> exists|k: int|
                    0 <= k < i && ds@[k] == #[trigger] kept@[j],
        decreases ds@.len() - i,
    {
        let d = ds[i];
        proof {
            lemma_filter_step(ds@, i as int, p);
        }
        if d < rt.memo_alive.len() && rt.memo_alive[d] {
            proof {
                assert(p(d));
                if exists|k: int| 0 <= k < i && ds@[k] == d {
                    let k = choose|k: int| 0 <= k < i && ds@[k] == d;
                    assert(ds@[k] == ds@[i as int]);
                    assert(false);
                }
            }
            let ghost kept0 = kept@;
            kept.push(d);
            proof {
                assert forall|j1: int| 0 <= j1 < kept0.len() implies kept0[j1] != d by {
                    if kept0[j1] == d {
                        let k = choose|k: int| 0 <= k < i && ds@[k] == kept0[j1];
                        assert(ds@[k] == ds@[i as int]);
                    }
                }
                assert(no_dup(kept@));
            }
        } else {
            proof {
                assert(!p(d));
            }
        }
        i += 1;
    }
    proof {
        assert(ds@.subrange(0, ds@.len() as int) =~= ds@);
        assert forall|j: int| 0 <= j < kept@.len() implies ds@.contains(#[trigger] kept@[j]) by {
            let k = choose|k: int| 0 <= k < ds@.len() && ds@[k] == kept@[j];
        }
    }
    kept
}

/// The live entries of an identity list of reactions, order kept.
fn keep_live_reacts(rt: &Runtime, ss: &Vec<usize>) -> (kept: Vec<usize>)
    requires
        rt.lens_ok(),
        no_dup(ss@),
    ensures
        kept@ == ss@.filter(crate::sem::live_react_pred(rt@)),
        no_dup(kept@),
        forall|j: int| 0 <= j < kept@.len() ==> ss@.contains(#[trigger] kept@[j]),
{
    let ghost p = crate::sem::live_react_pred(rt@);
    let mut kept: Vec<usize> = Vec::new();
    let mut i: usize = 0;
    proof {
        lemma_filter_empty(ss@, p);
    }
    while i < ss.len()
        invariant
            i <= ss@.len(),
            rt.lens_ok(),
            no_dup(ss@),
            p == crate::sem::live_react_pred(rt@),
            kept@ == ss@.subrange(0, i as int).filter(p),
            no_dup(kept@),
            forall|j: int|
                0 <= j < kept@.len() ==> exists|k: int|
                    0 <= k < i && ss@[k] == #[trigger] kept@[j],
        decreases ss@.len() - i,
    {
        let r = ss[i];
        proof {
            lemma_filter_step(ss@, i as int, p);
        }
        if r < rt.react_alive.len() && rt.react_alive[r] {
            proof {
                assert(p(r));
                if exists|k: int| 0 <= k < i && ss@[k] == r {
                    let k = choose|k: int| 0 <= k < i && ss@[k] == r;
                    assert(ss@[k] == ss@[i as int]);
                    assert(false);
                }
            }
            let ghost kept0 = kept@;
            kept.push(r);
            proof {
                assert forall|j1: int| 0 <= j1 < kept0.len() implies kept0[j1] != r by {
                    if kept0[j1] == r {
                        let k = choose|k: int| 0 <= k < i && ss@[k] == kept0[j1];
                        assert(ss@[k] == ss@[i as int]);
                    }
                }
                assert(no_dup(kept@));
            }
        } else {
            proof {
                assert(!p(r));
            }
        }
        i += 1;
    }
    proof {
        assert(ss@.subrange(0, ss@.len() as int) =~= ss@);
        assert forall|j: int| 0 <= j < kept@.len() implies ss@.contains(#[trigger] kept@[j]) by {
            let k = choose|k: int| 0 <= k < ss@.len() && ss@[k] == kept@[j];
        }
    }
    kept
}

/// Invalidates memo `m`: walks its dependents, evicts each live one from
/// the cache and invalidates it in turn, and prunes dead entries.
pub(crate) fn inv_memo(rt: &mut Runtime, m: usize, Ghost(n): Ghost<nat>)
    requires
        old(rt).wf_core(),
        n == old(rt)@.memos.len(),
        (m as nat) < n,
    ensures
        final(rt).wf_core(),
        final(rt)@ == inv_memo_s(old(rt)@, m, n),
        final(rt)@.cells == old(rt)@.cells,
        final(rt)@.reacts == old(rt)@.reacts,
        final(rt)@.slots == old(rt)@.slots,
        final(rt)@.mstack == old(rt)@.mstack,
        final(rt)@.rstack == old(rt)@.rstack,
        final(rt)@.memos.len() == old(rt)@.memos.len(),
        forall|j: int|
            0 <= j < n ==> {
                let mf = #[trigger] final(rt)@.memos[j];
                let mo = old(rt)@.memos[j];
                mf.alive == mo.alive && mf.expr == mo.expr && mf.computes == mo.computes
            },
    decreases n - m,
{
    let ds = copy_ids(&rt.memo_deps[m]);
    let ghost rt0 = rt@;
    let ghost ds0 = ds@;
    proof {
        assert(crate::state::memo_ok(rt0, m as int));
        assert(rt0.memos[m as int].deps == ds0);
    }
    let mut i: usize = 0;
    while i < ds.len()
        invariant
            rt.wf_core(),
            ds@ == ds0,
            i <= ds0.len(),
            n == rt@.memos.len(),
            (m as nat) < n,
            crate::state::list_in_range(ds0, m as int, n as int),
            inv_list_s(rt0, ds0, 0, m as int, n) == inv_list_s(rt@, ds0, i as int, m as int, n),
            rt@.cells == rt0.cells,
            rt@.reacts == rt0.reacts,
            rt@.slots == rt0.slots,
            rt@.mstack == rt0.mstack,
            rt@.rstack == rt0.rstack,
            forall|j: int|
                0 <= j < n ==> (#[trigger] rt@.memos[j]).alive == rt0.memos[j].alive
                    && rt@.memos[j].expr == rt0.memos[j].expr && rt@.memos[j].computes
                    == rt0.memos[j].computes,
        decreases ds0.len() - i,
    {
        let d = ds[i];
        let ghost rt_i = rt@;
        proof {
            assert(m < d && (d as int) < n as int);
        }
        if rt.memo_alive[d] {
            let _ = cache_pop(&mut rt.cache, d);
            proof {
                assert(rt@ =~= cache_remove_s(rt_i, d));
                crate::cache::lemma_remove_len(rt_i.cache, d);
                crate::cache::lemma_remove_keys_below(rt_i.cache, d, rt_i.memos.len());
                crate::state::lemma_inv_parts(rt_i, rt@);
            }
            inv_memo(rt, d, Ghost(n));
            proof {
                assert(rt@ == inv_memo_s(cache_remove_s(rt_i, d), d, n));
            }
        } else {
            proof {
                assert(!memo_alive_s(rt_i, d));
            }
        }
        i += 1;
    }
    let ghost rt1 = rt@;
    let kept = keep_live_memos(rt, &ds);
    rt.memo_deps.set(m, kept);
    proof {
        let pspec = crate::sem::live_memo_pred(rt1);
        assert(kept@ == ds0.filter(pspec));
        assert(rt@.memos =~= rt1.memos.update(
            m as int,
            MemoV { deps: ds0.filter(pspec), ..rt1.memos[m as int] },
        ));
        assert(rt@ =~= RtV {
            memos: rt1.memos.update(
                m as int,
                MemoV { deps: ds0.filter(pspec), ..rt1.memos[m as int] },
            ),
            ..rt1
        });
        assert(rt@ == inv_memo_s(rt0, m, n));
        assert forall|c: int| 0 <= c < rt@.cells.len() implies crate::state::cell_ok(
            rt@,
            #[trigger] rt@.cells[c],
        ) by {
            assert(crate::state::cell_ok(rt1, rt1.cells[c]));
        }
        assert forall|j: int| 0 <= j < rt@.memos.len() implies crate::state::memo_ok(rt@, j) by {
            assert(crate::state::memo_ok(rt1, j));
            if j == m as int {
                assert forall|x: int| 0 <= x < rt@.memos[j].deps.len() implies (m as int) < (
                #[trigger] rt@.memos[j].deps[x]) && (rt@.memos[j].deps[x] as int) < rt@.memos.len()
                    as int by {
                    assert(ds0.contains(rt@.memos[j].deps[x]));
                    let k = choose|k: int| 0 <= k < ds0.len() && ds0[k] == rt@.memos[j].deps[x];
                }
            }
        }
        assert forall|r: int| 0 <= r < rt@.reacts.len() implies crate::state::react_ok(rt@, r) by {
            assert(crate::state::react_ok(rt1, r));
        }
        assert(inv_rt(rt@));
    }
}

/// Invalidates every memo downstream of cell `c` and prunes the cell's
/// dead dependents.
pub(crate) fn inv_cell(rt: &mut Runtime, c: usize)
    requires
        old(rt).wf_core(),
        c < old(rt)@.cells.len(),
    ensures
        final(rt).wf_core(),
        final(rt)@ == crate::sem::inv_cell_s(old(rt)@, c as int),
        final(rt)@.reacts == old(rt)@.reacts,
        final(rt)@.slots == old(rt)@.slots,
        final(rt)@.mstack == old(rt)@.mstack,
        final(rt)@.rstack == old(rt)@.rstack,
        final(rt)@.cells.len() == old(rt)@.cells.len(),
        final(rt)@.memos.len() == old(rt)@.memos.len(),
        forall|i: int|
            0 <= i < old(rt)@.cells.len() ==> {
                let cf = #[trigger] final(rt)@.cells[i];
                let co = old(rt)@.cells[i];
                cf.value == co.value && cf.subs == co.subs && cf.reads == co.reads
            },
        forall|j: int|
            0 <= j < old(rt)@.memos.len() ==> {
                let mf = #[trigger] final(rt)@.memos[j];
                let mo = old(rt)@.memos[j];
                mf.alive == mo.alive && mf.expr == mo.expr && mf.computes == mo.computes
            },
{
    let ghost n = old(rt)@.memos.len();
    let ds = copy_ids(&rt.cell_deps[c]);
    let ghost rt0 = rt@;
    let ghost ds0 = ds@;
    proof {
        assert(crate::state::cell_ok(rt0, rt0.cells[c as int]));
        assert(rt0.cells[c as int].deps == ds0);
    }
    let mut i: usize = 0;
    while i < ds.len()
        invariant
            rt.wf_core(),
            ds@ == ds0,
            i <= ds0.len(),
            n == rt@.memos.len(),
            c < rt@.cells.len(),
            crate::state::list_in_range(ds0, -1, n as int),
            inv_list_s(rt0, ds0, 0, -1, n) == inv_list_s(rt@, ds0, i as int, -1, n),
            rt@.cells == rt0.cells,
            rt@.reacts == rt0.reacts,
            rt@.slots == rt0.slots,
            rt@.mstack == rt0.mstack,
            rt@.rstack == rt0.rstack,
            forall|j: int|
                0 <= j < n ==> (#[trigger] rt@.memos[j]).alive == rt0.memos[j].alive
                    && rt@.memos[j].expr == rt0.memos[j].expr && rt@.memos[j].computes
                    == rt0.memos[j].computes,
        decreases ds0.len() - i,
    {
        let d = ds[i];
        let ghost rt_i = rt@;
        proof {
            assert((d as int) < n as int);
        }
        if rt.memo_alive[d] {
            let _ = cache_pop(&mut rt.cache, d);
            proof {
                assert(rt@ =~= cache_remove_s(rt_i, d));
                crate::cache::lemma_remove_len(rt_i.cache, d);
                crate::cache::lemma_remove_keys_below(rt_i.cache, d, rt_i.memos.len());
                crate::state::lemma_inv_parts(rt_i, rt@);
            }
            inv_memo(rt, d, Ghost(n));
            proof {
                assert(rt@ == inv_memo_s(cache_remove_s(rt_i, d), d, n));
            }
        } else {
            proof {
                assert(!memo_alive_s(rt_i, d));
            }
        }
        i += 1;
    }
    let ghost rt1 = rt@;
    let kept = keep_live_memos(rt, &ds);
    rt.cell_deps.set(c, kept);
    proof {
        let pspec = crate::sem::live_memo_pred(rt1);
        assert(kept@ == ds0.filter(pspec));
        assert(rt@.cells =~= rt1.cells.update(
            c as int,
            crate::state::CellV { deps: ds0.filter(pspec), ..rt1.cells[c as int] },
        ));
        assert(rt@ =~= RtV {
            cells: rt1.cells.update(
                c as int,
                crate::state::CellV { deps: ds0.filter(pspec), ..rt1.cells[c as int] },
            ),
            ..rt1
        });
        assert(rt@ == crate::sem::inv_cell_s(rt0, c as int));
        assert forall|i2: int| 0 <= i2 < rt@.cells.len() implies crate::state::cell_ok(
            rt@,
            #[trigger] rt@.cells[i2],
        ) by {
            assert(crate::state::cell_ok(rt1, rt1.cells[i2]));
            if i2 == c as int {
                assert forall|x: int| 0 <= x < rt@.cells[i2].deps.len() implies -1 < (
                #[trigger] rt@.cells[i2].deps[x]) && (rt@.cells[i2].deps[x] as int)
                    < rt@.memos.len() as int by {
                    assert(ds0.contains(rt@.cells[i2].deps[x]));
                    let k = choose|k: int| 0 <= k < ds0.len() && ds0[k] == rt@.cells[i2].deps[x];
                }
            }
        }
        assert forall|j: int| 0 <= j < rt@.memos.len() implies crate::state::memo_ok(rt@, j) by {
            assert(crate::state::memo_ok(rt1, j));
        }
        assert forall|r: int| 0 <= r < rt@.reacts.len() implies crate::state::react_ok(rt@, r) by {
            assert(crate::state::react_ok(rt1, r));
        }
        assert(inv_rt(rt@));
    }
}

/// Replays reaction `r` untracked: pushes a non-collecting stack entry,
/// runs the body, counts the run, pops.
pub(crate) fn replay(rt: &mut Runtime, r: usize)
    requires
        old(rt).wf_core(),
        r < old(rt)@.reacts.len(),
        old(rt)@.mstack.len() == 0,
    ensures
        final(rt).wf_core(),
        final(rt)@ == replay_s(old(rt)@, r),
        final(rt)@.cells.len() == old(rt)@.cells.len(),
        final(rt)@.memos.len() == old(rt)@.memos.len(),
        final(rt)@.reacts.len() == old(rt)@.reacts.len(),
        final(rt)@.slots.len() == old(rt)@.slots.len(),
        final(rt)@.mstack == old(rt)@.mstack,
        final(rt)@.rstack == old(rt)@.rstack,
        forall|i: int|
            0 <= i < old(rt)@.memos.len() ==> {
                let mf = #[trigger] final(rt)@.memos[i];
                let mo = old(rt)@.memos[i];
                mf.expr == mo.expr && mf.alive == mo.alive
            },
        forall|i: int|
            0 <= i < old(rt)@.reacts.len() ==> {
                let rf = #[trigger] final(rt)@.reacts[i];
                let ro = old(rt)@.reacts[i];
                rf.body == ro.body && rf.alive == ro.alive
            },
{
    let ghost rt0 = rt@;
    rt.push_reaction(r, false);
    let ghost rt1 = rt@;
    proof {
        assert(rt1 =~= RtV { rstack: rt0.rstack.push((r, false)), ..rt0 });
        assert forall|i: int| 0 <= i < rt1.rstack.len() implies ((
        #[trigger] rt1.rstack[i]).0 as int) < rt1.reacts.len() by {
            if i < rt0.rstack.len() {
                assert(rt1.rstack[i] == rt0.rstack[i]);
            } else {
                assert(rt1.rstack[i] == (r, false));
            }
        }
        crate::state::lemma_inv_parts(rt0, rt1);
        assert(crate::state::react_ok(rt1, r as int));
    }
    let b = crate::expr::clone_body(&rt.react_bodies[r]);
    let ghost bound = rt1.memos.len();
    let _ = exec_body(rt, &b, Ghost(bound));
    let ghost rt2 = rt@;
    rt.react_runs.set(r, bump(rt.react_runs[r]));
    let ghost rt3 = rt@;
    proof {
        assert(rt3.reacts =~= crate::sem::bump_runs_s(rt2, r as int).reacts);
        assert(rt3 =~= crate::sem::bump_runs_s(rt2, r as int));
        crate::state::lemma_inv_parts(rt2, rt3);
    }
    rt.pop_reaction(r, false);
    proof {
        assert(rt@ =~= RtV { rstack: rt3.rstack.drop_last(), ..rt3 });
        assert forall|i: int| 0 <= i < rt@.rstack.len() implies ((
        #[trigger] rt@.rstack[i]).0 as int) < rt@.reacts.len() by {
            assert(rt@.rstack[i] == rt3.rstack[i]);
        }
        crate::state::lemma_inv_parts(rt3, rt@);
        assert(rt@ =~= replay_s(rt0, r));
    }
}

/// Re-runs every live reaction subscribed to cell `c`, in subscription
/// order, and prunes the dead subscribers.
pub(crate) fn flush_cell(rt: &mut Runtime, c: usize)
    requires
        old(rt).wf_core(),
        c < old(rt)@.cells.len(),
        old(rt)@.mstack.len() == 0,
    ensures
        final(rt).wf_core(),
        final(rt)@ == crate::sem::flush_cell_s(old(rt)@, c as int),
        final(rt)@.cells.len() == old(rt)@.cells.len(),
        final(rt)@.memos.len() == old(rt)@.memos.len(),
        final(rt)@.reacts.len() == old(rt)@.reacts.len(),
        final(rt)@.slots.len() == old(rt)@.slots.len(),
        final(rt)@.mstack == old(rt)@.mstack,
        final(rt)@.rstack == old(rt)@.rstack,
{
    let ss = copy_ids(&rt.cell_subs[c]);
    let ghost rt0 = rt@;
    let ghost ss0 = ss@;
    proof {
        assert(crate::state::cell_ok(rt0, rt0.cells[c as int]));
        assert(rt0.cells[c as int].subs == ss0);
    }
    let mut i: usize = 0;
    while i < ss.len()
        invariant
            rt.wf_core(),
            ss@ == ss0,
            i <= ss0.len(),
            c < rt@.cells.len(),
            rt@.cells.len() == rt0.cells.len(),
            rt@.memos.len() == rt0.memos.len(),
            rt@.reacts.len() == rt0.reacts.len(),
            rt@.slots.len() == rt0.slots.len(),
            rt@.mstack == rt0.mstack,
            rt@.mstack.len() == 0,
            rt@.rstack == rt0.rstack,
            crate::state::list_in_range(ss0, -1, rt0.reacts.len() as int),
            flush_list_s(rt0, ss0, 0) == flush_list_s(rt@, ss0, i as int),
        decreases ss0.len() - i,
    {
        let r = ss[i];
        let ghost rt_i = rt@;
        proof {
            assert((r as int) < rt@.reacts.len() as int);
        }
        if rt.react_alive[r] {
            replay(rt, r);
            proof {
                assert(rt@ == replay_s(rt_i, r));
            }
        } else {
            proof {
                assert(!react_alive_s(rt_i, r));
            }
        }
        i += 1;
    }
    let ghost rt1 = rt@;
    let kept = keep_live_reacts(rt, &ss);
    rt.cell_subs.set(c, kept);
    proof {
        let pspec = crate::sem::live_react_pred(rt1);
        assert(kept@ == ss0.filter(pspec));
        assert(rt@.cells =~= rt1.cells.update(
            c as int,
            crate::state::CellV { subs: ss0.filter(pspec), ..rt1.cells[c as int] },
        ));
        assert(rt@ =~= RtV {
            cells: rt1.cells.update(
                c as int,
                crate::state::CellV { subs: ss0.filter(pspec), ..rt1.cells[c as int] },
            ),
            ..rt1
        });
        assert(rt@ == crate::sem::flush_cell_s(rt0, c as int));
        assert forall|i2: int| 0 <= i2 < rt@.cells.len() implies crate::state::cell_ok(
            rt@,
            #[trigger] rt@.cells[i2],
        ) by {
            assert(crate::state::cell_ok(rt1, rt1.cells[i2]));
            if i2 == c as int {
                assert forall|x: int| 0 <= x < rt@.cells[i2].subs.len() implies -1 < (
                #[trigger] rt@.cells[i2].subs[x]) && (rt@.cells[i2].subs[x] as int)
                    < rt@.reacts.len() as int by {
                    assert(ss0.contains(rt@.cells[i2].subs[x]));
                    let k = choose|k: int| 0 <= k < ss0.len() && ss0[k] == rt@.cells[i2].subs[x];
                }
            }
        }
        assert forall|j: int| 0 <= j < rt@.memos.len() implies crate::state::memo_ok(rt@, j) by {
            assert(crate::state::memo_ok(rt1, j));
        }
        assert forall|r: int| 0 <= r < rt@.reacts.len() implies crate::state::react_ok(rt@, r) by {
            assert(crate::state::react_ok(rt1, r));
        }
        assert(inv_rt(rt@));
    }
}

} // verus!
