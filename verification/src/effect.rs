//! The reaction.
//!
//! An `Effect` is a handle to a side-effecting computation in a runtime.
//! Its body runs once, eagerly, at creation — that collecting pass
//! discovers its dependencies and subscribes it to every cell it
//! (transitively) read — and is replayed untracked whenever one of those
//! cells changes.  A reaction is always a terminal node: nothing ever
//! registers a reaction as a dependency of something else.

use vstd::prelude::*;

use crate::engine::exec_body;
use crate::expr::{Body, body_wf, check_body, clone_body};
use crate::observable::replay;
use crate::runtime::Runtime;
use crate::sem::{bump_runs_s, drop_react_s, new_react_deps_s, new_react_s};
use crate::state::{ReactV, RtV, cell_ok, inv_rt, memo_ok, react_ok};
use crate::value::bump;

verus! {

/// A handle to a reaction.
#[derive(Clone, Copy)]
pub struct Effect {
    pub id: usize,
}

impl Effect {
    /// Appends a fresh, live reaction with the given body and no runs.
    fn push_react(rt: &mut Runtime, body: Body) -> (id: usize)
        requires
            old(rt).wf_core(),
            body_wf(body@, old(rt)@.cells.len(), old(rt)@.memos.len(), old(rt)@.slots.len()),
        ensures
            final(rt).wf_core(),
            final(rt)@ == (RtV {
                reacts: old(rt)@.reacts.push(
                    ReactV { body: body@, alive: true, runs: 0 },
                ),
                ..old(rt)@
            }),
            id == old(rt)@.reacts.len(),
    {
        let id = rt.react_bodies.len();
        rt.react_bodies.push(body);
        rt.react_alive.push(true);
        rt.react_runs.push(0);
        proof {
            let a = old(rt)@;
            let b = rt@;
            assert(b.reacts =~= a.reacts.push(ReactV { body: b.reacts[id as int].body, alive: true, runs: 0 }));
            assert(b =~= (RtV {
                reacts: a.reacts.push(ReactV { body: b.reacts[id as int].body, alive: true, runs: 0 }),
                ..a
            }));
            assert forall|c: int| 0 <= c < b.cells.len() implies cell_ok(
                b,
                #[trigger] b.cells[c],
            ) by {
                assert(cell_ok(a, a.cells[c]));
                assert(crate::state::list_in_range(b.cells[c].subs, -1, a.reacts.len() as int));
            }
            assert forall|m: int| 0 <= m < b.memos.len() implies memo_ok(b, m) by {
                assert(memo_ok(a, m));
            }
            assert forall|r: int| 0 <= r < b.reacts.len() implies react_ok(b, r) by {
                if r < a.reacts.len() {
                    assert(react_ok(a, r));
                } else {
                    assert(b.reacts[r].body == body@);
                }
            }
            assert(inv_rt(b));
        }
        id
    }

    /// Creates a reaction and runs its body once, eagerly, in collecting
    /// mode: every cell the body (transitively) reads subscribes the
    /// reaction.  A body naming an unknown identity is rejected.
    pub fn new(rt: &mut Runtime, body: Body) -> (e: Option<Effect>)
        requires
            old(rt).wf(),
        ensures
            final(rt).wf(),
            (e is Some) == body_wf(
                body@,
                old(rt)@.cells.len(),
                old(rt)@.memos.len(),
                old(rt)@.slots.len(),
            ),
            (match e {
                Some(h) => final(rt)@ == new_react_s(old(rt)@, body@) && h.id == old(
                    rt,
                )@.reacts.len(),
                None => final(rt)@ == old(rt)@,
            }),
    {
        let ok = check_body(&body, rt.cell_values.len(), rt.memo_exprs.len(), rt.slots.len());
        if !ok {
            return None;
        }
        let b2 = clone_body(&body);
        let id = Self::push_react(rt, body);
        let ghost rt1 = rt@;
        rt.push_reaction(id, true);
        let ghost rt2 = rt@;
        proof {
            assert(rt2 =~= (RtV { rstack: rt1.rstack.push((id, true)), ..rt1 }));
            assert forall|i: int| 0 <= i < rt2.rstack.len() implies ((
            #[trigger] rt2.rstack[i]).0 as int) < rt2.reacts.len() by {
                if i < rt1.rstack.len() {
                    assert(rt2.rstack[i] == rt1.rstack[i]);
                } else {
                    assert(rt2.rstack[i] == (id, true));
                }
            }
            crate::state::lemma_inv_parts(rt1, rt2);
        }
        let ghost bound = rt2.memos.len();
        let _ = exec_body(rt, &b2, Ghost(bound));
        let ghost rt3 = rt@;
        rt.react_runs.set(id, bump(rt.react_runs[id]));
        let ghost rt4 = rt@;
        proof {
            assert(rt4.reacts =~= bump_runs_s(rt3, id as int).reacts);
            assert(rt4 =~= bump_runs_s(rt3, id as int));
            crate::state::lemma_inv_parts(rt3, rt4);
        }
        rt.pop_reaction(id, true);
        proof {
            assert(rt@ =~= (RtV { rstack: rt4.rstack.drop_last(), ..rt4 }));
            assert forall|i: int| 0 <= i < rt@.rstack.len() implies ((
            #[trigger] rt@.rstack[i]).0 as int) < rt@.reacts.len() by {
                assert(rt@.rstack[i] == rt4.rstack[i]);
            }
            crate::state::lemma_inv_parts(rt4, rt@);
            assert(rt@.rstack =~= old(rt)@.rstack);
            assert(rt@ =~= new_react_s(old(rt)@, body@));
        }
        Some(Effect { id })
    }

    /// Creates a reaction with an explicit dependency collector.  Only
    /// the collector runs in collecting mode, so the subscriptions are
    /// exactly the cells the collector names — useful when the body
    /// branches and a first run would visit only one branch.  The body
    /// then runs once, untracked.
    pub fn new_with_deps(rt: &mut Runtime, body: Body, deps: Body) -> (e: Option<Effect>)
        requires
            old(rt).wf(),
        ensures
            final(rt).wf(),
            (e is Some) == (body_wf(
                body@,
                old(rt)@.cells.len(),
                old(rt)@.memos.len(),
                old(rt)@.slots.len(),
            ) && body_wf(
                deps@,
                old(rt)@.cells.len(),
                old(rt)@.memos.len(),
                old(rt)@.slots.len(),
            )),
            (match e {
                Some(h) => final(rt)@ == new_react_deps_s(old(rt)@, body@, deps@) && h.id == old(
                    rt,
                )@.reacts.len(),
                None => final(rt)@ == old(rt)@,
            }),
    {
        let ok1 = check_body(&body, rt.cell_values.len(), rt.memo_exprs.len(), rt.slots.len());
        let ok2 = check_body(&deps, rt.cell_values.len(), rt.memo_exprs.len(), rt.slots.len());
        if !ok1 || !ok2 {
            return None;
        }
        let id = Self::push_react(rt, body);
        let ghost rt1 = rt@;
        rt.push_reaction(id, true);
        let ghost rt2 = rt@;
        proof {
            assert(rt2 =~= (RtV { rstack: rt1.rstack.push((id, true)), ..rt1 }));
            assert forall|i: int| 0 <= i < rt2.rstack.len() implies ((
            #[trigger] rt2.rstack[i]).0 as int) < rt2.reacts.len() by {
                if i < rt1.rstack.len() {
                    assert(rt2.rstack[i] == rt1.rstack[i]);
                } else {
                    assert(rt2.rstack[i] == (id, true));
                }
            }
            crate::state::lemma_inv_parts(rt1, rt2);
        }
        let ghost bound = rt2.memos.len();
        let _ = exec_body(rt, &deps, Ghost(bound));
        let ghost rt3 = rt@;
        rt.pop_reaction(id, true);
        proof {
            assert(rt@ =~= (RtV { rstack: rt3.rstack.drop_last(), ..rt3 }));
            assert forall|i: int| 0 <= i < rt@.rstack.len() implies ((
            #[trigger] rt@.rstack[i]).0 as int) < rt@.reacts.len() by {
                assert(rt@.rstack[i] == rt3.rstack[i]);
            }
            crate::state::lemma_inv_parts(rt3, rt@);
            assert(rt@.rstack =~= old(rt)@.rstack);
            assert(rt@.mstack.len() == 0);
        }
        replay(rt, id);
        proof {
            assert(rt@ =~= new_react_deps_s(old(rt)@, body@, deps@));
        }
        Some(Effect { id })
    }
}

impl Runtime {
    /// Drops a reaction: it is marked dead; cells that hold it drop the
    /// dead entry on their next write.
    pub fn drop_reaction(&mut self, e: Effect)
        requires
            old(self).wf(),
            e.id < old(self)@.reacts.len(),
        ensures
            final(self).wf(),
            final(self)@ == drop_react_s(old(self)@, e.id),
    {
        self.react_alive.set(e.id, false);
        proof {
            assert(self@.reacts =~= old(self)@.reacts.update(
                e.id as int,
                ReactV { alive: false, ..old(self)@.reacts[e.id as int] },
            ));
            assert(self@ =~= (RtV {
                reacts: old(self)@.reacts.update(
                    e.id as int,
                    ReactV { alive: false, ..old(self)@.reacts[e.id as int] },
                ),
                ..old(self)@
            }));
            crate::state::lemma_inv_parts(old(self)@, self@);
            assert(self@ =~= drop_react_s(old(self)@, e.id));
        }
    }
}

} // verus!
