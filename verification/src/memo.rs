//! The memoized computation.
//!
//! A `Memo` is a handle to a cached, dependency-tracked computation in a
//! runtime.  Reading it resolves through the result cache, registers the
//! memo with whatever is reading it, and recomputes only after an
//! invalidation — except during a reaction's collecting pass, where the
//! cache is bypassed so that every reachable cell is visited.

use vstd::prelude::*;

use crate::engine::eval_expr;
use crate::expr::{Expr, check_expr, expr_wf};
use crate::runtime::Runtime;
use crate::sem::{drop_memo_s, memo_get_s, new_memo_s};
use crate::state::{MemoV, RtV, cell_ok, inv_rt, memo_ok, react_ok};
use crate::value::Value;

verus! {

/// A handle to a memoized computation.
#[derive(Clone, Copy)]
pub struct Memo {
    pub id: usize,
}

impl Memo {
    /// Creates a memo for a computation.  The computation may read any
    /// cell and any memo that already exists; a computation naming
    /// anything else is rejected, which is also what keeps every
    /// dependency chain well-founded.
    pub fn new(rt: &mut Runtime, computation: Expr) -> (m: Option<Memo>)
        requires
            old(rt).wf(),
        ensures
            final(rt).wf(),
            (m is Some) == expr_wf(
                computation@,
                old(rt)@.cells.len(),
                old(rt)@.memos.len(),
            ),
            (match m {
                Some(h) => final(rt)@ == new_memo_s(old(rt)@, computation@) && h.id == old(
                    rt,
                )@.memos.len(),
                None => final(rt)@ == old(rt)@,
            }),
    {
        let ok = check_expr(&computation, rt.cell_values.len(), rt.memo_exprs.len());
        if !ok {
            return None;
        }
        let id = rt.memo_exprs.len();
        rt.memo_exprs.push(computation);
        rt.memo_deps.push(Vec::new());
        rt.memo_alive.push(true);
        rt.memo_computes.push(0);
        proof {
            let a = old(rt)@;
            let b = rt@;
            assert(b.memos =~= new_memo_s(a, b.memos[id as int].expr).memos);
            assert(b =~= new_memo_s(a, b.memos[id as int].expr));
            assert forall|c: int| 0 <= c < b.cells.len() implies cell_ok(
                b,
                #[trigger] b.cells[c],
            ) by {
                assert(cell_ok(a, a.cells[c]));
                assert(crate::state::list_in_range(b.cells[c].deps, -1, a.memos.len() as int));
            }
            assert forall|m2: int| 0 <= m2 < b.memos.len() implies memo_ok(b, m2) by {
                if m2 < a.memos.len() {
                    assert(memo_ok(a, m2));
                } else {
                    assert(b.memos[m2].deps.len() == 0);
                    assert(b.memos[m2].expr == computation@);
                }
            }
            assert forall|r: int| 0 <= r < b.reacts.len() implies react_ok(b, r) by {
                assert(react_ok(a, r));
                crate::expr::lemma_body_wf_widen(
                    b.reacts[r].body,
                    a.cells.len(),
                    b.cells.len(),
                    a.memos.len(),
                    b.memos.len(),
                    a.slots.len(),
                    b.slots.len(),
                );
            }
            assert(inv_rt(b));
        }
        Some(Memo { id })
    }

    /// Reads the memo: a value from the cache if one is current, a fresh
    /// run of the computation otherwise; either way the memo registers
    /// itself with whatever is reading it.  `None` is an evaluation
    /// fault: a dead memo on the path, a type error, or arithmetic out
    /// of range.
    pub fn get(&self, rt: &mut Runtime) -> (out: Option<Value>)
        requires
            old(rt).wf(),
            self.id < old(rt)@.memos.len(),
        ensures
            final(rt).wf(),
            final(rt)@ == memo_get_s(old(rt)@, self.id).0,
            (match out {
                Some(v) => memo_get_s(old(rt)@, self.id).1 == Some(v@),
                None => memo_get_s(old(rt)@, self.id).1 is None,
            }),
    {
        let e = Expr::ReadMemo(self.id);
        let ghost bound = old(rt)@.memos.len();
        let out = eval_expr(rt, &e, Ghost(bound));
        out
    }
}

impl Runtime {
    /// Drops a memo: it is marked dead and leaves the result cache at
    /// once; upstream dependent lists prune the dead entry on the next
    /// traversal that meets it.
    pub fn drop_memo(&mut self, m: Memo)
        requires
            old(self).wf(),
            m.id < old(self)@.memos.len(),
        ensures
            final(self).wf(),
            final(self)@ == drop_memo_s(old(self)@, m.id),
    {
        let _ = crate::cache::cache_pop(&mut self.cache, m.id);
        let ghost rt1 = self@;
        proof {
            assert(rt1 =~= crate::sem::cache_remove_s(old(self)@, m.id));
            crate::cache::lemma_remove_len(old(self)@.cache, m.id);
            crate::cache::lemma_remove_keys_below(old(self)@.cache, m.id, old(self)@.memos.len());
            crate::state::lemma_inv_parts(old(self)@, rt1);
        }
        self.memo_alive.set(m.id, false);
        proof {
            assert(self@.memos =~= rt1.memos.update(
                m.id as int,
                MemoV { alive: false, ..rt1.memos[m.id as int] },
            ));
            assert(self@ =~= (RtV {
                memos: rt1.memos.update(
                    m.id as int,
                    MemoV { alive: false, ..rt1.memos[m.id as int] },
                ),
                ..rt1
            }));
            crate::state::lemma_inv_parts(rt1, self@);
            assert(self@ =~= drop_memo_s(old(self)@, m.id));
        }
    }
}

} // verus!
