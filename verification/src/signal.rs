//! The reactive cell.
//!
//! A `Signal` is a handle to a mutable value holder in a runtime.
//! Reading it inside an evaluation registers the reader; writing a
//! different value invalidates every dependent memo and replays every
//! subscribed reaction; writing the current value does nothing at all.

use vstd::prelude::*;

use crate::observable::{flush_cell, inv_cell};
use crate::runtime::Runtime;
use crate::sem::{cell_set_s, inv_cell_s, new_cell_s, reg_cell_s};
use crate::state::{CellV, RtV, cell_ok, inv_rt, memo_ok, react_ok};
use crate::value::{Value, bump_s, value_eq};

verus! {

/// A handle to a reactive cell.
#[derive(Clone, Copy)]
pub struct Signal {
    pub id: usize,
}

impl Signal {
    /// Creates a cell holding `value`, with no dependents and no
    /// subscribers.
    pub fn new(rt: &mut Runtime, value: Value) -> (s: Signal)
        requires
            old(rt).wf(),
        ensures
            final(rt).wf(),
            final(rt)@ == new_cell_s(old(rt)@, value@),
            s.id == old(rt)@.cells.len(),
    {
        let id = rt.cell_values.len();
        rt.cell_values.push(value);
        rt.cell_deps.push(Vec::new());
        rt.cell_subs.push(Vec::new());
        rt.cell_reads.push(0);
        proof {
            let a = old(rt)@;
            let b = rt@;
            assert(b.cells =~= new_cell_s(a, value@).cells);
            assert(b =~= new_cell_s(a, value@));
            assert forall|c: int| 0 <= c < b.cells.len() implies cell_ok(
                b,
                #[trigger] b.cells[c],
            ) by {
                if c < a.cells.len() {
                    assert(b.cells[c] == a.cells[c]);
                    assert(cell_ok(a, a.cells[c]));
                } else {
                    assert(b.cells[c].deps.len() == 0);
                    assert(b.cells[c].subs.len() == 0);
                }
            }
            assert forall|m: int| 0 <= m < b.memos.len() implies memo_ok(b, m) by {
                assert(memo_ok(a, m));
                crate::expr::lemma_expr_wf_widen(
                    b.memos[m].expr,
                    a.cells.len(),
                    b.cells.len(),
                    m as nat,
                    m as nat,
                );
            }
            assert forall|r: int| 0 <= r < b.reacts.len() implies react_ok(b, r) by {
                assert(react_ok(a, r));
                crate::expr::lemma_body_wf_widen(
                    b.reacts[r].body,
                    a.cells.len(),
                    b.cells.len(),
                    a.memos.len(),
                    b.memos.len(),
                    a.slots.len(),
                    b.slots.len(),
                );
            }
            assert(inv_rt(b));
        }
        Signal { id }
    }

    /// Reads the cell.  Inside an evaluation the read registers the
    /// reading memo and the collecting reaction; from outside it only
    /// counts the read and returns the value.
    pub fn get(&self, rt: &mut Runtime) -> (out: Value)
        requires
            old(rt).wf(),
            self.id < old(rt)@.cells.len(),
        ensures
            final(rt).wf(),
            out@ == old(rt)@.cells[self.id as int].value,
            final(rt)@ == (RtV {
                cells: old(rt)@.cells.update(
                    self.id as int,
                    CellV {
                        reads: bump_s(old(rt)@.cells[self.id as int].reads),
                        ..old(rt)@.cells[self.id as int]
                    },
                ),
                ..old(rt)@
            }),
            final(rt)@ == reg_cell_s(old(rt)@, self.id as int),
    {
        let out = rt.cell_read_inner(self.id);
        proof {
            assert(rt@.cells =~= old(rt)@.cells.update(
                self.id as int,
                CellV {
                    reads: bump_s(old(rt)@.cells[self.id as int].reads),
                    ..old(rt)@.cells[self.id as int]
                },
            ));
            assert(rt@ =~= RtV {
                cells: old(rt)@.cells.update(
                    self.id as int,
                    CellV {
                        reads: bump_s(old(rt)@.cells[self.id as int].reads),
                        ..old(rt)@.cells[self.id as int]
                    },
                ),
                ..old(rt)@
            });
        }
        out
    }

    /// Writes the cell.  A write of the current value returns `false`
    /// and changes nothing: no invalidation, no cache eviction, no
    /// reaction replay.  A write of a different value invalidates every
    /// dependent memo, stores the value, replays every live subscribed
    /// reaction, and returns `true`.
    pub fn set(&self, rt: &mut Runtime, value: Value) -> (changed: bool)
        requires
            old(rt).wf(),
            self.id < old(rt)@.cells.len(),
        ensures
            final(rt).wf(),
            final(rt)@ == cell_set_s(old(rt)@, self.id, value@).0,
            changed == cell_set_s(old(rt)@, self.id, value@).1,
            changed == (value@ != old(rt)@.cells[self.id as int].value),
            !changed ==> final(rt)@ == old(rt)@,
    {
        let same = value_eq(&rt.cell_values[self.id], &value);
        if same {
            return false;
        }
        inv_cell(rt, self.id);
        let ghost rt1 = rt@;
        rt.cell_values.set(self.id, value);
        proof {
            assert(rt@.cells =~= rt1.cells.update(
                self.id as int,
                CellV { value: value@, ..rt1.cells[self.id as int] },
            ));
            assert(rt@ =~= RtV {
                cells: rt1.cells.update(
                    self.id as int,
                    CellV { value: value@, ..rt1.cells[self.id as int] },
                ),
                ..rt1
            });
            crate::state::lemma_inv_parts(rt1, rt@);
        }
        flush_cell(rt, self.id);
        proof {
            assert(rt@ == cell_set_s(old(rt)@, self.id, value@).0);
        }
        true
    }

    /// Force-invalidates the cell: every dependent memo is invalidated
    /// as by a write, without a value change and without replaying
    /// reactions.  For callers that mutate the held value through a side
    /// channel.
    pub fn invalidate(&self, rt: &mut Runtime)
        requires
            old(rt).wf(),
            self.id < old(rt)@.cells.len(),
        ensures
            final(rt).wf(),
            final(rt)@ == inv_cell_s(old(rt)@, self.id as int),
    {
        inv_cell(rt, self.id);
    }
}

} // verus!
