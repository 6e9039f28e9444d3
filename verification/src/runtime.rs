//! The reactive runtime: one value holding every cell, memo, reaction,
//! output slot, the result cache and the two context stacks.
//!
//! Entities are identified by their index in their table.  A dropped memo
//! or reaction keeps its slot but is marked dead: dead entries are pruned
//! from dependent and subscriber lists by the next traversal that meets
//! them, which is how the engine mirrors the lazily-collected weak
//! references of the dependency graph.

use vstd::prelude::*;

use crate::cache::{
    cache_cap, cache_entries, cache_len, cache_new, entries_lookup,
};
use crate::expr::{Body, Expr};
use crate::state::{CellV, MemoV, ReactV, RtV, at_rest, inv_rt};
use crate::value::{Value, clone_value};

verus! {

/// The fixed bound of the result cache.
pub const CACHE_CAP: usize = 128;

/// A single-threaded reactive world.
pub struct Runtime {
    pub(crate) cell_values: Vec<Value>,
    pub(crate) cell_deps: Vec<Vec<usize>>,
    pub(crate) cell_subs: Vec<Vec<usize>>,
    pub(crate) cell_reads: Vec<u64>,
    pub(crate) memo_exprs: Vec<Expr>,
    pub(crate) memo_deps: Vec<Vec<usize>>,
    pub(crate) memo_alive: Vec<bool>,
    pub(crate) memo_computes: Vec<u64>,
    pub(crate) react_bodies: Vec<Body>,
    pub(crate) react_alive: Vec<bool>,
    pub(crate) react_runs: Vec<u64>,
    pub(crate) slots: Vec<Value>,
    pub(crate) cache: lru::LruCache<usize, Value>,
    pub(crate) mstack: Vec<usize>,
    pub(crate) rstack: Vec<(usize, bool)>,
}

impl View for Runtime {
    type V = RtV;

    open(crate) spec fn view(&self) -> RtV {
        RtV {
            cells: Seq::new(
                self.cell_values@.len(),
                |i: int|
                    CellV {
                        value: self.cell_values@[i]@,
                        deps: self.cell_deps@[i]@,
                        subs: self.cell_subs@[i]@,
                        reads: self.cell_reads@[i],
                    },
            ),
            memos: Seq::new(
                self.memo_exprs@.len(),
                |i: int|
                    MemoV {
                        expr: self.memo_exprs@[i]@,
                        deps: self.memo_deps@[i]@,
                        alive: self.memo_alive@[i],
                        computes: self.memo_computes@[i],
                    },
            ),
            reacts: Seq::new(
                self.react_bodies@.len(),
                |i: int|
                    ReactV {
                        body: self.react_bodies@[i]@,
                        alive: self.react_alive@[i],
                        runs: self.react_runs@[i],
                    },
            ),
            slots: Seq::new(self.slots@.len(), |i: int| self.slots@[i]@),
            cache: cache_entries(self.cache),
            cap: cache_cap(self.cache),
            mstack: self.mstack@,
            rstack: self.rstack@,
        }
    }
}

impl Runtime {
    /// The parallel tables agree in length.
    pub open(crate) spec fn lens_ok(&self) -> bool {
        &&& self.cell_deps@.len() == self.cell_values@.len()
        &&& self.cell_subs@.len() == self.cell_values@.len()
        &&& self.cell_reads@.len() == self.cell_values@.len()
        &&& self.memo_deps@.len() == self.memo_exprs@.len()
        &&& self.memo_alive@.len() == self.memo_exprs@.len()
        &&& self.memo_computes@.len() == self.memo_exprs@.len()
        &&& self.react_alive@.len() == self.react_bodies@.len()
        &&& self.react_runs@.len() == self.react_bodies@.len()
    }

    /// Internal well-formedness: the tables agree and the state invariant
    /// holds.  This is what the engine carries through an evaluation.
    pub open(crate) spec fn wf_core(&self) -> bool {
        self.lens_ok() && inv_rt(self@)
    }

    /// A well-formed runtime between operations: internally consistent,
    /// with both context stacks empty.
    pub open(crate) spec fn wf(&self) -> bool {
        self.wf_core() && at_rest(self@)
    }

    /// A fresh runtime: no entities, an empty cache bounded by
    /// `CACHE_CAP`, empty stacks.
    pub fn new() -> (rt: Runtime)
        ensures
            rt.wf(),
            rt@ == empty_rt(),
    {
        let rt = Runtime {
            cell_values: Vec::new(),
            cell_deps: Vec::new(),
            cell_subs: Vec::new(),
            cell_reads: Vec::new(),
            memo_exprs: Vec::new(),
            memo_deps: Vec::new(),
            memo_alive: Vec::new(),
            memo_computes: Vec::new(),
            react_bodies: Vec::new(),
            react_alive: Vec::new(),
            react_runs: Vec::new(),
            slots: Vec::new(),
            cache: cache_new(CACHE_CAP),
            mstack: Vec::new(),
            rstack: Vec::new(),
        };
        proof {
            assert(rt@ =~= empty_rt());
        }
        rt
    }

    /// How many cells exist.
    pub fn n_cells(&self) -> (r: usize)
        ensures
            r == self@.cells.len(),
    {
        self.cell_values.len()
    }

    /// How many memos exist.
    pub fn n_memos(&self) -> (r: usize)
        ensures
            r == self@.memos.len(),
    {
        self.memo_exprs.len()
    }

    /// How many reactions exist.
    pub fn n_reactions(&self) -> (r: usize)
        ensures
            r == self@.reacts.len(),
    {
        self.react_bodies.len()
    }

    /// How often the cell has been read.
    pub fn cell_reads(&self, c: usize) -> (r: u64)
        requires
            self.wf(),
            c < self@.cells.len(),
        ensures
            r == self@.cells[c as int].reads,
    {
        self.cell_reads[c]
    }

    /// How often the memo's computation has run.
    pub fn memo_computes(&self, m: usize) -> (r: u64)
        requires
            self.wf(),
            m < self@.memos.len(),
        ensures
            r == self@.memos[m as int].computes,
    {
        self.memo_computes[m]
    }

    /// How often the reaction's body has run.
    pub fn reaction_runs(&self, r: usize) -> (out: u64)
        requires
            self.wf(),
            r < self@.reacts.len(),
        ensures
            out == self@.reacts[r as int].runs,
    {
        self.react_runs[r]
    }

    /// Whether the memo is still alive.
    pub fn memo_is_alive(&self, m: usize) -> (r: bool)
        requires
            self.wf(),
            m < self@.memos.len(),
        ensures
            r == self@.memos[m as int].alive,
    {
        self.memo_alive[m]
    }

    /// Whether the reaction is still alive.
    pub fn reaction_is_alive(&self, r: usize) -> (out: bool)
        requires
            self.wf(),
            r < self@.reacts.len(),
        ensures
            out == self@.reacts[r as int].alive,
    {
        self.react_alive[r]
    }

    /// Whether the result cache currently holds an entry for the memo.
    pub fn is_cached(&self, m: usize) -> (r: bool)
        ensures
            r == (entries_lookup(self@.cache, m) is Some),
    {
        crate::cache::cache_contains(&self.cache, m)
    }

    /// How many entries the result cache holds.
    pub fn cache_size(&self) -> (r: usize)
        ensures
            r == self@.cache.len(),
    {
        cache_len(&self.cache)
    }

    /// Creates a non-reactive output slot that reaction bodies may write.
    pub fn new_slot(&mut self, v: Value) -> (s: usize)
        requires
            old(self).wf(),
        ensures
            final(self).wf(),
            final(self)@ == crate::sem::new_slot_s(old(self)@, v@),
            s == old(self)@.slots.len(),
    {
        let s = self.slots.len();
        self.slots.push(v);
        proof {
            assert(self@.slots =~= old(self)@.slots.push(v@));
            assert(self@ =~= crate::sem::new_slot_s(old(self)@, v@));
            assert forall|r: int| 0 <= r < self@.reacts.len() implies crate::state::react_ok(
                self@,
                r,
            ) by {
                assert(crate::state::react_ok(old(self)@, r));
                crate::expr::lemma_body_wf_widen(
                    self@.reacts[r].body,
                    old(self)@.cells.len(),
                    self@.cells.len(),
                    old(self)@.memos.len(),
                    self@.memos.len(),
                    old(self)@.slots.len(),
                    self@.slots.len(),
                );
            }
            assert forall|c: int| 0 <= c < self@.cells.len() implies crate::state::cell_ok(
                self@,
                #[trigger] self@.cells[c],
            ) by {
                assert(crate::state::cell_ok(old(self)@, old(self)@.cells[c]));
            }
            assert forall|m: int| 0 <= m < self@.memos.len() implies crate::state::memo_ok(
                self@,
                m,
            ) by {
                assert(crate::state::memo_ok(old(self)@, m));
            }
            assert(inv_rt(self@));
        }
        s
    }

    /// The current value of an output slot.
    pub fn slot_get(&self, s: usize) -> (r: Value)
        requires
            self.wf(),
            s < self@.slots.len(),
        ensures
            r@ == self@.slots[s as int],
    {
        clone_value(&self.slots[s])
    }

    /// Pushes the evaluating memo onto the memo stack.
    pub(crate) fn push_memo(&mut self, m: usize)
        ensures
            final(self)@ == crate::sem::push_memo_s(old(self)@, m),
            old(self).lens_ok() ==> final(self).lens_ok(),
    {
        self.mstack.push(m);
        proof {
            assert(self@ =~= crate::sem::push_memo_s(old(self)@, m));
        }
    }

    /// Pops the memo stack.  The caller must name the memo of the
    /// matching push: a mismatched pop — the fatal condition of the
    /// stack discipline — is proved impossible in verified callers.
    pub(crate) fn pop_memo(&mut self, m: usize)
        requires
            old(self)@.mstack.len() > 0,
            old(self)@.mstack.last() == m,
        ensures
            final(self)@ == crate::sem::pop_memo_s(old(self)@),
            old(self).lens_ok() ==> final(self).lens_ok(),
    {
        let _ = self.mstack.pop();
        proof {
            assert(self@ =~= crate::sem::pop_memo_s(old(self)@));
        }
    }

    /// Pushes a reaction onto the reaction stack, with its pass kind:
    /// collecting, or an untracked replay.
    pub(crate) fn push_reaction(&mut self, r: usize, collecting: bool)
        ensures
            final(self)@ == (RtV { rstack: old(self)@.rstack.push((r, collecting)), ..old(self)@ }),
            old(self).lens_ok() ==> final(self).lens_ok(),
    {
        self.rstack.push((r, collecting));
        proof {
            assert(self@ =~= (RtV {
                rstack: old(self)@.rstack.push((r, collecting)),
                ..old(self)@
            }));
        }
    }

    /// Pops the reaction stack.  The caller must name the reaction and
    /// the pass kind of the matching push: a mismatch is proved
    /// impossible in verified callers.
    pub(crate) fn pop_reaction(&mut self, r: usize, collecting: bool)
        requires
            old(self)@.rstack.len() > 0,
            old(self)@.rstack.last() == (r, collecting),
        ensures
            final(self)@ == (RtV { rstack: old(self)@.rstack.drop_last(), ..old(self)@ }),
            old(self).lens_ok() ==> final(self).lens_ok(),
    {
        let _ = self.rstack.pop();
        proof {
            assert(self@ =~= (RtV { rstack: old(self)@.rstack.drop_last(), ..old(self)@ }));
        }
    }

    /// Whether the innermost reaction on the stack is collecting.
    pub(crate) fn peek_collecting(&self) -> (r: bool)
        ensures
            r == crate::sem::collecting_s(self@),
    {
        if self.rstack.len() == 0 {
            false
        } else {
            self.rstack[self.rstack.len() - 1].1
        }
    }

    /// Reads cell `c`: registers the reading memo and the collecting
    /// reaction, counts the read, and hands out the value.
    pub(crate) fn cell_read_inner(&mut self, c: usize) -> (out: Value)
        requires
            old(self).wf_core(),
            c < old(self)@.cells.len(),
        ensures
            final(self).wf_core(),
            final(self)@ == crate::sem::reg_cell_s(old(self)@, c as int),
            out@ == old(self)@.cells[c as int].value,
    {
        if self.mstack.len() > 0 {
            let j = self.mstack[self.mstack.len() - 1];
            if !contains_id(&self.cell_deps[c], j) {
                let mut l = copy_ids(&self.cell_deps[c]);
                l.push(j);
                self.cell_deps.set(c, l);
            }
        }
        if self.rstack.len() > 0 {
            let (r, col) = self.rstack[self.rstack.len() - 1];
            if col {
                if !contains_id(&self.cell_subs[c], r) {
                    let mut l = copy_ids(&self.cell_subs[c]);
                    l.push(r);
                    self.cell_subs.set(c, l);
                }
            }
        }
        self.cell_reads.set(c, crate::value::bump(self.cell_reads[c]));
        let out = clone_value(&self.cell_values[c]);
        proof {
            assert(self@.cells =~= crate::sem::reg_cell_s(old(self)@, c as int).cells);
            assert(self@ =~= crate::sem::reg_cell_s(old(self)@, c as int));
            assert forall|i: int| 0 <= i < self@.cells.len() implies crate::state::cell_ok(
                self@,
                #[trigger] self@.cells[i],
            ) by {
                assert(crate::state::cell_ok(old(self)@, old(self)@.cells[i]));
            }
            assert forall|m: int| 0 <= m < self@.memos.len() implies crate::state::memo_ok(
                self@,
                m,
            ) by {
                assert(crate::state::memo_ok(old(self)@, m));
            }
            assert forall|r: int| 0 <= r < self@.reacts.len() implies crate::state::react_ok(
                self@,
                r,
            ) by {
                assert(crate::state::react_ok(old(self)@, r));
            }
            assert(inv_rt(self@));
        }
        out
    }

    /// Registers the reading memo as a dependent of memo `m`.
    pub(crate) fn memo_reg_inner(&mut self, m: usize)
        requires
            old(self).wf_core(),
            m < old(self)@.memos.len(),
            old(self)@.mstack.len() > 0 ==> (m as int) < old(self)@.mstack.last() as int,
        ensures
            final(self).wf_core(),
            final(self)@ == crate::sem::reg_memo_s(old(self)@, m as int),
    {
        if self.mstack.len() > 0 {
            let j = self.mstack[self.mstack.len() - 1];
            if !contains_id(&self.memo_deps[m], j) {
                let mut l = copy_ids(&self.memo_deps[m]);
                l.push(j);
                self.memo_deps.set(m, l);
            }
        }
        proof {
            assert(self@.memos =~= crate::sem::reg_memo_s(old(self)@, m as int).memos);
            assert(self@ =~= crate::sem::reg_memo_s(old(self)@, m as int));
            assert forall|i: int| 0 <= i < self@.cells.len() implies crate::state::cell_ok(
                self@,
                #[trigger] self@.cells[i],
            ) by {
                assert(crate::state::cell_ok(old(self)@, old(self)@.cells[i]));
            }
            assert forall|i: int| 0 <= i < self@.memos.len() implies crate::state::memo_ok(
                self@,
                i,
            ) by {
                assert(crate::state::memo_ok(old(self)@, i));
            }
            assert forall|r: int| 0 <= r < self@.reacts.len() implies crate::state::react_ok(
                self@,
                r,
            ) by {
                assert(crate::state::react_ok(old(self)@, r));
            }
            assert(inv_rt(self@));
        }
    }
}

/// The state of a fresh runtime.
pub open spec fn empty_rt() -> RtV {
    RtV {
        cells: Seq::empty(),
        memos: Seq::empty(),
        reacts: Seq::empty(),
        slots: Seq::empty(),
        cache: Seq::empty(),
        cap: CACHE_CAP as nat,
        mstack: Seq::empty(),
        rstack: Seq::empty(),
    }
}

/// Whether an identity list contains `x`.
pub(crate) fn contains_id(v: &Vec<usize>, x: usize) -> (r: bool)
    ensures
        r == v@.contains(x),
{
    let mut i: usize = 0;
    while i < v.len()
        invariant
            i <= v.len(),
            forall|j: int| 0 <= j < i ==> v@[j] != x,
        decreases v.len() - i,
    {
        if v[i] == x {
            return true;
        }
        i += 1;
    }
    false
}

/// A copy of an identity list.
pub(crate) fn copy_ids(v: &Vec<usize>) -> (r: Vec<usize>)
    ensures
        r@ == v@,
{
    let mut r: Vec<usize> = Vec::new();
    let mut i: usize = 0;
    while i < v.len()
        invariant
            i <= v.len(),
            r@ == v@.subrange(0, i as int),
        decreases v.len() - i,
    {
        r.push(v[i]);
        i += 1;
    }
    proof {
        assert(v@.subrange(0, v.len() as int) =~= v@);
    }
    r
}

} // verus!
