//! The mathematical state of a reactive runtime.
//!
//! Every executable operation of the engine is specified as a function
//! over this ghost state (see the semantics module); the runtime's view
//! is a value of `RtV`.

use vstd::prelude::*;

use crate::cache::entries_keys_below;
use crate::expr::{BodyV, ExprV, body_wf, expr_wf};
use crate::value::ValV;

verus! {

/// A reactive cell: its value, the memos that read it, the reactions
/// subscribed to it, and how often it has been read.
#[verifier::ext_equal]
pub ghost struct CellV {
    pub value: ValV,
    pub deps: Seq<usize>,
    pub subs: Seq<usize>,
    pub reads: u64,
}

/// A memo: its computation, the memos that read it, whether it is still
/// alive, and how often its computation has run.
#[verifier::ext_equal]
pub ghost struct MemoV {
    pub expr: ExprV,
    pub deps: Seq<usize>,
    pub alive: bool,
    pub computes: u64,
}

/// A reaction: its body, whether it is still alive, and how often the
/// body has run.
#[verifier::ext_equal]
pub ghost struct ReactV {
    pub body: BodyV,
    pub alive: bool,
    pub runs: u64,
}

/// The whole runtime: entity tables, output slots, the result cache
/// (most recently used first) with its bound, and the two context stacks.
#[verifier::ext_equal]
pub ghost struct RtV {
    pub cells: Seq<CellV>,
    pub memos: Seq<MemoV>,
    pub reacts: Seq<ReactV>,
    pub slots: Seq<ValV>,
    pub cache: Seq<(usize, ValV)>,
    pub cap: nat,
    pub mstack: Seq<usize>,
    pub rstack: Seq<(usize, bool)>,
}

/// Every entry lies strictly between `lo` and `hi`.
pub open spec fn list_in_range(s: Seq<usize>, lo: int, hi: int) -> bool {
    forall|i: int| 0 <= i < s.len() ==> lo < #[trigger] s[i] && (s[i] as int) < hi
}

/// No entry occurs twice.
pub open spec fn no_dup(s: Seq<usize>) -> bool {
    forall|i: int, j: int| 0 <= i < j < s.len() ==> s[i] != s[j]
}

pub open spec fn cell_ok(rt: RtV, c: CellV) -> bool {
    &&& list_in_range(c.deps, -1, rt.memos.len() as int)
    &&& list_in_range(c.subs, -1, rt.reacts.len() as int)
    &&& no_dup(c.deps)
    &&& no_dup(c.subs)
}

pub open spec fn memo_ok(rt: RtV, m: int) -> bool {
    &&& expr_wf(rt.memos[m].expr, rt.cells.len(), m as nat)
    &&& list_in_range(rt.memos[m].deps, m, rt.memos.len() as int)
    &&& no_dup(rt.memos[m].deps)
}

pub open spec fn react_ok(rt: RtV, r: int) -> bool {
    body_wf(rt.reacts[r].body, rt.cells.len(), rt.memos.len(), rt.slots.len())
}

/// The structural invariant of a runtime: all recorded identities exist,
/// dependency edges go from a memo to a strictly later memo, dependent
/// and subscriber lists hold no duplicates, the cache respects its bound
/// and holds only existing memos, and the stacks hold existing
/// identities.
pub open spec fn inv_rt(rt: RtV) -> bool {
    &&& forall|c: int| 0 <= c < rt.cells.len() ==> cell_ok(rt, #[trigger] rt.cells[c])
    &&& forall|m: int| 0 <= m < rt.memos.len() ==> memo_ok(rt, m)
    &&& forall|r: int| 0 <= r < rt.reacts.len() ==> react_ok(rt, r)
    &&& entries_keys_below(rt.cache, rt.memos.len())
    &&& rt.cache.len() <= rt.cap
    &&& 1 <= rt.cap
    &&& forall|i: int| 0 <= i < rt.mstack.len() ==> (#[trigger] rt.mstack[i] as int) < rt.memos.len()
    &&& forall|i: int|
        0 <= i < rt.rstack.len() ==> ((#[trigger] rt.rstack[i]).0 as int) < rt.reacts.len()
}

/// Both context stacks are empty: the state between public operations.
pub open spec fn at_rest(rt: RtV) -> bool {
    rt.mstack.len() == 0 && rt.rstack.len() == 0
}

/// The invariant carries over to a state that differs only in cell
/// values, read and run counters, aliveness flags, slot values, the
/// cache and the stacks — provided the cache and stack side conditions
/// are re-established.
pub proof fn lemma_inv_parts(a: RtV, b: RtV)
    requires
        inv_rt(a),
        b.cells.len() == a.cells.len(),
        forall|c: int|
            0 <= c < b.cells.len() ==> (#[trigger] b.cells[c]).deps == a.cells[c].deps
                && b.cells[c].subs == a.cells[c].subs,
        b.memos.len() == a.memos.len(),
        forall|m: int|
            0 <= m < b.memos.len() ==> (#[trigger] b.memos[m]).expr == a.memos[m].expr
                && b.memos[m].deps == a.memos[m].deps,
        b.reacts.len() == a.reacts.len(),
        forall|r: int| 0 <= r < b.reacts.len() ==> (#[trigger] b.reacts[r]).body == a.reacts[r].body,
        b.slots.len() == a.slots.len(),
        entries_keys_below(b.cache, b.memos.len()),
        b.cache.len() <= b.cap,
        1 <= b.cap,
        forall|i: int| 0 <= i < b.mstack.len() ==> (#[trigger] b.mstack[i] as int) < b.memos.len(),
        forall|i: int|
            0 <= i < b.rstack.len() ==> ((#[trigger] b.rstack[i]).0 as int) < b.reacts.len(),
    ensures
        inv_rt(b),
{
    assert forall|c: int| 0 <= c < b.cells.len() implies cell_ok(b, #[trigger] b.cells[c]) by {
        assert(cell_ok(a, a.cells[c]));
    }
    assert forall|m: int| 0 <= m < b.memos.len() implies memo_ok(b, m) by {
        assert(memo_ok(a, m));
    }
    assert forall|r: int| 0 <= r < b.reacts.len() implies react_ok(b, r) by {
        assert(react_ok(a, r));
    }
}

} // verus!
