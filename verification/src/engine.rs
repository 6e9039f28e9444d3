//! The executable evaluator: it interprets expressions and reaction
//! bodies against the runtime, registering dependencies as reads occur
//! and resolving memo reads through the result cache.  Every function
//! here refines the corresponding function of the semantics module.

use vstd::prelude::*;

use crate::cache::{
    cache_get, cache_pop, cache_put, entries_keys_below, entries_lookup, entries_promote,
    entries_put, entries_remove, lemma_lookup_in_keys, lemma_remove_keys, lemma_remove_keys_below,
    lemma_remove_len,
};
use crate::expr::{Body, Expr, ExprV, body_wf, clone_expr, expr_size, expr_wf};
use crate::runtime::Runtime;
use crate::sem::{
    body_s, bump_computes_s, cache_promote_s, cache_put_s, cache_remove_s, collecting_s,
    compute_memo_s, eval_s, memo_alive_s, pop_memo_s, push_memo_s, reg_cell_s, reg_memo_s,
};
use crate::state::{RtV, memo_ok};
use crate::value::{Value, ValV, bump, clone_value, parse_int};

verus! {

/// Addition on machine integers, faulting outside the representable
/// range.
fn checked_add_i64(x: i64, y: i64) -> (r: Option<i64>)
    ensures
        r == (if i64::MIN <= x + y <= i64::MAX {
            Some((x + y) as i64)
        } else {
            None::<i64>
        }),
{
    let s: i128 = x as i128 + y as i128;
    if s < i64::MIN as i128 || s > i64::MAX as i128 {
        None
    } else {
        Some(s as i64)
    }
}

/// Subtraction on machine integers, faulting outside the representable
/// range.
fn checked_sub_i64(x: i64, y: i64) -> (r: Option<i64>)
    ensures
        r == (if i64::MIN <= x - y <= i64::MAX {
            Some((x - y) as i64)
        } else {
            None::<i64>
        }),
{
    let s: i128 = x as i128 - y as i128;
    if s < i64::MIN as i128 || s > i64::MAX as i128 {
        None
    } else {
        Some(s as i64)
    }
}

/// Multiplication on machine integers, faulting outside the representable
/// range.
fn checked_mul_i64(x: i64, y: i64) -> (r: Option<i64>)
    ensures
        r == (if i64::MIN <= x * y <= i64::MAX {
            Some((x * y) as i64)
        } else {
            None::<i64>
        }),
{
    proof {
        assert(x * y <= i128::MAX && x * y >= i128::MIN) by (nonlinear_arith)
            requires
                i64::MIN <= x <= i64::MAX,
                i64::MIN <= y <= i64::MAX,
        ;
    }
    let s: i128 = (x as i128) * (y as i128);
    if s < i64::MIN as i128 || s > i64::MAX as i128 {
        None
    } else {
        Some(s as i64)
    }
}

/// The result cache keeps its invariants under a store.
proof fn lemma_put_wf(es: Seq<(usize, ValV)>, k: usize, v: ValV, cap: nat, n: nat)
    requires
        entries_keys_below(es, n),
        (k as nat) < n,
        es.len() <= cap,
        1 <= cap,
    ensures
        entries_keys_below(entries_put(es, k, v, cap), n),
        entries_put(es, k, v, cap).len() <= cap,
{
    let out = entries_put(es, k, v, cap);
    lemma_remove_len(es, k);
    lemma_remove_keys_below(es, k, n);
    if entries_lookup(es, k) is Some {
        assert forall|i: int| 0 <= i < out.len() implies (#[trigger] out[i]).0 < n by {
            if i > 0 {
                assert(out[i] == entries_remove(es, k)[i - 1]);
            }
        }
    } else if es.len() >= cap {
        assert forall|i: int| 0 <= i < out.len() implies (#[trigger] out[i]).0 < n by {
            if i > 0 {
                assert(out[i] == es.drop_last()[i - 1]);
            }
        }
    } else {
        assert forall|i: int| 0 <= i < out.len() implies (#[trigger] out[i]).0 < n by {
            if i > 0 {
                assert(out[i] == es[i - 1]);
            }
        }
    }
}

/// The result cache keeps its invariants under a promotion.
proof fn lemma_promote_wf(es: Seq<(usize, ValV)>, k: usize, cap: nat, n: nat)
    requires
        entries_keys_below(es, n),
        es.len() <= cap,
    ensures
        entries_keys_below(entries_promote(es, k), n),
        entries_promote(es, k).len() <= cap,
{
    let out = entries_promote(es, k);
    if entries_lookup(es, k) is Some {
        lemma_remove_len(es, k);
        lemma_remove_keys_below(es, k, n);
        lemma_lookup_in_keys(es, k);
        assert forall|i: int| 0 <= i < out.len() implies (#[trigger] out[i]).0 < n by {
            if i > 0 {
                assert(out[i] == entries_remove(es, k)[i - 1]);
            }
        }
    }
}

/// The result cache keeps its invariants under a removal.
proof fn lemma_remove_wf(es: Seq<(usize, ValV)>, k: usize, cap: nat, n: nat)
    requires
        entries_keys_below(es, n),
        es.len() <= cap,
    ensures
        entries_keys_below(entries_remove(es, k), n),
        entries_remove(es, k).len() <= cap,
{
    lemma_remove_len(es, k);
    lemma_remove_keys_below(es, k, n);
}

/// Runs memo `m`'s own computation after a (possibly forced) cache miss:
/// counts the computation, evaluates it with `m` itself as the bound,
/// and stores a produced value in the cache.
fn compute_memo(rt: &mut Runtime, m: usize) -> (out: Option<Value>)
    requires
        old(rt).wf_core(),
        m < old(rt)@.memos.len(),
        old(rt)@.mstack.len() > 0,
        old(rt)@.mstack.last() == m,
    ensures
        final(rt).wf_core(),
        final(rt)@ == compute_memo_s(old(rt)@, m).0,
        (match out {
            Some(v) => compute_memo_s(old(rt)@, m).1 == Some(v@),
            None => compute_memo_s(old(rt)@, m).1 is None,
        }),
        final(rt)@.cells.len() == old(rt)@.cells.len(),
        final(rt)@.memos.len() == old(rt)@.memos.len(),
        final(rt)@.slots == old(rt)@.slots,
        final(rt)@.reacts == old(rt)@.reacts,
        final(rt)@.mstack == old(rt)@.mstack,
        final(rt)@.rstack == old(rt)@.rstack,
        forall|i: int|
            0 <= i < old(rt)@.memos.len() ==> (#[trigger] final(rt)@.memos[i]).expr == old(
                rt,
            )@.memos[i].expr && final(rt)@.memos[i].alive == old(rt)@.memos[i].alive,
    decreases m, 2int, 0nat,
{
    let ghost rt0 = rt@;
    rt.memo_computes.set(m, bump(rt.memo_computes[m]));
    let ghost rt1 = rt@;
    proof {
        assert(rt@.memos =~= bump_computes_s(rt0, m as int).memos);
        assert(rt@ =~= bump_computes_s(rt0, m as int));
        crate::state::lemma_inv_parts(rt0, rt1);
        assert(rt.wf_core());
        assert(memo_ok(rt1, m as int));
        assert(expr_wf(rt1.memos[m as int].expr, rt1.cells.len(), m as nat));
    }
    let e2 = clone_expr(&rt.memo_exprs[m]);
    proof {
        assert(e2@ == rt1.memos[m as int].expr);
    }
    let res = eval_expr(rt, &e2, Ghost(m as nat));
    match res {
        Some(v) => {
            let ghost rt2 = rt@;
            let vc = clone_value(&v);
            cache_put(&mut rt.cache, m, vc);
            proof {
                assert(rt@ =~= cache_put_s(rt2, m, v@));
                lemma_put_wf(rt2.cache, m, v@, rt2.cap, rt2.memos.len());
                crate::state::lemma_inv_parts(rt2, rt@);
                assert(rt@ =~= compute_memo_s(rt0, m).0);
            }
            Some(v)
        },
        None => {
            proof {
                assert(rt@ =~= compute_memo_s(rt0, m).0);
            }
            None
        },
    }
}

/// Evaluates an expression against the runtime.  `bound` bounds the memos
/// the expression may mention; a memo's computation runs with the memo's
/// own identity as the bound.
pub(crate) fn eval_expr(rt: &mut Runtime, e: &Expr, Ghost(bound): Ghost<nat>) -> (out: Option<
    Value,
>)
    requires
        old(rt).wf_core(),
        expr_wf(e@, old(rt)@.cells.len(), bound),
        bound <= old(rt)@.memos.len(),
        old(rt)@.mstack.len() > 0 ==> bound <= old(rt)@.mstack.last() as nat,
    ensures
        final(rt).wf_core(),
        final(rt)@ == eval_s(old(rt)@, e@, bound).0,
        (match out {
            Some(v) => eval_s(old(rt)@, e@, bound).1 == Some(v@),
            None => eval_s(old(rt)@, e@, bound).1 is None,
        }),
        final(rt)@.cells.len() == old(rt)@.cells.len(),
        final(rt)@.memos.len() == old(rt)@.memos.len(),
        final(rt)@.slots == old(rt)@.slots,
        final(rt)@.reacts == old(rt)@.reacts,
        final(rt)@.mstack == old(rt)@.mstack,
        final(rt)@.rstack == old(rt)@.rstack,
        forall|i: int|
            0 <= i < old(rt)@.memos.len() ==> (#[trigger] final(rt)@.memos[i]).expr == old(
                rt,
            )@.memos[i].expr && final(rt)@.memos[i].alive == old(rt)@.memos[i].alive,
    decreases bound, 1int, expr_size(e@),
{
    let ghost rt0 = rt@;
    match e {
        Expr::Const(v) => Some(clone_value(v)),
        Expr::ReadCell(c) => {
            let out = rt.cell_read_inner(*c);
            proof {
                assert(rt@ == eval_s(rt0, e@, bound).0);
            }
            Some(out)
        },
        Expr::ReadMemo(m_ref) => {
            let m = *m_ref;
            proof {
                assert(e@ == ExprV::ReadMemo(m));
                assert((m as nat) < bound);
            }
            if !rt.memo_alive[m] {
                proof {
                    assert(!memo_alive_s(rt0, m));
                    assert(eval_s(rt0, e@, bound).0 == rt0);
                }
                return None;
            }
            rt.memo_reg_inner(m);
            rt.push_memo(m);
            let ghost rta = reg_memo_s(rt0, m as int);
            let ghost rt1 = rt@;
            proof {
                assert(rt@.mstack =~= rta.mstack.push(m));
                assert(rt1 =~= push_memo_s(rta, m));
                assert forall|i: int| 0 <= i < rt1.mstack.len() implies (
                #[trigger] rt1.mstack[i] as int) < rt1.memos.len() by {
                    if i < rta.mstack.len() {
                        assert(rt1.mstack[i] == rta.mstack[i]);
                    } else {
                        assert(rt1.mstack[i] == m);
                    }
                }
                crate::state::lemma_inv_parts(rta, rt1);
                assert(rt.wf_core());
            }
            let collecting = rt.peek_collecting();
            let out: Option<Value> = if collecting {
                let _ = cache_pop(&mut rt.cache, m);
                let ghost rt2 = rt@;
                proof {
                    assert(rt2 =~= cache_remove_s(rt1, m));
                    lemma_remove_wf(rt1.cache, m, rt1.cap, rt1.memos.len());
                    crate::state::lemma_inv_parts(rt1, rt2);
                }
                compute_memo(rt, m)
            } else {
                let cached = cache_get(&mut rt.cache, m);
                match cached {
                    Some(v) => {
                        proof {
                            assert(rt@ =~= cache_promote_s(rt1, m));
                            lemma_promote_wf(rt1.cache, m, rt1.cap, rt1.memos.len());
                            crate::state::lemma_inv_parts(rt1, rt@);
                        }
                        Some(v)
                    },
                    None => compute_memo(rt, m),
                }
            };
            let ghost rt_pre = rt@;
            rt.pop_memo(m);
            proof {
                assert(rt@ =~= pop_memo_s(rt_pre));
                assert forall|i: int| 0 <= i < rt@.mstack.len() implies (
                #[trigger] rt@.mstack[i] as int) < rt@.memos.len() by {
                    assert(rt@.mstack[i] == rt_pre.mstack[i]);
                }
                crate::state::lemma_inv_parts(rt_pre, rt@);
                assert(rt@ =~= pop_memo_s(
                    if collecting_s(rt1) {
                        compute_memo_s(cache_remove_s(rt1, m), m).0
                    } else {
                        match entries_lookup(rt1.cache, m) {
                            Some(v) => cache_promote_s(rt1, m),
                            None => compute_memo_s(rt1, m).0,
                        }
                    },
                ));
                assert(rt@.mstack =~= rt0.mstack);
                assert(rt@ == eval_s(rt0, e@, bound).0);
            }
            out
        },
        Expr::Add(a, b) => {
            let r1 = eval_expr(rt, a, Ghost(bound));
            match r1 {
                Some(v1) => {
                    let r2 = eval_expr(rt, b, Ghost(bound));
                    match r2 {
                        Some(v2) => {
                            match (v1, v2) {
                                (Value::Int(x), Value::Int(y)) => {
                                    match checked_add_i64(x, y) {
                                        Some(z) => Some(Value::Int(z)),
                                        None => None,
                                    }
                                },
                                _ => None,
                            }
                        },
                        None => None,
                    }
                },
                None => None,
            }
        },
        Expr::Sub(a, b) => {
            let r1 = eval_expr(rt, a, Ghost(bound));
            match r1 {
                Some(v1) => {
                    let r2 = eval_expr(rt, b, Ghost(bound));
                    match r2 {
                        Some(v2) => {
                            match (v1, v2) {
                                (Value::Int(x), Value::Int(y)) => {
                                    match checked_sub_i64(x, y) {
                                        Some(z) => Some(Value::Int(z)),
                                        None => None,
                                    }
                                },
                                _ => None,
                            }
                        },
                        None => None,
                    }
                },
                None => None,
            }
        },
        Expr::Mul(a, b) => {
            let r1 = eval_expr(rt, a, Ghost(bound));
            match r1 {
                Some(v1) => {
                    let r2 = eval_expr(rt, b, Ghost(bound));
                    match r2 {
                        Some(v2) => {
                            match (v1, v2) {
                                (Value::Int(x), Value::Int(y)) => {
                                    match checked_mul_i64(x, y) {
                                        Some(z) => Some(Value::Int(z)),
                                        None => None,
                                    }
                                },
                                _ => None,
                            }
                        },
                        None => None,
                    }
                },
                None => None,
            }
        },
        Expr::ParseInt(a) => {
            let r1 = eval_expr(rt, a, Ghost(bound));
            match r1 {
                Some(v1) => {
                    match v1 {
                        Value::Str(s) => {
                            match parse_int(&s) {
                                Some(i) => Some(Value::Int(i)),
                                None => None,
                            }
                        },
                        _ => None,
                    }
                },
                None => None,
            }
        },
        Expr::IfElse(c, t, f) => {
            let r1 = eval_expr(rt, c, Ghost(bound));
            match r1 {
                Some(v1) => {
                    match v1 {
                        Value::Bool(bv) => {
                            if bv {
                                eval_expr(rt, t, Ghost(bound))
                            } else {
                                eval_expr(rt, f, Ghost(bound))
                            }
                        },
                        _ => None,
                    }
                },
                None => None,
            }
        },
    }
}

/// Runs a reaction body: reads register dependencies exactly as in
/// expression evaluation; `SetSlot` writes an output slot.  A fault stops
/// the body; the result says whether it ran to completion.
pub(crate) fn exec_body(rt: &mut Runtime, b: &Body, Ghost(bound): Ghost<nat>) -> (ok: bool)
    requires
        old(rt).wf_core(),
        body_wf(b@, old(rt)@.cells.len(), bound, old(rt)@.slots.len()),
        bound <= old(rt)@.memos.len(),
        old(rt)@.mstack.len() == 0,
    ensures
        final(rt).wf_core(),
        final(rt)@ == body_s(old(rt)@, b@, bound).0,
        ok == body_s(old(rt)@, b@, bound).1,
        final(rt)@.cells.len() == old(rt)@.cells.len(),
        final(rt)@.memos.len() == old(rt)@.memos.len(),
        final(rt)@.slots.len() == old(rt)@.slots.len(),
        final(rt)@.reacts == old(rt)@.reacts,
        final(rt)@.mstack == old(rt)@.mstack,
        final(rt)@.rstack == old(rt)@.rstack,
        forall|i: int|
            0 <= i < old(rt)@.memos.len() ==> (#[trigger] final(rt)@.memos[i]).expr == old(
                rt,
            )@.memos[i].expr && final(rt)@.memos[i].alive == old(rt)@.memos[i].alive,
    decreases b,
{
    match b {
        Body::Skip => true,
        Body::Observe(e) => {
            let r = eval_expr(rt, e, Ghost(bound));
            r.is_some()
        },
        Body::SetSlot(s, e) => {
            let r = eval_expr(rt, e, Ghost(bound));
            match r {
                Some(v) => {
                    let ghost rt1 = rt@;
                    rt.slots.set(*s, v);
                    proof {
                        assert(rt@.slots =~= rt1.slots.update(*s as int, v@));
                        assert(rt@ =~= RtV { slots: rt1.slots.update(*s as int, v@), ..rt1 });
                        crate::state::lemma_inv_parts(rt1, rt@);
                    }
                    true
                },
                None => false,
            }
        },
        Body::IfElse(c, t, f) => {
            let r = eval_expr(rt, c, Ghost(bound));
            match r {
                Some(v) => {
                    match v {
                        Value::Bool(bv) => {
                            if bv {
                                exec_body(rt, t, Ghost(bound))
                            } else {
                                exec_body(rt, f, Ghost(bound))
                            }
                        },
                        _ => false,
                    }
                },
                None => false,
            }
        },
        Body::Then(a, b2) => {
            let ok1 = exec_body(rt, a, Ghost(bound));
            if ok1 {
                exec_body(rt, b2, Ghost(bound))
            } else {
                false
            }
        },
    }
}

} // verus!
