use reactive_cache::{Body, Effect, Evaluator, Expr, Memo, Runtime, Signal, Value, CACHE_CAP};

#[test]
fn diamond_scenario_counts() {
    // A = cell(10), B = cell(5), C = memo(A + B), D = memo(C * 2)
    let mut rt = Runtime::new();
    let a = Signal::new(&mut rt, Value::Int(10));
    let b = Signal::new(&mut rt, Value::Int(5));
    let c = Memo::new(
        &mut rt,
        Expr::Add(Box::new(Expr::ReadCell(a.id)), Box::new(Expr::ReadCell(b.id))),
    )
    .unwrap();
    let d = Memo::new(
        &mut rt,
        Expr::Mul(Box::new(Expr::ReadMemo(c.id)), Box::new(Expr::Const(Value::Int(2)))),
    )
    .unwrap();

    // the initial read computes once, reading each cell exactly once
    let a0 = rt.cell_reads(a.id);
    let b0 = rt.cell_reads(b.id);
    assert_eq!(d.get(&mut rt).unwrap(), Value::Int(30));
    assert_eq!(rt.cell_reads(a.id), a0 + 1);
    assert_eq!(rt.cell_reads(b.id), b0 + 1);

    // a second read with no writes touches no cell
    assert_eq!(d.get(&mut rt).unwrap(), Value::Int(30));
    assert_eq!(rt.cell_reads(a.id), a0 + 1);
    assert_eq!(rt.cell_reads(b.id), b0 + 1);

    // after a write, the next read recomputes, reading the cell once more
    let c0 = rt.memo_computes(c.id);
    assert!(a.set(&mut rt, Value::Int(20)));
    assert_eq!(d.get(&mut rt).unwrap(), Value::Int(50));
    assert_eq!(rt.cell_reads(a.id), a0 + 2);
    assert_eq!(rt.memo_computes(c.id), c0 + 1);
}

#[test]
fn idempotent_write_is_a_no_op() {
    let mut rt = Runtime::new();
    let a = Signal::new(&mut rt, Value::Int(10));
    let m = Memo::new(&mut rt, Expr::ReadCell(a.id)).unwrap();
    let e = Effect::new(&mut rt, Body::Observe(Expr::ReadMemo(m.id))).unwrap();

    let runs = rt.reaction_runs(e.id);
    let computes = rt.memo_computes(m.id);
    assert!(rt.is_cached(m.id));

    // writing the current value reports false and does nothing at all
    assert!(!a.set(&mut rt, Value::Int(10)));
    assert_eq!(rt.reaction_runs(e.id), runs);
    assert_eq!(rt.memo_computes(m.id), computes);
    assert!(rt.is_cached(m.id));
}

#[test]
fn cache_capacity_exhaustion() {
    // one more memo than the cache holds: reading each once evicts the
    // least recently read one, and only that one recomputes
    let mut rt = Runtime::new();
    let mut memos: Vec<Memo> = Vec::new();
    for i in 0..(CACHE_CAP as i64 + 1) {
        memos.push(Memo::new(&mut rt, Expr::Const(Value::Int(i))).unwrap());
    }
    for m in &memos {
        let _ = m.get(&mut rt).unwrap();
    }
    assert_eq!(rt.cache_size(), CACHE_CAP);
    assert!(!rt.is_cached(memos[0].id));
    for m in &memos[1..] {
        assert!(rt.is_cached(m.id));
    }
    // the evicted memo recomputes on its next read; a cached one does not
    assert_eq!(rt.memo_computes(memos[0].id), 1);
    assert_eq!(memos[0].get(&mut rt).unwrap(), Value::Int(0));
    assert_eq!(rt.memo_computes(memos[0].id), 2);
    assert_eq!(rt.memo_computes(memos[2].id), 1);
    assert_eq!(memos[2].get(&mut rt).unwrap(), Value::Int(2));
    assert_eq!(rt.memo_computes(memos[2].id), 1);
}

#[test]
fn reading_promotes_against_eviction() {
    // a read refreshes an entry's recency: after filling the cache,
    // touching the oldest entry makes the next insertion evict the
    // second-oldest instead
    let mut rt = Runtime::new();
    let mut memos: Vec<Memo> = Vec::new();
    for i in 0..(CACHE_CAP as i64) {
        memos.push(Memo::new(&mut rt, Expr::Const(Value::Int(i))).unwrap());
    }
    for m in &memos {
        let _ = m.get(&mut rt).unwrap();
    }
    let _ = memos[0].get(&mut rt).unwrap();

    let extra = Memo::new(&mut rt, Expr::Const(Value::Int(1000))).unwrap();
    let _ = extra.get(&mut rt).unwrap();

    assert!(rt.is_cached(memos[0].id));
    assert!(!rt.is_cached(memos[1].id));
    assert!(rt.is_cached(extra.id));
}

#[test]
fn construction_rejects_unknown_identities() {
    let mut rt = Runtime::new();
    let a = Signal::new(&mut rt, Value::Int(1));

    assert!(Memo::new(&mut rt, Expr::ReadCell(a.id)).is_some());
    assert!(Memo::new(&mut rt, Expr::ReadCell(7)).is_none());
    assert!(Memo::new(&mut rt, Expr::ReadMemo(5)).is_none());
    // a memo may not read itself or any later memo
    assert!(Memo::new(&mut rt, Expr::ReadMemo(1)).is_none());

    assert!(Effect::new(&mut rt, Body::Observe(Expr::ReadCell(9))).is_none());
    assert!(Effect::new(&mut rt, Body::SetSlot(0, Expr::Const(Value::Int(1)))).is_none());
    let s = rt.new_slot(Value::Int(0));
    assert!(Effect::new(&mut rt, Body::SetSlot(s, Expr::Const(Value::Int(1)))).is_some());
}

#[test]
fn evaluation_faults_return_nothing() {
    let mut rt = Runtime::new();
    let text = Signal::new(&mut rt, Value::Str("abc".as_bytes().to_vec()));
    let parse = Memo::new(&mut rt, Expr::ParseInt(Box::new(Expr::ReadCell(text.id)))).unwrap();
    // "abc" has no integer reading
    assert!(parse.get(&mut rt).is_none());

    let parse_ok = Memo::new(&mut rt, Expr::ParseInt(Box::new(Expr::Const(Value::Str(
        "-17".as_bytes().to_vec(),
    )))))
    .unwrap();
    assert_eq!(parse_ok.get(&mut rt).unwrap(), Value::Int(-17));

    // arithmetic outside the representable range faults
    let overflow = Memo::new(
        &mut rt,
        Expr::Add(
            Box::new(Expr::Const(Value::Int(i64::MAX))),
            Box::new(Expr::Const(Value::Int(1))),
        ),
    )
    .unwrap();
    assert!(overflow.get(&mut rt).is_none());

    // a type error faults
    let mixed = Memo::new(
        &mut rt,
        Expr::Add(
            Box::new(Expr::Const(Value::Int(1))),
            Box::new(Expr::Const(Value::Bool(true))),
        ),
    )
    .unwrap();
    assert!(mixed.get(&mut rt).is_none());

    // reading a dropped memo faults
    let inner = Memo::new(&mut rt, Expr::Const(Value::Int(3))).unwrap();
    let outer = Memo::new(&mut rt, Expr::ReadMemo(inner.id)).unwrap();
    assert_eq!(outer.get(&mut rt).unwrap(), Value::Int(3));
    rt.drop_memo(inner);
    assert!(inner.get(&mut rt).is_none());
}

#[test]
fn force_invalidate_evicts_dependents() {
    let mut rt = Runtime::new();
    let a = Signal::new(&mut rt, Value::Int(4));
    let m = Memo::new(&mut rt, Expr::ReadCell(a.id)).unwrap();
    assert_eq!(m.get(&mut rt).unwrap(), Value::Int(4));
    assert!(rt.is_cached(m.id));

    a.invalidate(&mut rt);
    assert!(!rt.is_cached(m.id));
    let computes = rt.memo_computes(m.id);
    assert_eq!(m.get(&mut rt).unwrap(), Value::Int(4));
    assert_eq!(rt.memo_computes(m.id), computes + 1);
}

#[test]
fn unrelated_reaction_never_replays() {
    let mut rt = Runtime::new();
    let a = Signal::new(&mut rt, Value::Int(1));
    let b = Signal::new(&mut rt, Value::Int(2));
    let ma = Memo::new(&mut rt, Expr::ReadCell(a.id)).unwrap();
    let mb = Memo::new(&mut rt, Expr::ReadCell(b.id)).unwrap();
    let ea = Effect::new(&mut rt, Body::Observe(Expr::ReadMemo(ma.id))).unwrap();
    let eb = Effect::new(&mut rt, Body::Observe(Expr::ReadMemo(mb.id))).unwrap();

    let runs_a = rt.reaction_runs(ea.id);
    let runs_b = rt.reaction_runs(eb.id);
    assert!(b.set(&mut rt, Value::Int(3)));
    assert_eq!(rt.reaction_runs(ea.id), runs_a);
    assert_eq!(rt.reaction_runs(eb.id), runs_b + 1);
}

#[test]
fn evaluator_reports_only_repeats() {
    let mut ev = Evaluator::new();
    assert!(!ev.observe(Value::Int(1)));
    assert!(ev.observe(Value::Int(1)));
    assert!(!ev.observe(Value::Int(2)));
    assert!(!ev.observe(Value::Str("x".as_bytes().to_vec())));
    assert!(ev.observe(Value::Str("x".as_bytes().to_vec())));
}
