use reactive_cache::{Body, Effect, Expr, Memo, Runtime, Signal, Value};

// source_a   source_b
//    \         /
//     derived_c - effect_e
//         |
//     derived_d - effect_f

struct Graph {
    rt: Runtime,
    a: Signal,
    b: Signal,
    c: Memo,
    d: Memo,
}

fn build() -> Graph {
    let mut rt = Runtime::new();
    let a = Signal::new(&mut rt, Value::Int(10));
    let b = Signal::new(&mut rt, Value::Str("5".as_bytes().to_vec()));
    let c = Memo::new(
        &mut rt,
        Expr::Add(
            Box::new(Expr::ReadCell(a.id)),
            Box::new(Expr::ParseInt(Box::new(Expr::ReadCell(b.id)))),
        ),
    )
    .unwrap();
    let d = Memo::new(
        &mut rt,
        Expr::Mul(Box::new(Expr::ReadMemo(c.id)), Box::new(Expr::Const(Value::Int(2)))),
    )
    .unwrap();
    Graph { rt, a, b, c, d }
}

struct Counts {
    source_a: u64,
    source_b: u64,
    derived_c: u64,
    derived_d: u64,
    effect_e: u64,
    effect_f: u64,
}

fn counts(g: &Graph, e: Effect, f: Effect) -> Counts {
    Counts {
        source_a: g.rt.cell_reads(g.a.id),
        source_b: g.rt.cell_reads(g.b.id),
        derived_c: g.rt.memo_computes(g.c.id),
        derived_d: g.rt.memo_computes(g.d.id),
        effect_e: g.rt.reaction_runs(e.id),
        effect_f: g.rt.reaction_runs(f.id),
    }
}

#[test]
fn complex_dependency_effect_test() {
    let mut g = build();

    assert!(g.a.set(&mut g.rt, Value::Int(0)));
    // effects created and dropped at once: their handles are not kept
    let e0 = Effect::new(&mut g.rt, Body::Observe(Expr::ReadMemo(g.c.id))).unwrap();
    g.rt.drop_reaction(e0);
    let f0 = Effect::new(&mut g.rt, Body::Observe(Expr::ReadMemo(g.d.id))).unwrap();
    g.rt.drop_reaction(f0);

    let t0 = counts(&g, e0, f0);
    assert!(g.a.set(&mut g.rt, Value::Int(10)));
    let t1 = counts(&g, e0, f0);
    assert_eq!(t1.source_a - t0.source_a, 0);
    assert_eq!(t1.source_b - t0.source_b, 0);
    assert_eq!(t1.derived_c - t0.derived_c, 0);
    assert_eq!(t1.derived_d - t0.derived_d, 0);
    assert_eq!(t1.effect_e - t0.effect_e, 0);
    assert_eq!(t1.effect_f - t0.effect_f, 0);

    assert!(g.a.set(&mut g.rt, Value::Int(0)));
    // a kept effect observing derived_c
    let e = Effect::new(&mut g.rt, Body::Observe(Expr::ReadMemo(g.c.id))).unwrap();

    let t2 = counts(&g, e, f0);
    assert!(g.a.set(&mut g.rt, Value::Int(10)));
    let t3 = counts(&g, e, f0);
    assert_eq!(t3.source_a - t2.source_a, 1);
    assert_eq!(t3.source_b - t2.source_b, 1);
    assert_eq!(t3.derived_c - t2.derived_c, 1);
    assert_eq!(t3.derived_d - t2.derived_d, 0);
    assert_eq!(t3.effect_e - t2.effect_e, 1);
    assert_eq!(t3.effect_f - t2.effect_f, 0);

    assert!(g.a.set(&mut g.rt, Value::Int(0)));
    // a kept effect observing derived_d
    let f = Effect::new(&mut g.rt, Body::Observe(Expr::ReadMemo(g.d.id))).unwrap();

    let t4 = counts(&g, e, f);
    assert!(g.a.set(&mut g.rt, Value::Int(10)));
    let t5 = counts(&g, e, f);
    assert_eq!(t5.source_a - t4.source_a, 1);
    assert_eq!(t5.source_b - t4.source_b, 1);
    assert_eq!(t5.derived_c - t4.derived_c, 1);
    assert_eq!(t5.derived_d - t4.derived_d, 1);
    assert_eq!(t5.effect_e - t4.effect_e, 1);
    assert_eq!(t5.effect_f - t4.effect_f, 1);
}

#[test]
fn switch_effect_test() {
    let mut rt = Runtime::new();
    let switch_a = Signal::new(&mut rt, Value::Bool(true));
    let switch_b = Signal::new(&mut rt, Value::Int(10));
    let b_rst = rt.new_slot(Value::Int(0));

    // the body has a conditional branch; the collector names both cells
    let _effect = Effect::new_with_deps(
        &mut rt,
        Body::IfElse(
            Expr::ReadCell(switch_a.id),
            Box::new(Body::Skip),
            Box::new(Body::SetSlot(b_rst, Expr::ReadCell(switch_b.id))),
        ),
        Body::Then(
            Box::new(Body::Observe(Expr::ReadCell(switch_a.id))),
            Box::new(Body::Observe(Expr::ReadCell(switch_b.id))),
        ),
    )
    .unwrap();

    assert_eq!(rt.slot_get(b_rst), Value::Int(0));

    assert!(switch_a.set(&mut rt, Value::Bool(false)));
    assert_eq!(rt.slot_get(b_rst), Value::Int(10));

    assert!(switch_b.set(&mut rt, Value::Int(20)));
    // switch_b is reactive because the collector named it
    assert_eq!(rt.slot_get(b_rst), Value::Int(20));
}
