use reactive_cache::{Expr, Memo, Runtime, Signal, Value};

// source_a   source_b
//    \         /  \
//     derived_c    derived_e
//         |
//     derived_d

struct Graph {
    rt: Runtime,
    a: Signal,
    b: Signal,
    c: Memo,
    d: Memo,
    e: Memo,
}

fn build() -> Graph {
    let mut rt = Runtime::new();
    let a = Signal::new(&mut rt, Value::Int(10));
    let b = Signal::new(&mut rt, Value::Str("5".as_bytes().to_vec()));
    // derived_c = source_a + source_b
    let c = Memo::new(
        &mut rt,
        Expr::Add(
            Box::new(Expr::ReadCell(a.id)),
            Box::new(Expr::ParseInt(Box::new(Expr::ReadCell(b.id)))),
        ),
    )
    .unwrap();
    // derived_d = derived_c * 2
    let d = Memo::new(
        &mut rt,
        Expr::Mul(Box::new(Expr::ReadMemo(c.id)), Box::new(Expr::Const(Value::Int(2)))),
    )
    .unwrap();
    // derived_e = source_b - 3
    let e = Memo::new(
        &mut rt,
        Expr::Sub(
            Box::new(Expr::ParseInt(Box::new(Expr::ReadCell(b.id)))),
            Box::new(Expr::Const(Value::Int(3))),
        ),
    )
    .unwrap();
    Graph { rt, a, b, c, d, e }
}

// the engine's counters, snapshotted where the graph functions would note a call
struct Counts {
    source_a: u64,
    source_b: u64,
    derived_c: u64,
    derived_d: u64,
    derived_e: u64,
}

fn counts(g: &Graph) -> Counts {
    Counts {
        source_a: g.rt.cell_reads(g.a.id),
        source_b: g.rt.cell_reads(g.b.id),
        derived_c: g.rt.memo_computes(g.c.id),
        derived_d: g.rt.memo_computes(g.d.id),
        derived_e: g.rt.memo_computes(g.e.id),
    }
}

#[test]
fn complex_dependency_memo_test() {
    let mut g = build();

    let t0 = counts(&g);
    let e1 = g.e.get(&mut g.rt).unwrap();
    let t1 = counts(&g);
    assert!(t1.source_a == t0.source_a);
    assert!(t1.source_b > t0.source_b);
    assert!(t1.derived_c == t0.derived_c);
    assert!(t1.derived_d == t0.derived_d);
    assert!(t1.derived_e > t0.derived_e);

    let d1 = g.d.get(&mut g.rt).unwrap();
    let t2 = counts(&g);
    assert!(t2.source_a > t1.source_a);
    assert!(t2.source_b > t1.source_b);
    assert!(t2.derived_c > t1.derived_c);
    assert!(t2.derived_d > t1.derived_d);
    assert!(t2.derived_e == t1.derived_e);

    let c1 = g.c.get(&mut g.rt).unwrap();

    assert_eq!(c1, Value::Int(15)); // 10 + 5
    assert_eq!(d1, Value::Int(30)); // 15 * 2
    assert_eq!(e1, Value::Int(2)); // 5 - 3

    let t3 = counts(&g);
    let e2 = g.e.get(&mut g.rt).unwrap();
    let d2 = g.d.get(&mut g.rt).unwrap();
    let c2 = g.c.get(&mut g.rt).unwrap();
    let t4 = counts(&g);

    assert!(t4.source_a == t3.source_a);
    assert!(t4.source_b == t3.source_b);
    assert!(t4.derived_c == t3.derived_c);
    assert!(t4.derived_d == t3.derived_d);
    assert!(t4.derived_e == t3.derived_e);

    assert_eq!(c2, c1);
    assert_eq!(d2, d1);
    assert_eq!(e2, e1);
}

#[test]
fn signal_set_unchanged_test() {
    let mut g = build();

    let e1 = g.e.get(&mut g.rt).unwrap();
    let d1 = g.d.get(&mut g.rt).unwrap();
    let c1 = g.c.get(&mut g.rt).unwrap();

    assert_eq!(c1, Value::Int(15)); // 10 + 5
    assert_eq!(d1, Value::Int(30)); // 15 * 2
    assert_eq!(e1, Value::Int(2)); // 5 - 3

    let t0 = counts(&g);
    let changed = g.a.set(&mut g.rt, Value::Int(10));
    assert!(!changed);
    let t1 = counts(&g);

    assert!(t1.source_a == t0.source_a);
    assert!(t1.source_b == t0.source_b);
    assert!(t1.derived_c == t0.derived_c);
    assert!(t1.derived_d == t0.derived_d);
    assert!(t1.derived_e == t0.derived_e);

    let e2 = g.e.get(&mut g.rt).unwrap();
    let d2 = g.d.get(&mut g.rt).unwrap();
    let c2 = g.c.get(&mut g.rt).unwrap();
    let t2 = counts(&g);

    assert!(t2.source_a == t1.source_a);
    assert!(t2.source_b == t1.source_b);
    assert!(t2.derived_c == t1.derived_c);
    assert!(t2.derived_d == t1.derived_d);
    assert!(t2.derived_e == t1.derived_e);

    assert_eq!(c2, c1);
    assert_eq!(d2, d1);
    assert_eq!(e2, e1);
}

#[test]
fn signal_set_value_test() {
    let mut g = build();

    let e1 = g.e.get(&mut g.rt).unwrap();
    let d1 = g.d.get(&mut g.rt).unwrap();
    let c1 = g.c.get(&mut g.rt).unwrap();

    assert_eq!(c1, Value::Int(15)); // 10 + 5
    assert_eq!(d1, Value::Int(30)); // 15 * 2
    assert_eq!(e1, Value::Int(2)); // 5 - 3

    let t0 = counts(&g);
    assert!(g.a.set(&mut g.rt, Value::Int(20)));
    assert!(g.a.set(&mut g.rt, Value::Int(10)));
    let t1 = counts(&g);

    // invalidation alone computes nothing
    assert!(t1.source_a == t0.source_a);
    assert!(t1.source_b == t0.source_b);
    assert!(t1.derived_c == t0.derived_c);
    assert!(t1.derived_d == t0.derived_d);
    assert!(t1.derived_e == t0.derived_e);

    let e2 = g.e.get(&mut g.rt).unwrap();
    let t2 = counts(&g);
    assert!(t2.source_a == t1.source_a);
    assert!(t2.source_b == t1.source_b);
    assert!(t2.derived_c == t1.derived_c);
    assert!(t2.derived_d == t1.derived_d);
    assert!(t2.derived_e == t1.derived_e);

    let d2 = g.d.get(&mut g.rt).unwrap();
    let t3 = counts(&g);
    assert!(t3.source_a > t2.source_a);
    assert!(t3.source_b > t2.source_b);
    assert!(t3.derived_c > t2.derived_c);
    assert!(t3.derived_d > t2.derived_d);
    assert!(t3.derived_e == t2.derived_e);

    let c2 = g.c.get(&mut g.rt).unwrap();
    let t4 = counts(&g);
    assert!(t4.source_a == t3.source_a);
    assert!(t4.source_b == t3.source_b);
    assert!(t4.derived_c == t3.derived_c);
    assert!(t4.derived_d == t3.derived_d);
    assert!(t4.derived_e == t3.derived_e);

    assert_eq!(c2, c1);
    assert_eq!(d2, d1);
    assert_eq!(e2, e1);
}
