use reactive_cache::{Body, Effect, Expr, Memo, Runtime, Signal, Value};

// ----------------------
// A view-model over a shared runtime: a local counter cell, a memo that
// doubles it (optionally adding the global numeric cell), and an effect
// observing the memo.
// ----------------------

struct ViewModel {
    counter: Signal,
    double: Memo,
    effect: Effect,
}

impl ViewModel {
    fn new(rt: &mut Runtime, initial_counter: i64, global_num: Option<Signal>) -> Self {
        let counter = Signal::new(rt, Value::Int(initial_counter));

        // double = counter * 2 + (global_num or 0)
        let global_val = match global_num {
            Some(g) => Expr::ReadCell(g.id),
            None => Expr::Const(Value::Int(0)),
        };
        let double = Memo::new(
            rt,
            Expr::Add(
                Box::new(Expr::Mul(
                    Box::new(Expr::ReadCell(counter.id)),
                    Box::new(Expr::Const(Value::Int(2))),
                )),
                Box::new(global_val),
            ),
        )
        .unwrap();

        // the effect observes `double`, subscribing to what it reads
        let effect = Effect::new(rt, Body::Observe(Expr::ReadMemo(double.id))).unwrap();

        Self { counter, double, effect }
    }
}

#[test]
fn test_global_and_vm_interaction_with_memory_cleanup() {
    let mut rt = Runtime::new();

    // ----------------------
    // Global cells and memos
    // ----------------------
    let global_str = Signal::new(&mut rt, Value::Str("hello".as_bytes().to_vec()));
    let global_num = Signal::new(&mut rt, Value::Int(10));
    let get_global_number = Memo::new(&mut rt, Expr::ReadCell(global_num.id)).unwrap();
    let get_global_string = Memo::new(&mut rt, Expr::ReadCell(global_str.id)).unwrap();

    // ----------------------
    // Global effect observing the global memos
    // ----------------------
    let global_effect = Effect::new(
        &mut rt,
        Body::Then(
            Box::new(Body::Observe(Expr::ReadMemo(get_global_number.id))),
            Box::new(Body::Observe(Expr::ReadMemo(get_global_string.id))),
        ),
    )
    .unwrap();

    // the effect runs once upon creation
    assert_eq!(rt.reaction_runs(global_effect.id), 1);

    // ----------------------
    // Two view-models: vm1 reads the global numeric cell in its memo,
    // vm2 does not
    // ----------------------
    let vm1 = ViewModel::new(&mut rt, 1, Some(global_num));
    let vm2 = ViewModel::new(&mut rt, 2, None);

    // each view-model effect runs once on creation
    assert_eq!(rt.reaction_runs(vm1.effect.id), 1);
    assert_eq!(rt.reaction_runs(vm2.effect.id), 1);

    // the global effect did not run again
    assert_eq!(rt.reaction_runs(global_effect.id), 1);

    // ----------------------
    // Trigger updates and verify effects
    // ----------------------
    assert!(vm1.counter.set(&mut rt, Value::Int(10)));
    assert_eq!(rt.reaction_runs(vm1.effect.id), 2);
    assert_eq!(rt.reaction_runs(vm2.effect.id), 1); // vm2 unaffected

    assert!(vm2.counter.set(&mut rt, Value::Int(7)));
    assert_eq!(rt.reaction_runs(vm2.effect.id), 2);
    assert_eq!(rt.reaction_runs(vm1.effect.id), 2); // vm1 unaffected

    // a write to the global numeric cell reaches the global effect and
    // vm1's effect, but not vm2's
    assert!(global_num.set(&mut rt, Value::Int(100)));
    assert_eq!(rt.reaction_runs(global_effect.id), 2);
    assert_eq!(rt.reaction_runs(vm1.effect.id), 3);
    assert_eq!(rt.reaction_runs(vm2.effect.id), 2);

    // ----------------------
    // Verify memo values
    // ----------------------
    assert_eq!(vm1.double.get(&mut rt).unwrap(), Value::Int(10 * 2 + 100));
    assert_eq!(vm2.double.get(&mut rt).unwrap(), Value::Int(7 * 2));

    // ----------------------
    // Drop vm1 and check cleanup
    // ----------------------
    rt.drop_reaction(vm1.effect);
    rt.drop_memo(vm1.double);
    assert!(!rt.reaction_is_alive(vm1.effect.id));
    assert!(!rt.memo_is_alive(vm1.double.id));
    // its cache entry is gone at once
    assert!(!rt.is_cached(vm1.double.id));

    // vm2 still alive
    assert!(rt.memo_is_alive(vm2.double.id));

    // a further global write no longer reaches vm1's dead effect
    let runs_before = rt.reaction_runs(vm1.effect.id);
    assert!(global_num.set(&mut rt, Value::Int(101)));
    assert_eq!(rt.reaction_runs(vm1.effect.id), runs_before);
    assert!(global_num.set(&mut rt, Value::Int(100)));

    // ----------------------
    // Drop vm2 and verify cleanup
    // ----------------------
    rt.drop_reaction(vm2.effect);
    rt.drop_memo(vm2.double);
    assert!(!rt.reaction_is_alive(vm2.effect.id));
    assert!(!rt.memo_is_alive(vm2.double.id));
    assert!(!rt.is_cached(vm2.double.id));

    // ----------------------
    // Globals still alive after the view-models are gone
    // ----------------------
    let _n = get_global_number.get(&mut rt).unwrap();
    let _s = get_global_string.get(&mut rt).unwrap();

    assert_eq!(global_num.get(&mut rt), Value::Int(100));
    assert_eq!(get_global_number.get(&mut rt).unwrap(), Value::Int(100));
    assert_eq!(
        get_global_string.get(&mut rt).unwrap(),
        Value::Str("hello".as_bytes().to_vec())
    );
}
