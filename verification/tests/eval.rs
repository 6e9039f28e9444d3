use reactive_cache::{Evaluator, Value};

// get_number computes its value on every call; the evaluator reports
// when the value did not change, and the report hook counts its calls.
fn get_number(ev: &mut Evaluator, print_invoked: &mut i32) -> i64 {
    let new: i64 = 42;
    if ev.observe(Value::Int(new)) {
        *print_invoked += 1;
    }
    new
}

#[test]
fn evaluate_test() {
    let mut ev = Evaluator::new();
    let mut print_invoked: i32 = 0;

    let v1 = get_number(&mut ev, &mut print_invoked);
    let v2 = get_number(&mut ev, &mut print_invoked);
    assert_eq!(v1, v2);

    let _ = get_number(&mut ev, &mut print_invoked);
    assert_eq!(print_invoked, 2);
}
