use reactive_cache::{Expr, Memo, Runtime, Value};

#[test]
fn basic_memoization_works() {
    let mut rt = Runtime::new();

    let get_number = Memo::new(&mut rt, Expr::Const(Value::Int(42))).unwrap();
    let get_text =
        Memo::new(&mut rt, Expr::Const(Value::Str("hello".as_bytes().to_vec()))).unwrap();

    let v1 = get_number.get(&mut rt).unwrap();
    let v2 = get_number.get(&mut rt).unwrap();
    assert_eq!(v1, v2);
    // the computation ran only once
    assert_eq!(rt.memo_computes(get_number.id), 1);

    let s1 = get_text.get(&mut rt).unwrap();
    let s2 = get_text.get(&mut rt).unwrap();
    assert_eq!(s1, s2);
    assert_eq!(rt.memo_computes(get_text.id), 1);

    assert_eq!(v1, Value::Int(42));
    assert_eq!(s1, Value::Str("hello".as_bytes().to_vec()));
}
