//! The values that flow through the reactive graph.
//!
//! A reactive datum is an integer, a boolean or a byte string.  `ValV` is
//! the mathematical shape of such a datum; `Value` is its executable
//! carrier.  Equality and cloning are written out so that their meaning is
//! pinned down in specifications.

use vstd::prelude::*;

verus! {

/// Mathematical view of a reactive value.
#[verifier::ext_equal]
pub ghost enum ValV {
    Int(i64),
    Bool(bool),
    Str(Seq<u8>),
}

/// A value held by a cell, produced by a memo, or stored in a slot.
#[derive(Debug, Clone, PartialEq, Eq)]
#[verifier::ext_equal]
pub enum Value {
    Int(i64),
    Bool(bool),
    Str(Vec<u8>),
}

impl View for Value {
    type V = ValV;

    open spec fn view(&self) -> ValV {
        match self {
            Value::Int(i) => ValV::Int(*i),
            Value::Bool(b) => ValV::Bool(*b),
            Value::Str(s) => ValV::Str(s@),
        }
    }
}

/// Byte-wise comparison of two byte strings.
fn bytes_eq(a: &Vec<u8>, b: &Vec<u8>) -> (r: bool)
    ensures
        r <==> a@ == b@,
{
    if a.len() != b.len() {
        return false;
    }
    let mut i: usize = 0;
    while i < a.len()
        invariant
            i <= a.len(),
            a.len() == b.len(),
            forall|j: int| 0 <= j < i ==> a@[j] == b@[j],
        decreases a.len() - i,
    {
        if a[i] != b[i] {
            return false;
        }
        i += 1;
    }
    proof {
        assert(a@ =~= b@);
    }
    true
}

/// Structural equality of two values, as the engine's idempotent-write
/// check uses it.
pub fn value_eq(a: &Value, b: &Value) -> (r: bool)
    ensures
        r <==> a@ == b@,
{
    match (a, b) {
        (Value::Int(x), Value::Int(y)) => *x == *y,
        (Value::Bool(x), Value::Bool(y)) => *x == *y,
        (Value::Str(x), Value::Str(y)) => bytes_eq(x, y),
        _ => false,
    }
}

/// Byte-wise copy of a byte string.
fn copy_bytes(v: &Vec<u8>) -> (r: Vec<u8>)
    ensures
        r@ == v@,
{
    let mut r: Vec<u8> = Vec::new();
    let mut i: usize = 0;
    while i < v.len()
        invariant
            i <= v.len(),
            r@ == v@.subrange(0, i as int),
        decreases v.len() - i,
    {
        r.push(v[i]);
        i += 1;
    }
    proof {
        assert(v@.subrange(0, v.len() as int) =~= v@);
    }
    r
}

/// A copy of a value, with the same mathematical view.
pub fn clone_value(v: &Value) -> (r: Value)
    ensures
        r@ == v@,
{
    match v {
        Value::Int(i) => Value::Int(*i),
        Value::Bool(b) => Value::Bool(*b),
        Value::Str(s) => Value::Str(copy_bytes(s)),
    }
}

/// A counter increment that stops at the largest representable count
/// instead of wrapping.
pub open spec fn bump_s(x: u64) -> u64 {
    if x == u64::MAX {
        x
    } else {
        (x + 1) as u64
    }
}

/// Executable counterpart of `bump_s`.
pub fn bump(x: u64) -> (r: u64)
    ensures
        r == bump_s(x),
{
    if x == u64::MAX {
        x
    } else {
        x + 1
    }
}

/// An ASCII decimal digit.
pub open spec fn is_digit(c: u8) -> bool {
    48 <= c && c <= 57
}

pub open spec fn all_digits(s: Seq<u8>) -> bool {
    forall|i: int| 0 <= i < s.len() ==> is_digit(s[i])
}

/// The number denoted by a sequence of decimal digits, most significant
/// first.
pub open spec fn digits_val(s: Seq<u8>) -> int
    decreases s.len(),
{
    if s.len() == 0 {
        0
    } else {
        digits_val(s.drop_last()) * 10 + (s.last() - 48)
    }
}

/// The integer denoted by a byte string: an optional leading minus sign
/// followed by at least one decimal digit, with the magnitude bounded by
/// the largest representable positive number.  Anything else has no
/// integer reading.
pub open spec fn parse_int_s(s: Seq<u8>) -> Option<i64> {
    if s.len() > 0 && s[0] == 45 {
        let d = s.subrange(1, s.len() as int);
        if d.len() > 0 && all_digits(d) && digits_val(d) <= i64::MAX {
            Some((-digits_val(d)) as i64)
        } else {
            None
        }
    } else if s.len() > 0 && all_digits(s) && digits_val(s) <= i64::MAX {
        Some(digits_val(s) as i64)
    } else {
        None
    }
}

proof fn lemma_digits_val_nonneg(s: Seq<u8>)
    requires
        all_digits(s),
    ensures
        digits_val(s) >= 0,
    decreases s.len(),
{
    if s.len() > 0 {
        assert(all_digits(s.drop_last()));
        lemma_digits_val_nonneg(s.drop_last());
    }
}

/// Appending one more digit never shrinks the denoted number.
proof fn lemma_digits_val_step(s: Seq<u8>, i: int)
    requires
        0 <= i < s.len(),
        all_digits(s.subrange(0, i + 1)),
    ensures
        digits_val(s.subrange(0, i + 1)) == digits_val(s.subrange(0, i)) * 10 + (s[i] - 48),
        digits_val(s.subrange(0, i + 1)) >= digits_val(s.subrange(0, i)),
{
    let p = s.subrange(0, i + 1);
    assert(p.drop_last() =~= s.subrange(0, i));
    assert(p.last() == s[i]);
    assert(all_digits(s.subrange(0, i)));
    lemma_digits_val_nonneg(s.subrange(0, i));
    let v = digits_val(s.subrange(0, i));
    assert(v * 10 == v * 9 + v) by (nonlinear_arith);
    assert(v * 9 >= 0) by (nonlinear_arith)
        requires v >= 0;
}

/// The number denoted by a prefix never exceeds the number denoted by the
/// whole digit string.
proof fn lemma_digits_val_prefix(s: Seq<u8>, i: int)
    requires
        0 <= i <= s.len(),
        all_digits(s),
    ensures
        digits_val(s.subrange(0, i)) <= digits_val(s),
    decreases s.len() - i,
{
    if i == s.len() {
        assert(s.subrange(0, i) =~= s);
    } else {
        assert(all_digits(s.subrange(0, i + 1)));
        lemma_digits_val_step(s, i);
        lemma_digits_val_prefix(s, i + 1);
    }
}

/// Reads the digit region `s[from..]` as a number, reporting `None` when a
/// non-digit occurs or the number exceeds `i64::MAX`.
fn parse_digits(s: &Vec<u8>, from: usize) -> (r: Option<i64>)
    requires
        from <= s@.len(),
    ensures
        ({
            let d = s@.subrange(from as int, s@.len() as int);
            match r {
                Some(v) => all_digits(d) && digits_val(d) <= i64::MAX && v == digits_val(d)
                    && v >= 0,
                None => !(all_digits(d) && digits_val(d) <= i64::MAX),
            }
        }),
{
    let ghost d = s@.subrange(from as int, s@.len() as int);
    let mut acc: i64 = 0;
    let mut i: usize = from;
    while i < s.len()
        invariant
            from <= i <= s@.len(),
            d == s@.subrange(from as int, s@.len() as int),
            all_digits(d.subrange(0, i - from)),
            0 <= acc,
            acc == digits_val(d.subrange(0, i - from)),
        decreases s@.len() - i,
    {
        let c = s[i];
        if c < 48 || c > 57 {
            proof {
                assert(d[i - from] == s@[i as int]);
            }
            return None;
        }
        let dig = (c - 48) as i64;
        proof {
            assert(all_digits(d.subrange(0, i + 1 - from)));
            lemma_digits_val_step(d, i - from);
        }
        if acc > (i64::MAX - dig) / 10 {
            proof {
                // the prefix up to and including this digit already
                // overflows, so the whole digit string does
                assert(digits_val(d.subrange(0, i + 1 - from)) > i64::MAX);
                if all_digits(d) {
                    lemma_digits_val_prefix(d, i + 1 - from);
                }
            }
            return None;
        }
        acc = acc * 10 + dig;
        i += 1;
    }
    proof {
        assert(d.subrange(0, d.len() as int) =~= d);
    }
    Some(acc)
}

/// The integer reading of a byte string, as `parse_int_s` defines it.
pub fn parse_int(s: &Vec<u8>) -> (r: Option<i64>)
    ensures
        r == parse_int_s(s@),
{
    if s.len() == 0 {
        return None;
    }
    if s[0] == 45 {
        if s.len() == 1 {
            return None;
        }
        let ghost d = s@.subrange(1, s@.len() as int);
        match parse_digits(s, 1) {
            Some(v) => {
                proof {
                    lemma_digits_val_nonneg(d);
                }
                Some(-v)
            },
            None => None,
        }
    } else {
        match parse_digits(s, 0) {
            Some(v) => {
                proof {
                    assert(s@.subrange(0, s@.len() as int) =~= s@);
                }
                Some(v)
            },
            None => None,
        }
    }
}

} // verus!
