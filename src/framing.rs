//! The byte layout of the serialized index and dictionary: a list of fields,
//! each followed by a zero byte.
use vstd::prelude::*;

verus! {

/// The position of the first zero byte of `b` at or after `i`, or the length
/// when there is none.
pub open spec fn zero_from(b: Seq<u8>, i: int) -> int
    decreases b.len() - i,
{
    if i < 0 || i >= b.len() {
        b.len() as int
    } else if b[i] == 0u8 {
        i
    } else {
        zero_from(b, i + 1)
    }
}

/// The fields of `b` from position `i` on, or `None` when the last one lacks
/// its terminator.
pub open spec fn fields_from(b: Seq<u8>, i: int) -> Option<Seq<Seq<u8>>>
    decreases b.len() - i,
{
    if i < 0 || i >= b.len() {
        Some(Seq::<Seq<u8>>::empty())
    } else {
        let z = zero_from(b, i);
        if z < i || z >= b.len() {
            None
        } else {
            match fields_from(b, z + 1) {
                Some(rest) => Some(seq![b.subrange(i, z)] + rest),
                None => None,
            }
        }
    }
}

/// The zero-terminated fields that `b` holds.
pub open spec fn split_fields(b: Seq<u8>) -> Option<Seq<Seq<u8>>> {
    fields_from(b, 0)
}

/// Splits `bytes` into its zero-terminated fields.
pub fn split_fields_of(bytes: &[u8]) -> (r: Option<Vec<Vec<u8>>>)
    ensures
        r matches Some(v) ==> split_fields(bytes@) == Some(v@.map_values(|f: Vec<u8>| f@)),
        r is None ==> split_fields(bytes@) is None,
{
    let n = bytes.len();
    let mut done: Vec<Vec<u8>> = Vec::new();
    let mut start: usize = 0;
    while start < n
        invariant
            n == bytes@.len(),
            start <= n,
            fields_from(bytes@, 0) == match fields_from(bytes@, start as int) {
                Some(rest) => Some(done@.map_values(|f: Vec<u8>| f@) + rest),
                None => None::<Seq<Seq<u8>>>,
            },
        decreases n - start,
    {
        let mut field: Vec<u8> = Vec::new();
        let mut j: usize = start;
        while j < n && bytes[j] != 0u8
            invariant
                n == bytes@.len(),
                start <= j <= n,
                zero_from(bytes@, start as int) == zero_from(bytes@, j as int),
                field@ == bytes@.subrange(start as int, j as int),
            decreases n - j,
        {
            field.push(bytes[j]);
            j += 1;
        }
        assert(zero_from(bytes@, j as int) == j);
        if j == n {
            return None;
        }
        let ghost before = done@.map_values(|f: Vec<u8>| f@);
        done.push(field);
        proof {
            assert(done@.map_values(|f: Vec<u8>| f@) =~= before + seq![bytes@.subrange(start as int, j as int)]);
            match fields_from(bytes@, j + 1) {
                Some(rest) => {
                    assert(before + (seq![bytes@.subrange(start as int, j as int)] + rest) =~= (before
                        + seq![bytes@.subrange(start as int, j as int)]) + rest);
                },
                None => {},
            }
        }
        start = j + 1;
    }
    assert(done@.map_values(|f: Vec<u8>| f@) + Seq::<Seq<u8>>::empty() =~= done@.map_values(
        |f: Vec<u8>| f@,
    ));
    Some(done)
}

/// The value of a decimal id field: one to nineteen ASCII digits.
pub open spec fn decimal_id(s: Seq<u8>) -> Option<u64> {
    if 1 <= s.len() <= 19 && forall|i: int| 0 <= i < s.len() ==> 48 <= #[trigger] s[i] <= 57 {
        Some(digits_value(s) as u64)
    } else {
        None
    }
}

pub open spec fn digits_value(s: Seq<u8>) -> nat
    decreases s.len(),
{
    if s.len() == 0 {
        0
    } else {
        digits_value(s.drop_last()) * 10 + (s.last() - 48) as nat
    }
}

proof fn lemma_digits_value_bound(s: Seq<u8>)
    requires
        forall|i: int| 0 <= i < s.len() ==> 48 <= #[trigger] s[i] <= 57,
    ensures
        digits_value(s) < pow10(s.len()),
    decreases s.len(),
{
    if s.len() > 0 {
        let t = s.drop_last();
        assert forall|i: int| 0 <= i < t.len() implies 48 <= #[trigger] t[i] <= 57 by {
            assert(t[i] == s[i]);
        }
        lemma_digits_value_bound(t);
        let a: int = digits_value(t) as int;
        let d: int = (s.last() - 48) as int;
        let p: int = pow10(t.len()) as int;
        assert(a * 10 + d < p * 10) by (nonlinear_arith)
            requires
                a < p,
                0 <= d < 10,
        ;
    }
}

pub open spec fn pow10(n: nat) -> nat
    decreases n,
{
    if n == 0 {
        1
    } else {
        pow10((n - 1) as nat) * 10
    }
}

proof fn lemma_pow10_monotone(a: nat, b: nat)
    requires
        a <= b,
    ensures
        pow10(a) <= pow10(b),
    decreases b,
{
    if a < b {
        lemma_pow10_monotone(a, (b - 1) as nat);
    }
}

/// Reads a decimal id field.
pub fn parse_decimal_id(s: &Vec<u8>) -> (r: Option<u64>)
    ensures
        r == decimal_id(s@),
{
    let n = s.len();
    if n < 1 || n > 19 {
        return None;
    }
    let mut value: u64 = 0;
    let mut i: usize = 0;
    while i < n
        invariant
            n == s@.len(),
            1 <= n <= 19,
            i <= n,
            forall|j: int| 0 <= j < i ==> 48 <= #[trigger] s@[j] <= 57,
            value == digits_value(s@.subrange(0, i as int)),
        decreases n - i,
    {
        let c = s[i];
        if c < 48 || c > 57 {
            return None;
        }
        proof {
            let p = s@.subrange(0, i as int);
            let q = s@.subrange(0, i + 1);
            assert(q.drop_last() =~= p);
            assert forall|j: int| 0 <= j < p.len() implies 48 <= #[trigger] p[j] <= 57 by {
                assert(p[j] == s@[j]);
            }
            lemma_digits_value_bound(p);
            lemma_pow10_monotone(i as nat, 18);
            assert(pow10(18) == 1000000000000000000) by {
                reveal_with_fuel(pow10, 19);
            }
        }
        value = value * 10 + (c - 48) as u64;
        i += 1;
    }
    assert(s@.subrange(0, n as int) =~= s@);
    proof {
        lemma_digits_value_bound(s@);
        lemma_pow10_monotone(n as nat, 19);
        assert(pow10(19) == 10000000000000000000) by {
            reveal_with_fuel(pow10, 20);
        }
    }
    Some(value)
}

} // verus!
