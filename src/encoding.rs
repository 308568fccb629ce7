//! The status-code suffix that a stored redirect target may carry.
use vstd::prelude::*;

verus! {

/// The lowest status code that a suffix may carry.
pub const MIN_SUFFIX_STATUS: u16 = 301;

/// The highest status code that a suffix may carry.
pub const MAX_SUFFIX_STATUS: u16 = 399;

pub open spec fn is_ascii_digit(b: u8) -> bool {
    48 <= b <= 57
}

/// The value of three decimal digits.
pub open spec fn three_digit_value(d1: u8, d2: u8, d3: u8) -> int {
    (d1 - 48) * 100 + (d2 - 48) * 10 + (d3 - 48)
}

/// The status code carried by `raw`: present when `raw` ends in a space
/// followed by three ASCII digits whose value lies in 301..=399.
pub open spec fn status_suffix(raw: Seq<u8>) -> Option<u16> {
    let n = raw.len();
    if n >= 4 && raw[n - 4] == 32u8 && is_ascii_digit(raw[n - 3]) && is_ascii_digit(raw[n - 2])
        && is_ascii_digit(raw[n - 1]) && MIN_SUFFIX_STATUS <= three_digit_value(
        raw[n - 3],
        raw[n - 2],
        raw[n - 1],
    ) <= MAX_SUFFIX_STATUS {
        Some(three_digit_value(raw[n - 3], raw[n - 2], raw[n - 1]) as u16)
    } else {
        None
    }
}

/// The target that `raw` stands for: without its four-byte suffix when it
/// carries a status code, unchanged otherwise.
pub open spec fn target_body(raw: Seq<u8>) -> Seq<u8> {
    if status_suffix(raw) is Some {
        raw.subrange(0, raw.len() - 4)
    } else {
        raw
    }
}

/// How a target with an optional status override is stored.
pub open spec fn encode_target(target: Seq<u8>, status: Option<u16>) -> Seq<u8> {
    match status {
        Some(s) => target + seq![32u8, (48 + s / 100) as u8, (48 + (s / 10) % 10) as u8, (
        48 + s % 10) as u8],
        None => target,
    }
}

/// Splits a stored target into the target proper and the status code it
/// carries, if any. The four-byte tail is taken off only when every part of
/// it qualifies.
pub fn parse_target(raw: &[u8]) -> (r: (Vec<u8>, Option<u16>))
    ensures
        r.0@ == target_body(raw@),
        r.1 == status_suffix(raw@),
{
    let n = raw.len();
    if n >= 4 && raw[n - 4] == 32u8 {
        let d1 = raw[n - 3];
        let d2 = raw[n - 2];
        let d3 = raw[n - 1];
        if 48 <= d1 && d1 <= 57 && 48 <= d2 && d2 <= 57 && 48 <= d3 && d3 <= 57 {
            let v: u16 = (d1 - 48) as u16 * 100 + (d2 - 48) as u16 * 10 + (d3 - 48) as u16;
            if MIN_SUFFIX_STATUS <= v && v <= MAX_SUFFIX_STATUS {
                let body = slice_prefix(raw, n - 4);
                return (body, Some(v));
            }
        }
    }
    (slice_prefix(raw, n), None)
}

/// A copy of the first `len` bytes of `s`.
fn slice_prefix(s: &[u8], len: usize) -> (r: Vec<u8>)
    requires
        len <= s@.len(),
    ensures
        r@ == s@.subrange(0, len as int),
{
    let mut r: Vec<u8> = Vec::with_capacity(len);
    let mut i: usize = 0;
    while i < len
        invariant
            len <= s@.len(),
            i <= len,
            r@ == s@.subrange(0, i as int),
        decreases len - i,
    {
        r.push(s[i]);
        i += 1;
    }
    r
}

/// A stored target decodes to what was encoded, provided that a target stored
/// without an override does not itself end in something that reads as one.
pub proof fn lemma_encode_parse(target: Seq<u8>, status: Option<u16>)
    requires
        status matches Some(s) ==> MIN_SUFFIX_STATUS <= s <= MAX_SUFFIX_STATUS,
        status is None ==> status_suffix(target) is None,
    ensures
        status_suffix(encode_target(target, status)) == status,
        target_body(encode_target(target, status)) == target,
{
    if let Some(s) = status {
        let raw = encode_target(target, status);
        let n = raw.len();
        assert(raw[n - 4] == 32u8);
        assert(raw[n - 3] == (48 + s / 100) as u8);
        assert(raw[n - 2] == (48 + (s / 10) % 10) as u8);
        assert(raw[n - 1] == (48 + s % 10) as u8);
        assert(three_digit_value(raw[n - 3], raw[n - 2], raw[n - 1]) == s) by (nonlinear_arith)
            requires
                raw[n - 3] == (48 + s / 100) as u8,
                raw[n - 2] == (48 + (s / 10) % 10) as u8,
                raw[n - 1] == (48 + s % 10) as u8,
                301 <= s <= 399,
        ;
        assert(raw.subrange(0, n - 4) =~= target);
    }
}

} // verus!
