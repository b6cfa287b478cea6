use vstd::prelude::*;
use crate::errors::{Error, ErrModel};
use crate::numbers::{count_digits, digit_val, is_digit};
use crate::text::{chars_of, find_exp_exec, first_exp};

verus! {

/// The value of the digit characters among `s[0..i]`, read in order with
/// every other character skipped: the number that the size parser's
/// mantissa accumulates over that prefix.
pub open spec fn mantissa_prefix_val(s: Seq<char>, i: int) -> int
    decreases i,
{
    if i <= 0 {
        0
    } else if is_digit(s[i - 1]) {
        mantissa_prefix_val(s, i - 1) * 10 + digit_val(s[i - 1])
    } else {
        mantissa_prefix_val(s, i - 1)
    }
}

/// Inputs on which the size parser's unchecked arithmetic can abort the
/// process. Only the characters before the first exponent marker feed the
/// mantissa. The abort happens exactly when the digits accumulated so far
/// are exactly `u64::MAX` and the next digit rounds up (the parser's
/// unchecked `mantissa += 1`), or — far out — when the number part holds
/// more digit characters than the parser's 32-bit count of shifted digits
/// can absorb.
pub open spec fn size_overflow_risk(s: Seq<char>) -> bool {
    let e = first_exp(s, 0);
    count_digits(s.take(e)) > i32::MAX as nat || (exists|p: int|
        0 <= p < e && is_digit(s[p]) && digit_val(s[p]) >= 5 && #[trigger] mantissa_prefix_val(
            s,
            p,
        ) == u64::MAX as int)
}

/// The byte count that the size parser decodes from a human-readable size
/// string ("24576 MiB"), or `None` where the string does not parse. The
/// result depends on the characters alone. It is only ever queried on
/// strings without `size_overflow_risk` (see `parse_size_text`).
pub uninterp spec fn parsed_size(s: Seq<char>) -> Option<u64>;

/// Relies on parse_size::parse_size: decodes a human-readable byte-size
/// string (binary and decimal suffixes) into a byte count, deterministically
/// from the characters alone. The precondition keeps out exactly the inputs
/// on which the parser's unchecked arithmetic can overflow and abort: its
/// rounding increment `mantissa += 1` runs unchecked when appending a digit
/// overflows, which itself overflows only when the digits consumed so far
/// are exactly `u64::MAX` and the overflowing digit is five or more; and its
/// `i32` count of digits shifted past the mantissa grows or shrinks
/// unchecked by at most one per digit of the number part, so it stays in
/// range while that part holds at most `i32::MAX` digit characters.
#[verifier::external_body]
fn parse_size_text(s: &str) -> (r: Option<u64>)
    requires
        !size_overflow_risk(s@),
    ensures
        r == parsed_size(s@),
{
    parse_size::parse_size(s).ok()
}

/// Normalizes a human-readable memory size string to bytes. Fails with
/// `MalformedSize` exactly when the string does not parse as a size, or on
/// the `size_overflow_risk` inputs (where the size parser itself would
/// abort rather than answer).
pub fn mem_unit_to_bytes(mem: &str) -> (r: Result<u64, Error>)
    ensures
        match r {
            Ok(b) => !size_overflow_risk(mem@) && parsed_size(mem@) == Some(b),
            Err(e) => e@ == ErrModel::MalformedSize && (size_overflow_risk(mem@) || parsed_size(
                mem@,
            ) is None),
        },
{
    let v = chars_of(mem);
    let e = find_exp_exec(&v);
    let ghost s = mem@;
    let mut cnt: usize = 0;
    let mut val: u64 = 0;
    let mut over = false;
    let mut danger = false;
    let mut i: usize = 0;
    while i < e
        invariant
            i <= e <= v@.len(),
            v@ == s,
            e == first_exp(s, 0),
            cnt == count_digits(s.take(i as int)),
            cnt <= i,
            !over ==> val as int == mantissa_prefix_val(s, i as int),
            over ==> mantissa_prefix_val(s, i as int) > u64::MAX as int,
            danger ==> (exists|p: int|
                0 <= p < i && is_digit(s[p]) && digit_val(s[p]) >= 5
                    && #[trigger] mantissa_prefix_val(s, p) == u64::MAX as int),
            !danger ==> (forall|p: int|
                0 <= p < i ==> !(is_digit(s[p]) && digit_val(s[p]) >= 5
                    && #[trigger] mantissa_prefix_val(s, p) == u64::MAX as int)),
        decreases e - i,
    {
        let c = v[i];
        proof {
            assert(s.take(i + 1).drop_last() =~= s.take(i as int));
            assert(s.take(i + 1).last() == s[i as int]);
        }
        if '0' <= c && c <= '9' {
            cnt = cnt + 1;
            let d: u64 = (c as u32 - 48) as u64;
            if !over {
                let big: u128 = val as u128 * 10 + d as u128;
                if big > u64::MAX as u128 {
                    if val == u64::MAX && d >= 5 {
                        danger = true;
                        proof {
                            assert(is_digit(s[i as int]) && digit_val(s[i as int]) >= 5
                                && mantissa_prefix_val(s, i as int) == u64::MAX as int);
                        }
                    }
                    over = true;
                } else {
                    val = big as u64;
                }
            } else {
                proof {
                    let prev = mantissa_prefix_val(s, i as int);
                    assert(mantissa_prefix_val(s, i + 1) == prev * 10 + digit_val(s[i as int]));
                    assert(prev * 10 >= prev);
                    assert(digit_val(s[i as int]) >= 0);
                }
            }
        }
        i = i + 1;
    }
    proof {
        assert(s.take(e as int) =~= s.take(first_exp(s, 0)));
    }
    if cnt > 2147483647 || danger {
        return Err(Error::MalformedSize);
    }
    match parse_size_text(mem) {
        Some(b) => Ok(b),
        None => Err(Error::MalformedSize),
    }
}

} // verus!
