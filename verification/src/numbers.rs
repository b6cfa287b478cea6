use vstd::prelude::*;

verus! {

pub open spec fn is_digit(c: char) -> bool {
    '0' <= c && c <= '9'
}

pub open spec fn digit_val(c: char) -> int {
    c as int - '0' as int
}

pub open spec fn all_digits(s: Seq<char>) -> bool {
    forall|k: int| 0 <= k < s.len() ==> is_digit(#[trigger] s[k])
}

/// The value of a string of decimal digits, most significant first.
pub open spec fn digits_val(s: Seq<char>) -> int
    decreases s.len(),
{
    if s.len() == 0 {
        0
    } else {
        digits_val(s.drop_last()) * 10 + digit_val(s.last())
    }
}

/// Extending a digit string by one digit is one Horner step.
pub proof fn lemma_digits_val_step(s: Seq<char>, i: int)
    requires
        0 <= i < s.len(),
    ensures
        digits_val(s.take(i + 1)) == digits_val(s.take(i)) * 10 + digit_val(s[i]),
{
    assert(s.take(i + 1).drop_last() =~= s.take(i));
    assert(s.take(i + 1).last() == s[i]);
}

/// How many decimal digit characters `s` holds, anywhere in the text.
pub open spec fn count_digits(s: Seq<char>) -> nat
    decreases s.len(),
{
    if s.len() == 0 {
        0
    } else {
        count_digits(s.drop_last()) + (if is_digit(s.last()) {
            1nat
        } else {
            0nat
        })
    }
}

/// 10^n.
pub open spec fn pow10(n: nat) -> int
    decreases n,
{
    if n == 0 {
        1
    } else {
        10 * pow10((n - 1) as nat)
    }
}

pub proof fn lemma_pow10_pos(n: nat)
    ensures
        pow10(n) >= 1,
    decreases n,
{
    if n > 0 {
        lemma_pow10_pos((n - 1) as nat);
    }
}

pub proof fn lemma_pow10_add(a: nat, b: nat)
    ensures
        pow10(a + b) == pow10(a) * pow10(b),
    decreases a,
{
    if a > 0 {
        lemma_pow10_add((a - 1) as nat, b);
        assert(pow10(a + b) == 10 * pow10((a - 1) as nat + b));
        assert(10 * (pow10((a - 1) as nat) * pow10(b)) == (10 * pow10((a - 1) as nat)) * pow10(
            b,
        )) by (nonlinear_arith);
    }
}

pub proof fn lemma_pow10_mono(a: nat, b: nat)
    requires
        a <= b,
    ensures
        pow10(a) <= pow10(b),
    decreases b,
{
    if a < b {
        lemma_pow10_mono(a, (b - 1) as nat);
        lemma_pow10_pos((b - 1) as nat);
    }
}

pub proof fn lemma_pow10_20()
    ensures
        pow10(20) == 100000000000000000000,
{
    reveal_with_fuel(pow10, 21);
}

/// A string of zero digits is worth zero.
pub proof fn lemma_digits_zeros(s: Seq<char>)
    requires
        forall|m: int| 0 <= m < s.len() ==> s[m] == '0',
    ensures
        digits_val(s) == 0,
    decreases s.len(),
{
    if s.len() > 0 {
        lemma_digits_zeros(s.drop_last());
        assert(digit_val('0') == 0);
    }
}

/// A run of leading zero digits does not change the value.
pub proof fn lemma_digits_val_zero_prefix(s: Seq<char>, z: int)
    requires
        0 <= z <= s.len(),
        forall|m: int| 0 <= m < z ==> s[m] == '0',
    ensures
        digits_val(s) == digits_val(s.subrange(z, s.len() as int)),
{
    lemma_digits_val_split(s, z);
    assert(forall|m: int| 0 <= m < s.take(z).len() ==> s.take(z)[m] == '0');
    lemma_digits_zeros(s.take(z));
}

/// A digit string with a nonzero leading digit is worth at least 10^(len-1).
pub proof fn lemma_digits_val_lower(s: Seq<char>)
    requires
        all_digits(s),
        s.len() > 0,
        s[0] != '0',
    ensures
        digits_val(s) >= pow10((s.len() - 1) as nat),
{
    lemma_digits_val_split(s, 1);
    assert(s.take(1).len() == 1);
    assert(s.take(1).drop_last() =~= Seq::<char>::empty());
    assert(s.take(1).last() == s[0]);
    assert(digits_val(Seq::<char>::empty()) == 0);
    assert(digits_val(s.take(1)) == digits_val(s.take(1).drop_last()) * 10 + digit_val(
        s.take(1).last(),
    ));
    assert(digits_val(s.take(1)) == digit_val(s[0]));
    assert(is_digit(s[0]));
    assert(digit_val(s[0]) >= 1);
    assert(all_digits(s.subrange(1, s.len() as int)));
    lemma_digits_val_bounds(s.subrange(1, s.len() as int));
    lemma_pow10_pos((s.len() - 1) as nat);
    assert(digit_val(s[0]) * pow10((s.len() - 1) as nat) >= pow10((s.len() - 1) as nat))
        by (nonlinear_arith)
        requires
            digit_val(s[0]) >= 1,
            pow10((s.len() - 1) as nat) >= 1,
    ;
}

/// The value of a digit string with a nonzero digit, shifted left so that
/// twenty-one or more places lie left of the point, exceeds the u64 range.
pub proof fn lemma_shifted_value_exceeds_u64(all: Seq<char>, z: int, m: nat)
    requires
        all_digits(all),
        0 <= z < all.len(),
        forall|i: int| 0 <= i < z ==> all[i] == '0',
        all[z] != '0',
        all.len() - z + m >= 21,
    ensures
        digits_val(all) * pow10(m) > u64::MAX as int,
{
    let sig = all.subrange(z, all.len() as int);
    lemma_digits_val_zero_prefix(all, z);
    assert(all_digits(sig));
    lemma_digits_val_lower(sig);
    lemma_pow10_add((sig.len() - 1) as nat, m);
    lemma_pow10_mono(20, ((sig.len() - 1) as nat + m) as nat);
    lemma_pow10_20();
    lemma_pow10_pos(m);
    assert(digits_val(all) * pow10(m) >= pow10((sig.len() - 1) as nat) * pow10(m))
        by (nonlinear_arith)
        requires
            digits_val(all) >= pow10((sig.len() - 1) as nat),
            pow10(m) >= 1,
    ;
}

/// A string of `n` digits is worth less than 10^n.
pub proof fn lemma_digits_val_bounds(s: Seq<char>)
    requires
        all_digits(s),
    ensures
        0 <= digits_val(s) < pow10(s.len()),
    decreases s.len(),
{
    if s.len() > 0 {
        assert(all_digits(s.drop_last()));
        lemma_digits_val_bounds(s.drop_last());
        let prev = digits_val(s.drop_last());
        let d = digit_val(s.last());
        assert(is_digit(s.last()));
        assert(0 <= d <= 9);
        assert(pow10(s.len()) == 10 * pow10((s.len() - 1) as nat));
        assert(prev * 10 + d < pow10((s.len() - 1) as nat) * 10) by (nonlinear_arith)
            requires
                prev < pow10((s.len() - 1) as nat),
                d <= 9,
        ;
        assert(prev * 10 >= 0) by (nonlinear_arith)
            requires
                prev >= 0,
        ;
    }
}

/// The value of a digit string splits at any position into the value of the
/// high digits, shifted, plus the value of the low digits.
pub proof fn lemma_digits_val_split(s: Seq<char>, i: int)
    requires
        0 <= i <= s.len(),
    ensures
        digits_val(s) == digits_val(s.take(i)) * pow10((s.len() - i) as nat) + digits_val(
            s.subrange(i, s.len() as int),
        ),
    decreases s.len(),
{
    if i == s.len() {
        assert(s.take(i) =~= s);
        assert(s.subrange(i, s.len() as int) =~= Seq::<char>::empty());
    } else {
        let dl = s.drop_last();
        lemma_digits_val_split(dl, i);
        let t = digits_val(s.take(i));
        let d = digit_val(s.last());
        assert(dl.take(i) =~= s.take(i));
        assert(dl.subrange(i, dl.len() as int) =~= s.subrange(i, s.len() as int).drop_last());
        assert(s.subrange(i, s.len() as int).last() == s.last());
        assert(s.subrange(i, s.len() as int).len() > 0);
        assert(pow10((s.len() - i) as nat) == 10 * pow10((s.len() - 1 - i) as nat));
        assert((t * pow10((s.len() - 1 - i) as nat)) * 10 == t * pow10((s.len() - i) as nat))
            by (nonlinear_arith)
            requires
                pow10((s.len() - i) as nat) == 10 * pow10((s.len() - 1 - i) as nat),
        ;
        assert(digits_val(s) == digits_val(dl) * 10 + d);
        assert(digits_val(dl) == digits_val(dl.take(i)) * pow10((dl.len() - i) as nat)
            + digits_val(dl.subrange(i, dl.len() as int)));
        assert(digits_val(s.subrange(i, s.len() as int)) == digits_val(
            s.subrange(i, s.len() as int).drop_last(),
        ) * 10 + d);
        assert((digits_val(dl.take(i)) * pow10((dl.len() - i) as nat) + digits_val(
            dl.subrange(i, dl.len() as int),
        )) * 10 == (t * pow10((s.len() - 1 - i) as nat)) * 10 + digits_val(
            dl.subrange(i, dl.len() as int),
        ) * 10);
    }
}

/// Clamps a mathematical integer into the `u64` range from above.
pub open spec fn cap_u64(v: int) -> int {
    if v > u64::MAX as int {
        u64::MAX as int
    } else {
        v
    }
}

/// What `u64` parsing accepts: an optional leading plus sign, then at least
/// one digit, with a value that fits in 64 bits.
pub open spec fn u64_of(s: Seq<char>) -> Option<int> {
    let t = if s.len() > 0 && s[0] == '+' {
        s.subrange(1, s.len() as int)
    } else {
        s
    };
    if t.len() > 0 && all_digits(t) && digits_val(t) <= u64::MAX as int {
        Some(digits_val(t))
    } else {
        None
    }
}

/// Parses the character range `lo..hi` of `v` as a `u64`.
pub fn parse_u64_range(v: &Vec<char>, lo: usize, hi: usize) -> (r: Option<u64>)
    requires
        lo <= hi <= v@.len(),
    ensures
        match r {
            Some(x) => u64_of(v@.subrange(lo as int, hi as int)) == Some(x as int),
            None => u64_of(v@.subrange(lo as int, hi as int)) is None,
        },
{
    let ghost s = v@.subrange(lo as int, hi as int);
    let start: usize = if hi > lo && v[lo] == '+' {
        lo + 1
    } else {
        lo
    };
    let ghost t = v@.subrange(start as int, hi as int);
    proof {
        if s.len() > 0 && s[0] == '+' {
            assert(t =~= s.subrange(1, s.len() as int));
        } else {
            assert(t =~= s);
        }
    }
    if start == hi {
        return None;
    }
    let mut acc: u64 = 0;
    let mut over = false;
    let mut i = start;
    while i < hi
        invariant
            lo <= start <= i <= hi <= v@.len(),
            s == v@.subrange(lo as int, hi as int),
            t == v@.subrange(start as int, hi as int),
            t == (if s.len() > 0 && s[0] == '+' {
                s.subrange(1, s.len() as int)
            } else {
                s
            }),
            t.len() == hi - start,
            all_digits(t.take(i - start)),
            !over ==> acc as int == digits_val(t.take(i - start)),
            over ==> digits_val(t.take(i - start)) > u64::MAX as int,
        decreases hi - i,
    {
        let c = v[i];
        proof {
            assert(t[i - start] == v@[i as int]);
        }
        if !('0' <= c && c <= '9') {
            proof {
                assert(!is_digit(t[i - start]));
                assert(!all_digits(t));
                assert(t == (if s.len() > 0 && s[0] == '+' {
                    s.subrange(1, s.len() as int)
                } else {
                    s
                }));
                assert(u64_of(s) is None);
            }
            return None;
        }
        let d: u64 = (c as u32 - 48) as u64;
        proof {
            assert(d as int == digit_val(t[i - start]));
            lemma_digits_val_step(t, i - start);
            assert(t.take(i - start + 1).drop_last() =~= t.take(i - start));
            assert(all_digits(t.take(i - start + 1)));
        }
        if !over {
            let big: u128 = acc as u128 * 10 + d as u128;
            if big > u64::MAX as u128 {
                over = true;
            } else {
                acc = big as u64;
            }
        } else {
            proof {
                let prev = digits_val(t.take(i - start));
                assert(digits_val(t.take(i - start + 1)) == prev * 10 + digit_val(t[i - start]));
                assert(prev * 10 >= prev);
            }
        }
        i = i + 1;
    }
    proof {
        assert(t.take(i - start) =~= t);
    }
    if over {
        None
    } else {
        Some(acc)
    }
}

} // verus!
