use vstd::prelude::*;
use vstd::arithmetic::div_mod::lemma_fundamental_div_mod_converse;
use crate::errors::{Error, ErrModel};
use crate::numbers::{
    all_digits, cap_u64, digit_val, digits_val, is_digit, lemma_digits_val_bounds,
    lemma_digits_val_split, lemma_digits_zeros, lemma_digits_val_zero_prefix, lemma_pow10_add,
    lemma_pow10_mono, lemma_pow10_pos, lemma_pow10_20, lemma_shifted_value_exceeds_u64, pow10,
};
use crate::text::{
    chars_of, chars_to_string, copy_range, find_exp_exec, first_exp, seq_views, tokenize,
    tokens_from,
};

verus! {

/// Exponent magnitudes are evaluated exactly up to this bound and saturated
/// beyond it; it lies far above any magnitude at which the result could
/// still depend on the exact exponent.
pub const EXP_SAT: u128 = 1000000000000000000000000000000;

/// Position of the first decimal point at or after `i`, or the end.
pub open spec fn first_dot(s: Seq<char>, i: int) -> int
    decreases s.len() - i,
{
    if i < 0 || i >= s.len() || s[i] == '.' {
        i
    } else {
        first_dot(s, i + 1)
    }
}

/// The integer and fractional digit strings of a plain decimal mantissa, or
/// `None` where the text is not one: digits with at most one dot and at
/// least one digit.
pub open spec fn mantissa_split(m: Seq<char>) -> Option<(Seq<char>, Seq<char>)> {
    let d = first_dot(m, 0);
    if d == m.len() {
        if m.len() > 0 && all_digits(m) {
            Some((m, Seq::<char>::empty()))
        } else {
            None
        }
    } else {
        let ip = m.take(d);
        let fp = m.subrange(d + 1, m.len() as int);
        if m.len() >= 2 && all_digits(ip) && all_digits(fp) {
            Some((ip, fp))
        } else {
            None
        }
    }
}

/// The value of an exponent part: an optional sign, then at least one digit.
pub open spec fn exp_value(x: Seq<char>) -> Option<int> {
    if x.len() > 0 && (x[0] == '+' || x[0] == '-') {
        let d = x.subrange(1, x.len() as int);
        if d.len() > 0 && all_digits(d) {
            Some(
                if x[0] == '-' {
                    -digits_val(d)
                } else {
                    digits_val(d)
                },
            )
        } else {
            None
        }
    } else if x.len() > 0 && all_digits(x) {
        Some(digits_val(x))
    } else {
        None
    }
}

/// The parts of a floating-point numeral `[+-]? digits [. digits]?
/// [(e|E) [+-]? digits]?`: its sign, its integer and fractional digit
/// strings, and its decimal exponent; `None` where the text is not one.
pub open spec fn numeral_split(t: Seq<char>) -> Option<(bool, Seq<char>, Seq<char>, int)> {
    let neg = t.len() > 0 && t[0] == '-';
    let u = if t.len() > 0 && (t[0] == '+' || t[0] == '-') {
        t.subrange(1, t.len() as int)
    } else {
        t
    };
    let ep = first_exp(u, 0);
    let m = u.take(ep);
    let ev = if ep == u.len() {
        Some(0int)
    } else {
        exp_value(u.subrange(ep + 1, u.len() as int))
    };
    match (mantissa_split(m), ev) {
        (Some(p), Some(e)) => Some((neg, p.0, p.1, e)),
        _ => None,
    }
}

/// The decimal exponent of a clock unit token: Hz, kHz, MHz or GHz, with the
/// unit suffix compared case-insensitively.
pub open spec fn unit_scale_exp(t: Seq<char>) -> Option<nat> {
    if t.len() == 2 && (t[0] == 'h' || t[0] == 'H') && (t[1] == 'z' || t[1] == 'Z') {
        Some(0nat)
    } else if t.len() == 3 && (t[1] == 'h' || t[1] == 'H') && (t[2] == 'z' || t[2] == 'Z') {
        if t[0] == 'k' || t[0] == 'K' {
            Some(3nat)
        } else if t[0] == 'm' || t[0] == 'M' {
            Some(6nat)
        } else if t[0] == 'g' || t[0] == 'G' {
            Some(9nat)
        } else {
            None
        }
    } else {
        None
    }
}

/// round(x), half away from zero, where x is the value of the digit string
/// `all` with the decimal point placed after position `cut` (which may fall
/// outside the digits): the digits left of the point, zero-padded on the
/// right as needed, plus one when the first digit after the point is five or
/// more.
pub open spec fn round_at(all: Seq<char>, cut: int) -> int {
    if cut <= 0 {
        if cut == 0 && all.len() > 0 && digit_val(all[0]) >= 5 {
            1
        } else {
            0
        }
    } else if cut >= all.len() {
        digits_val(all) * pow10((cut - all.len()) as nat)
    } else {
        digits_val(all.take(cut)) + if digit_val(all[cut]) >= 5 {
            1int
        } else {
            0int
        }
    }
}

/// round(number × 10^k) for the unsigned decimal numeral `ip "." fp`.
pub open spec fn scaled_round(ip: Seq<char>, fp: Seq<char>, k: nat) -> int {
    round_at(ip + fp, ip.len() + k as int)
}

/// `scaled_round` is exactly rounding half away from zero: with `n` the
/// value of the combined digit string, `f` the number of fractional digits
/// and `k` the unit's decimal exponent, the number written `ip "." fp` is
/// n / 10^f, and the result is floor((2·n·10^k + 10^f) / (2·10^f)), that is,
/// round(number × 10^k).
pub proof fn lemma_scaled_round_is_round(ip: Seq<char>, fp: Seq<char>, k: nat)
    requires
        all_digits(ip),
        all_digits(fp),
    ensures
        scaled_round(ip, fp, k) == (2 * digits_val(ip + fp) * pow10(k) + pow10(fp.len())) / (2
            * pow10(fp.len())),
{
    let all = ip + fp;
    let f = fp.len();
    let cut = ip.len() + k;
    let n = digits_val(all);
    let x = 2 * n * pow10(k) + pow10(f);
    assert(all_digits(all));
    lemma_pow10_pos(f);
    lemma_pow10_pos(k);
    if all.len() == 0 {
        assert(n == 0);
        assert(f == 0);
        assert(2 * n * pow10(k) == 0) by (nonlinear_arith)
            requires
                n == 0,
        ;
        assert(x == 1);
        if cut > 0 {
            assert(round_at(all, cut as int) == 0 * pow10((cut - 0) as nat));
        }
        assert(scaled_round(ip, fp, k) == 0);
        lemma_fundamental_div_mod_converse(1, 2, 0, 1);
    } else if cut >= all.len() {
        let p = (cut - all.len()) as nat;
        assert(k == p + f);
        let base = n * pow10(p);
        assert(round_at(all, cut as int) == base);
        lemma_pow10_pos(p);
        lemma_pow10_add(p, f);
        lemma_digits_val_bounds(all);
        assert(x == base * (2 * pow10(f)) + pow10(f)) by (nonlinear_arith)
            requires
                x == 2 * n * pow10(k) + pow10(f),
                pow10(k) == pow10(p) * pow10(f),
                base == n * pow10(p),
        ;
        assert(base >= 0) by (nonlinear_arith)
            requires
                base == n * pow10(p),
                n >= 0,
                pow10(p) >= 1,
        ;
        lemma_fundamental_div_mod_converse(x, 2 * pow10(f), base, pow10(f));
    } else {
        let a = digits_val(all.take(cut as int));
        let rest = all.subrange(cut as int, all.len() as int);
        let b = digits_val(rest);
        let d0 = digit_val(all[cut as int]);
        let low = rest.subrange(1, rest.len() as int);
        let c0 = digits_val(low);
        let pk1 = pow10((f - k - 1) as nat);
        assert(rest.len() == f - k);
        lemma_digits_val_split(all, cut as int);
        lemma_digits_val_split(rest, 1);
        assert(rest.take(1).len() == 1);
        assert(rest.take(1).drop_last() =~= Seq::<char>::empty());
        assert(rest.take(1).last() == all[cut as int]);
        assert(digits_val(Seq::<char>::empty()) == 0);
        assert(digits_val(rest.take(1)) == digits_val(rest.take(1).drop_last()) * 10 + digit_val(
            rest.take(1).last(),
        ));
        assert(digits_val(rest.take(1)) == d0);
        assert(b == d0 * pk1 + c0);
        assert(all_digits(rest));
        assert(all_digits(low));
        assert(all_digits(all.take(cut as int)));
        lemma_digits_val_bounds(rest);
        lemma_digits_val_bounds(low);
        lemma_digits_val_bounds(all.take(cut as int));
        assert(is_digit(all[cut as int]));
        assert(0 <= d0 <= 9);
        lemma_pow10_add((f - k) as nat, k);
        lemma_pow10_add((f - k - 1) as nat, k);
        lemma_pow10_pos((f - k - 1) as nat);
        assert(pow10(f) == pow10((f - k) as nat) * pow10(k));
        assert(pow10((f - k) as nat) == 10 * pk1);
        assert(2 * n * pow10(k) == 2 * a * pow10(f) + 2 * (b * pow10(k))) by (nonlinear_arith)
            requires
                n == a * pow10((f - k) as nat) + b,
                pow10(f) == pow10((f - k) as nat) * pow10(k),
        ;
        if cut == 0 {
            assert(all.take(0) =~= Seq::<char>::empty());
            assert(a == 0);
        }
        assert(round_at(all, cut as int) == a + if d0 >= 5 {
            1int
        } else {
            0int
        });
        if d0 >= 5 {
            let q = a + 1;
            let r = 2 * (b * pow10(k)) - pow10(f);
            assert(b >= 5 * pk1) by (nonlinear_arith)
                requires
                    b == d0 * pk1 + c0,
                    d0 >= 5,
                    c0 >= 0,
                    pk1 >= 1,
            ;
            assert(2 * (b * pow10(k)) >= pow10(f)) by (nonlinear_arith)
                requires
                    b >= 5 * pk1,
                    pow10(f) == (10 * pk1) * pow10(k),
                    pow10(k) >= 1,
                    pk1 >= 1,
            ;
            assert(2 * (b * pow10(k)) < 2 * pow10(f)) by (nonlinear_arith)
                requires
                    b < pow10((f - k) as nat),
                    pow10(f) == pow10((f - k) as nat) * pow10(k),
                    pow10(k) >= 1,
            ;
            assert(x == q * (2 * pow10(f)) + r) by (nonlinear_arith)
                requires
                    x == 2 * n * pow10(k) + pow10(f),
                    2 * n * pow10(k) == 2 * a * pow10(f) + 2 * (b * pow10(k)),
                    q == a + 1,
                    r == 2 * (b * pow10(k)) - pow10(f),
            ;
            lemma_fundamental_div_mod_converse(x, 2 * pow10(f), q, r);
        } else {
            let q = a;
            let r = 2 * (b * pow10(k)) + pow10(f);
            assert(2 * (b * pow10(k)) < pow10(f)) by (nonlinear_arith)
                requires
                    b == d0 * pk1 + c0,
                    d0 <= 4,
                    0 <= c0 < pk1,
                    pow10(f) == (10 * pk1) * pow10(k),
                    pow10(k) >= 1,
                    pk1 >= 1,
            ;
            assert(b * pow10(k) >= 0) by (nonlinear_arith)
                requires
                    b >= 0,
                    pow10(k) >= 1,
            ;
            assert(x == q * (2 * pow10(f)) + r) by (nonlinear_arith)
                requires
                    x == 2 * n * pow10(k) + pow10(f),
                    2 * n * pow10(k) == 2 * a * pow10(f) + 2 * (b * pow10(k)),
                    q == a,
                    r == 2 * (b * pow10(k)) + pow10(f),
            ;
            lemma_fundamental_div_mod_converse(x, 2 * pow10(f), q, r);
        }
    }
}

/// The full outcome of parsing one clock string: the first token must be a
/// floating-point numeral and the second a recognized unit; the value is
/// round(number × scale(unit)) in Hz, clamped into the `u64` range, with a
/// negative numeral clamping to zero.
pub open spec fn clock_result(s: Seq<char>) -> Result<int, ErrModel> {
    let toks = tokens_from(s, 0);
    if toks.len() == 0 {
        Err(ErrModel::MalformedNumber)
    } else {
        match numeral_split(toks[0]) {
            None => Err(ErrModel::MalformedNumber),
            Some((neg, ip, fp, e)) => {
                if toks.len() < 2 {
                    Err(ErrModel::InvalidUnit(Seq::<char>::empty()))
                } else {
                    match unit_scale_exp(toks[1]) {
                        None => Err(ErrModel::InvalidUnit(toks[1])),
                        Some(k) => Ok(
                            if neg {
                                0int
                            } else {
                                cap_u64(round_at(ip + fp, ip.len() + k + e))
                            },
                        ),
                    }
                }
            },
        }
    }
}

fn find_dot_exec(v: &Vec<char>) -> (r: usize)
    ensures
        r == first_dot(v@, 0),
        r <= v@.len(),
{
    let mut k: usize = 0;
    while k < v.len() && v[k] != '.'
        invariant
            k <= v@.len(),
            first_dot(v@, 0) == first_dot(v@, k as int),
        decreases v@.len() - k,
    {
        k = k + 1;
    }
    k
}

fn digits_only(v: &Vec<char>, lo: usize, hi: usize) -> (r: bool)
    requires
        lo <= hi <= v@.len(),
    ensures
        r == all_digits(v@.subrange(lo as int, hi as int)),
{
    let ghost s = v@.subrange(lo as int, hi as int);
    let mut i = lo;
    while i < hi
        invariant
            lo <= i <= hi <= v@.len(),
            s == v@.subrange(lo as int, hi as int),
            forall|m: int| 0 <= m < i - lo ==> is_digit(#[trigger] s[m]),
        decreases hi - i,
    {
        let c = v[i];
        if !('0' <= c && c <= '9') {
            proof {
                assert(s[i - lo] == v@[i as int]);
                assert(!is_digit(s[i - lo]));
            }
            return false;
        }
        i = i + 1;
    }
    true
}

fn first_nonzero_exec(v: &Vec<char>) -> (r: usize)
    ensures
        r <= v@.len(),
        forall|m: int| 0 <= m < r ==> v@[m] == '0',
        r < v@.len() ==> v@[r as int] != '0',
{
    let mut k: usize = 0;
    while k < v.len() && v[k] == '0'
        invariant
            k <= v@.len(),
            forall|m: int| 0 <= m < k ==> v@[m] == '0',
        decreases v@.len() - k,
    {
        k = k + 1;
    }
    k
}

fn unit_exp_exec(u: &Vec<char>) -> (r: Option<usize>)
    ensures
        match r {
            Some(k) => unit_scale_exp(u@) == Some(k as nat) && k <= 9,
            None => unit_scale_exp(u@) is None,
        },
{
    let n = u.len();
    if n == 2 && (u[0] == 'h' || u[0] == 'H') && (u[1] == 'z' || u[1] == 'Z') {
        Some(0)
    } else if n == 3 && (u[1] == 'h' || u[1] == 'H') && (u[2] == 'z' || u[2] == 'Z') {
        if u[0] == 'k' || u[0] == 'K' {
            Some(3)
        } else if u[0] == 'm' || u[0] == 'M' {
            Some(6)
        } else if u[0] == 'g' || u[0] == 'G' {
            Some(9)
        } else {
            None
        }
    } else {
        None
    }
}

/// Evaluates the digit string `v[lo..]` exactly up to `EXP_SAT`, reporting
/// saturation beyond it.
#[verifier::loop_isolation(false)]
fn exp_digits_value(v: &Vec<char>, lo: usize) -> (r: (u128, bool))
    requires
        lo <= v@.len(),
        all_digits(v@.subrange(lo as int, v@.len() as int)),
    ensures
        ({
            let dv = digits_val(v@.subrange(lo as int, v@.len() as int));
            if r.1 {
                dv > EXP_SAT as int
            } else {
                r.0 as int == dv && r.0 <= EXP_SAT
            }
        }),
{
    let ghost t = v@.subrange(lo as int, v@.len() as int);
    let mut acc: u128 = 0;
    let mut over = false;
    let mut i = lo;
    while i < v.len()
        invariant
            lo <= i <= v@.len(),
            !over ==> acc as int == digits_val(t.take(i - lo)) && acc <= EXP_SAT,
            over ==> digits_val(t.take(i - lo)) > EXP_SAT as int,
        decreases v@.len() - i,
    {
        let c = v[i];
        proof {
            assert(t[i - lo] == v@[i as int]);
            assert(is_digit(t[i - lo]));
            assert(t.take(i - lo + 1).drop_last() =~= t.take(i - lo));
            assert(t.take(i - lo + 1).last() == t[i - lo]);
        }
        let d: u128 = (c as u32 - 48) as u128;
        if !over {
            let big: u128 = acc * 10 + d;
            if big > EXP_SAT {
                over = true;
            } else {
                acc = big;
            }
        } else {
            proof {
                let prev = digits_val(t.take(i - lo));
                assert(digits_val(t.take(i - lo + 1)) == prev * 10 + digit_val(t[i - lo]));
                assert(prev * 10 >= prev);
                assert(digit_val(t[i - lo]) >= 0);
            }
        }
        i = i + 1;
    }
    proof {
        assert(t.take(v@.len() - lo) =~= t);
    }
    (acc, over)
}

/// Computes `cap_u64(round_at(all, cut))` for a digit string and any cut.
#[verifier::loop_isolation(false)]
fn round_digits_at(all: &Vec<char>, cut: i128) -> (r: u64)
    requires
        all_digits(all@),
    ensures
        r as int == cap_u64(round_at(all@, cut as int)),
{
    let len = all.len();
    if cut <= 0 {
        if cut == 0 && len > 0 {
            let c = all[0];
            proof {
                assert(is_digit(all@[0]));
            }
            if c >= '5' {
                1
            } else {
                0
            }
        } else {
            0
        }
    } else if cut >= len as i128 {
        let z = first_nonzero_exec(all);
        if z == len {
            proof {
                lemma_digits_zeros(all@);
                lemma_pow10_pos((cut - len) as nat);
            }
            return 0;
        }
        let m128: i128 = cut - len as i128;
        let sig_len = len - z;
        if m128 >= 20 || sig_len as i128 + m128 >= 21 {
            proof {
                lemma_shifted_value_exceeds_u64(all@, z as int, (cut - len) as nat);
            }
            return u64::MAX;
        }
        let m: usize = m128 as usize;
        let ghost sig = all@.subrange(z as int, len as int);
        proof {
            lemma_digits_val_zero_prefix(all@, z as int);
            assert(all_digits(sig));
            lemma_pow10_20();
        }
        let mut acc: u128 = 0;
        let mut i = z;
        while i < len
            invariant
                z <= i <= len,
                acc as int == digits_val(all@.subrange(z as int, i as int)),
                (acc as int) < pow10((i - z) as nat),
            decreases len - i,
        {
            let c = all[i];
            proof {
                assert(is_digit(all@[i as int]));
                let sub1 = all@.subrange(z as int, i + 1);
                assert(sub1.drop_last() =~= all@.subrange(z as int, i as int));
                assert(sub1.last() == all@[i as int]);
                lemma_pow10_mono(((i - z) + 1) as nat, 20);
                lemma_pow10_mono((i - z) as nat, 20);
                lemma_pow10_pos((i - z) as nat);
                assert(acc as int * 10 + 9 < pow10((i - z) as nat) * 10) by (nonlinear_arith)
                    requires
                        (acc as int) < pow10((i - z) as nat),
                ;
            }
            let d: u128 = (c as u32 - 48) as u128;
            acc = acc * 10 + d;
            i = i + 1;
        }
        proof {
            assert(all@.subrange(z as int, len as int) =~= sig);
            lemma_pow10_mono((sig_len) as nat, 20);
        }
        let mut j: usize = 0;
        while j < m
            invariant
                j <= m,
                acc as int == digits_val(sig) * pow10(j as nat),
                (acc as int) < pow10((sig_len + j) as nat),
            decreases m - j,
        {
            proof {
                lemma_pow10_mono((sig_len + j + 1) as nat, 20);
                lemma_pow10_mono((sig_len + j) as nat, 20);
                assert((digits_val(sig) * pow10(j as nat)) * 10 == digits_val(sig) * pow10(
                    (j + 1) as nat,
                )) by (nonlinear_arith)
                    requires
                        pow10((j + 1) as nat) == 10 * pow10(j as nat),
                ;
            }
            acc = acc * 10;
            j = j + 1;
        }
        proof {
            assert(round_at(all@, cut as int) == digits_val(all@) * pow10((cut - len) as nat));
            assert(digits_val(all@) * pow10((cut - len) as nat) == digits_val(sig) * pow10(
                m as nat,
            ));
        }
        if acc > u64::MAX as u128 {
            u64::MAX
        } else {
            acc as u64
        }
    } else {
        let cutu: usize = cut as usize;
        let mut acc: u128 = 0;
        let mut over = false;
        let mut i: usize = 0;
        while i < cutu
            invariant
                i <= cutu,
                !over ==> acc as int == digits_val(all@.take(i as int)) && acc <= u64::MAX
                    as u128,
                over ==> digits_val(all@.take(i as int)) > u64::MAX as int,
            decreases cutu - i,
        {
            let c = all[i];
            proof {
                assert(is_digit(all@[i as int]));
                assert(all@.take(i + 1).drop_last() =~= all@.take(i as int));
                assert(all@.take(i + 1).last() == all@[i as int]);
            }
            let d: u128 = (c as u32 - 48) as u128;
            if !over {
                let big: u128 = acc * 10 + d;
                if big > u64::MAX as u128 {
                    over = true;
                } else {
                    acc = big;
                }
            } else {
                proof {
                    let prev = digits_val(all@.take(i as int));
                    assert(digits_val(all@.take(i + 1)) == prev * 10 + digit_val(
                        all@[i as int],
                    ));
                    assert(prev * 10 >= prev);
                    assert(digit_val(all@[i as int]) >= 0);
                }
            }
            i = i + 1;
        }
        let round_up: bool = {
            let c = all[cutu];
            proof {
                assert(is_digit(all@[cutu as int]));
            }
            c >= '5'
        };
        if over {
            u64::MAX
        } else {
            let w: u128 = if round_up {
                acc + 1
            } else {
                acc
            };
            if w > u64::MAX as u128 {
                u64::MAX
            } else {
                w as u64
            }
        }
    }
}

/// Parses a clock string `"<number> <unit>"` (the number a floating-point
/// numeral with optional sign and exponent, the unit one of Hz, kHz, MHz,
/// GHz, case-insensitive) into a frequency in Hz, rounded half away from
/// zero to an integer and clamped into the `u64` range; a negative numeral
/// clamps to zero. Extra trailing tokens are ignored. Fails with
/// `MalformedNumber` when the numeric token is missing or not a numeral, and
/// with `InvalidUnit` (carrying the token) when the unit token is missing or
/// not recognized.
#[verifier::loop_isolation(false)]
#[verifier::rlimit(30)]
pub fn clock_unit_to_hz(clock: &str) -> (r: Result<u64, Error>)
    ensures
        match r {
            Ok(v) => clock_result(clock@) == Ok::<int, ErrModel>(v as int),
            Err(e) => clock_result(clock@) == Err::<int, ErrModel>(e@),
        },
{
    let v = chars_of(clock);
    let toks = tokenize(&v);
    if toks.len() == 0 {
        return Err(Error::MalformedNumber);
    }
    let num = &toks[0];
    proof {
        assert(num@ == seq_views(toks@)[0]);
    }
    let ghost t = num@;
    let n = num.len();
    let neg: bool = n > 0 && num[0] == '-';
    let signed: bool = n > 0 && (num[0] == '+' || num[0] == '-');
    let s0: usize = if signed {
        1
    } else {
        0
    };
    let u = copy_range(num, s0, n);
    proof {
        if signed {
            assert(u@ =~= t.subrange(1, t.len() as int));
        } else {
            assert(u@ =~= t);
        }
    }
    let un = u.len();
    let ep = find_exp_exec(&u);
    let m = copy_range(&u, 0, ep);
    proof {
        assert(m@ =~= u@.take(ep as int));
    }
    let mlen = m.len();
    let d = find_dot_exec(&m);
    if d == mlen {
        if mlen == 0 || !digits_only(&m, 0, mlen) {
            proof {
                assert(m@.subrange(0, mlen as int) =~= m@);
            }
            return Err(Error::MalformedNumber);
        }
        proof {
            assert(m@.subrange(0, mlen as int) =~= m@);
            assert(m@.take(mlen as int) =~= m@);
        }
    } else {
        let int_ok = digits_only(&m, 0, d);
        let frac_ok = digits_only(&m, d + 1, mlen);
        if !(mlen >= 2 && int_ok && frac_ok) {
            proof {
                assert(m@.subrange(0, d as int) =~= m@.take(d as int));
            }
            return Err(Error::MalformedNumber);
        }
        proof {
            assert(m@.subrange(0, d as int) =~= m@.take(d as int));
        }
    }
    let ghost ip = if d == mlen {
        m@
    } else {
        m@.take(d as int)
    };
    let ghost fp = if d == mlen {
        Seq::<char>::empty()
    } else {
        m@.subrange(d + 1, m@.len() as int)
    };
    proof {
        assert(mantissa_split(m@) == Some((ip, fp)));
        assert(ip.len() == d);
    }
    let mut eneg: bool = false;
    let mut ev: u128 = 0;
    let mut esat: bool = false;
    let ghost xpart = u@.subrange(ep + 1, u@.len() as int);
    if ep < un {
        let x0 = ep + 1;
        let xs: usize = if x0 < un && (u[x0] == '+' || u[x0] == '-') {
            if u[x0] == '-' {
                eneg = true;
            }
            x0 + 1
        } else {
            x0
        };
        proof {
            assert(u@.subrange(xs as int, un as int) =~= (if xs == x0 {
                xpart
            } else {
                xpart.subrange(1, xpart.len() as int)
            }));
        }
        if xs == un || !digits_only(&u, xs, un) {
            proof {
                assert(exp_value(xpart) is None);
            }
            return Err(Error::MalformedNumber);
        }
        let (a, sflag) = exp_digits_value(&u, xs);
        ev = a;
        esat = sflag;
    }
    let ghost xsign = xpart.len() > 0 && (xpart[0] == '+' || xpart[0] == '-');
    let ghost xd = if xsign {
        xpart.subrange(1, xpart.len() as int)
    } else {
        xpart
    };
    let ghost e: int = if ep == un {
        0
    } else if xpart.len() > 0 && xpart[0] == '-' {
        -digits_val(xd)
    } else {
        digits_val(xd)
    };
    proof {
        if ep < un {
            assert(exp_value(xpart) == Some(e));
        }
        assert(numeral_split(t) == Some((neg, ip, fp, e)));
    }
    if toks.len() < 2 {
        return Err(Error::InvalidUnit(String::new()));
    }
    let unit = &toks[1];
    proof {
        assert(unit@ == seq_views(toks@)[1]);
    }
    let k: usize = match unit_exp_exec(unit) {
        None => {
            return Err(Error::InvalidUnit(chars_to_string(unit)));
        },
        Some(kk) => kk,
    };
    if neg {
        return Ok(0);
    }
    let mut digits = copy_range(&m, 0, d);
    if d < mlen {
        let mut tail = copy_range(&m, d + 1, mlen);
        digits.append(&mut tail);
    }
    proof {
        assert(digits@ =~= ip + fp);
        assert(all_digits(digits@));
    }
    let ghost cutg = ip.len() + k + e;
    if esat {
        if eneg {
            proof {
                assert(e < -(EXP_SAT as int));
                assert(d <= usize::MAX);
                assert(cutg < 0);
            }
            Ok(0)
        } else {
            let z = first_nonzero_exec(&digits);
            proof {
                assert(e > EXP_SAT as int);
                assert(digits@.len() <= usize::MAX);
                assert(cutg > digits@.len() + 21);
            }
            if z == digits.len() {
                proof {
                    lemma_digits_zeros(digits@);
                    lemma_pow10_pos((cutg - digits@.len()) as nat);
                    assert(round_at(digits@, cutg) == 0 * pow10((cutg - digits@.len()) as nat));
                }
                Ok(0)
            } else {
                proof {
                    lemma_shifted_value_exceeds_u64(
                        digits@,
                        z as int,
                        (cutg - digits@.len()) as nat,
                    );
                }
                Ok(u64::MAX)
            }
        }
    } else {
        let e_i: i128 = if eneg {
            -(ev as i128)
        } else {
            ev as i128
        };
        proof {
            assert(e_i as int == e);
            assert(d <= usize::MAX);
        }
        let cut: i128 = d as i128 + k as i128 + e_i;
        let r = round_digits_at(&digits, cut);
        proof {
            assert(cut as int == cutg);
        }
        Ok(r)
    }
}

} // verus!
