use vstd::prelude::*;
use vstd::string::*;

verus! {

/// ASCII whitespace, as the diagnostic scanners split it.
pub open spec fn is_space(c: char) -> bool {
    c == ' ' || c == '\t' || c == '\n' || c == '\r' || c == '\x0c'
}

/// Executable mirror of `is_space`.
pub fn is_space_exec(c: char) -> (r: bool)
    ensures
        r == is_space(c),
{
    c == ' ' || c == '\t' || c == '\n' || c == '\r' || c == '\x0c'
}

/// End of the token starting at `i`: the first position at or after `i`
/// holding whitespace, or the end of the text.
pub open spec fn token_end(s: Seq<char>, i: int) -> int
    decreases s.len() - i,
{
    if i < 0 || i >= s.len() || is_space(s[i]) {
        i
    } else {
        token_end(s, i + 1)
    }
}

pub proof fn lemma_token_end_bounds(s: Seq<char>, i: int)
    requires
        0 <= i <= s.len(),
    ensures
        i <= token_end(s, i) <= s.len(),
    decreases s.len() - i,
{
    if i < s.len() && !is_space(s[i]) {
        lemma_token_end_bounds(s, i + 1);
    }
}

/// The whitespace-separated tokens of `s`, from position `i` on.
pub open spec fn tokens_from(s: Seq<char>, i: int) -> Seq<Seq<char>>
    decreases s.len() - i,
    when i >= 0
    via tokens_from_decreases
{
    if i < 0 || i >= s.len() {
        Seq::empty()
    } else if is_space(s[i]) {
        tokens_from(s, i + 1)
    } else {
        seq![s.subrange(i, token_end(s, i))] + tokens_from(s, token_end(s, i))
    }
}

#[via_fn]
proof fn tokens_from_decreases(s: Seq<char>, i: int) {
    if 0 <= i < s.len() && !is_space(s[i]) {
        lemma_token_end_bounds(s, i + 1);
    }
}

/// Every token produced by the whitespace split is non-empty.
pub proof fn lemma_tokens_nonempty(s: Seq<char>, i: int)
    requires
        0 <= i,
    ensures
        forall|k: int|
            0 <= k < tokens_from(s, i).len() ==> #[trigger] tokens_from(s, i)[k].len() > 0,
    decreases s.len() - i,
{
    if i < s.len() {
        if is_space(s[i]) {
            lemma_tokens_nonempty(s, i + 1);
            assert(tokens_from(s, i) == tokens_from(s, i + 1));
        } else {
            lemma_token_end_bounds(s, i + 1);
            let j = token_end(s, i);
            assert(j == token_end(s, i + 1));
            assert(i + 1 <= j <= s.len());
            lemma_tokens_nonempty(s, j);
            assert(tokens_from(s, i) =~= seq![s.subrange(i, j)] + tokens_from(s, j));
            assert forall|k: int| 0 <= k < tokens_from(s, i).len() implies #[trigger] tokens_from(
                s,
                i,
            )[k].len() > 0 by {
                if k == 0 {
                    assert(tokens_from(s, i)[0] == s.subrange(i, j));
                } else {
                    assert(tokens_from(s, i)[k] == tokens_from(s, j)[k - 1]);
                }
            }
        }
    }
}

/// Position of the next line break at or after `i`, or the end of the text.
pub open spec fn line_break(s: Seq<char>, i: int) -> int
    decreases s.len() - i,
{
    if i < 0 || i >= s.len() || s[i] == '\n' {
        i
    } else {
        line_break(s, i + 1)
    }
}

pub proof fn lemma_line_break_bounds(s: Seq<char>, i: int)
    requires
        0 <= i <= s.len(),
    ensures
        i <= line_break(s, i) <= s.len(),
    decreases s.len() - i,
{
    if i < s.len() && s[i] != '\n' {
        lemma_line_break_bounds(s, i + 1);
    }
}

/// A raw line with one trailing carriage return removed.
pub open spec fn strip_cr(l: Seq<char>) -> Seq<char> {
    if l.len() > 0 && l[l.len() - 1] == '\r' {
        l.drop_last()
    } else {
        l
    }
}

/// The lines of `s` from position `i` on, split at line feeds, each with a
/// trailing carriage return removed; text ending in a line feed yields no
/// final empty line.
pub open spec fn lines_from(s: Seq<char>, i: int) -> Seq<Seq<char>>
    decreases s.len() - i,
    when i >= 0
    via lines_from_decreases
{
    if i < 0 || i >= s.len() {
        Seq::empty()
    } else {
        let j = line_break(s, i);
        let rest = if j < s.len() {
            lines_from(s, j + 1)
        } else {
            Seq::empty()
        };
        seq![strip_cr(s.subrange(i, j))] + rest
    }
}

#[via_fn]
proof fn lines_from_decreases(s: Seq<char>, i: int) {
    if 0 <= i < s.len() {
        lemma_line_break_bounds(s, i);
    }
}

/// Position of the first exponent marker at or after `i`, or the end.
pub open spec fn first_exp(s: Seq<char>, i: int) -> int
    decreases s.len() - i,
{
    if i < 0 || i >= s.len() || s[i] == 'e' || s[i] == 'E' {
        i
    } else {
        first_exp(s, i + 1)
    }
}

pub fn find_exp_exec(v: &Vec<char>) -> (r: usize)
    ensures
        r == first_exp(v@, 0),
        r <= v@.len(),
{
    let mut k: usize = 0;
    while k < v.len() && v[k] != 'e' && v[k] != 'E'
        invariant
            k <= v@.len(),
            first_exp(v@, 0) == first_exp(v@, k as int),
        decreases v@.len() - k,
    {
        k = k + 1;
    }
    k
}

/// Whether `s` holds the character `c`.
pub open spec fn has_char(s: Seq<char>, c: char) -> bool {
    exists|k: int| 0 <= k < s.len() && s[k] == c
}

/// The views of a vector of character vectors.
pub open spec fn seq_views(q: Seq<Vec<char>>) -> Seq<Seq<char>> {
    q.map_values(|v: Vec<char>| v@)
}

/// The characters of a string slice, as a vector.
pub fn chars_of(s: &str) -> (v: Vec<char>)
    ensures
        v@ == s@,
{
    let n = s.unicode_len();
    let mut v: Vec<char> = Vec::new();
    let mut i: usize = 0;
    while i < n
        invariant
            i <= n,
            n == s@.len(),
            v@ == s@.take(i as int),
        decreases n - i,
    {
        v.push(s.get_char(i));
        proof {
            assert(s@.take(i + 1) =~= s@.take(i as int).push(s@[i as int]));
        }
        i = i + 1;
    }
    proof {
        assert(v@ =~= s@);
    }
    v
}

/// Copies the characters of `v` between `lo` and `hi`.
pub fn copy_range(v: &Vec<char>, lo: usize, hi: usize) -> (r: Vec<char>)
    requires
        lo <= hi <= v@.len(),
    ensures
        r@ == v@.subrange(lo as int, hi as int),
{
    let mut r: Vec<char> = Vec::new();
    let mut i: usize = lo;
    while i < hi
        invariant
            lo <= i <= hi <= v@.len(),
            r@ == v@.subrange(lo as int, i as int),
        decreases hi - i,
    {
        r.push(v[i]);
        proof {
            assert(v@.subrange(lo as int, i + 1) =~= v@.subrange(lo as int, i as int).push(
                v@[i as int],
            ));
        }
        i = i + 1;
    }
    r
}

fn token_end_exec(v: &Vec<char>, i: usize) -> (r: usize)
    requires
        i <= v@.len(),
    ensures
        r == token_end(v@, i as int),
        i <= r <= v@.len(),
{
    let mut k = i;
    while k < v.len() && !is_space_exec(v[k])
        invariant
            i <= k <= v@.len(),
            token_end(v@, i as int) == token_end(v@, k as int),
        decreases v@.len() - k,
    {
        k = k + 1;
    }
    k
}

/// Splits the text into its whitespace-separated tokens.
pub fn tokenize(v: &Vec<char>) -> (r: Vec<Vec<char>>)
    ensures
        seq_views(r@) == tokens_from(v@, 0),
{
    let mut out: Vec<Vec<char>> = Vec::new();
    let mut i: usize = 0;
    while i < v.len()
        invariant
            i <= v@.len(),
            tokens_from(v@, 0) == seq_views(out@) + tokens_from(v@, i as int),
        decreases v@.len() - i,
    {
        if is_space_exec(v[i]) {
            i = i + 1;
        } else {
            let j = token_end_exec(v, i);
            proof {
                lemma_token_end_bounds(v@, i + 1);
            }
            let tok = copy_range(v, i, j);
            let ghost out0 = out@;
            out.push(tok);
            proof {
                assert(seq_views(out@) =~= seq_views(out0).push(tok@));
                assert(seq_views(out0).push(tok@) + tokens_from(v@, j as int) =~= seq_views(out0)
                    + (seq![tok@] + tokens_from(v@, j as int)));
            }
            i = j;
        }
    }
    proof {
        assert(seq_views(out@) + tokens_from(v@, i as int) =~= seq_views(out@));
    }
    out
}

fn line_break_exec(v: &Vec<char>, i: usize) -> (r: usize)
    requires
        i <= v@.len(),
    ensures
        r == line_break(v@, i as int),
        i <= r <= v@.len(),
{
    let mut k = i;
    while k < v.len() && v[k] != '\n'
        invariant
            i <= k <= v@.len(),
            line_break(v@, i as int) == line_break(v@, k as int),
        decreases v@.len() - k,
    {
        k = k + 1;
    }
    k
}

/// Splits the text into lines, as `lines_from` describes.
pub fn split_lines(v: &Vec<char>) -> (r: Vec<Vec<char>>)
    ensures
        seq_views(r@) == lines_from(v@, 0),
{
    let mut out: Vec<Vec<char>> = Vec::new();
    let mut i: usize = 0;
    while i < v.len()
        invariant
            i <= v@.len(),
            lines_from(v@, 0) == seq_views(out@) + lines_from(v@, i as int),
        decreases v@.len() - i,
    {
        let ghost i0 = i as int;
        let j = line_break_exec(v, i);
        let mut line = copy_range(v, i, j);
        if line.len() > 0 && line[line.len() - 1] == '\r' {
            line.pop();
            proof {
                assert(line@ =~= strip_cr(v@.subrange(i0, j as int)));
            }
        }
        let ghost out0 = out@;
        out.push(line);
        proof {
            assert(seq_views(out@) =~= seq_views(out0).push(line@));
        }
        if j < v.len() {
            i = j + 1;
        } else {
            i = j;
        }
        proof {
            assert(lines_from(v@, i0) =~= seq![line@] + lines_from(v@, i as int));
            assert(seq_views(out0).push(line@) + lines_from(v@, i as int) =~= seq_views(out0) + (
            seq![line@] + lines_from(v@, i as int)));
        }
    }
    proof {
        assert(seq_views(out@) + lines_from(v@, i as int) =~= seq_views(out@));
    }
    out
}

/// Relies on String::push: appends one character to the string.
#[verifier::external_body]
fn push_char(s: &mut String, c: char)
    ensures
        final(s)@ == old(s)@.push(c),
{
    s.push(c);
}

/// The characters of `v`, gathered into an owned string.
pub fn chars_to_string(v: &Vec<char>) -> (r: String)
    ensures
        r@ == v@,
{
    let mut s = String::new();
    let mut i: usize = 0;
    while i < v.len()
        invariant
            i <= v@.len(),
            s@ == v@.take(i as int),
        decreases v@.len() - i,
    {
        push_char(&mut s, v[i]);
        proof {
            assert(v@.take(i + 1) =~= v@.take(i as int).push(v@[i as int]));
        }
        i = i + 1;
    }
    proof {
        assert(v@.take(v@.len() as int) =~= v@);
    }
    s
}

/// Compares a character range of `v` with a string slice.
pub fn chars_range_eq_str(v: &Vec<char>, lo: usize, hi: usize, s: &str) -> (r: bool)
    requires
        lo <= hi <= v@.len(),
    ensures
        r == (v@.subrange(lo as int, hi as int) == s@),
{
    let n = s.unicode_len();
    if hi - lo != n {
        proof {
            assert(v@.subrange(lo as int, hi as int).len() != s@.len());
        }
        return false;
    }
    let mut i: usize = 0;
    while i < n
        invariant
            i <= n,
            n == s@.len(),
            n == hi - lo,
            lo <= hi <= v@.len(),
            forall|k: int| 0 <= k < i ==> v@[lo + k] == s@[k],
        decreases n - i,
    {
        if v[lo + i] != s.get_char(i) {
            proof {
                assert(v@.subrange(lo as int, hi as int)[i as int] != s@[i as int]);
            }
            return false;
        }
        i = i + 1;
    }
    proof {
        assert(v@.subrange(lo as int, hi as int) =~= s@);
    }
    true
}

/// Compares a whole character vector with a string slice.
pub fn chars_eq_str(v: &Vec<char>, s: &str) -> (r: bool)
    ensures
        r == (v@ == s@),
{
    let r = chars_range_eq_str(v, 0, v.len(), s);
    proof {
        assert(v@.subrange(0, v@.len() as int) =~= v@);
    }
    r
}

/// Compares two string slices character by character.
pub fn str_eq(a: &str, b: &str) -> (r: bool)
    ensures
        r == (a@ == b@),
{
    let n = a.unicode_len();
    if b.unicode_len() != n {
        return false;
    }
    let mut i: usize = 0;
    while i < n
        invariant
            i <= n,
            n == a@.len() == b@.len(),
            forall|k: int| 0 <= k < i ==> a@[k] == b@[k],
        decreases n - i,
    {
        if a.get_char(i) != b.get_char(i) {
            return false;
        }
        i = i + 1;
    }
    proof {
        assert(a@ =~= b@);
    }
    true
}

} // verus!
