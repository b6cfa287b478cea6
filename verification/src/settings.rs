use vstd::prelude::*;
use crate::errors::{Error, ErrModel, GpuAttr};
use crate::numbers::{parse_u64_range, u64_of};
use crate::text::{
    chars_eq_str, chars_of, chars_range_eq_str, has_char, lemma_tokens_nonempty, lines_from,
    seq_views, split_lines, tokenize, tokens_from,
};

verus! {

/// The three attributes extracted from the free-form diagnostic output.
#[derive(Debug)]
pub struct NvSettingsOut {
    /// The ceiling of `memTransferRatemax` across all performance modes.
    pub mem_rate_max_gib_per_sec: u64,
    /// The memory bus width in bits.
    pub bus_width: u64,
    /// The CUDA core count.
    pub cuda_cores: u64,
}

/// Spec-level model of `NvSettingsOut`.
pub ghost struct SettingsModel {
    pub mem_rate_max_gib_per_sec: int,
    pub bus_width: int,
    pub cuda_cores: int,
}

impl View for NvSettingsOut {
    type V = SettingsModel;

    open spec fn view(&self) -> SettingsModel {
        SettingsModel {
            mem_rate_max_gib_per_sec: self.mem_rate_max_gib_per_sec as int,
            bus_width: self.bus_width as int,
            cuda_cores: self.cuda_cores as int,
        }
    }
}

/// The value part of a `memTransferRatemax=<value>` token: the token must be
/// exactly the key, one equals sign, and a value with no further equals sign.
pub open spec fn perf_token_value(t: Seq<char>) -> Option<Seq<char>> {
    if t.len() >= 19 && t.take(19) == "memTransferRatemax="@ && !has_char(
        t.subrange(19, t.len() as int),
        '=',
    ) {
        Some(t.subrange(19, t.len() as int))
    } else {
        None
    }
}

/// Trailing commas removed.
pub open spec fn strip_commas(s: Seq<char>) -> Seq<char>
    decreases s.len(),
{
    if s.len() > 0 && s[s.len() - 1] == ',' {
        strip_commas(s.drop_last())
    } else {
        s
    }
}

/// One performance-mode token folded into the running maximum transfer rate.
pub open spec fn rate_update(t: Seq<char>, rate: int) -> Result<int, ErrModel> {
    match perf_token_value(t) {
        None => Ok(rate),
        Some(v) => match u64_of(strip_commas(v)) {
            None => Err(ErrModel::MalformedNumber),
            Some(x) => Ok(
                if x > rate {
                    x as int
                } else {
                    rate
                },
            ),
        },
    }
}

/// The maximum transfer rate over the tokens from position `j` on.
pub open spec fn perf_scan(toks: Seq<Seq<char>>, j: int, rate: int) -> Result<int, ErrModel>
    decreases toks.len() - j,
{
    if j < 0 || j >= toks.len() {
        Ok(rate)
    } else {
        match rate_update(toks[j], rate) {
            Err(e) => Err(e),
            Ok(r2) => perf_scan(toks, j + 1, r2),
        }
    }
}

/// One line's tokens folded into the accumulator (rate, width, cores): a
/// `CUDACores` or `GPUMemoryInterface` line overwrites its slot with its last
/// token less one trailing character; a `GPUPerfModes` line raises the rate
/// to the largest `memTransferRatemax` value it carries.
pub open spec fn line_step(toks: Seq<Seq<char>>, rate: int, width: int, cores: int) -> Result<
    (int, int, int),
    ErrModel,
> {
    if toks.len() >= 3 && toks[0] == "Attribute"@ && toks[1] == "'CUDACores'"@ {
        match u64_of(toks.last().drop_last()) {
            None => Err(ErrModel::MalformedNumber),
            Some(x) => Ok((rate, width, x as int)),
        }
    } else if toks.len() >= 3 && toks[0] == "Attribute"@ && toks[1] == "'GPUMemoryInterface'"@ {
        match u64_of(toks.last().drop_last()) {
            None => Err(ErrModel::MalformedNumber),
            Some(x) => Ok((rate, x as int, cores)),
        }
    } else if toks.len() >= 2 && toks[0] == "Attribute"@ && toks[1] == "'GPUPerfModes'"@ {
        match perf_scan(toks, 2, rate) {
            Err(e) => Err(e),
            Ok(r2) => Ok((r2, width, cores)),
        }
    } else {
        Ok((rate, width, cores))
    }
}

/// The accumulator after folding the lines from position `i` on.
pub open spec fn scan_from(ls: Seq<Seq<char>>, i: int, rate: int, width: int, cores: int) -> Result<
    (int, int, int),
    ErrModel,
>
    decreases ls.len() - i,
{
    if i < 0 || i >= ls.len() {
        Ok((rate, width, cores))
    } else {
        match line_step(tokens_from(ls[i], 0), rate, width, cores) {
            Err(e) => Err(e),
            Ok(st) => scan_from(ls, i + 1, st.0, st.1, st.2),
        }
    }
}

/// The full outcome of scanning the free-form settings output: all lines are
/// folded starting from a zero accumulator, and a slot left at zero means its
/// attribute was never observed.
pub open spec fn settings_result(s: Seq<char>) -> Result<SettingsModel, ErrModel> {
    match scan_from(lines_from(s, 0), 0, 0, 0, 0) {
        Err(e) => Err(e),
        Ok(st) => if st.0 == 0 {
            Err(ErrModel::AttributeNotFound(GpuAttr::TransferRate))
        } else if st.1 == 0 {
            Err(ErrModel::AttributeNotFound(GpuAttr::BusWidth))
        } else if st.2 == 0 {
            Err(ErrModel::AttributeNotFound(GpuAttr::CudaCores))
        } else {
            Ok(
                SettingsModel {
                    mem_rate_max_gib_per_sec: st.0,
                    bus_width: st.1,
                    cuda_cores: st.2,
                },
            )
        },
    }
}

/// The transfer-rate value one token contributes, where it is a well-formed
/// `memTransferRatemax=<value>` token.
pub open spec fn token_rate(t: Seq<char>) -> Option<int> {
    match perf_token_value(t) {
        None => None,
        Some(v) => u64_of(strip_commas(v)),
    }
}

/// The rate kept after scanning a performance-mode line is the ceiling
/// across all modes: it is at least the rate already seen and at least every
/// well-formed `memTransferRatemax` token value, and it is either the
/// incoming rate or one of those values.
pub proof fn lemma_perf_scan_max(toks: Seq<Seq<char>>, j: int, r0: int, rf: int)
    requires
        0 <= j,
        perf_scan(toks, j, r0) == Ok::<int, ErrModel>(rf),
    ensures
        rf >= r0,
        forall|m: int|
            j <= m < toks.len() ==> match #[trigger] token_rate(toks[m]) {
                Some(x) => rf >= x,
                None => true,
            },
        rf == r0 || exists|m: int| j <= m < toks.len() && token_rate(toks[m]) == Some(rf),
    decreases toks.len() - j,
{
    if 0 <= j < toks.len() {
        match rate_update(toks[j], r0) {
            Ok(r2) => {
                lemma_perf_scan_max(toks, j + 1, r2, rf);
                if rf == r2 && r2 != r0 {
                    assert(token_rate(toks[j]) == Some(rf));
                }
                assert forall|m: int|
                    j <= m < toks.len() implies match #[trigger] token_rate(toks[m]) {
                    Some(x) => rf >= x,
                    None => true,
                } by {
                    if m == j {
                        match token_rate(toks[j]) {
                            Some(x) => {
                                assert(r2 >= x);
                            },
                            None => {},
                        }
                    }
                }
            },
            Err(e) => {
                assert(false);
            },
        }
    }
}

/// Whether a line's tokens form a performance-modes attribute line.
pub open spec fn is_perf_line(toks: Seq<Seq<char>>) -> bool {
    toks.len() >= 2 && toks[0] == "Attribute"@ && toks[1] == "'GPUPerfModes'"@
}

/// Across the whole scan the rate only rises, and it ends at least as large
/// as every well-formed `memTransferRatemax` token value on every
/// performance-modes line: the ceiling across all modes of all lines.
pub proof fn lemma_scan_rate_max(
    ls: Seq<Seq<char>>,
    i: int,
    rate: int,
    width: int,
    cores: int,
    st: (int, int, int),
)
    requires
        0 <= i,
        scan_from(ls, i, rate, width, cores) == Ok::<(int, int, int), ErrModel>(st),
    ensures
        st.0 >= rate,
        forall|m: int, j: int|
            i <= m < ls.len() && is_perf_line(tokens_from(ls[m], 0)) && 2 <= j < tokens_from(
                ls[m],
                0,
            ).len() ==> match #[trigger] token_rate(tokens_from(ls[m], 0)[j]) {
                Some(x) => st.0 >= x,
                None => true,
            },
    decreases ls.len() - i,
{
    reveal_strlit("'CUDACores'");
    reveal_strlit("'GPUMemoryInterface'");
    reveal_strlit("'GPUPerfModes'");
    assert("'CUDACores'"@.len() == 11);
    assert("'GPUMemoryInterface'"@.len() == 20);
    assert("'GPUPerfModes'"@.len() == 14);
    if i < ls.len() {
        let toks = tokens_from(ls[i], 0);
        match line_step(toks, rate, width, cores) {
            Ok(st1) => {
                lemma_scan_rate_max(ls, i + 1, st1.0, st1.1, st1.2, st);
                if is_perf_line(toks) {
                    assert(toks[1] != "'CUDACores'"@);
                    assert(toks[1] != "'GPUMemoryInterface'"@);
                    assert(perf_scan(toks, 2, rate) == Ok::<int, ErrModel>(st1.0));
                    lemma_perf_scan_max(toks, 2, rate, st1.0);
                } else {
                    assert(st1.0 == rate);
                }
                assert forall|m: int, j: int|
                    i <= m < ls.len() && is_perf_line(tokens_from(ls[m], 0)) && 2 <= j
                        < tokens_from(ls[m], 0).len() implies match #[trigger] token_rate(
                    tokens_from(ls[m], 0)[j],
                ) {
                    Some(x) => st.0 >= x,
                    None => true,
                } by {
                    if m == i {
                        match token_rate(toks[j]) {
                            Some(x) => {
                                assert(st1.0 >= x);
                            },
                            None => {},
                        }
                    }
                }
            },
            Err(e) => {
                assert(false);
            },
        }
    }
}

/// Whether the character range `lo..hi` of `v` holds `c`.
#[verifier::loop_isolation(false)]
fn contains_char(v: &Vec<char>, lo: usize, hi: usize, c: char) -> (r: bool)
    requires
        lo <= hi <= v@.len(),
    ensures
        r == has_char(v@.subrange(lo as int, hi as int), c),
{
    let ghost s = v@.subrange(lo as int, hi as int);
    let mut i = lo;
    while i < hi
        invariant
            lo <= i <= hi,
            forall|m: int| 0 <= m < i - lo ==> s[m] != c,
        decreases hi - i,
    {
        if v[i] == c {
            proof {
                assert(s[i - lo] == c);
            }
            return true;
        }
        i = i + 1;
    }
    false
}

/// The end of the range `lo..hi` of `v` after trailing commas are removed.
#[verifier::loop_isolation(false)]
fn strip_commas_end(v: &Vec<char>, lo: usize, hi: usize) -> (r: usize)
    requires
        lo <= hi <= v@.len(),
    ensures
        lo <= r <= hi,
        strip_commas(v@.subrange(lo as int, hi as int)) == v@.subrange(lo as int, r as int),
{
    let mut h = hi;
    while h > lo && v[h - 1] == ','
        invariant
            lo <= h <= hi,
            strip_commas(v@.subrange(lo as int, hi as int)) == strip_commas(
                v@.subrange(lo as int, h as int),
            ),
        decreases h,
    {
        proof {
            assert(v@.subrange(lo as int, h as int).drop_last() =~= v@.subrange(
                lo as int,
                h - 1,
            ));
        }
        h = h - 1;
    }
    h
}

/// Scans the free-form diagnostic output for the CUDA core count, the memory
/// bus width, and the maximum memory transfer rate across all performance
/// modes, exactly as `settings_result` describes. A zero value counts as not
/// observed.
#[verifier::loop_isolation(false)]
pub fn nvidia_settings_from(text: &str) -> (r: Result<NvSettingsOut, Error>)
    ensures
        match r {
            Ok(o) => settings_result(text@) == Ok::<SettingsModel, ErrModel>(o@),
            Err(e) => settings_result(text@) == Err::<SettingsModel, ErrModel>(e@),
        },
{
    let v = chars_of(text);
    let lines = split_lines(&v);
    let ghost ls = lines_from(text@, 0);
    let mut rate: u64 = 0;
    let mut width: u64 = 0;
    let mut cores: u64 = 0;
    let mut li: usize = 0;
    while li < lines.len()
        invariant
            li <= lines@.len(),
            scan_from(ls, 0, 0, 0, 0) == scan_from(
                ls,
                li as int,
                rate as int,
                width as int,
                cores as int,
            ),
        decreases lines@.len() - li,
    {
        let ghost r0 = rate as int;
        let ghost w0 = width as int;
        let ghost c0 = cores as int;
        let toks = tokenize(&lines[li]);
        let ghost tks = tokens_from(ls[li as int], 0);
        proof {
            assert(lines@[li as int]@ == ls[li as int]);
            assert(seq_views(toks@) == tks);
            lemma_tokens_nonempty(ls[li as int], 0);
        }
        let nt = toks.len();
        let is_attr = nt >= 2 && chars_eq_str(&toks[0], "Attribute");
        if is_attr && nt >= 3 && chars_eq_str(&toks[1], "'CUDACores'") {
            let valt = &toks[nt - 1];
            proof {
                assert(valt@ == tks.last());
                assert(valt@.subrange(0, valt@.len() - 1) =~= tks.last().drop_last());
            }
            match parse_u64_range(valt, 0, valt.len() - 1) {
                Some(x) => {
                    cores = x;
                },
                None => {
                    proof {
                        assert(line_step(tks, r0, w0, c0) == Err::<(int, int, int), ErrModel>(
                            ErrModel::MalformedNumber,
                        ));
                    }
                    return Err(Error::MalformedNumber);
                },
            }
        } else if is_attr && nt >= 3 && chars_eq_str(&toks[1], "'GPUMemoryInterface'") {
            let valt = &toks[nt - 1];
            proof {
                assert(valt@ == tks.last());
                assert(valt@.subrange(0, valt@.len() - 1) =~= tks.last().drop_last());
            }
            match parse_u64_range(valt, 0, valt.len() - 1) {
                Some(x) => {
                    width = x;
                },
                None => {
                    proof {
                        assert(line_step(tks, r0, w0, c0) == Err::<(int, int, int), ErrModel>(
                            ErrModel::MalformedNumber,
                        ));
                    }
                    return Err(Error::MalformedNumber);
                },
            }
        } else if is_attr && chars_eq_str(&toks[1], "'GPUPerfModes'") {
            let mut j: usize = 2;
            while j < nt
                invariant
                    2 <= j <= nt,
                    width as int == w0,
                    cores as int == c0,
                    perf_scan(tks, 2, r0) == perf_scan(tks, j as int, rate as int),
                decreases nt - j,
            {
                let ghost rj = rate as int;
                let t = &toks[j];
                proof {
                    assert(t@ == tks[j as int]);
                }
                if t.len() >= 19 && chars_range_eq_str(t, 0, 19, "memTransferRatemax=") {
                    proof {
                        assert(t@.subrange(0, 19) =~= t@.take(19));
                    }
                    if contains_char(t, 19, t.len(), '=') {
                        proof {
                            assert(rate_update(tks[j as int], rj) == Ok::<int, ErrModel>(rj));
                        }
                    } else {
                        let hi = strip_commas_end(t, 19, t.len());
                        match parse_u64_range(t, 19, hi) {
                            Some(x) => {
                                if x > rate {
                                    rate = x;
                                }
                            },
                            None => {
                                proof {
                                    assert(rate_update(tks[j as int], rj) == Err::<
                                        int,
                                        ErrModel,
                                    >(ErrModel::MalformedNumber));
                                    assert(perf_scan(tks, 2, r0) == Err::<int, ErrModel>(
                                        ErrModel::MalformedNumber,
                                    ));
                                    assert(line_step(tks, r0, w0, c0) == Err::<
                                        (int, int, int),
                                        ErrModel,
                                    >(ErrModel::MalformedNumber));
                                }
                                return Err(Error::MalformedNumber);
                            },
                        }
                    }
                } else {
                    proof {
                        if t@.len() >= 19 {
                            assert(t@.subrange(0, 19) =~= t@.take(19));
                        }
                        assert(perf_token_value(tks[j as int]) is None);
                    }
                }
                proof {
                    assert(rate_update(tks[j as int], rj) == Ok::<int, ErrModel>(rate as int));
                }
                j = j + 1;
            }
            proof {
                assert(perf_scan(tks, 2, r0) == Ok::<int, ErrModel>(rate as int));
                assert(line_step(tks, r0, w0, c0) == Ok::<(int, int, int), ErrModel>(
                    (rate as int, w0, c0),
                ));
            }
        } else {
            proof {
                assert(line_step(tks, r0, w0, c0) == Ok::<(int, int, int), ErrModel>(
                    (r0, w0, c0),
                ));
            }
        }
        proof {
            assert(line_step(tks, r0, w0, c0) == Ok::<(int, int, int), ErrModel>(
                (rate as int, width as int, cores as int),
            ));
        }
        li = li + 1;
    }
    if rate == 0 {
        return Err(Error::AttributeNotFound(GpuAttr::TransferRate));
    }
    if width == 0 {
        return Err(Error::AttributeNotFound(GpuAttr::BusWidth));
    }
    if cores == 0 {
        return Err(Error::AttributeNotFound(GpuAttr::CudaCores));
    }
    Ok(
        NvSettingsOut {
            mem_rate_max_gib_per_sec: rate,
            bus_width: width,
            cuda_cores: cores,
        },
    )
}

} // verus!
