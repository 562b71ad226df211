//! Character-level text utilities shared by the line grammars: whitespace
//! runs, literal matching, scanning, decimal digit runs, line splitting and
//! relative path resolution.

use vstd::prelude::*;

verus! {

/// ASCII whitespace, the class the line grammars accept between tokens.
pub open spec fn is_space_char(c: char) -> bool {
    c == ' ' || c == '\t' || c == '\r' || c == '\u{b}' || c == '\u{c}' || c == '\n'
}

pub fn is_space(c: char) -> (r: bool)
    ensures
        r == is_space_char(c),
{
    c == ' ' || c == '\t' || c == '\r' || c == '\u{b}' || c == '\u{c}' || c == '\n'
}

/// ASCII decimal digit.
pub open spec fn is_digit_char(c: char) -> bool {
    '0' <= c && c <= '9'
}

pub fn is_digit(c: char) -> (r: bool)
    ensures
        r == is_digit_char(c),
{
    '0' <= c && c <= '9'
}

/// The pattern `pat` occurs in `s` starting at index `i`.
pub open spec fn matches_at(s: Seq<char>, i: int, pat: Seq<char>) -> bool {
    &&& 0 <= i
    &&& i + pat.len() <= s.len()
    &&& s.subrange(i, i + pat.len()) == pat
}

/// Whether `pat` occurs in `s` at index `i`, by character comparison.
pub fn check_at(s: &str, i: usize, pat: &str) -> (r: bool)
    requires
        i <= s@.len(),
    ensures
        r == matches_at(s@, i as int, pat@),
{
    let n = s.unicode_len();
    let m = pat.unicode_len();
    if m > n - i {
        assert(!matches_at(s@, i as int, pat@));
        return false;
    }
    let mut k: usize = 0;
    while k < m
        invariant
            i + m <= n,
            n == s@.len(),
            m == pat@.len(),
            k <= m,
            forall|j: int| 0 <= j < k ==> s@[i + j] == pat@[j],
        decreases m - k,
    {
        if s.get_char(i + k) != pat.get_char(k) {
            assert(s@.subrange(i as int, i + m) != pat@) by {
                assert(s@.subrange(i as int, i + m)[k as int] != pat@[k as int]);
            }
            return false;
        }
        k += 1;
    }
    assert(s@.subrange(i as int, i + m) =~= pat@);
    true
}

/// First index at or after `i` where the whitespace run starting at `i` ends.
pub open spec fn ws_end(s: Seq<char>, i: int) -> int
    decreases s.len() - i,
{
    if 0 <= i < s.len() && is_space_char(s[i]) {
        ws_end(s, i + 1)
    } else {
        i
    }
}

pub fn ws_end_at(s: &str, i: usize) -> (r: usize)
    requires
        i <= s@.len(),
    ensures
        r == ws_end(s@, i as int),
        i <= r <= s@.len(),
{
    let n = s.unicode_len();
    let mut k: usize = i;
    while k < n && is_space(s.get_char(k))
        invariant
            i <= k <= n,
            n == s@.len(),
            ws_end(s@, i as int) == ws_end(s@, k as int),
        decreases n - k,
    {
        k += 1;
    }
    k
}

/// Greatest index below `end` holding `ch`, or `-1` when there is none.
pub open spec fn last_pos(s: Seq<char>, ch: char, end: int) -> int
    decreases end,
{
    if end <= 0 {
        -1
    } else if s[end - 1] == ch {
        end - 1
    } else {
        last_pos(s, ch, end - 1)
    }
}

pub proof fn lemma_last_pos_bounds(s: Seq<char>, ch: char, end: int)
    requires
        0 <= end <= s.len(),
    ensures
        -1 <= last_pos(s, ch, end) < end,
        last_pos(s, ch, end) >= 0 ==> s[last_pos(s, ch, end)] == ch,
    decreases end,
{
    if end > 0 && s[end - 1] != ch {
        lemma_last_pos_bounds(s, ch, end - 1);
    }
}

pub fn last_pos_in(s: &str, ch: char, end: usize) -> (r: Option<usize>)
    requires
        end <= s@.len(),
    ensures
        match r {
            Some(k) => k == last_pos(s@, ch, end as int) && k < end,
            None => last_pos(s@, ch, end as int) == -1,
        },
{
    let mut k: usize = end;
    while k > 0
        invariant
            k <= end <= s@.len(),
            last_pos(s@, ch, end as int) == last_pos(s@, ch, k as int),
        decreases k,
    {
        if s.get_char(k - 1) == ch {
            return Some(k - 1);
        }
        k -= 1;
    }
    None
}

/// `e` moved left past any whitespace, but never below `lo`.
pub open spec fn rtrim(s: Seq<char>, lo: int, e: int) -> int
    decreases e,
{
    if e > lo && 0 < e <= s.len() && is_space_char(s[e - 1]) {
        rtrim(s, lo, e - 1)
    } else {
        e
    }
}

pub fn rtrim_at(s: &str, lo: usize, e: usize) -> (r: usize)
    requires
        lo <= e <= s@.len(),
    ensures
        r == rtrim(s@, lo as int, e as int),
        lo <= r <= e,
{
    let mut k: usize = e;
    while k > lo && is_space(s.get_char(k - 1))
        invariant
            lo <= k <= e <= s@.len(),
            rtrim(s@, lo as int, e as int) == rtrim(s@, lo as int, k as int),
        decreases k,
    {
        k -= 1;
    }
    k
}

/// Greatest index in `[lo, e)` holding whitespace, or `lo - 1` when none does.
pub open spec fn last_space(s: Seq<char>, lo: int, e: int) -> int
    decreases e - lo,
{
    if e <= lo || e < 0 {
        lo - 1
    } else if 0 < e <= s.len() && is_space_char(s[e - 1]) {
        e - 1
    } else {
        last_space(s, lo, e - 1)
    }
}

pub fn last_space_in(s: &str, lo: usize, e: usize) -> (r: Option<usize>)
    requires
        lo <= e <= s@.len(),
    ensures
        match r {
            Some(k) => k == last_space(s@, lo as int, e as int) && lo <= k < e,
            None => last_space(s@, lo as int, e as int) == lo - 1,
        },
{
    let mut k: usize = e;
    while k > lo
        invariant
            lo <= k <= e <= s@.len(),
            last_space(s@, lo as int, e as int) == last_space(s@, lo as int, k as int),
        decreases k,
    {
        if is_space(s.get_char(k - 1)) {
            return Some(k - 1);
        }
        k -= 1;
    }
    None
}

/// First index at or after `i` where a decimal digit run ends.
pub open spec fn digits_end(s: Seq<char>, i: int) -> int
    decreases s.len() - i,
{
    if 0 <= i < s.len() && is_digit_char(s[i]) {
        digits_end(s, i + 1)
    } else {
        i
    }
}

pub proof fn lemma_digits_end_bounds(s: Seq<char>, i: int)
    requires
        0 <= i <= s.len(),
    ensures
        i <= digits_end(s, i) <= s.len(),
    decreases s.len() - i,
{
    if i < s.len() && is_digit_char(s[i]) {
        lemma_digits_end_bounds(s, i + 1);
    }
}

pub fn digits_end_at(s: &str, i: usize) -> (r: usize)
    requires
        i <= s@.len(),
    ensures
        r == digits_end(s@, i as int),
        i <= r <= s@.len(),
{
    let n = s.unicode_len();
    let mut k: usize = i;
    while k < n && is_digit(s.get_char(k))
        invariant
            i <= k <= n,
            n == s@.len(),
            digits_end(s@, i as int) == digits_end(s@, k as int),
        decreases n - k,
    {
        k += 1;
    }
    k
}

/// Everything between `i` and the end of the digit run is a digit.
pub proof fn lemma_digits_run(s: Seq<char>, i: int, e: int)
    requires
        0 <= i <= s.len(),
        e == digits_end(s, i),
    ensures
        forall|t: int| i <= t < e ==> is_digit_char(s[t]),
    decreases s.len() - i,
{
    if i < s.len() && is_digit_char(s[i]) {
        lemma_digits_run(s, i + 1, e);
    }
}

/// Numeric value of the decimal digits `s[i..j]`, most significant first.
pub open spec fn digits_value(s: Seq<char>, i: int, j: int) -> nat
    decreases j - i,
{
    if i >= j {
        0
    } else {
        (digits_value(s, i, j - 1) * 10 + (s[j - 1] as int - '0' as int)) as nat
    }
}

/// Reads the decimal value of `s[i..j]`; `None` when it exceeds `usize`.
pub fn read_digits(s: &str, i: usize, j: usize) -> (r: Option<usize>)
    requires
        i <= j <= s@.len(),
        forall|k: int| i <= k < j ==> is_digit_char(s@[k]),
    ensures
        match r {
            Some(v) => v == digits_value(s@, i as int, j as int),
            None => digits_value(s@, i as int, j as int) > usize::MAX,
        },
{
    let mut k: usize = i;
    let mut acc: usize = 0;
    while k < j
        invariant
            i <= k <= j <= s@.len(),
            forall|t: int| i <= t < j ==> is_digit_char(s@[t]),
            acc == digits_value(s@, i as int, k as int),
        decreases j - k,
    {
        let c = s.get_char(k);
        assert(is_digit_char(c));
        let d = (c as u32 - '0' as u32) as usize;
        assert(d <= 9);
        if acc > (usize::MAX - d) / 10 {
            assert(acc * 10 + d > usize::MAX) by (nonlinear_arith)
                requires
                    acc > (usize::MAX - d) / 10,
                    d <= 9,
            ;
            proof {
                lemma_digits_value_grows(s@, i as int, k + 1, j as int);
            }
            return None;
        }
        assert(acc * 10 + d <= usize::MAX) by (nonlinear_arith)
            requires
                acc <= (usize::MAX - d) / 10,
                d <= 9,
        ;
        acc = acc * 10 + d;
        k += 1;
    }
    Some(acc)
}

/// First index at or after `i` satisfying `p`, or the length when none does.
pub open spec fn scan_from(s: Seq<char>, i: int, p: spec_fn(Seq<char>, int) -> bool) -> int
    decreases s.len() - i,
{
    if i < 0 || i >= s.len() {
        s.len() as int
    } else if p(s, i) {
        i
    } else {
        scan_from(s, i + 1, p)
    }
}

pub proof fn lemma_scan_hit(s: Seq<char>, lo: int, i: int, p: spec_fn(Seq<char>, int) -> bool)
    requires
        0 <= lo <= i < s.len(),
        p(s, i),
        forall|j: int| lo <= j < i ==> !#[trigger] p(s, j),
    ensures
        scan_from(s, lo, p) == i,
    decreases i - lo,
{
    if lo < i {
        lemma_scan_hit(s, lo + 1, i, p);
    }
}

pub proof fn lemma_scan_miss(s: Seq<char>, lo: int, p: spec_fn(Seq<char>, int) -> bool)
    requires
        0 <= lo,
        forall|j: int| lo <= j < s.len() ==> !#[trigger] p(s, j),
    ensures
        scan_from(s, lo, p) == s.len(),
    decreases s.len() - lo,
{
    if lo < s.len() {
        lemma_scan_miss(s, lo + 1, p);
    }
}

pub proof fn lemma_scan_props(s: Seq<char>, lo: int, p: spec_fn(Seq<char>, int) -> bool)
    requires
        0 <= lo <= s.len(),
    ensures
        lo <= scan_from(s, lo, p) <= s.len(),
        scan_from(s, lo, p) < s.len() ==> p(s, scan_from(s, lo, p)),
        forall|j: int| lo <= j < scan_from(s, lo, p) ==> !#[trigger] p(s, j),
    decreases s.len() - lo,
{
    if lo < s.len() && !p(s, lo) {
        lemma_scan_props(s, lo + 1, p);
    }
}

/// The predicate that finds line breaks.
pub open spec fn nl_pred() -> spec_fn(Seq<char>, int) -> bool {
    |t: Seq<char>, j: int| t[j] == '\n'
}

/// A line with a trailing carriage return loses it.
pub open spec fn strip_cr(l: Seq<char>) -> Seq<char> {
    if l.len() > 0 && l.last() == '\r' {
        l.drop_last()
    } else {
        l
    }
}

/// The lines of `s[i..]`: segments between `'\n'` characters, each stripped of
/// one trailing `'\r'`; a final segment without a line break is kept as it
/// stands, and a trailing line break yields no empty final line.
pub open spec fn split_lines_from(s: Seq<char>, i: int) -> Seq<Seq<char>>
    decreases s.len() - i,
    via split_lines_from_decreases
{
    if i < 0 || i >= s.len() {
        Seq::empty()
    } else {
        let k = scan_from(s, i, nl_pred());
        if k >= s.len() {
            seq![s.subrange(i, s.len() as int)]
        } else {
            seq![strip_cr(s.subrange(i, k))] + split_lines_from(s, k + 1)
        }
    }
}

#[via_fn]
proof fn split_lines_from_decreases(s: Seq<char>, i: int) {
    if 0 <= i < s.len() {
        lemma_scan_props(s, i, nl_pred());
    }
}

/// The lines of a whole text.
pub open spec fn lines_of(s: Seq<char>) -> Seq<Seq<char>> {
    split_lines_from(s, 0)
}

/// Splits a text into its lines, as `lines_of` describes.
pub fn split_lines(s: &str) -> (r: Vec<String>)
    ensures
        r@.map_values(|l: String| l@) == lines_of(s@),
{
    let n = s.unicode_len();
    let mut out: Vec<String> = Vec::new();
    let mut i: usize = 0;
    while i < n
        invariant
            i <= n,
            n == s@.len(),
            lines_of(s@) == out@.map_values(|l: String| l@) + split_lines_from(s@, i as int),
        decreases n - i,
    {
        // find the next line break
        let mut k: usize = i;
        while k < n && s.get_char(k) != '\n'
            invariant
                i <= k <= n,
                n == s@.len(),
                forall|j: int| i <= j < k ==> !#[trigger] nl_pred()(s@, j),
            decreases n - k,
        {
            assert(!nl_pred()(s@, k as int));
            k += 1;
        }
        let ghost prev = out@.map_values(|l: String| l@);
        if k == n {
            proof {
                lemma_scan_miss(s@, i as int, nl_pred());
            }
            let line = s.substring_char(i, n);
            out.push(String::from_str(line));
            proof {
                assert(out@.map_values(|l: String| l@) =~= prev + seq![s@.subrange(i as int, n as int)]);
            }
            i = n;
        } else {
            proof {
                assert(nl_pred()(s@, k as int));
                lemma_scan_hit(s@, i as int, k as int, nl_pred());
            }
            let end = if k > i && s.get_char(k - 1) == '\r' {
                k - 1
            } else {
                k
            };
            let line = s.substring_char(i, end);
            out.push(String::from_str(line));
            proof {
                assert(line@ =~= strip_cr(s@.subrange(i as int, k as int)));
                assert(out@.map_values(|l: String| l@) =~= prev + seq![
                    strip_cr(s@.subrange(i as int, k as int)),
                ]);
            }
            i = k + 1;
        }
    }
    proof {
        assert(out@.map_values(|l: String| l@) =~= lines_of(s@));
    }
    out
}

/// The directory part of a path: everything through the last `'/'`, or empty.
pub open spec fn dir_of(p: Seq<char>) -> Seq<char> {
    let k = last_pos(p, '/', p.len() as int);
    if k < 0 {
        Seq::empty()
    } else {
        p.subrange(0, k + 1)
    }
}

/// Where a path written next to `base` points: `base`'s directory, then `rel`.
pub open spec fn spec_resolve(base: Seq<char>, rel: Seq<char>) -> Seq<char> {
    dir_of(base) + rel
}

pub fn resolve(base: &str, rel: &str) -> (r: String)
    ensures
        r@ == spec_resolve(base@, rel@),
{
    let n = base.unicode_len();
    match last_pos_in(base, '/', n) {
        Some(k) => {
            let d = base.substring_char(0, k + 1);
            let mut out = String::from_str(d);
            out.append(rel);
            proof {
                assert(out@ =~= spec_resolve(base@, rel@));
            }
            out
        },
        None => {
            let mut out = String::new();
            out.append(rel);
            proof {
                assert(out@ =~= spec_resolve(base@, rel@));
            }
            out
        },
    }
}

/// Character-for-character string equality.
pub fn str_eq(a: &str, b: &str) -> (r: bool)
    ensures
        r == (a@ == b@),
{
    let n = a.unicode_len();
    let m = b.unicode_len();
    if n != m {
        return false;
    }
    let r = check_at(a, 0, b);
    proof {
        if r {
            assert(a@.subrange(0, n as int) =~= a@);
        } else {
            assert(a@.subrange(0, n as int) =~= a@);
        }
    }
    r
}

/// `s` repeated `n` times.
pub open spec fn repeated(s: Seq<char>, n: nat) -> Seq<char>
    decreases n,
{
    if n == 0 {
        Seq::empty()
    } else {
        repeated(s, (n - 1) as nat) + s
    }
}

pub fn repeat_str(s: &str, n: usize) -> (r: String)
    ensures
        r@ == repeated(s@, n as nat),
{
    let mut out = String::new();
    let mut i: usize = 0;
    while i < n
        invariant
            i <= n,
            out@ == repeated(s@, i as nat),
        decreases n - i,
    {
        out.append(s);
        i += 1;
    }
    out
}

/// `s` wrapped in double quotes.
pub fn quoted(s: &str) -> (r: String)
    ensures
        r@ == "\""@ + s@ + "\""@,
{
    let mut out = String::from_str("\"");
    out.append(s);
    out.append("\"");
    out
}

/// A digit-run value never shrinks as the run extends to the right.
proof fn lemma_digits_value_grows(s: Seq<char>, i: int, j: int, j2: int)
    requires
        i <= j <= j2 <= s.len(),
        forall|t: int| j <= t < j2 ==> is_digit_char(s[t]),
    ensures
        digits_value(s, i, j2) >= digits_value(s, i, j),
    decreases j2 - j,
{
    if j < j2 {
        lemma_digits_value_grows(s, i, j, j2 - 1);
        assert(is_digit_char(s[j2 - 1]));
        let d = s[j2 - 1] as int - '0' as int;
        assert(0 <= d <= 9);
        assert(digits_value(s, i, j2) >= digits_value(s, i, j2 - 1)) by (nonlinear_arith)
            requires
                digits_value(s, i, j2) == (digits_value(s, i, j2 - 1) * 10 + d) as nat,
                0 <= d,
        ;
    }
}

} // verus!
