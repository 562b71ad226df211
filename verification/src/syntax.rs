//! The line grammars of the pipeline: ignore-region markers, the expansion
//! directive, uniform declarations, and the compiler's one-line error format.
//! Each grammar is given as a spec-level predicate and payload over the
//! line's characters, and an executable matcher proved equal to it.

use vstd::prelude::*;

use crate::text::{
    check_at, digits_end, digits_end_at, is_digit, is_digit_char, is_space, is_space_char,
    last_pos, last_pos_in, last_space, last_space_in, lemma_last_pos_bounds, lemma_scan_hit,
    lemma_scan_miss, matches_at, read_digits, rtrim, rtrim_at, scan_from, ws_end, ws_end_at,
};

verus! {

// ------------------------------------------------------------------
// Ignore-region markers: `/*`, whitespace, tag, whitespace, `*/`.
// ------------------------------------------------------------------
/// A comment marker `/* <tag> */`, with any amount of whitespace around the
/// tag, starting at `i`.
pub open spec fn marker_at(s: Seq<char>, i: int, tag: Seq<char>) -> bool {
    let j = ws_end(s, i + 2);
    let k = ws_end(s, j + tag.len());
    &&& matches_at(s, i, "/*"@)
    &&& matches_at(s, j, tag)
    &&& matches_at(s, k, "*/"@)
}

/// The line holds a marker with the given tag somewhere.
pub open spec fn has_marker(s: Seq<char>, tag: Seq<char>) -> bool {
    exists|i: int| marker_at(s, i, tag)
}

/// Checks for `/*`, whitespace, `tag`, whitespace, `*/` at position `i`.
fn marker_check_at(s: &str, i: usize, tag: &str) -> (r: bool)
    requires
        i <= s@.len(),
    ensures
        r == marker_at(s@, i as int, tag@),
{
    proof {
        reveal_strlit("/*");
        reveal_strlit("*/");
    }
    let n = s.unicode_len();
    if !check_at(s, i, "/*") {
        return false;
    }
    let j = ws_end_at(s, i + 2);
    if !check_at(s, j, tag) {
        return false;
    }
    let k = ws_end_at(s, j + tag.unicode_len());
    check_at(s, k, "*/")
}

/// Whether the line holds a marker with the given tag.
pub fn find_marker(s: &str, tag: &str) -> (r: bool)
    ensures
        r == has_marker(s@, tag@),
{
    proof {
        reveal_strlit("/*");
    }
    let n = s.unicode_len();
    let mut i: usize = 0;
    while i < n
        invariant
            i <= n,
            n == s@.len(),
            forall|j: int| 0 <= j < i ==> !marker_at(s@, j, tag@),
        decreases n - i,
    {
        if marker_check_at(s, i, tag) {
            assert(has_marker(s@, tag@));
            return true;
        }
        i += 1;
    }
    assert forall|j: int| !marker_at(s@, j, tag@) by {
        if j >= n || j < 0 {
            assert(!matches_at(s@, j, "/*"@));
        }
    }
    false
}

/// A line opens an ignore region.
pub open spec fn ignore_opens(line: Seq<char>) -> bool {
    has_marker(line, "<ignore>"@)
}

/// A line closes an ignore region.
pub open spec fn ignore_closes(line: Seq<char>) -> bool {
    has_marker(line, "</ignore>"@)
}

/// The ignore flag after a line: a closing marker wins over an opening one on
/// the same line, a line with neither leaves the flag as it was.
pub open spec fn step_ignore(ignore: bool, line: Seq<char>) -> bool {
    if ignore_closes(line) {
        false
    } else if ignore_opens(line) {
        true
    } else {
        ignore
    }
}

/// Applies a line's ignore markers to the running flag.
pub fn update_ignore(ignore: bool, line: &str) -> (r: bool)
    ensures
        r == step_ignore(ignore, line@),
{
    if find_marker(line, "</ignore>") {
        false
    } else if find_marker(line, "<ignore>") {
        true
    } else {
        ignore
    }
}

// ------------------------------------------------------------------
// Commented-out lines.
// ------------------------------------------------------------------
/// A line whose first two characters are `//`.
pub open spec fn is_commented(line: Seq<char>) -> bool {
    matches_at(line, 0, "//"@)
}

pub fn commented(line: &str) -> (r: bool)
    ensures
        r == is_commented(line@),
{
    check_at(line, 0, "//")
}

// ------------------------------------------------------------------
// The expansion directive: `#include`, whitespace, then a quoted path
// running to the last quote on the line.
// ------------------------------------------------------------------
/// A full directive match starting at `i`.
pub open spec fn directive_at(s: Seq<char>, i: int) -> bool {
    let q = ws_end(s, i + 8);
    let c = last_pos(s, '"', s.len() as int);
    &&& matches_at(s, i, "#include"@)
    &&& i + 8 < s.len() && is_space_char(s[i + 8])
    &&& q < s.len() && s[q] == '"'
    &&& c >= q + 2
}

pub open spec fn directive_pred() -> spec_fn(Seq<char>, int) -> bool {
    |s: Seq<char>, i: int| directive_at(s, i)
}

/// The quoted path of the line's first directive match, if any: the text
/// between the quote that follows the keyword and the last quote on the
/// line, which must not be empty.
pub open spec fn directive_path_of(s: Seq<char>) -> Option<Seq<char>> {
    let h = scan_from(s, 0, directive_pred());
    if h < s.len() {
        let q = ws_end(s, h + 8);
        let c = last_pos(s, '"', s.len() as int);
        Some(s.subrange(q + 1, c))
    } else {
        None
    }
}

/// Checks for a full directive match at position `i`.
fn directive_check_at(s: &str, i: usize) -> (r: bool)
    requires
        i <= s@.len(),
    ensures
        r == directive_at(s@, i as int),
{
    proof {
        reveal_strlit("#include");
    }
    let n = s.unicode_len();
    if !check_at(s, i, "#include") {
        return false;
    }
    if !(i + 8 < n && is_space(s.get_char(i + 8))) {
        return false;
    }
    let q = ws_end_at(s, i + 8);
    if !(q < n && s.get_char(q) == '"') {
        return false;
    }
    match last_pos_in(s, '"', n) {
        Some(c) => c > q && c - q >= 2,
        None => {
            proof {
                lemma_last_pos_bounds(s@, '"', n as int);
            }
            false
        },
    }
}

/// The directive path of a line, if the line matches the directive grammar.
pub fn directive_path(line: &str) -> (r: Option<String>)
    ensures
        match r {
            Some(p) => directive_path_of(line@) == Some(p@),
            None => directive_path_of(line@) is None,
        },
{
    proof {
        reveal_strlit("#include");
    }
    let n = line.unicode_len();
    let mut i: usize = 0;
    while i < n
        invariant
            i <= n,
            n == line@.len(),
            forall|j: int| 0 <= j < i ==> !#[trigger] directive_pred()(line@, j),
        decreases n - i,
    {
        if directive_check_at(line, i) {
            proof {
                assert(directive_pred()(line@, i as int));
                lemma_scan_hit(line@, 0, i as int, directive_pred());
            }
            let q = ws_end_at(line, i + 8);
            let c = last_pos_in(line, '"', n).unwrap();
            let p = line.substring_char(q + 1, c);
            return Some(String::from_str(p));
        }
        proof {
            assert(!directive_pred()(line@, i as int));
        }
        i += 1;
    }
    proof {
        lemma_scan_miss(line@, 0, directive_pred());
    }
    None
}

// ------------------------------------------------------------------
// Uniform declarations: `uniform`, whitespace, type, whitespace, name,
// optional whitespace, `;` (the last one on the line).
// ------------------------------------------------------------------
/// A full uniform-declaration match starting at `i`.
pub open spec fn uniform_at(s: Seq<char>, i: int) -> bool {
    let b = ws_end(s, i + 7);
    let semi = last_pos(s, ';', s.len() as int);
    let e = rtrim(s, b, semi);
    let m = last_space(s, b, e);
    let t = rtrim(s, b, m);
    &&& matches_at(s, i, "uniform"@)
    &&& i + 7 < s.len() && is_space_char(s[i + 7])
    &&& b < semi
    &&& m >= b
    &&& t > b
    &&& m + 1 < e
}

pub open spec fn uniform_pred() -> spec_fn(Seq<char>, int) -> bool {
    |s: Seq<char>, i: int| uniform_at(s, i)
}

/// The `(name, type)` pair of the line's first uniform-declaration match, if
/// any. The declaration body runs from the keyword to the line's last `;`;
/// the name is the body's last whitespace-free token and the type is what
/// stands before it.
pub open spec fn uniform_decl_of(s: Seq<char>) -> Option<(Seq<char>, Seq<char>)> {
    let h = scan_from(s, 0, uniform_pred());
    if h < s.len() {
        let b = ws_end(s, h + 7);
        let semi = last_pos(s, ';', s.len() as int);
        let e = rtrim(s, b, semi);
        let m = last_space(s, b, e);
        let t = rtrim(s, b, m);
        Some((s.subrange(m + 1, e), s.subrange(b, t)))
    } else {
        None
    }
}

/// Checks for a full uniform-declaration match at position `i`.
fn uniform_check_at(s: &str, i: usize) -> (r: bool)
    requires
        i <= s@.len(),
    ensures
        r == uniform_at(s@, i as int),
{
    proof {
        reveal_strlit("uniform");
    }
    let n = s.unicode_len();
    if !check_at(s, i, "uniform") {
        return false;
    }
    if !(i + 7 < n && is_space(s.get_char(i + 7))) {
        return false;
    }
    let b = ws_end_at(s, i + 7);
    let semi = match last_pos_in(s, ';', n) {
        Some(semi) => semi,
        None => {
            proof {
                lemma_last_pos_bounds(s@, ';', n as int);
            }
            return false;
        },
    };
    if !(b < semi) {
        return false;
    }
    let e = rtrim_at(s, b, semi);
    let m = match last_space_in(s, b, e) {
        Some(m) => m,
        None => {
            return false;
        },
    };
    let t = rtrim_at(s, b, m);
    t > b && m + 1 < e
}

/// The `(name, type)` pair declared on a line, if the line matches the
/// uniform-declaration grammar.
pub fn uniform_decl(line: &str) -> (r: Option<(String, String)>)
    ensures
        match r {
            Some(p) => uniform_decl_of(line@) == Some((p.0@, p.1@)),
            None => uniform_decl_of(line@) is None,
        },
{
    proof {
        reveal_strlit("uniform");
    }
    let n = line.unicode_len();
    let mut i: usize = 0;
    while i < n
        invariant
            i <= n,
            n == line@.len(),
            forall|j: int| 0 <= j < i ==> !#[trigger] uniform_pred()(line@, j),
        decreases n - i,
    {
        if uniform_check_at(line, i) {
            proof {
                assert(uniform_pred()(line@, i as int));
                lemma_scan_hit(line@, 0, i as int, uniform_pred());
            }
            let b = ws_end_at(line, i + 7);
            let semi = last_pos_in(line, ';', n).unwrap();
            let e = rtrim_at(line, b, semi);
            let m = last_space_in(line, b, e).unwrap();
            let t = rtrim_at(line, b, m);
            let name = String::from_str(line.substring_char(m + 1, e));
            let ty = String::from_str(line.substring_char(b, t));
            return Some((name, ty));
        }
        proof {
            assert(!uniform_pred()(line@, i as int));
        }
        i += 1;
    }
    proof {
        lemma_scan_miss(line@, 0, uniform_pred());
    }
    None
}

// ------------------------------------------------------------------
// The compiler's error lines: `0(`, a line number, `) : error `, a
// five-character code, `: `, then the message.
// ------------------------------------------------------------------
/// A full error-line match starting at `i`.
pub open spec fn diag_at(s: Seq<char>, i: int) -> bool {
    let d = digits_end(s, i + 2);
    &&& matches_at(s, i, "0("@)
    &&& i + 2 < s.len() && is_digit_char(s[i + 2])
    &&& matches_at(s, d, ") : error "@)
    &&& matches_at(s, d + 15, ": "@)
    &&& d + 17 < s.len()
}

pub open spec fn diag_pred() -> spec_fn(Seq<char>, int) -> bool {
    |s: Seq<char>, i: int| diag_at(s, i)
}

/// The `(merged line, message)` pair of the line's first error-line match,
/// if any.
pub open spec fn diag_of(s: Seq<char>) -> Option<(nat, Seq<char>)> {
    let h = scan_from(s, 0, diag_pred());
    if h < s.len() {
        let d = digits_end(s, h + 2);
        Some((crate::text::digits_value(s, h + 2, d), s.subrange(d + 17, s.len() as int)))
    } else {
        None
    }
}

/// Checks for a full error-line match at position `i`.
fn diag_check_at(s: &str, i: usize) -> (r: bool)
    requires
        i <= s@.len(),
    ensures
        r == diag_at(s@, i as int),
{
    proof {
        reveal_strlit("0(");
        reveal_strlit(") : error ");
        reveal_strlit(": ");
    }
    let n = s.unicode_len();
    if !check_at(s, i, "0(") {
        return false;
    }
    if !(i + 2 < n && is_digit(s.get_char(i + 2))) {
        return false;
    }
    let d = digits_end_at(s, i + 2);
    if !check_at(s, d, ") : error ") {
        return false;
    }
    if n - d < 15 {
        return false;
    }
    if !check_at(s, d + 15, ": ") {
        return false;
    }
    n - d > 17
}

/// The merged line number and message of a compiler error line. `None` for a
/// line that does not match the grammar, and for the degenerate case of a
/// line number too large for this machine.
pub fn parse_diag_line(line: &str) -> (r: Option<(usize, String)>)
    ensures
        match r {
            Some(p) => diag_of(line@) == Some((p.0 as nat, p.1@)),
            None => match diag_of(line@) {
                Some(q) => q.0 > usize::MAX,
                None => true,
            },
        },
{
    proof {
        reveal_strlit("0(");
    }
    let n = line.unicode_len();
    let mut i: usize = 0;
    while i < n
        invariant
            i <= n,
            n == line@.len(),
            forall|j: int| 0 <= j < i ==> !#[trigger] diag_pred()(line@, j),
        decreases n - i,
    {
        if diag_check_at(line, i) {
            proof {
                assert(diag_pred()(line@, i as int));
                lemma_scan_hit(line@, 0, i as int, diag_pred());
            }
            let d = digits_end_at(line, i + 2);
            let msg = String::from_str(line.substring_char(d + 17, n));
            assert(forall|t: int| i + 2 <= t < d ==> is_digit_char(line@[t])) by {
                crate::text::lemma_digits_run(line@, i + 2, d as int);
            }
            match read_digits(line, i + 2, d) {
                Some(v) => {
                    return Some((v, msg));
                },
                None => {
                    return None;
                },
            }
        }
        proof {
            assert(!diag_pred()(line@, i as int));
        }
        i += 1;
    }
    proof {
        lemma_scan_miss(line@, 0, diag_pred());
    }
    None
}

} // verus!
