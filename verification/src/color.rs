//! Terminal color markup: text wrapped in ANSI escape sequences. The log
//! renderer later decodes these sequences back into styled markup.

use vstd::prelude::*;

use crate::text::{
    check_at, digits_end, digits_end_at, is_digit, is_digit_char, lemma_scan_hit, lemma_scan_miss,
    lemma_scan_props, matches_at, scan_from,
};

verus! {

/// `text` wrapped in the ANSI color escape for `code`.
pub open spec fn color_wrap(code: Seq<char>, text: Seq<char>) -> Seq<char> {
    "\u{1b}["@ + code + "m"@ + text + "\u{1b}[0m"@
}

/// A piece of text carrying ANSI color escapes.
#[derive(Debug, Clone)]
pub struct ColoredText {
    text: String,
}

impl ColoredText {
    /// The characters held, escapes included.
    pub closed spec fn spec_text(&self) -> Seq<char> {
        self.text@
    }

    fn new(text: String) -> (r: ColoredText)
        ensures
            r.spec_text() == text@,
    {
        ColoredText { text }
    }

    pub fn as_str(&self) -> (r: &str)
        ensures
            r@ == self.spec_text(),
    {
        self.text.as_str()
    }

    /// Consumes the markup into its plain string.
    pub fn into_string(self) -> (r: String)
        ensures
            r@ == self.spec_text(),
    {
        self.text
    }

    /// This text followed by another, the way the pieces of a log line are
    /// strung together.
    pub fn plus(self, rhs: ColoredText) -> (r: ColoredText)
        ensures
            r.spec_text() == self.spec_text() + rhs.spec_text(),
    {
        let mut text = self.text;
        text.append(rhs.text.as_str());
        ColoredText { text }
    }
}

fn wrap_code(code: &str, text: &str) -> (r: ColoredText)
    ensures
        r.spec_text() == color_wrap(code@, text@),
{
    let mut out = String::from_str("\u{1b}[");
    out.append(code);
    out.append("m");
    out.append(text);
    out.append("\u{1b}[0m");
    proof {
        assert(out@ =~= color_wrap(code@, text@));
    }
    ColoredText::new(out)
}

/// Anything that can be wrapped in a terminal color.
pub trait Colorize {
    spec fn spec_str(&self) -> Seq<char>;

    fn text_str(&self) -> (r: &str)
        ensures
            r@ == self.spec_str(),
    ;

    fn black(&self) -> (r: ColoredText)
        ensures
            r.spec_text() == color_wrap("30"@, self.spec_str()),
    {
        wrap_code("30", self.text_str())
    }

    fn red(&self) -> (r: ColoredText)
        ensures
            r.spec_text() == color_wrap("31"@, self.spec_str()),
    {
        wrap_code("31", self.text_str())
    }

    fn green(&self) -> (r: ColoredText)
        ensures
            r.spec_text() == color_wrap("32"@, self.spec_str()),
    {
        wrap_code("32", self.text_str())
    }

    fn yellow(&self) -> (r: ColoredText)
        ensures
            r.spec_text() == color_wrap("33"@, self.spec_str()),
    {
        wrap_code("33", self.text_str())
    }

    fn blue(&self) -> (r: ColoredText)
        ensures
            r.spec_text() == color_wrap("34"@, self.spec_str()),
    {
        wrap_code("34", self.text_str())
    }

    fn magenta(&self) -> (r: ColoredText)
        ensures
            r.spec_text() == color_wrap("35"@, self.spec_str()),
    {
        wrap_code("35", self.text_str())
    }

    fn cyan(&self) -> (r: ColoredText)
        ensures
            r.spec_text() == color_wrap("36"@, self.spec_str()),
    {
        wrap_code("36", self.text_str())
    }

    fn white(&self) -> (r: ColoredText)
        ensures
            r.spec_text() == color_wrap("37"@, self.spec_str()),
    {
        wrap_code("37", self.text_str())
    }
}

// ------------------------------------------------------------------
// Decoding the escapes again
// ------------------------------------------------------------------
/// Where a reset escape stands.
pub open spec fn reset_pred() -> spec_fn(Seq<char>, int) -> bool {
    |s: Seq<char>, j: int| matches_at(s, j, "\u{1b}[0m"@)
}

/// End of the one- or two-digit color code that starts after `ESC [` at `i`.
pub open spec fn code_end_at(s: Seq<char>, i: int) -> int {
    let d = digits_end(s, i + 2);
    if d - (i + 2) >= 2 {
        i + 4
    } else {
        d
    }
}

/// A full color-escape match at `i`: `ESC [`, a one- or two-digit code, `m`,
/// then the nearest reset escape, with no line break in between.
pub open spec fn ansi_at(s: Seq<char>, i: int) -> bool {
    let ce = code_end_at(s, i);
    let close = scan_from(s, ce + 1, reset_pred());
    &&& matches_at(s, i, "\u{1b}["@)
    &&& i + 2 < s.len() && is_digit_char(s[i + 2])
    &&& ce < s.len() && s[ce] == 'm'
    &&& close < s.len()
    &&& forall|k: int| ce + 1 <= k < close ==> s[k] != '\n'
}

pub open spec fn ansi_pred() -> spec_fn(Seq<char>, int) -> bool {
    |s: Seq<char>, i: int| ansi_at(s, i)
}

/// Checks for a full color-escape match at `i`; on a match, hands back the
/// code's end and the reset's position.
#[verifier::loop_isolation(false)]
pub fn ansi_check_at(s: &str, i: usize) -> (r: Option<(usize, usize)>)
    requires
        i <= s@.len(),
    ensures
        match r {
            Some(p) => ansi_at(s@, i as int) && p.0 == code_end_at(s@, i as int) && p.1
                == scan_from(s@, p.0 + 1, reset_pred()),
            None => !ansi_at(s@, i as int),
        },
{
    proof {
        reveal_strlit("\u{1b}[");
        reveal_strlit("\u{1b}[0m");
    }
    let n = s.unicode_len();
    if !check_at(s, i, "\u{1b}[") {
        return None;
    }
    if !(i + 2 < n && is_digit(s.get_char(i + 2))) {
        return None;
    }
    let d = digits_end_at(s, i + 2);
    let ce = if d - (i + 2) >= 2 {
        i + 4
    } else {
        d
    };
    if !(ce < n && s.get_char(ce) == 'm') {
        return None;
    }
    // look for the nearest reset, refusing a line break on the way
    let mut k: usize = ce + 1;
    while k < n
        invariant
            ce + 1 <= k <= n,
            n == s@.len(),
            ce == code_end_at(s@, i as int),
            forall|j: int| ce + 1 <= j < k ==> !#[trigger] reset_pred()(s@, j),
            forall|j: int| ce + 1 <= j < k ==> s@[j] != '\n',
        decreases n - k,
    {
        if check_at(s, k, "\u{1b}[0m") {
            proof {
                assert(reset_pred()(s@, k as int));
                lemma_scan_hit(s@, ce + 1, k as int, reset_pred());
            }
            return Some((ce, k));
        }
        if s.get_char(k) == '\n' {
            proof {
                let close = scan_from(s@, ce + 1, reset_pred());
                lemma_scan_props(s@, ce + 1, reset_pred());
                if close < s@.len() {
                    if close < k {
                        assert(reset_pred()(s@, close));
                    } else {
                        assert(s@[k as int] == '\n');
                    }
                }
            }
            return None;
        }
        proof {
            assert(!reset_pred()(s@, k as int));
        }
        k += 1;
    }
    proof {
        lemma_scan_miss(s@, ce + 1, reset_pred());
    }
    None
}

impl Colorize for str {
    open spec fn spec_str(&self) -> Seq<char> {
        self@
    }

    fn text_str(&self) -> (r: &str) {
        self
    }
}

impl Colorize for String {
    open spec fn spec_str(&self) -> Seq<char> {
        self@
    }

    fn text_str(&self) -> (r: &str) {
        self.as_str()
    }
}

impl Colorize for ColoredText {
    open spec fn spec_str(&self) -> Seq<char> {
        self.spec_text()
    }

    fn text_str(&self) -> (r: &str) {
        self.as_str()
    }
}

} // verus!
