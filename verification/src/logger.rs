//! A scoped, leveled log kept as plain data: paragraphs and nested
//! collapsible scopes held in an index-addressed arena. The pipeline writes
//! events here; rendering the tree as an HTML page and writing it to disk is
//! the host program's business.

use vstd::prelude::*;

use crate::color::{ansi_at, ansi_pred, code_end_at, reset_pred, Colorize};
use crate::text::{lemma_scan_hit, lemma_scan_miss, lemma_scan_props, scan_from};

verus! {

/// The headline of a scope.
#[derive(Debug)]
pub struct Summary {
    pub text: String,
}

/// One plain log line.
#[derive(Debug)]
pub struct Paragraph {
    text: String,
}

impl Paragraph {
    pub closed spec fn spec_text(&self) -> Seq<char> {
        self.text@
    }

    pub fn new(text: String) -> (r: Paragraph)
        ensures
            r.spec_text() == text@,
    {
        Paragraph { text }
    }

    pub fn text(&self) -> (r: &str)
        ensures
            r@ == self.spec_text(),
    {
        self.text.as_str()
    }
}

/// What a scope may hold: a paragraph, or a nested scope referred to by its
/// index in the logger's arena.
#[derive(Debug)]
pub enum LogElement {
    Par(Paragraph),
    Scope(usize),
}

/// A collapsible scope: a headline and the elements logged under it.
#[derive(Debug)]
pub struct Details {
    pub expanded: bool,
    pub summary: Summary,
    pub children: Vec<LogElement>,
}

/// An element may only point at an arena slot that lies strictly after the
/// node holding it, which keeps the scope tree finite.
pub open spec fn element_ok(e: LogElement, holder: int, arena_len: int) -> bool {
    match e {
        LogElement::Par(_) => true,
        LogElement::Scope(j) => holder < j < arena_len,
    }
}

/// The scoped log. `nodes` is the arena of all scopes ever opened; `roots`
/// holds the top-level elements; `stack` the indices of the scopes that are
/// currently open, outermost first.
#[derive(Debug)]
pub struct HTMLLogger {
    name: String,
    nodes: Vec<Details>,
    roots: Vec<LogElement>,
    stack: Vec<usize>,
}

impl HTMLLogger {
    /// Structural soundness: every scope reference points forward in the
    /// arena and every open scope exists.
    pub closed spec fn wf(&self) -> bool {
        &&& forall|i: int, k: int|
            0 <= i < self.nodes@.len() && 0 <= k < self.nodes@[i].children@.len()
                ==> element_ok(#[trigger] self.nodes@[i].children@[k], i, self.nodes@.len() as int)
        &&& forall|k: int|
            0 <= k < self.roots@.len() ==> element_ok(
                #[trigger] self.roots@[k],
                -1,
                self.nodes@.len() as int,
            )
        &&& forall|k: int|
            0 <= k < self.stack@.len() ==> #[trigger] self.stack@[k] < self.nodes@.len()
    }

    pub closed spec fn spec_name(&self) -> Seq<char> {
        self.name@
    }

    pub closed spec fn spec_stack(&self) -> Seq<usize> {
        self.stack@
    }

    pub closed spec fn spec_node_count(&self) -> nat {
        self.nodes@.len()
    }

    /// The headline text of the scope at arena index `h`.
    pub closed spec fn spec_summary(&self, h: int) -> Seq<char> {
        self.nodes@[h].summary.text@
    }

    pub fn new(name: &str) -> (r: HTMLLogger)
        ensures
            r.wf(),
            r.spec_name() == name@,
            r.spec_stack().len() == 0,
    {
        HTMLLogger { name: String::from_str(name), nodes: Vec::new(), roots: Vec::new(), stack: Vec::new() }
    }

    /// The innermost open scope.
    fn current_scope(&self) -> (r: usize)
        requires
            self.wf(),
            self.spec_stack().len() > 0,
        ensures
            r == self.spec_stack().last(),
            r < self.spec_node_count(),
    {
        self.stack[self.stack.len() - 1]
    }

    /// The log after a paragraph with this text lands at the current
    /// nesting: under the innermost open scope, or among the top-level
    /// elements when no scope is open.
    pub open spec fn logged(&self, post: &Self, text: Seq<char>) -> bool {
        &&& post.spec_stack() == self.spec_stack()
        &&& post.spec_node_count() == self.spec_node_count()
        &&& post.spec_name() == self.spec_name()
        &&& if self.spec_stack().len() > 0 {
            let h = self.spec_stack().last() as int;
            &&& post.spec_children(h).len() == self.spec_children(h).len() + 1
            &&& (post.spec_children(h).last() matches LogElement::Par(p) && p.spec_text() == text)
            &&& post.spec_roots() == self.spec_roots()
        } else {
            &&& post.spec_roots().len() == self.spec_roots().len() + 1
            &&& (post.spec_roots().last() matches LogElement::Par(p) && p.spec_text() == text)
        }
    }

    /// The elements logged under the scope at arena index `h`.
    pub closed spec fn spec_children(&self, h: int) -> Seq<LogElement> {
        self.nodes@[h].children@
    }

    fn push_par(&mut self, p: Paragraph)
        requires
            old(self).wf(),
        ensures
            final(self).wf(),
            old(self).logged(final(self), p.spec_text()),
    {
        if self.stack.len() > 0 {
            let h = self.current_scope();
            let node = &mut self.nodes[h];
            node.children.push(LogElement::Par(p));
        } else {
            self.roots.push(LogElement::Par(p));
        }
    }

    /// Writes one plain line at the current nesting.
    pub fn log(&mut self, text: &str)
        requires
            old(self).wf(),
        ensures
            final(self).wf(),
            old(self).logged(final(self), text@),
    {
        self.push_par(Paragraph::new(String::from_str(text)));
    }

    /// Writes one informational line, prefixed with a colored dash.
    pub fn info(&mut self, text: &str)
        requires
            old(self).wf(),
        ensures
            final(self).wf(),
            old(self).logged(
                final(self),
                crate::color::color_wrap("36"@, "-"@) + " "@ + text@,
            ),
    {
        let line = "-".cyan();
        let mut t = line.into_string();
        t.append(" ");
        t.append(text);
        self.push_par(Paragraph::new(t));
    }

    /// Writes one line and abandons every open scope.
    pub fn error(&mut self, text: &str)
        requires
            old(self).wf(),
        ensures
            final(self).wf(),
            final(self).spec_stack().len() == 0,
            final(self).spec_name() == old(self).spec_name(),
    {
        self.log(text);
        self.stack.clear();
    }

    /// Opens a nested scope under the current one and returns its handle.
    pub fn open_scope(&mut self, text: &str) -> (h: usize)
        requires
            old(self).wf(),
        ensures
            final(self).wf(),
            h == old(self).spec_node_count(),
            final(self).spec_node_count() == old(self).spec_node_count() + 1,
            final(self).spec_stack() == old(self).spec_stack().push(h),
            final(self).spec_name() == old(self).spec_name(),
            final(self).spec_summary(h as int) == text@,
    {
        let h = self.nodes.len();
        self.nodes.push(
            Details {
                expanded: false,
                summary: Summary { text: String::from_str(text) },
                children: Vec::new(),
            },
        );
        if self.stack.len() > 0 {
            let p = self.stack[self.stack.len() - 1];
            let node = &mut self.nodes[p];
            node.children.push(LogElement::Scope(h));
        } else {
            self.roots.push(LogElement::Scope(h));
        }
        self.stack.push(h);
        h
    }

    /// Leaves the innermost open scope; quietly does nothing when none is
    /// open.
    pub fn close_scope(&mut self)
        requires
            old(self).wf(),
        ensures
            final(self).wf(),
            final(self).spec_stack() == if old(self).spec_stack().len() > 0 {
                old(self).spec_stack().drop_last()
            } else {
                old(self).spec_stack()
            },
            final(self).spec_node_count() == old(self).spec_node_count(),
            final(self).spec_name() == old(self).spec_name(),
    {
        if self.stack.len() > 0 {
            self.stack.pop();
            proof {
                assert(self.stack@ =~= old(self).stack@.drop_last());
            }
        }
    }

    /// Abandons every open scope after a failure.
    pub fn panic(&mut self)
        requires
            old(self).wf(),
        ensures
            final(self).wf(),
            final(self).spec_stack().len() == 0,
            final(self).spec_node_count() == old(self).spec_node_count(),
            final(self).spec_name() == old(self).spec_name(),
    {
        self.stack.clear();
    }

    /// Appends to the headline of an already-opened scope, the way a reload
    /// marks its outcome on the scope it opened first.
    pub fn append_to_summary(&mut self, h: usize, text: &str)
        requires
            old(self).wf(),
            h < old(self).spec_node_count(),
        ensures
            final(self).wf(),
            final(self).spec_stack() == old(self).spec_stack(),
            final(self).spec_node_count() == old(self).spec_node_count(),
            final(self).spec_name() == old(self).spec_name(),
            final(self).spec_summary(h as int) == old(self).spec_summary(h as int) + text@,
    {
        let node = &mut self.nodes[h];
        node.summary.text.append(text);
    }

    /// The page headline.
    pub fn generate_header(&self) -> (r: String)
        ensures
            r@ == "<h1 id=\"log_title\">"@ + self.spec_name() + "</h1>"@,
    {
        let mut out = String::from_str("<h1 id=\"log_title\">");
        out.append(self.name.as_str());
        out.append("</h1>");
        out
    }
}

// ------------------------------------------------------------------
// Rendering the log as an HTML page
// ------------------------------------------------------------------
/// What one decoded color escape renders as.
pub open spec fn span_of(code: Seq<char>, inner: Seq<char>) -> Seq<char> {
    "<span style=\"color: var(--color-"@ + code + ")\">"@ + inner + "</span>"@
}

/// Text with every color escape decoded into a styled span, left to right.
pub open spec fn format_from(s: Seq<char>, i: int) -> Seq<char>
    decreases s.len() - i,
    via format_from_decreases
{
    if i < 0 || i >= s.len() {
        Seq::empty()
    } else {
        let j = scan_from(s, i, ansi_pred());
        if j >= s.len() {
            s.subrange(i, s.len() as int)
        } else {
            let ce = code_end_at(s, j);
            let close = scan_from(s, ce + 1, reset_pred());
            s.subrange(i, j) + span_of(s.subrange(j + 2, ce), s.subrange(ce + 1, close))
                + format_from(s, close + 4)
        }
    }
}

#[via_fn]
proof fn format_from_decreases(s: Seq<char>, i: int) {
    reveal_strlit("\u{1b}[");
    reveal_strlit("\u{1b}[0m");
    if 0 <= i < s.len() {
        lemma_scan_props(s, i, ansi_pred());
        let j = scan_from(s, i, ansi_pred());
        if j < s.len() {
            assert(ansi_at(s, j));
            let ce = code_end_at(s, j);
            crate::text::lemma_digits_end_bounds(s, j + 2);
            lemma_scan_props(s, ce + 1, reset_pred());
            let close = scan_from(s, ce + 1, reset_pred());
            assert(crate::text::matches_at(s, close, "\u{1b}[0m"@));
        }
    }
}

pub open spec fn spec_format_text(s: Seq<char>) -> Seq<char> {
    format_from(s, 0)
}

/// Decodes the terminal color escapes of a log line into styled spans, the
/// way the page renderer shows them.
#[verifier::loop_isolation(false)]
pub fn format_text(s: &str) -> (r: String)
    ensures
        r@ == spec_format_text(s@),
{
    let n = s.unicode_len();
    let mut out = String::new();
    let mut pos: usize = 0;
    while pos < n
        invariant
            pos <= n,
            n == s@.len(),
            spec_format_text(s@) == out@ + format_from(s@, pos as int),
        decreases n - pos,
    {
        // find the next escape
        let mut j: usize = pos;
        let mut found: Option<(usize, usize)> = None;
        while j < n
            invariant
                pos <= j <= n,
                found is None,
                forall|t: int| pos <= t < j ==> !#[trigger] ansi_pred()(s@, t),
            decreases n - j,
        {
            match crate::color::ansi_check_at(s, j) {
                Some(p) => {
                    found = Some(p);
                    proof {
                        assert(ansi_pred()(s@, j as int));
                    }
                    break ;
                },
                None => {
                    proof {
                        assert(!ansi_pred()(s@, j as int));
                    }
                },
            }
            j += 1;
        }
        match found {
            Some((ce, close)) => {
                proof {
                    lemma_scan_hit(s@, pos as int, j as int, ansi_pred());
                    assert(ansi_at(s@, j as int));
                    reveal_strlit("\u{1b}[");
                    reveal_strlit("\u{1b}[0m");
                    crate::text::lemma_digits_end_bounds(s@, j + 2);
                    lemma_scan_props(s@, (ce + 1) as int, reset_pred());
                    assert(crate::text::matches_at(s@, close as int, "\u{1b}[0m"@));
                }
                out.append(s.substring_char(pos, j));
                out.append("<span style=\"color: var(--color-");
                out.append(s.substring_char(j + 2, ce));
                out.append(")\">");
                out.append(s.substring_char(ce + 1, close));
                out.append("</span>");
                proof {
                    lemma_scan_props(s@, (ce + 1) as int, reset_pred());
                    assert(reset_pred()(s@, close as int));
                    reveal_strlit("\u{1b}[0m");
                }
                pos = close + 4;
            },
            None => {
                proof {
                    lemma_scan_miss(s@, pos as int, ansi_pred());
                }
                out.append(s.substring_char(pos, n));
                pos = n;
            },
        }
    }
    proof {
        assert(out@ =~= spec_format_text(s@));
    }
    out
}

/// What a paragraph renders as.
pub open spec fn spec_par_html(text: Seq<char>) -> Seq<char> {
    "<p>"@ + spec_format_text(text) + "</p>"@
}

/// What a scope headline renders as.
pub open spec fn spec_summary_html(text: Seq<char>) -> Seq<char> {
    "<summary>"@ + spec_format_text(text) + "</summary>"@
}

/// What the scope at arena index `j` renders as.
pub open spec fn spec_node_html(nodes: Seq<Details>, j: int) -> Seq<char>
    decreases nodes.len() - j, 2int, 0int,
{
    if 0 <= j < nodes.len() {
        let open_attr: Seq<char> = if nodes[j].expanded {
            " open"@
        } else {
            Seq::empty()
        };
        "<details"@ + open_attr + ">\n"@ + spec_summary_html(nodes[j].summary.text@)
            + spec_list_html(nodes, nodes[j].children@, j) + "\n</details>"@
    } else {
        Seq::empty()
    }
}

/// What a scope's children render as, joined with line breaks.
pub open spec fn spec_list_html(nodes: Seq<Details>, cs: Seq<LogElement>, holder: int) -> Seq<
    char,
>
    decreases nodes.len() - holder, 1int, cs.len(),
{
    if cs.len() == 0 {
        Seq::empty()
    } else if cs.len() == 1 {
        spec_element_html(nodes, cs.last(), holder)
    } else {
        spec_list_html(nodes, cs.drop_last(), holder) + "\n"@ + spec_element_html(
            nodes,
            cs.last(),
            holder,
        )
    }
}

/// What one element renders as.
pub open spec fn spec_element_html(nodes: Seq<Details>, e: LogElement, holder: int) -> Seq<char>
    decreases nodes.len() - holder, 0int, 0int,
{
    match e {
        LogElement::Par(p) => spec_par_html(p.spec_text()),
        LogElement::Scope(j) => if holder < j < nodes.len() {
            spec_node_html(nodes, j as int)
        } else {
            Seq::empty()
        },
    }
}

/// The top-level elements, concatenated.
pub open spec fn spec_roots_html(nodes: Seq<Details>, cs: Seq<LogElement>) -> Seq<char>
    decreases cs.len(),
{
    if cs.len() == 0 {
        Seq::empty()
    } else {
        spec_roots_html(nodes, cs.drop_last()) + spec_element_html(nodes, cs.last(), -1)
    }
}

impl Summary {
    /// This headline as HTML.
    pub fn to_html(&self) -> (r: String)
        ensures
            r@ == spec_summary_html(self.text@),
    {
        let mut out = String::from_str("<summary>");
        out.append(format_text(self.text.as_str()).as_str());
        out.append("</summary>");
        out
    }
}

impl Paragraph {
    /// This line as HTML.
    pub fn to_html(&self) -> (r: String)
        ensures
            r@ == spec_par_html(self.spec_text()),
    {
        let mut out = String::from_str("<p>");
        out.append(format_text(self.text.as_str()).as_str());
        out.append("</p>");
        out
    }
}

/// Renders the scope at arena index `j`.
#[verifier::loop_isolation(false)]
fn node_to_html(nodes: &Vec<Details>, j: usize) -> (r: String)
    requires
        j < nodes@.len(),
        forall|i: int, k: int|
            0 <= i < nodes@.len() && 0 <= k < nodes@[i].children@.len() ==> element_ok(
                #[trigger] nodes@[i].children@[k],
                i,
                nodes@.len() as int,
            ),
    ensures
        r@ == spec_node_html(nodes@, j as int),
    decreases nodes@.len() - j,
{
    let node = &nodes[j];
    let mut out = String::from_str("<details");
    if node.expanded {
        out.append(" open");
    }
    out.append(">\n");
    out.append(node.summary.to_html().as_str());
    let ghost cs = node.children@;
    let mut k: usize = 0;
    let mut body = String::new();
    while k < node.children.len()
        invariant
            k <= cs.len(),
            cs == nodes@[j as int].children@,
            j < nodes@.len(),
            body@ == spec_list_html(nodes@, cs.take(k as int), j as int),
        decreases cs.len() - k,
    {
        proof {
            assert(cs.take(k + 1).drop_last() =~= cs.take(k as int));
            assert(cs.take(k + 1).last() == cs[k as int]);
            assert(element_ok(cs[k as int], j as int, nodes@.len() as int));
        }
        let ghost prev_body = body@;
        if k > 0 {
            body.append("\n");
        }
        match &node.children[k] {
            LogElement::Par(p) => {
                body.append(p.to_html().as_str());
            },
            LogElement::Scope(c) => {
                body.append(node_to_html(nodes, *c).as_str());
            },
        }
        proof {
            let elem = spec_element_html(nodes@, cs[k as int], j as int);
            assert(body@ =~= prev_body + if k == 0 { elem } else { "\n"@ + elem });
            assert(cs.take(k + 1).len() == k + 1);
            if k == 0 {
                assert(spec_list_html(nodes@, cs.take(k + 1), j as int) == elem);
            } else {
                assert(spec_list_html(nodes@, cs.take(k + 1), j as int) == spec_list_html(
                    nodes@,
                    cs.take(k as int),
                    j as int,
                ) + "\n"@ + elem);
            }
            assert(body@ =~= spec_list_html(nodes@, cs.take(k + 1), j as int));
        }
        k += 1;
    }
    proof {
        assert(cs.take(cs.len() as int) =~= cs);
    }
    out.append(body.as_str());
    out.append("\n</details>");
    proof {
        assert(out@ =~= spec_node_html(nodes@, j as int));
    }
    out
}

impl HTMLLogger {
    /// The whole log as one HTML page: the style header, the page headline,
    /// then every top-level element with its scopes nested inside.
    pub fn to_html(&self) -> (r: String)
        requires
            self.wf(),
        ensures
            r@ == spec_page_start() + "<h1 id=\"log_title\">"@ + self.spec_name() + "</h1>"@
                + spec_roots_html(self.spec_nodes(), self.spec_roots()) + "</body></html>"@,
    {
        let mut out = String::from_str(page_start());
        out.append(self.generate_header().as_str());
        let ghost rs = self.roots@;
        let mut k: usize = 0;
        let mut body = String::new();
        while k < self.roots.len()
            invariant
                k <= rs.len(),
                rs == self.roots@,
                self.wf(),
                body@ == spec_roots_html(self.nodes@, rs.take(k as int)),
            decreases rs.len() - k,
        {
            proof {
                assert(rs.take(k + 1).drop_last() =~= rs.take(k as int));
                assert(rs.take(k + 1).last() == rs[k as int]);
            }
            match &self.roots[k] {
                LogElement::Par(p) => {
                    body.append(p.to_html().as_str());
                },
                LogElement::Scope(c) => {
                    body.append(node_to_html(&self.nodes, *c).as_str());
                },
            }
            proof {
                assert(body@ =~= spec_roots_html(self.nodes@, rs.take(k + 1)));
            }
            k += 1;
        }
        proof {
            assert(rs.take(rs.len() as int) =~= rs);
        }
        out.append(body.as_str());
        out.append("</body></html>");
        proof {
            assert(out@ =~= spec_page_start() + "<h1 id=\"log_title\">"@ + self.spec_name()
                + "</h1>"@ + spec_roots_html(self.spec_nodes(), self.spec_roots())
                + "</body></html>"@);
        }
        out
    }

    /// The arena, for the rendering specs.
    pub closed spec fn spec_nodes(&self) -> Seq<Details> {
        self.nodes@
    }

    /// The top-level elements, for the rendering specs.
    pub closed spec fn spec_roots(&self) -> Seq<LogElement> {
        self.roots@
    }
}

/// The fixed opening of the rendered page: document type, title and style.
pub open spec fn spec_page_start() -> Seq<char> {
    "\n<!DOCTYPE html>\n<html lang=\"en\">\n<head>\n    <meta charset=\"UTF-8\">\n    <title>Generated HTML Log</title>\n    <style>\n        body {\n            --color-30: #000000; /* black */\n            --color-31: #e06c75; /* red */\n            --color-32: #98c379; /* green */\n            --color-33: #e5c07b; /* yellow */\n            --color-34: #4c3df5; /* blue */\n            --color-35: #c594ff; /* magenta */\n            --color-36: #7cc7ff; /* cyan */\n            --color-37: #666666; /* gray */\n        }\n\n        body {\n            font-family: monospace;\n            background: #1e1e2f;\n            color: var(--color-36);\n\n            margin: 0;\n            padding: 2rem;\n        }\n\n        * {\n            padding: 0.1rem 0;\n            margin: 0;\n        }\n\n        #log_title {\n            text-align: center;\n            margin-bottom: 1rem;\n            font-size: 2rem;\n            color: var(--color-31);\n        }\n\n        #log_title:before {\n            content: \"< \";\n        }\n\n        #log_title:after {\n            content: \" >\";\n        }\n\n        details {\n            margin-left: 2rem;\n        }\n\n        summary {\n            cursor: pointer;\n        }\n\n        summary:before {\n            content: \"< \";\n            color: var(--color-36);\n        }\n\n        summary:after {\n            content: \" >\";\n            color: var(--color-36);\n        }\n\n        p {\n            margin-left: 2rem;\n        }\n    </style>\n</head>\n<body>"@
}

pub fn page_start() -> (r: &'static str)
    ensures
        r@ == spec_page_start(),
{
    "\n<!DOCTYPE html>\n<html lang=\"en\">\n<head>\n    <meta charset=\"UTF-8\">\n    <title>Generated HTML Log</title>\n    <style>\n        body {\n            --color-30: #000000; /* black */\n            --color-31: #e06c75; /* red */\n            --color-32: #98c379; /* green */\n            --color-33: #e5c07b; /* yellow */\n            --color-34: #4c3df5; /* blue */\n            --color-35: #c594ff; /* magenta */\n            --color-36: #7cc7ff; /* cyan */\n            --color-37: #666666; /* gray */\n        }\n\n        body {\n            font-family: monospace;\n            background: #1e1e2f;\n            color: var(--color-36);\n\n            margin: 0;\n            padding: 2rem;\n        }\n\n        * {\n            padding: 0.1rem 0;\n            margin: 0;\n        }\n\n        #log_title {\n            text-align: center;\n            margin-bottom: 1rem;\n            font-size: 2rem;\n            color: var(--color-31);\n        }\n\n        #log_title:before {\n            content: \"< \";\n        }\n\n        #log_title:after {\n            content: \" >\";\n        }\n\n        details {\n            margin-left: 2rem;\n        }\n\n        summary {\n            cursor: pointer;\n        }\n\n        summary:before {\n            content: \"< \";\n            color: var(--color-36);\n        }\n\n        summary:after {\n            content: \" >\";\n            color: var(--color-36);\n        }\n\n        p {\n            margin-left: 2rem;\n        }\n    </style>\n</head>\n<body>"
}

} // verus!
