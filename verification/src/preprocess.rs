//! The shader source preprocessor. A set of named sources is expanded,
//! starting from an entry file, into one merged unit: directive lines pull
//! in the named file (resolved next to the file that names it), every other
//! line is emitted verbatim together with a line-map entry naming its
//! origin, and uniform declarations are collected from the emitted lines.
//! A file may enter a unit once; naming it again anywhere in the unit is an
//! error, as is naming a file the source set does not hold.
//!
//! The whole expansion is also written down as a spec-level function,
//! `preprocess_spec`, and the executable pipeline returns exactly its value;
//! every property of the pipeline flows from that one definition.

use vstd::prelude::*;
use vstd::set_lib::lemma_len_subset;

use crate::color::Colorize;
use crate::logger::HTMLLogger;
use crate::syntax::{
    commented, directive_path, directive_path_of, is_commented, step_ignore, uniform_decl,
    uniform_decl_of, update_ignore,
};
use crate::text::{lines_of, quoted, resolve, spec_resolve, split_lines, str_eq};

verus! {

broadcast use vstd::set::group_set_axioms, vstd::seq_lib::group_seq_lib_default;

// ------------------------------------------------------------------
// Sources
// ------------------------------------------------------------------
/// One named source text.
#[derive(Debug, Clone)]
pub struct SourceFile {
    pub name: String,
    pub content: String,
}

/// The sources an expansion may draw from, as a name-keyed collection.
#[derive(Debug, Clone)]
pub struct SourceSet {
    files: Vec<SourceFile>,
}

/// The map a list of files denotes: later entries shadow earlier ones.
pub open spec fn files_map(files: Seq<SourceFile>) -> Map<Seq<char>, Seq<char>>
    decreases files.len(),
{
    if files.len() == 0 {
        Map::empty()
    } else {
        files_map(files.drop_last()).insert(files.last().name@, files.last().content@)
    }
}

proof fn lemma_files_map_finite(files: Seq<SourceFile>)
    ensures
        files_map(files).dom().finite(),
        files_map(files).dom().len() <= files.len(),
    decreases files.len(),
{
    if files.len() > 0 {
        lemma_files_map_finite(files.drop_last());
        vstd::set::axiom_set_insert_len(files_map(files.drop_last()).dom(), files.last().name@);
    }
}

impl SourceSet {
    /// What the set holds, by name.
    pub closed spec fn spec_map(&self) -> Map<Seq<char>, Seq<char>> {
        files_map(self.files@)
    }

    /// How many sources were filed, shadowed entries included.
    pub closed spec fn spec_count(&self) -> nat {
        self.files@.len()
    }

    pub fn new() -> (r: SourceSet)
        ensures
            r.spec_map() == Map::<Seq<char>, Seq<char>>::empty(),
    {
        SourceSet { files: Vec::new() }
    }

    /// Adds a source, replacing any earlier one of the same name.
    pub fn insert(&mut self, name: String, content: String)
        ensures
            final(self).spec_map() == old(self).spec_map().insert(name@, content@),
    {
        self.files.push(SourceFile { name, content });
        proof {
            assert(self.files@.drop_last() =~= old(self).files@);
        }
    }

    /// The content filed under `name`.
    pub fn lookup(&self, name: &str) -> (r: Option<&String>)
        ensures
            match r {
                Some(c) => self.spec_map().contains_key(name@) && self.spec_map()[name@] == c@,
                None => !self.spec_map().contains_key(name@),
            },
    {
        let mut i: usize = self.files.len();
        proof {
            assert(self.files@.take(i as int) =~= self.files@);
        }
        while i > 0
            invariant
                i <= self.files@.len(),
                self.spec_map().contains_key(name@) == files_map(self.files@.take(i as int)).contains_key(name@),
                self.spec_map().contains_key(name@) ==> self.spec_map()[name@] == files_map(
                    self.files@.take(i as int),
                )[name@],
            decreases i,
        {
            proof {
                assert(self.files@.take(i as int).drop_last() =~= self.files@.take(i - 1));
                assert(self.files@.take(i as int).last() == self.files@[i - 1]);
            }
            let f = &self.files[i - 1];
            if str_eq(f.name.as_str(), name) {
                return Some(&f.content);
            }
            i -= 1;
        }
        proof {
            assert(self.files@.take(0) =~= Seq::<SourceFile>::empty());
        }
        None
    }

    /// How many sources stand in the set, shadowed entries included.
    pub fn count(&self) -> (r: usize)
        ensures
            r == self.spec_count(),
            self.spec_map().dom().finite(),
            self.spec_map().dom().len() <= r,
    {
        proof {
            lemma_files_map_finite(self.files@);
        }
        self.files.len()
    }
}

// ------------------------------------------------------------------
// The merged unit and its spec-level model
// ------------------------------------------------------------------
/// Where a merged output line came from: a source name and a 1-based line
/// number within that source.
#[derive(Debug, Clone, PartialEq)]
pub struct LineOrigin {
    pub file: String,
    pub line: usize,
}

/// One reflected uniform declaration, in source order.
#[derive(Debug, Clone, PartialEq)]
pub struct TranspiledUniform {
    pub name: String,
    pub ty: String,
}

/// The result of one expansion: the merged lines, the per-line origin map of
/// the same length, the files that entered in inclusion order, and the
/// uniform declarations seen on emitted lines.
#[derive(Debug, Clone, PartialEq)]
pub struct MergedUnit {
    pub lines: Vec<String>,
    pub line_map: Vec<LineOrigin>,
    pub included_files: Vec<String>,
    pub uniforms: Vec<TranspiledUniform>,
}

/// The spec-level image of a merged unit.
#[verifier::ext_equal]
pub struct UnitModel {
    pub lines: Seq<Seq<char>>,
    pub line_map: Seq<(Seq<char>, int)>,
    pub included_files: Seq<Seq<char>>,
    pub uniforms: Seq<(Seq<char>, Seq<char>)>,
}

impl View for MergedUnit {
    type V = UnitModel;

    open spec fn view(&self) -> UnitModel {
        UnitModel {
            lines: self.lines@.map_values(|l: String| l@),
            line_map: self.line_map@.map_values(|e: LineOrigin| (e.file@, e.line as int)),
            included_files: self.included_files@.map_values(|f: String| f@),
            uniforms: self.uniforms@.map_values(|u: TranspiledUniform| (u.name@, u.ty@)),
        }
    }
}

impl MergedUnit {
    pub fn new() -> (r: MergedUnit)
        ensures
            r@ =~= empty_unit(),
    {
        MergedUnit {
            lines: Vec::new(),
            line_map: Vec::new(),
            included_files: Vec::new(),
            uniforms: Vec::new(),
        }
    }

    /// The merged text: every line followed by a line break.
    pub fn merged_text(&self) -> (r: String)
        ensures
            r@ == merged_text_of(self@.lines),
    {
        let mut out = String::new();
        let mut i: usize = 0;
        while i < self.lines.len()
            invariant
                i <= self.lines@.len(),
                out@ == merged_text_of(self@.lines.take(i as int)),
            decreases self.lines@.len() - i,
        {
            out.append(self.lines[i].as_str());
            out.append("\n");
            proof {
                assert(self@.lines.take(i + 1).drop_last() =~= self@.lines.take(i as int));
                assert(self@.lines.take(i + 1).last() == self@.lines[i as int]);
            }
            i += 1;
        }
        proof {
            assert(self@.lines.take(self.lines@.len() as int) =~= self@.lines);
        }
        out
    }
}

/// The text a sequence of lines merges into.
pub open spec fn merged_text_of(lines: Seq<Seq<char>>) -> Seq<char>
    decreases lines.len(),
{
    if lines.len() == 0 {
        Seq::empty()
    } else {
        merged_text_of(lines.drop_last()) + lines.last() + "\n"@
    }
}

pub open spec fn empty_unit() -> UnitModel {
    UnitModel {
        lines: Seq::empty(),
        line_map: Seq::empty(),
        included_files: Seq::empty(),
        uniforms: Seq::empty(),
    }
}

/// Why an expansion failed.
#[derive(Debug, Clone, PartialEq)]
pub enum PreprocessError {
    /// The named file is not in the source set.
    NotFound(String),
    /// The named file was about to enter the unit a second time.
    DuplicateInclude(String),
}

/// The spec-level outcome of an expansion. `TooDeep` marks exhaustion of the
/// recursion allowance; `preprocess_spec` grants enough for any source set,
/// so the pipeline never returns it (`lemma_preprocess_total`).
pub enum PpResult {
    Done(UnitModel),
    Missing(Seq<char>),
    Repeated(Seq<char>),
    TooDeep,
}

/// A line's contribution to the unit when it is emitted: the line itself, an
/// origin entry, and its uniform declaration when it is not commented out.
pub open spec fn emit_line(u: UnitModel, file: Seq<char>, lno: int, line: Seq<char>) -> UnitModel {
    let grown = UnitModel {
        lines: u.lines.push(line),
        line_map: u.line_map.push((file, lno)),
        ..u
    };
    if !is_commented(line) && uniform_decl_of(line) is Some {
        UnitModel { uniforms: u.uniforms.push(uniform_decl_of(line)->Some_0), ..grown }
    } else {
        grown
    }
}

/// Expansion of one file: reject a repeat entry or a missing file, then walk
/// its lines.
pub open spec fn expand_spec(
    sources: Map<Seq<char>, Seq<char>>,
    depth: nat,
    path: Seq<char>,
    u: UnitModel,
) -> PpResult
    decreases depth, 1int, 0int,
{
    if u.included_files.contains(path) {
        PpResult::Repeated(path)
    } else if !sources.contains_key(path) {
        PpResult::Missing(path)
    } else {
        let entered = UnitModel { included_files: u.included_files.push(path), ..u };
        lines_spec(sources, depth, path, lines_of(sources[path]), 0, false, entered)
    }
}

/// The walk over a file's lines. Ignore markers flip the flag first; a
/// directive line outside an ignore region and not commented out expands the
/// named file in place (and is itself not emitted); every other line is
/// emitted — so directive lines under an ignore region or behind `//` land
/// in the output verbatim, with a line-map entry of their own.
pub open spec fn lines_spec(
    sources: Map<Seq<char>, Seq<char>>,
    depth: nat,
    path: Seq<char>,
    lines: Seq<Seq<char>>,
    i: int,
    ignore: bool,
    u: UnitModel,
) -> PpResult
    decreases depth, 0int, lines.len() - i,
{
    if i < 0 || i >= lines.len() {
        PpResult::Done(u)
    } else {
        let line = lines[i];
        let ig = step_ignore(ignore, line);
        if directive_path_of(line) is Some && !ig && !is_commented(line) {
            if depth == 0 {
                PpResult::TooDeep
            } else {
                let child = spec_resolve(path, directive_path_of(line)->Some_0);
                match expand_spec(sources, (depth - 1) as nat, child, u) {
                    PpResult::Done(u2) => lines_spec(sources, depth, path, lines, i + 1, ig, u2),
                    e => e,
                }
            }
        } else {
            lines_spec(sources, depth, path, lines, i + 1, ig, emit_line(u, path, i + 1, line))
        }
    }
}

/// The whole pipeline on a source set: expansion from the entry file with a
/// recursion allowance no acyclic unit can exhaust.
pub open spec fn preprocess_spec(sources: Map<Seq<char>, Seq<char>>, entry: Seq<char>) -> PpResult {
    expand_spec(sources, sources.dom().len() + 1, entry, empty_unit())
}

// ------------------------------------------------------------------
// Soundness of the model
// ------------------------------------------------------------------
/// What holds of every unit the expansion builds: map and lines aligned,
/// each origin entry naming a real source line that the output repeats
/// verbatim, and the entered files distinct and present.
pub open spec fn unit_wf(sources: Map<Seq<char>, Seq<char>>, u: UnitModel) -> bool {
    &&& u.lines.len() == u.line_map.len()
    &&& u.included_files.no_duplicates()
    &&& forall|k: int|
        0 <= k < u.included_files.len() ==> sources.contains_key(#[trigger] u.included_files[k])
    &&& forall|k: int|
        0 <= k < u.line_map.len() ==> {
            &&& sources.contains_key((#[trigger] u.line_map[k]).0)
            &&& 1 <= u.line_map[k].1 <= lines_of(sources[u.line_map[k].0]).len()
            &&& u.lines[k] == lines_of(sources[u.line_map[k].0])[u.line_map[k].1 - 1]
        }
}

/// How many sources have not yet entered the unit.
pub open spec fn rem_count(sources: Map<Seq<char>, Seq<char>>, u: UnitModel) -> nat {
    sources.dom().difference(u.included_files.to_set()).len()
}

proof fn lemma_push_to_set(s: Seq<Seq<char>>, x: Seq<char>)
    ensures
        s.push(x).to_set() =~= s.to_set().insert(x),
{
    assert forall|y: Seq<char>| s.push(x).contains(y) implies s.contains(y) || y == x by {
        let i = choose|i: int| 0 <= i < s.push(x).len() && s.push(x)[i] == y;
        if i < s.len() {
            assert(s[i] == y);
        }
    }
    assert forall|y: Seq<char>| s.contains(y) implies s.push(x).contains(y) by {
        let i = choose|i: int| 0 <= i < s.len() && s[i] == y;
        assert(s.push(x)[i] == y);
    }
    assert(s.push(x)[s.len() as int] == x);
}

proof fn lemma_prefix_set_subset(a: Seq<Seq<char>>, b: Seq<Seq<char>>)
    requires
        a.is_prefix_of(b),
    ensures
        a.to_set().subset_of(b.to_set()),
{
    assert forall|x: Seq<char>| a.to_set().contains(x) implies b.to_set().contains(x) by {
        let i = choose|i: int| 0 <= i < a.len() && a[i] == x;
        assert(b[i] == x);
    }
}

/// Expansion only grows the unit, keeps it well formed, and records the
/// entered file.
pub proof fn lemma_expand_props(
    sources: Map<Seq<char>, Seq<char>>,
    depth: nat,
    path: Seq<char>,
    u: UnitModel,
)
    requires
        unit_wf(sources, u),
    ensures
        match expand_spec(sources, depth, path, u) {
            PpResult::Done(u2) => {
                &&& unit_wf(sources, u2)
                &&& u.included_files.is_prefix_of(u2.included_files)
                &&& u2.included_files.contains(path)
                &&& !u.included_files.contains(path)
                &&& sources.contains_key(path)
            },
            _ => true,
        },
    decreases depth, 1int, 0int,
{
    if !u.included_files.contains(path) && sources.contains_key(path) {
        let entered = UnitModel { included_files: u.included_files.push(path), ..u };
        assert(unit_wf(sources, entered));
        lemma_lines_props(sources, depth, path, lines_of(sources[path]), 0, false, entered);
        match expand_spec(sources, depth, path, u) {
            PpResult::Done(u2) => {
                assert(entered.included_files[u.included_files.len() as int] == path);
            },
            _ => {},
        }
    }
}

/// The line walk only grows the unit and keeps it well formed.
pub proof fn lemma_lines_props(
    sources: Map<Seq<char>, Seq<char>>,
    depth: nat,
    path: Seq<char>,
    lines: Seq<Seq<char>>,
    i: int,
    ignore: bool,
    u: UnitModel,
)
    requires
        unit_wf(sources, u),
        sources.contains_key(path),
        lines == lines_of(sources[path]),
    ensures
        match lines_spec(sources, depth, path, lines, i, ignore, u) {
            PpResult::Done(u2) => {
                &&& unit_wf(sources, u2)
                &&& u.included_files.is_prefix_of(u2.included_files)
            },
            _ => true,
        },
    decreases depth, 0int, lines.len() - i,
{
    if 0 <= i < lines.len() {
        let line = lines[i];
        let ig = step_ignore(ignore, line);
        if directive_path_of(line) is Some && !ig && !is_commented(line) {
            if depth > 0 {
                let child = spec_resolve(path, directive_path_of(line)->Some_0);
                lemma_expand_props(sources, (depth - 1) as nat, child, u);
                match expand_spec(sources, (depth - 1) as nat, child, u) {
                    PpResult::Done(u2) => {
                        lemma_lines_props(sources, depth, path, lines, i + 1, ig, u2);
                    },
                    _ => {},
                }
            }
        } else {
            let grown = emit_line(u, path, i + 1, line);
            assert(unit_wf(sources, grown));
            lemma_lines_props(sources, depth, path, lines, i + 1, ig, grown);
        }
    }
}

/// After a file enters the unit, strictly fewer sources remain outside it.
proof fn lemma_rem_after_child(
    sources: Map<Seq<char>, Seq<char>>,
    u: UnitModel,
    u2: UnitModel,
    child: Seq<char>,
)
    requires
        sources.dom().finite(),
        u.included_files.is_prefix_of(u2.included_files),
        u2.included_files.contains(child),
        !u.included_files.contains(child),
        sources.contains_key(child),
    ensures
        rem_count(sources, u2) < rem_count(sources, u),
{
    lemma_prefix_set_subset(u.included_files, u2.included_files);
    assert(u2.included_files.to_set().contains(child));
    assert(sources.dom().difference(u2.included_files.to_set()).subset_of(
        sources.dom().difference(u.included_files.to_set()).remove(child),
    ));
    vstd::set::axiom_set_remove_len(
        sources.dom().difference(u.included_files.to_set()),
        child,
    );
    lemma_len_subset(
        sources.dom().difference(u2.included_files.to_set()),
        sources.dom().difference(u.included_files.to_set()).remove(child),
    );
}

/// With an allowance of at least the number of sources still outside the
/// unit, expansion never runs out of depth.
pub proof fn lemma_expand_depth(
    sources: Map<Seq<char>, Seq<char>>,
    depth: nat,
    path: Seq<char>,
    u: UnitModel,
)
    requires
        unit_wf(sources, u),
        sources.dom().finite(),
        depth >= rem_count(sources, u),
    ensures
        !(expand_spec(sources, depth, path, u) is TooDeep),
    decreases depth, 1int, 0int,
{
    if !u.included_files.contains(path) && sources.contains_key(path) {
        let entered = UnitModel { included_files: u.included_files.push(path), ..u };
        assert(unit_wf(sources, entered));
        lemma_push_to_set(u.included_files, path);
        sources.dom().lemma_set_insert_diff_decreases(u.included_files.to_set(), path);
        lemma_lines_depth(sources, depth, path, lines_of(sources[path]), 0, false, entered);
    }
}

/// The companion bound for the line walk: a strict reserve of depth covers
/// every expansion the remaining lines can demand.
pub proof fn lemma_lines_depth(
    sources: Map<Seq<char>, Seq<char>>,
    depth: nat,
    path: Seq<char>,
    lines: Seq<Seq<char>>,
    i: int,
    ignore: bool,
    u: UnitModel,
)
    requires
        unit_wf(sources, u),
        sources.dom().finite(),
        depth > rem_count(sources, u),
        sources.contains_key(path),
        lines == lines_of(sources[path]),
    ensures
        !(lines_spec(sources, depth, path, lines, i, ignore, u) is TooDeep),
    decreases depth, 0int, lines.len() - i,
{
    if 0 <= i < lines.len() {
        let line = lines[i];
        let ig = step_ignore(ignore, line);
        if directive_path_of(line) is Some && !ig && !is_commented(line) {
            let child = spec_resolve(path, directive_path_of(line)->Some_0);
            lemma_expand_depth(sources, (depth - 1) as nat, child, u);
            lemma_expand_props(sources, (depth - 1) as nat, child, u);
            match expand_spec(sources, (depth - 1) as nat, child, u) {
                PpResult::Done(u2) => {
                    lemma_rem_after_child(sources, u, u2, child);
                    lemma_lines_depth(sources, depth, path, lines, i + 1, ig, u2);
                },
                _ => {},
            }
        } else {
            let grown = emit_line(u, path, i + 1, line);
            assert(unit_wf(sources, grown));
            assert(grown.included_files.to_set() =~= u.included_files.to_set());
            lemma_lines_depth(sources, depth, path, lines, i + 1, ig, grown);
        }
    }
}

/// The pipeline's allowance is always enough: the spec never answers
/// `TooDeep` on a finite source set.
pub proof fn lemma_preprocess_total(sources: Map<Seq<char>, Seq<char>>, entry: Seq<char>)
    requires
        sources.dom().finite(),
    ensures
        !(preprocess_spec(sources, entry) is TooDeep),
{
    assert(empty_unit().included_files.to_set() =~= Set::<Seq<char>>::empty());
    assert(sources.dom().difference(empty_unit().included_files.to_set()) =~= sources.dom());
    lemma_expand_depth(sources, sources.dom().len() + 1, entry, empty_unit());
}

// ------------------------------------------------------------------
// The executable pipeline
// ------------------------------------------------------------------
/// Whether `s` stands among the names.
fn names_contain(v: &Vec<String>, s: &str) -> (r: bool)
    ensures
        r == v@.map_values(|x: String| x@).contains(s@),
{
    let ghost names = v@.map_values(|x: String| x@);
    let mut i: usize = 0;
    while i < v.len()
        invariant
            i <= v@.len(),
            names == v@.map_values(|x: String| x@),
            forall|j: int| 0 <= j < i ==> names[j] != s@,
        decreases v@.len() - i,
    {
        if str_eq(v[i].as_str(), s) {
            proof {
                assert(names[i as int] == s@);
            }
            return true;
        }
        i += 1;
    }
    proof {
        if names.contains(s@) {
            let j = choose|j: int| 0 <= j < names.len() && names[j] == s@;
        }
    }
    false
}

/// Expands one file into the unit built so far. The ghost `depth` threads
/// the same recursion allowance the spec uses; the callers' bound shows it
/// is never exhausted.
#[verifier::loop_isolation(false)]
fn expand_file(
    logger: &mut HTMLLogger,
    sources: &SourceSet,
    path: &str,
    unit: MergedUnit,
    Ghost(depth): Ghost<nat>,
) -> (r: Result<MergedUnit, PreprocessError>)
    requires
        old(logger).wf(),
        unit_wf(sources.spec_map(), unit@),
        sources.spec_map().dom().finite(),
        depth >= rem_count(sources.spec_map(), unit@),
    ensures
        final(logger).wf(),
        match r {
            Ok(u2) => expand_spec(sources.spec_map(), depth, path@, unit@) == PpResult::Done(u2@),
            Err(PreprocessError::NotFound(p)) => expand_spec(sources.spec_map(), depth, path@, unit@)
                == PpResult::Missing(p@),
            Err(PreprocessError::DuplicateInclude(p)) => expand_spec(
                sources.spec_map(),
                depth,
                path@,
                unit@,
            ) == PpResult::Repeated(p@),
        },
    decreases depth,
{
    let ghost m = sources.spec_map();
    let ghost u0 = unit@;
    let mut unit = unit;

    let msg = "Including ".cyan().plus(quoted(path).magenta());
    logger.info(msg.as_str());

    // a file may enter the unit only once
    if names_contain(&unit.included_files, path) {
        return Err(PreprocessError::DuplicateInclude(String::from_str(path)));
    }

    // the file must stand in the source set
    let content = match sources.lookup(path) {
        Some(content) => content,
        None => {
            return Err(PreprocessError::NotFound(String::from_str(path)));
        },
    };

    unit.included_files.push(String::from_str(path));
    let ghost entered = UnitModel { included_files: u0.included_files.push(path@), ..u0 };
    proof {
        assert(unit@ =~= entered);
        assert(unit_wf(m, entered));
        lemma_push_to_set(u0.included_files, path@);
        m.dom().lemma_set_insert_diff_decreases(u0.included_files.to_set(), path@);
    }

    let lines = split_lines(content.as_str());
    let ghost ls = lines@.map_values(|l: String| l@);
    let ghost target = lines_spec(m, depth, path@, ls, 0, false, entered);
    proof {
        assert(expand_spec(m, depth, path@, u0) == target);
    }

    let mut ignore = false;
    let mut i: usize = 0;
    while i < lines.len()
        invariant
            logger.wf(),
            i <= lines@.len(),
            m == sources.spec_map(),
            m.dom().finite(),
            m.contains_key(path@),
            ls == lines@.map_values(|l: String| l@),
            ls == lines_of(m[path@]),
            unit_wf(m, unit@),
            depth > rem_count(m, unit@),
            lines_spec(m, depth, path@, ls, i as int, ignore, unit@) == target,
        decreases lines@.len() - i,
    {
        let line = &lines[i];
        let ghost lv = ls[i as int];
        let ig = update_ignore(ignore, line.as_str());
        let dir = directive_path(line.as_str());
        let comm = commented(line.as_str());
        if dir.is_some() && !ig && !comm {
            proof {
                assert(depth > 0);
            }
            let rel = dir.unwrap();
            let child = resolve(path, rel.as_str());
            let ghost before = unit@;
            match expand_file(logger, sources, child.as_str(), unit, Ghost((depth - 1) as nat)) {
                Ok(u2) => {
                    proof {
                        lemma_expand_props(m, (depth - 1) as nat, child@, before);
                        lemma_rem_after_child(m, before, u2@, child@);
                    }
                    unit = u2;
                },
                Err(e) => {
                    proof {
                        assert(lines_spec(m, depth, path@, ls, i as int, ignore, before)
                            == expand_spec(m, (depth - 1) as nat, child@, before));
                    }
                    return Err(e);
                },
            }
        } else {
            let ghost before = unit@;
            unit.lines.push(line.clone());
            unit.line_map.push(LineOrigin { file: String::from_str(path), line: i + 1 });
            if !comm {
                match uniform_decl(line.as_str()) {
                    Some((name, ty)) => {
                        unit.uniforms.push(TranspiledUniform { name, ty });
                    },
                    None => {},
                }
            }
            proof {
                assert(unit@ =~= emit_line(before, path@, i + 1, lv));
                assert(unit_wf(m, unit@));
                assert(unit@.included_files.to_set() =~= before.included_files.to_set());
            }
        }
        ignore = ig;
        i += 1;
    }
    proof {
        assert(target == PpResult::Done(unit@));
    }
    Ok(unit)
}

/// Processes a shader file: expands it against the source set and hands back
/// the merged unit, or the error that stopped the expansion. The outcome is
/// exactly `preprocess_spec` on the set's map — a pure function of the
/// sources and the entry name — and a returned unit is well formed: its line
/// map runs parallel to its lines and each entry names a real line of a real
/// source that the output repeats verbatim.
pub fn process_shader(
    logger: &mut HTMLLogger,
    sources: &SourceSet,
    file_name: &str,
) -> (r: Result<MergedUnit, PreprocessError>)
    requires
        old(logger).wf(),
    ensures
        final(logger).wf(),
        match r {
            Ok(unit) => {
                &&& preprocess_spec(sources.spec_map(), file_name@) == PpResult::Done(unit@)
                &&& unit_wf(sources.spec_map(), unit@)
                &&& unit@.line_map.len() == unit@.lines.len()
            },
            Err(PreprocessError::NotFound(p)) => preprocess_spec(sources.spec_map(), file_name@)
                == PpResult::Missing(p@),
            Err(PreprocessError::DuplicateInclude(p)) => preprocess_spec(
                sources.spec_map(),
                file_name@,
            ) == PpResult::Repeated(p@),
        },
{
    let ghost m = sources.spec_map();
    // the count is not needed, but it establishes that the set's map is finite
    let _ = sources.count();
    proof {
        assert(empty_unit().included_files.to_set() =~= Set::<Seq<char>>::empty());
        assert(m.dom().difference(empty_unit().included_files.to_set()) =~= m.dom());
    }

    logger.open_scope("Processing ".yellow().as_str());
    let unit0 = MergedUnit::new();
    let r = expand_file(logger, sources, file_name, unit0, Ghost(m.dom().len() + 1));
    match r {
        Ok(unit) => {
            proof {
                lemma_expand_props(m, m.dom().len() + 1, file_name@, empty_unit());
            }
            if unit.uniforms.len() > 0 {
                logger.open_scope("Uniforms".yellow().as_str());
                let mut k: usize = 0;
                while k < unit.uniforms.len()
                    invariant
                        logger.wf(),
                    decreases unit.uniforms@.len() - k,
                {
                    let u = &unit.uniforms[k];
                    let msg = quoted(u.name.as_str()).magenta().plus(": ".cyan()).plus(
                        u.ty.green(),
                    );
                    logger.info(msg.as_str());
                    k += 1;
                }
                logger.close_scope();
            } else {
                let msg = "! ".cyan().plus("No Uniforms".yellow()).plus(" !".cyan());
                logger.log(msg.as_str());
            }
            logger.close_scope();
            Ok(unit)
        },
        Err(e) => Err(e),
    }
}

/// The other front door of the same pipeline: expands a shader file and
/// returns the merged unit under the name the transpiling callers use.
pub fn transpile_shader(
    logger: &mut HTMLLogger,
    sources: &SourceSet,
    file_name: &str,
) -> (r: Result<MergedUnit, PreprocessError>)
    requires
        old(logger).wf(),
    ensures
        final(logger).wf(),
        match r {
            Ok(unit) => {
                &&& preprocess_spec(sources.spec_map(), file_name@) == PpResult::Done(unit@)
                &&& unit_wf(sources.spec_map(), unit@)
                &&& unit@.line_map.len() == unit@.lines.len()
            },
            Err(PreprocessError::NotFound(p)) => preprocess_spec(sources.spec_map(), file_name@)
                == PpResult::Missing(p@),
            Err(PreprocessError::DuplicateInclude(p)) => preprocess_spec(
                sources.spec_map(),
                file_name@,
            ) == PpResult::Repeated(p@),
        },
{
    process_shader(logger, sources, file_name)
}

/// A line inside an ignore region that looks like an expansion directive is
/// emitted verbatim — it lands in the merged output with a line-map entry of
/// its own, the walk simply moves on, and nothing is expanded.
pub proof fn lemma_ignored_directive_emitted(
    sources: Map<Seq<char>, Seq<char>>,
    depth: nat,
    path: Seq<char>,
    lines: Seq<Seq<char>>,
    i: int,
    ignore: bool,
    u: UnitModel,
)
    requires
        0 <= i < lines.len(),
        directive_path_of(lines[i]) is Some,
        step_ignore(ignore, lines[i]),
    ensures
        lines_spec(sources, depth, path, lines, i, ignore, u) == lines_spec(
            sources,
            depth,
            path,
            lines,
            i + 1,
            step_ignore(ignore, lines[i]),
            emit_line(u, path, i + 1, lines[i]),
        ),
        emit_line(u, path, i + 1, lines[i]).lines == u.lines.push(lines[i]),
        emit_line(u, path, i + 1, lines[i]).line_map == u.line_map.push((path, i + 1)),
        emit_line(u, path, i + 1, lines[i]).included_files == u.included_files,
{
}

/// A unit the pipeline hands back never lists a file twice: a second entry
/// of any file is rejected before it can contribute anything.
pub proof fn lemma_unit_files_distinct(sources: Map<Seq<char>, Seq<char>>, entry: Seq<char>)
    ensures
        match preprocess_spec(sources, entry) {
            PpResult::Done(u) => u.included_files.no_duplicates(),
            _ => true,
        },
{
    lemma_expand_props(sources, sources.dom().len() + 1, entry, empty_unit());
}

/// Re-running the pipeline on unchanged sources gives the identical merged
/// output, line map, inclusion order and declarations: the outcome is a
/// function of the sources and the entry name alone.
pub proof fn lemma_preprocess_deterministic(
    sources1: Map<Seq<char>, Seq<char>>,
    sources2: Map<Seq<char>, Seq<char>>,
    entry1: Seq<char>,
    entry2: Seq<char>,
)
    requires
        sources1 == sources2,
        entry1 == entry2,
    ensures
        preprocess_spec(sources1, entry1) == preprocess_spec(sources2, entry2),
{
}

} // verus!
