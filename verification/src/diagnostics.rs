//! Mapping compiler diagnostics back onto the original files. The compiler
//! only ever sees the merged unit, so its error lines carry merged line
//! numbers; the unit's line map is the sole translation point back to
//! per-file, file-local line numbers.

use vstd::prelude::*;

use crate::preprocess::{MergedUnit, UnitModel};
use crate::syntax::{diag_of, parse_diag_line};
use crate::text::{lines_of, split_lines, str_eq};

verus! {

/// One translated diagnostic: a file-local 1-based line and the message.
#[derive(Debug, Clone, PartialEq)]
pub struct DiagEntry {
    pub line: usize,
    pub message: String,
}

/// All diagnostics that map into one file, in log order.
#[derive(Debug, Clone, PartialEq)]
pub struct FileDiagnostics {
    pub file: String,
    pub entries: Vec<DiagEntry>,
}

/// The `(merged line, message)` pairs the log's lines yield, in order; a
/// line that does not match the error grammar is skipped, as is a merged
/// line number that the line map cannot hold.
pub open spec fn kept_entries(lines: Seq<Seq<char>>, map_len: int) -> Seq<(int, Seq<char>)>
    decreases lines.len(),
{
    if lines.len() == 0 {
        Seq::empty()
    } else {
        let rest = kept_entries(lines.drop_last(), map_len);
        match diag_of(lines.last()) {
            Some(e) => if 1 <= e.0 <= map_len {
                rest.push((e.0 as int, e.1))
            } else {
                rest
            },
            None => rest,
        }
    }
}

/// The entries whose merged line originates in `f`, rewritten to `f`-local
/// line numbers, in log order.
pub open spec fn entries_for(
    entries: Seq<(int, Seq<char>)>,
    line_map: Seq<(Seq<char>, int)>,
    f: Seq<char>,
) -> Seq<(int, Seq<char>)>
    decreases entries.len(),
{
    if entries.len() == 0 {
        Seq::empty()
    } else {
        let rest = entries_for(entries.drop_last(), line_map, f);
        let e = entries.last();
        if line_map[e.0 - 1].0 == f {
            rest.push((line_map[e.0 - 1].1, e.1))
        } else {
            rest
        }
    }
}

/// The translated diagnostics grouped by originating file, in the order the
/// files entered the unit; a file without diagnostics contributes no group.
pub open spec fn grouped_diags(
    included: Seq<Seq<char>>,
    entries: Seq<(int, Seq<char>)>,
    line_map: Seq<(Seq<char>, int)>,
) -> Seq<(Seq<char>, Seq<(int, Seq<char>)>)>
    decreases included.len(),
{
    if included.len() == 0 {
        Seq::empty()
    } else {
        let rest = grouped_diags(included.drop_last(), entries, line_map);
        let f = included.last();
        let g = entries_for(entries, line_map, f);
        if g.len() > 0 {
            rest.push((f, g))
        } else {
            rest
        }
    }
}

/// What mapping a raw log against a unit yields.
pub open spec fn map_diagnostics_spec(log: Seq<char>, u: UnitModel) -> Seq<
    (Seq<char>, Seq<(int, Seq<char>)>),
> {
    grouped_diags(
        u.included_files,
        kept_entries(lines_of(log), u.line_map.len() as int),
        u.line_map,
    )
}

/// Translates a compiler log against a merged unit: each error line's merged
/// line number is looked up in the unit's line map and rewritten to the
/// originating file and file-local line, and the results are grouped by file
/// in inclusion order. Log lines outside the error grammar, and merged line
/// numbers outside the map, are skipped rather than treated as errors.
#[verifier::loop_isolation(false)]
pub fn map_diagnostics(log: &str, unit: &MergedUnit) -> (r: Vec<FileDiagnostics>)
    ensures
        r@.map_values(
            |d: FileDiagnostics|
                (d.file@, d.entries@.map_values(|e: DiagEntry| (e.line as int, e.message@))),
        ) == map_diagnostics_spec(log@, unit@),
{
    let ghost u = unit@;
    let map_len = unit.line_map.len();
    let log_lines = split_lines(log);
    let ghost ls = log_lines@.map_values(|l: String| l@);

    // parse the raw log into in-range (merged line, message) pairs
    let mut kept: Vec<(usize, String)> = Vec::new();
    let ghost kview = |v: Vec<(usize, String)>| v@.map_values(|e: (usize, String)| (e.0 as int, e.1@));
    let mut i: usize = 0;
    proof {
        assert(ls.take(0) =~= Seq::<Seq<char>>::empty());
        assert(kview(kept) =~= Seq::<(int, Seq<char>)>::empty());
    }
    while i < log_lines.len()
        invariant
            i <= ls.len(),
            kview(kept) == kept_entries(ls.take(i as int), map_len as int),
            forall|k: int| 0 <= k < kept@.len() ==> 1 <= (#[trigger] kept@[k]).0 <= map_len,
        decreases ls.len() - i,
    {
        proof {
            assert(ls.take(i + 1).drop_last() =~= ls.take(i as int));
            assert(ls.take(i + 1).last() == ls[i as int]);
        }
        let ghost prev = kview(kept);
        match parse_diag_line(log_lines[i].as_str()) {
            Some((v, m)) => {
                if 1 <= v && v <= map_len {
                    kept.push((v, m));
                    proof {
                        assert(kview(kept) =~= prev.push((v as int, m@)));
                    }
                }
            },
            None => {
                proof {
                    if diag_of(ls[i as int]) is Some {
                        assert((diag_of(ls[i as int])->0).0 > usize::MAX);
                        assert(unit.line_map@.len() <= usize::MAX);
                    }
                }
            },
        }
        i += 1;
    }
    proof {
        assert(ls.take(ls.len() as int) =~= ls);
    }

    // group by originating file, in inclusion order
    let ghost entries = kview(kept);
    let ghost lm = u.line_map;
    let mut out: Vec<FileDiagnostics> = Vec::new();
    let ghost oview = |v: Vec<FileDiagnostics>|
        v@.map_values(
            |d: FileDiagnostics|
                (d.file@, d.entries@.map_values(|e: DiagEntry| (e.line as int, e.message@))),
        );
    let mut fi: usize = 0;
    proof {
        assert(u.included_files.take(0) =~= Seq::<Seq<char>>::empty());
        assert(oview(out) =~= Seq::<(Seq<char>, Seq<(int, Seq<char>)>)>::empty());
    }
    while fi < unit.included_files.len()
        invariant
            fi <= u.included_files.len(),
            oview(out) == grouped_diags(u.included_files.take(fi as int), entries, lm),
        decreases u.included_files.len() - fi,
    {
        proof {
            assert(u.included_files.take(fi + 1).drop_last() =~= u.included_files.take(fi as int));
            assert(u.included_files.take(fi + 1).last() == u.included_files[fi as int]);
        }
        let f = &unit.included_files[fi];
        let ghost fv = u.included_files[fi as int];
        let mut es: Vec<DiagEntry> = Vec::new();
        let ghost eview = |v: Vec<DiagEntry>| v@.map_values(|e: DiagEntry| (e.line as int, e.message@));
        let mut j: usize = 0;
        proof {
            assert(entries.take(0) =~= Seq::<(int, Seq<char>)>::empty());
            assert(eview(es) =~= Seq::<(int, Seq<char>)>::empty());
        }
        while j < kept.len()
            invariant
                j <= kept@.len(),
                eview(es) == entries_for(entries.take(j as int), lm, fv),
                fi < u.included_files.len(),
                fv == u.included_files[fi as int],
            decreases kept@.len() - j,
        {
            proof {
                assert(entries.take(j + 1).drop_last() =~= entries.take(j as int));
                assert(entries.take(j + 1).last() == entries[j as int]);
            }
            let ghost prev_es = eview(es);
            let v = kept[j].0;
            let origin = &unit.line_map[v - 1];
            if str_eq(origin.file.as_str(), f.as_str()) {
                es.push(DiagEntry { line: origin.line, message: String::from_str(kept[j].1.as_str()) });
                proof {
                    assert(eview(es) =~= prev_es.push((lm[entries[j as int].0 - 1].1, entries[j as int].1)));
                }
            }
            j += 1;
        }
        proof {
            assert(entries.take(entries.len() as int) =~= entries);
        }
        let ghost prev_out = oview(out);
        if es.len() > 0 {
            let group = FileDiagnostics { file: String::from_str(f.as_str()), entries: es };
            out.push(group);
            proof {
                assert(oview(out) =~= prev_out.push((fv, entries_for(entries, lm, fv))));
            }
        }
        fi += 1;
    }
    proof {
        assert(u.included_files.take(u.included_files.len() as int) =~= u.included_files);
    }
    out
}

} // verus!
