//! The cell scanner.
//!
//! [`search_notebook`] walks a notebook's cells in order, skips cells whose
//! type is not configured, runs the line matcher over each remaining cell's
//! source and over its eligible outputs, and returns every match tagged with
//! where it came from (cell index, execution count, and whether it was found
//! in source, textual output, or opaque output data), together with one
//! recoverable issue per output payload whose shape is wrong. The functions
//! [`notebook_results`], [`cell_results`] and their helpers pin the whole
//! stream down.

use vstd::prelude::*;

verus! {

use crate::json::{
    convert_output_nontext_data, convert_output_text_data, nontext_data_spec, text_data_spec,
    ShapeError,
};
use crate::matcher::{
    build_src_ref, keep_line, match_lines_spec, search_nontext_data, search_text_lines,
    MatchedLine, MatchedLineV,
};
use crate::notebook::{Cell, CellV, DataEntryV, Notebook, Output, OutputV};
use crate::options::SearchOptions;
use crate::strutil::{contains_string, seq_contains_str, str_eq};

/// Where a match was found: a cell's source, a textual output payload, or an
/// opaque (non-text) output payload.
#[derive(Clone, Copy)]
pub enum CellPiece {
    Source,
    OutputText,
    OutputData,
}

impl CellPiece {
    /// The tag word used when rendering provenance.
    pub fn name(&self) -> (r: &'static str)
        ensures
            *self is Source ==> r@ == "source"@,
            *self is OutputText ==> r@ == "output/text"@,
            *self is OutputData ==> r@ == "output/data"@,
    {
        match self {
            CellPiece::Source => "source",
            CellPiece::OutputText => "output/text",
            CellPiece::OutputData => "output/data",
        }
    }
}

/// One reported match: the matched line and its provenance.
pub struct ScanMatch {
    pub m: MatchedLine,
    pub cell_index: usize,
    pub execution_count: Option<u64>,
    pub piece: CellPiece,
}

/// The mathematical content of a [`ScanMatch`].
pub type ScanMatchV = (MatchedLineV, int, Option<u64>, CellPiece);

impl ScanMatch {
    /// The mathematical content of this match.
    pub open spec fn smv(&self) -> ScanMatchV {
        (self.m.mlv(), self.cell_index as int, self.execution_count, self.piece)
    }
}

/// One recoverable issue: an output payload whose shape did not fit its MIME
/// type, attributed to its cell and output.
pub struct ScanIssue {
    pub cell_index: usize,
    pub output_index: usize,
    pub error: ShapeError,
}

/// The mathematical content of a [`ScanIssue`].
pub type ScanIssueV = (int, int, ShapeError);

impl ScanIssue {
    /// The mathematical content of this issue.
    pub open spec fn siv(&self) -> ScanIssueV {
        (self.cell_index as int, self.output_index as int, self.error)
    }
}

/// Everything one notebook scan yields: the matches in document order, and
/// the recoverable per-output issues.
pub struct ScanOutcome {
    pub matches: Vec<ScanMatch>,
    pub issues: Vec<ScanIssue>,
}

impl ScanOutcome {
    /// Whether any match was found in this file.
    pub fn found_match(&self) -> (r: bool)
        ensures
            r == (self.matches@.len() > 0),
    {
        self.matches.len() > 0
    }
}

/// The configured output MIME types, as character sequences.
pub open spec fn output_type_views(opts: SearchOptions) -> Seq<Seq<char>> {
    opts.include_output_types@.map_values(|s: String| s@)
}

/// The configured cell types, as character sequences.
pub open spec fn cell_type_views(opts: SearchOptions) -> Seq<Seq<char>> {
    opts.include_cell_types@.map_values(|s: String| s@)
}

/// Whether a MIME type is the recognized text type.
pub open spec fn is_text_spec(mime: Seq<char>) -> bool {
    mime == "text/plain"@
}

/// Whether `datatype` is the recognized text MIME type (`text/plain`).
pub fn is_text(datatype: &str) -> (r: bool)
    ensures
        r == is_text_spec(datatype@),
{
    str_eq(datatype, "text/plain")
}

/// What one `data` entry yields: nothing when its MIME type is not
/// configured; otherwise the line-matcher results of its decoded lines (for
/// the text type), or a single opaque match (for any other type); a payload
/// of the wrong shape yields one issue instead.
pub open spec fn entry_results(opts: SearchOptions, e: DataEntryV) -> (
    Seq<MatchedLineV>,
    Seq<ShapeError>,
) {
    if !seq_contains_str(output_type_views(opts), e.0) {
        (Seq::empty(), Seq::empty())
    } else if is_text_spec(e.0) {
        match text_data_spec(e.1) {
            Ok(lines) => (match_lines_spec(opts.re@, opts.invert_match, lines), Seq::empty()),
            Err(err) => (Seq::empty(), seq![err]),
        }
    } else {
        match nontext_data_spec(e.1) {
            Ok(s) => if keep_line(opts.re@, opts.invert_match, s) {
                (seq![(s, 0int, Seq::<(int, int)>::empty(), false)], Seq::empty())
            } else {
                (Seq::empty(), Seq::empty())
            },
            Err(err) => (Seq::empty(), seq![err]),
        }
    }
}

/// What a list of `data` entries yields, in order.
pub open spec fn data_results(opts: SearchOptions, entries: Seq<DataEntryV>) -> (
    Seq<MatchedLineV>,
    Seq<ShapeError>,
)
    decreases entries.len(),
{
    if entries.len() == 0 {
        (Seq::empty(), Seq::empty())
    } else {
        let p = data_results(opts, entries.drop_last());
        let l = entry_results(opts, entries.last());
        (p.0 + l.0, p.1 + l.1)
    }
}

/// What one output yields: its `data` entries' results, then the line
/// matcher over its direct `text` lines (not gated by the MIME-type set).
pub open spec fn output_results(opts: SearchOptions, o: OutputV) -> (
    Seq<MatchedLineV>,
    Seq<ShapeError>,
) {
    let d = match o.1 {
        Some(entries) => data_results(opts, entries),
        None => (Seq::<MatchedLineV>::empty(), Seq::<ShapeError>::empty()),
    };
    let t = match o.2 {
        Some(lines) => match_lines_spec(opts.re@, opts.invert_match, lines),
        None => Seq::<MatchedLineV>::empty(),
    };
    (d.0 + t, d.1)
}

/// Tag matched lines from an output with their provenance: textual lines as
/// textual output, opaque ones as output data.
pub open spec fn tag_output(mls: Seq<MatchedLineV>, icell: int, ec: Option<u64>) -> Seq<
    ScanMatchV,
> {
    mls.map_values(
        |ml: MatchedLineV|
            (
                ml,
                icell,
                ec,
                if ml.3 {
                    CellPiece::OutputText
                } else {
                    CellPiece::OutputData
                },
            ),
    )
}

/// Tag matched source lines with their provenance.
pub open spec fn tag_source(mls: Seq<MatchedLineV>, icell: int, ec: Option<u64>) -> Seq<
    ScanMatchV,
> {
    mls.map_values(|ml: MatchedLineV| (ml, icell, ec, CellPiece::Source))
}

/// Tag an output's issues with its cell and output index.
pub open spec fn tag_issues(errs: Seq<ShapeError>, icell: int, k: int) -> Seq<ScanIssueV> {
    errs.map_values(|e: ShapeError| (icell, k, e))
}

/// What a cell's outputs yield, in order, with provenance attached.
pub open spec fn outputs_results(
    opts: SearchOptions,
    outs: Seq<OutputV>,
    icell: int,
    ec: Option<u64>,
) -> (Seq<ScanMatchV>, Seq<ScanIssueV>)
    decreases outs.len(),
{
    if outs.len() == 0 {
        (Seq::empty(), Seq::empty())
    } else {
        let p = outputs_results(opts, outs.drop_last(), icell, ec);
        let l = output_results(opts, outs.last());
        (
            p.0 + tag_output(l.0, icell, ec),
            p.1 + tag_issues(l.1, icell, outs.len() - 1),
        )
    }
}

/// What one cell yields: nothing when its type is not configured; otherwise
/// its matched source lines (when source is scanned), then its outputs'
/// results (when output scanning is enabled, that is, the output-type set is
/// non-empty).
pub open spec fn cell_results(opts: SearchOptions, c: CellV, icell: int) -> (
    Seq<ScanMatchV>,
    Seq<ScanIssueV>,
) {
    if !seq_contains_str(cell_type_views(opts), c.0) {
        (Seq::empty(), Seq::empty())
    } else {
        let src = if opts.include_source {
            tag_source(match_lines_spec(opts.re@, opts.invert_match, c.2), icell, c.1)
        } else {
            Seq::<ScanMatchV>::empty()
        };
        let outs = if output_type_views(opts).len() > 0 {
            match c.3 {
                Some(os) => outputs_results(opts, os, icell, c.1),
                None => (Seq::<ScanMatchV>::empty(), Seq::<ScanIssueV>::empty()),
            }
        } else {
            (Seq::<ScanMatchV>::empty(), Seq::<ScanIssueV>::empty())
        };
        (src + outs.0, outs.1)
    }
}

/// What a whole notebook yields: each cell's results, in document order.
pub open spec fn notebook_results(opts: SearchOptions, cells: Seq<CellV>) -> (
    Seq<ScanMatchV>,
    Seq<ScanIssueV>,
)
    decreases cells.len(),
{
    if cells.len() == 0 {
        (Seq::empty(), Seq::empty())
    } else {
        let p = notebook_results(opts, cells.drop_last());
        let l = cell_results(opts, cells.last(), cells.len() - 1);
        (p.0 + l.0, p.1 + l.1)
    }
}

/// Scan one output: its `data` entries against the configured MIME types
/// (text payloads line by line, others as opaque units), then its direct
/// `text` lines. Exactly `output_results`.
#[verifier::loop_isolation(false)]
pub fn search_output(outp: &Output, opts: &SearchOptions) -> (r: (
    Vec<MatchedLine>,
    Vec<ShapeError>,
))
    ensures
        r.0@.map_values(|m: MatchedLine| m.mlv()) == output_results(*opts, outp.ov()).0,
        r.1@ == output_results(*opts, outp.ov()).1,
{
    let mut matched_lines: Vec<MatchedLine> = Vec::new();
    let mut issues: Vec<ShapeError> = Vec::new();

    if let Some(entries) = &outp.data {
        let ghost entries_v = entries@.map_values(|e: crate::notebook::DataEntry| (e.mime@, e.value));
        proof {
            assert(entries_v.take(0) =~= Seq::<DataEntryV>::empty());
        }
        let mut k: usize = 0;
        while k < entries.len()
            invariant
                0 <= k <= entries@.len(),
                entries_v == entries@.map_values(
                    |e: crate::notebook::DataEntry| (e.mime@, e.value),
                ),
                (
                    matched_lines@.map_values(|m: MatchedLine| m.mlv()),
                    issues@,
                ) == data_results(*opts, entries_v.take(k as int)),
            decreases entries@.len() - k,
        {
            let ghost prev_m = matched_lines@;
            let ghost prev_i = issues@;
            let entry = &entries[k];
            if !contains_string(&opts.include_output_types, entry.mime.as_str()) {
                // this MIME type is not configured: skip the payload
            } else if is_text(entry.mime.as_str()) {
                match convert_output_text_data(&entry.value) {
                    Ok(lines) => {
                        let refs = build_src_ref(&lines);
                        let mut ms = search_text_lines(refs, opts);
                        matched_lines.append(&mut ms);
                    },
                    Err(err) => {
                        issues.push(err);
                    },
                }
            } else {
                match convert_output_nontext_data(&entry.value) {
                    Ok(data) => {
                        if let Some(m) = search_nontext_data(data, opts) {
                            matched_lines.push(m);
                        }
                    },
                    Err(err) => {
                        issues.push(err);
                    },
                }
            }
            proof {
                assert(entries_v.take(k + 1).drop_last() =~= entries_v.take(k as int));
                assert(entries_v.take(k + 1).last() == entries_v[k as int]);
                assert(matched_lines@.map_values(|m: MatchedLine| m.mlv()) =~= prev_m.map_values(
                    |m: MatchedLine| m.mlv(),
                ) + entry_results(*opts, entries_v[k as int]).0);
                assert(issues@ =~= prev_i + entry_results(*opts, entries_v[k as int]).1);
            }
            k += 1;
        }
        proof {
            assert(entries_v.take(entries_v.len() as int) =~= entries_v);
        }
    }

    if let Some(text_lines) = &outp.text {
        let ghost prev_m = matched_lines@;
        let ref_lines = build_src_ref(text_lines);
        let mut ms = search_text_lines(ref_lines, opts);
        matched_lines.append(&mut ms);
        proof {
            assert(matched_lines@.map_values(|m: MatchedLine| m.mlv()) =~= prev_m.map_values(
                |m: MatchedLine| m.mlv(),
            ) + match_lines_spec(opts.re@, opts.invert_match, text_lines@.map_values(
                |s: String| s@,
            )));
        }
    }

    proof {
        assert(matched_lines@.map_values(|m: MatchedLine| m.mlv()) =~= output_results(
            *opts,
            outp.ov(),
        ).0);
        assert(issues@ =~= output_results(*opts, outp.ov()).1);
    }
    (matched_lines, issues)
}

/// Scan a whole notebook: cells in document order, each against the
/// configured cell types, source first and outputs after. Exactly
/// `notebook_results`.
#[verifier::loop_isolation(false)]
#[verifier::rlimit(30)]
pub fn search_notebook(nb: &Notebook, opts: &SearchOptions) -> (r: ScanOutcome)
    ensures
        r.matches@.map_values(|sm: ScanMatch| sm.smv()) == notebook_results(*opts, nb.nv()).0,
        r.issues@.map_values(|si: ScanIssue| si.siv()) == notebook_results(*opts, nb.nv()).1,
{
    let ghost cells_v = nb.nv();
    let mut matches: Vec<ScanMatch> = Vec::new();
    let mut issues: Vec<ScanIssue> = Vec::new();
    proof {
        assert(cells_v.take(0) =~= Seq::<CellV>::empty());
    }
    let mut icell: usize = 0;
    while icell < nb.cells.len()
        invariant
            0 <= icell <= nb.cells@.len(),
            cells_v == nb.nv(),
            cells_v.len() == nb.cells@.len(),
            (
                matches@.map_values(|sm: ScanMatch| sm.smv()),
                issues@.map_values(|si: ScanIssue| si.siv()),
            ) == notebook_results(*opts, cells_v.take(icell as int)),
        decreases nb.cells@.len() - icell,
    {
        let ghost prev_m = matches@;
        let ghost prev_i = issues@;
        let cell = &nb.cells[icell];
        proof {
            assert(cells_v[icell as int] == cell.cv());
        }
        if contains_string(&opts.include_cell_types, cell.cell_type.as_str()) {
            if opts.include_source {
                let lines = build_src_ref(&cell.source);
                let mut ms = search_text_lines(lines, opts);
                let ghost src_mls = match_lines_spec(opts.re@, opts.invert_match, cell.cv().2);
                let ghost before = matches@;
                let mut t: usize = 0;
                proof {
                    assert(ms@.map_values(|m: MatchedLine| m.mlv()) == src_mls);
                }
                while t < ms.len()
                    invariant
                        0 <= t <= ms@.len(),
                        ms@.map_values(|m: MatchedLine| m.mlv()) == src_mls,
                        matches@.len() == before.len() + t,
                        forall|n: int|
                            0 <= n < before.len() ==> (#[trigger] matches@[n]) == before[n],
                        forall|n: int|
                            before.len() <= n < matches@.len() ==> (#[trigger] matches@[n]).smv()
                                == (
                                src_mls[n - before.len()],
                                icell as int,
                                cell.execution_count,
                                CellPiece::Source,
                            ),
                    decreases ms@.len() - t,
                {
                    let m = ms[t].clone();
                    proof {
                        assert(m.mlv() == ms@[t as int].mlv());
                        assert(ms@.map_values(|m2: MatchedLine| m2.mlv())[t as int] == src_mls[
                            t as int
                        ]);
                    }
                    matches.push(
                        ScanMatch {
                            m,
                            cell_index: icell,
                            execution_count: cell.execution_count,
                            piece: CellPiece::Source,
                        },
                    );
                    t += 1;
                }
                proof {
                    assert(matches@.map_values(|sm: ScanMatch| sm.smv()) =~= before.map_values(
                        |sm: ScanMatch| sm.smv(),
                    ) + tag_source(src_mls, icell as int, cell.execution_count));
                }
            }
            if opts.include_output_types.len() > 0 {
                if let Some(outputs) = &cell.outputs {
                    let ghost outs_v = outputs@.map_values(|o: Output| o.ov());
                    proof {
                        assert(outs_v.take(0) =~= Seq::<OutputV>::empty());
                        assert(cell.cv().3 == Some(outs_v));
                    }
                    let ghost m_base = matches@;
                    let ghost i_base = issues@;
                    let mut k: usize = 0;
                    while k < outputs.len()
                        invariant
                            0 <= k <= outputs@.len(),
                            outs_v == outputs@.map_values(|o: Output| o.ov()),
                            outs_v.len() == outputs@.len(),
                            (
                                matches@.map_values(|sm: ScanMatch| sm.smv()),
                                issues@.map_values(|si: ScanIssue| si.siv()),
                            ) == {
                                let o = outputs_results(
                                    *opts,
                                    outs_v.take(k as int),
                                    icell as int,
                                    cell.execution_count,
                                );
                                (
                                    m_base.map_values(|sm: ScanMatch| sm.smv()) + o.0,
                                    i_base.map_values(|si: ScanIssue| si.siv()) + o.1,
                                )
                            },
                        decreases outputs@.len() - k,
                    {
                        let (mut ms, mut errs) = search_output(&outputs[k], opts);
                        proof {
                            assert(outs_v[k as int] == outputs@[k as int].ov());
                        }
                        let ghost out_mls = output_results(*opts, outs_v[k as int]).0;
                        let ghost out_errs = output_results(*opts, outs_v[k as int]).1;
                        let ghost before = matches@;
                        let mut t: usize = 0;
                        while t < ms.len()
                            invariant
                                0 <= t <= ms@.len(),
                                ms@.map_values(|m: MatchedLine| m.mlv()) == out_mls,
                                matches@.len() == before.len() + t,
                                forall|n: int|
                                    0 <= n < before.len() ==> (#[trigger] matches@[n]) == before[n],
                                forall|n: int|
                                    before.len() <= n < matches@.len() ==> (
                                    #[trigger] matches@[n]).smv() == (
                                        out_mls[n - before.len()],
                                        icell as int,
                                        cell.execution_count,
                                        if out_mls[n - before.len()].3 {
                                            CellPiece::OutputText
                                        } else {
                                            CellPiece::OutputData
                                        },
                                    ),
                            decreases ms@.len() - t,
                        {
                            let m = ms[t].clone();
                            let piece = if m.is_text {
                                CellPiece::OutputText
                            } else {
                                CellPiece::OutputData
                            };
                            proof {
                                assert(m.mlv() == ms@[t as int].mlv());
                                assert(ms@.map_values(|m2: MatchedLine| m2.mlv())[t as int]
                                    == out_mls[t as int]);
                            }
                            matches.push(
                                ScanMatch {
                                    m,
                                    cell_index: icell,
                                    execution_count: cell.execution_count,
                                    piece,
                                },
                            );
                            t += 1;
                        }
                        let ghost i_before = issues@;
                        let mut u: usize = 0;
                        while u < errs.len()
                            invariant
                                0 <= u <= errs@.len(),
                                errs@ == out_errs,
                                issues@.len() == i_before.len() + u,
                                forall|n: int|
                                    0 <= n < i_before.len() ==> (#[trigger] issues@[n])
                                        == i_before[n],
                                forall|n: int|
                                    i_before.len() <= n < issues@.len() ==> (
                                    #[trigger] issues@[n]).siv() == (
                                        icell as int,
                                        k as int,
                                        out_errs[n - i_before.len()],
                                    ),
                            decreases errs@.len() - u,
                        {
                            issues.push(
                                ScanIssue {
                                    cell_index: icell,
                                    output_index: k,
                                    error: errs[u],
                                },
                            );
                            u += 1;
                        }
                        proof {
                            assert(outs_v.take(k + 1).drop_last() =~= outs_v.take(k as int));
                            assert(outs_v.take(k + 1).last() == outs_v[k as int]);
                            assert(matches@.map_values(|sm: ScanMatch| sm.smv()) =~= before.map_values(
                                |sm: ScanMatch| sm.smv(),
                            ) + tag_output(out_mls, icell as int, cell.execution_count));
                            assert(issues@.map_values(|si: ScanIssue| si.siv()) =~= i_before.map_values(
                                |si: ScanIssue| si.siv(),
                            ) + tag_issues(out_errs, icell as int, k as int));
                            assert(matches@.map_values(|sm: ScanMatch| sm.smv())
                                =~= m_base.map_values(|sm: ScanMatch| sm.smv()) + outputs_results(
                                *opts,
                                outs_v.take(k + 1),
                                icell as int,
                                cell.execution_count,
                            ).0);
                            assert(issues@.map_values(|si: ScanIssue| si.siv())
                                =~= i_base.map_values(|si: ScanIssue| si.siv()) + outputs_results(
                                *opts,
                                outs_v.take(k + 1),
                                icell as int,
                                cell.execution_count,
                            ).1);
                        }
                        k += 1;
                    }
                    proof {
                        assert(outs_v.take(outs_v.len() as int) =~= outs_v);
                    }
                }
            }
        }
        proof {
            assert(cells_v.take(icell + 1).drop_last() =~= cells_v.take(icell as int));
            assert(cells_v.take(icell + 1).last() == cells_v[icell as int]);
            assert(matches@.map_values(|sm: ScanMatch| sm.smv()) =~= prev_m.map_values(
                |sm: ScanMatch| sm.smv(),
            ) + cell_results(*opts, cells_v[icell as int], icell as int).0);
            assert(issues@.map_values(|si: ScanIssue| si.siv()) =~= prev_i.map_values(
                |si: ScanIssue| si.siv(),
            ) + cell_results(*opts, cells_v[icell as int], icell as int).1);
        }
        icell += 1;
    }
    proof {
        assert(cells_v.take(cells_v.len() as int) =~= cells_v);
    }
    ScanOutcome { matches, issues }
}

} // verus!
