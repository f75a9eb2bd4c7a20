//! Line-oriented matching.
//!
//! [`search_text_lines`] runs the compiled pattern over a sequence of lines
//! and keeps, in order, every line the pattern matches (or, inverted, every
//! line it does not match), recording the byte-offset spans of all
//! non-overlapping matches. [`search_nontext_data`] applies the same
//! keep/invert decision once to a single opaque datum, which never carries
//! spans. Both results are pinned down exactly by [`match_lines_spec`] and
//! the characterization lemma [`lemma_match_lines_characterization`].

use vstd::prelude::*;

verus! {

use crate::options::SearchOptions;
use crate::pattern::{regex_find_spans, regex_match};

/// One kept line: its text, its 0-based index within its container, the
/// byte-offset spans of the matches within it (empty for inverted matching
/// and for non-text data), and whether it is a textual line at all.
pub struct MatchedLine {
    pub line: String,
    pub line_number: usize,
    pub match_positions: Vec<(usize, usize)>,
    pub is_text: bool,
}

/// The mathematical content of a [`MatchedLine`]: text, index, spans, and
/// the text/non-text flag.
pub type MatchedLineV = (Seq<char>, int, Seq<(int, int)>, bool);

impl MatchedLine {
    /// The spans as mathematical pairs.
    pub open spec fn spans(&self) -> Seq<(int, int)> {
        self.match_positions@.map_values(|p: (usize, usize)| (p.0 as int, p.1 as int))
    }

    /// The mathematical content of this record.
    pub open spec fn mlv(&self) -> MatchedLineV {
        (self.line@, self.line_number as int, self.spans(), self.is_text)
    }

    /// Whether `idx` is the first byte of one of the recorded match spans.
    pub fn at_any_match_start(&self, idx: usize) -> (r: bool)
        ensures
            r == exists|k: int| 0 <= k < self.spans().len() && (#[trigger] self.spans()[k]).0 == idx,
    {
        let n = self.match_positions.len();
        let mut j: usize = 0;
        while j < n
            invariant
                n == self.match_positions.len(),
                0 <= j <= n,
                forall|k: int| 0 <= k < j ==> (#[trigger] self.spans()[k]).0 != idx,
            decreases n - j,
        {
            if self.match_positions[j].0 == idx {
                proof {
                    assert(self.spans()[j as int].0 == idx);
                }
                return true;
            }
            j += 1;
        }
        false
    }

    /// Whether `idx` is one past the last byte of one of the recorded spans.
    pub fn at_any_match_stop(&self, idx: usize) -> (r: bool)
        ensures
            r == exists|k: int| 0 <= k < self.spans().len() && (#[trigger] self.spans()[k]).1 == idx,
    {
        let n = self.match_positions.len();
        let mut j: usize = 0;
        while j < n
            invariant
                n == self.match_positions.len(),
                0 <= j <= n,
                forall|k: int| 0 <= k < j ==> (#[trigger] self.spans()[k]).1 != idx,
            decreases n - j,
        {
            if self.match_positions[j].1 == idx {
                proof {
                    assert(self.spans()[j as int].1 == idx);
                }
                return true;
            }
            j += 1;
        }
        false
    }
}

impl Clone for MatchedLine {
    fn clone(&self) -> (r: Self)
        ensures
            r.mlv() == self.mlv(),
    {
        let mut match_positions: Vec<(usize, usize)> = Vec::new();
        let mut j: usize = 0;
        while j < self.match_positions.len()
            invariant
                0 <= j <= self.match_positions@.len(),
                match_positions@ == self.match_positions@.take(j as int),
            decreases self.match_positions@.len() - j,
        {
            match_positions.push(self.match_positions[j]);
            proof {
                assert(match_positions@ =~= self.match_positions@.take(j + 1));
            }
            j += 1;
        }
        proof {
            assert(match_positions@ =~= self.match_positions@);
        }
        let r = Self {
            line: self.line.clone(),
            line_number: self.line_number,
            match_positions,
            is_text: self.is_text,
        };
        proof {
            assert(r.spans() =~= self.spans());
        }
        r
    }
}

/// Whether a line is kept: the pattern matches it, unless matching is
/// inverted, in which case it is kept exactly when the pattern does not.
pub open spec fn keep_line(pat: Seq<char>, invert: bool, line: Seq<char>) -> bool {
    regex_match(pat, line) != invert
}

/// The spans a kept line carries: every non-overlapping match of a find-all
/// scan, or none at all under inverted matching.
pub open spec fn line_spans(pat: Seq<char>, invert: bool, line: Seq<char>) -> Seq<(int, int)> {
    if invert {
        Seq::empty()
    } else {
        regex_find_spans(pat, line)
    }
}

/// What matching a sequence of lines returns: one record per kept line, in
/// line order, carrying the line, its index, its spans, and the text flag.
pub open spec fn match_lines_spec(pat: Seq<char>, invert: bool, lines: Seq<Seq<char>>) -> Seq<
    MatchedLineV,
>
    decreases lines.len(),
{
    if lines.len() == 0 {
        Seq::empty()
    } else {
        let i = lines.len() - 1;
        let prefix = match_lines_spec(pat, invert, lines.drop_last());
        if keep_line(pat, invert, lines[i]) {
            prefix.push((lines[i], i, line_spans(pat, invert, lines[i]), true))
        } else {
            prefix
        }
    }
}

/// The views of a sequence of borrowed lines.
pub open spec fn line_views(lines: Seq<&str>) -> Seq<Seq<char>> {
    lines.map_values(|s: &str| s@)
}

/// Borrow each line of a cell's source so the matcher can scan it.
pub fn build_src_ref<'a>(source: &'a Vec<String>) -> (r: Vec<&'a str>)
    ensures
        line_views(r@) == source@.map_values(|s: String| s@),
{
    let mut v: Vec<&str> = Vec::with_capacity(source.len());
    let mut i: usize = 0;
    while i < source.len()
        invariant
            0 <= i <= source@.len(),
            v@.len() == i,
            forall|k: int| 0 <= k < i ==> (#[trigger] v@[k])@ == source@[k]@,
        decreases source@.len() - i,
    {
        v.push(source[i].as_str());
        i += 1;
    }
    proof {
        assert(line_views(v@) =~= source@.map_values(|s: String| s@));
    }
    v
}

/// Scan `text` line by line and return a record for every kept line, in
/// order: exactly `match_lines_spec` applied to the lines' views.
pub fn search_text_lines(text: Vec<&str>, opts: &SearchOptions) -> (r: Vec<MatchedLine>)
    ensures
        r@.map_values(|m: MatchedLine| m.mlv()) == match_lines_spec(
            opts.re@,
            opts.invert_match,
            line_views(text@),
        ),
{
    let ghost lines = line_views(text@);
    let mut matched_lines: Vec<MatchedLine> = Vec::new();
    let mut i: usize = 0;
    while i < text.len()
        invariant
            0 <= i <= text@.len(),
            lines == line_views(text@),
            lines.len() == text@.len(),
            forall|k: int| 0 <= k < text@.len() ==> lines[k] == (#[trigger] text@[k])@,
            matched_lines@.map_values(|m: MatchedLine| m.mlv()) == match_lines_spec(
                opts.re@,
                opts.invert_match,
                lines.take(i as int),
            ),
        decreases text@.len() - i,
    {
        let line: &str = text[i];
        let keep = if !opts.invert_match {
            opts.re.is_match(line)
        } else {
            !opts.re.is_match(line)
        };
        if keep {
            let inds: Vec<(usize, usize)> = if opts.invert_match {
                Vec::new()
            } else {
                opts.re.find_spans(line)
            };
            let ml = MatchedLine {
                line: line.to_owned(),
                line_number: i,
                match_positions: inds,
                is_text: true,
            };
            proof {
                assert(ml.spans() =~= line_spans(opts.re@, opts.invert_match, lines[i as int]));
            }
            matched_lines.push(ml);
        }
        proof {
            assert(lines.take(i + 1).drop_last() =~= lines.take(i as int));
            assert(lines.take(i + 1).last() == lines[i as int]);
            assert(matched_lines@.map_values(|m: MatchedLine| m.mlv()) =~= match_lines_spec(
                opts.re@,
                opts.invert_match,
                lines.take(i + 1),
            ));
        }
        i += 1;
    }
    proof {
        assert(lines.take(lines.len() as int) =~= lines);
    }
    matched_lines
}

/// Apply the keep/invert decision once to a single opaque datum. A kept
/// datum is reported as one non-text record at index 0 with no spans; a
/// datum that is not kept yields nothing.
pub fn search_nontext_data(data: &str, opts: &SearchOptions) -> (r: Option<MatchedLine>)
    ensures
        keep_line(opts.re@, opts.invert_match, data@) ==> (r matches Some(m) && m.mlv() == (
            data@,
            0int,
            Seq::<(int, int)>::empty(),
            false,
        )),
        !keep_line(opts.re@, opts.invert_match, data@) ==> r is None,
{
    if !opts.invert_match && !opts.re.is_match(data) {
        return None;
    } else if opts.invert_match && opts.re.is_match(data) {
        return None;
    }
    let ml = MatchedLine {
        line: data.to_owned(),
        line_number: 0,
        match_positions: Vec::new(),
        is_text: false,
    };
    proof {
        assert(ml.spans() =~= Seq::<(int, int)>::empty());
    }
    Some(ml)
}

/// For all line sequences and patterns, matching keeps exactly the lines the
/// keep/invert decision selects: every record points at a selected line and
/// carries that line's text and find-all spans, records come in strictly
/// increasing line order, and every selected line is reported by exactly one
/// record.
pub proof fn lemma_match_lines_characterization(pat: Seq<char>, invert: bool, lines: Seq<Seq<char>>)
    ensures
        ({
            let r = match_lines_spec(pat, invert, lines);
            &&& forall|k: int|
                0 <= k < r.len() ==> {
                    let (line, i, spans, is_text) = #[trigger] r[k];
                    &&& 0 <= i < lines.len()
                    &&& line == lines[i]
                    &&& keep_line(pat, invert, lines[i])
                    &&& spans == line_spans(pat, invert, lines[i])
                    &&& is_text
                }
            &&& forall|k1: int, k2: int| 0 <= k1 < k2 < r.len() ==> r[k1].1 < r[k2].1
            &&& forall|i: int|
                0 <= i < lines.len() && keep_line(pat, invert, #[trigger] lines[i]) ==> exists|
                    k: int,
                |
                    0 <= k < r.len() && (#[trigger] r[k]).1 == i
        }),
    decreases lines.len(),
{
    if lines.len() == 0 {
    } else {
        let r = match_lines_spec(pat, invert, lines);
        let prev = match_lines_spec(pat, invert, lines.drop_last());
        let last = lines.len() - 1;
        lemma_match_lines_characterization(pat, invert, lines.drop_last());
        assert(forall|i: int| 0 <= i < last ==> lines.drop_last()[i] == lines[i]);
        assert forall|i: int|
            0 <= i < lines.len() && keep_line(pat, invert, #[trigger] lines[i]) implies exists|
            k: int,
        |
            0 <= k < r.len() && (#[trigger] r[k]).1 == i by {
            if i < last {
                let k = choose|k: int| 0 <= k < prev.len() && (#[trigger] prev[k]).1 == i;
                assert(r[k].1 == i);
            } else {
                assert(r[r.len() - 1].1 == i);
            }
        }
    }
}

} // verus!
