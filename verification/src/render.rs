//! The result renderer.
//!
//! One reported match becomes one output line: an optional file-name prefix,
//! an optional detail annotation chosen by the verbosity level, and the
//! matched line's body with its trailing newline stripped. When colorizing,
//! an emphasis-on marker is placed exactly at each match span's start byte
//! and an emphasis-off marker exactly at its end byte — offsets are byte
//! offsets into the line's UTF-8 encoding, never character counts. Opaque
//! matches are rendered as a fixed notice, never as their payload.

use vstd::prelude::*;

verus! {

use crate::matcher::MatchedLine;
use crate::options::SearchOptions;
use crate::strutil::{dec_chars, string_pop, u64_to_string};
use vstd::string::{StringExecFns, StringSliceAdditionalSpecFns, StrSliceExecFns};
use vstd::utf8::encode_utf8;

/// A character sequence with one trailing newline removed: a final line
/// feed is dropped, and a carriage return just before it as well.
pub open spec fn trim_newline_chars(cs: Seq<char>) -> Seq<char> {
    if cs.len() > 0 && cs.last() == '\n' {
        let c = cs.drop_last();
        if c.len() > 0 && c.last() == '\r' {
            c.drop_last()
        } else {
            c
        }
    } else {
        cs
    }
}

/// A byte sequence with one trailing newline removed, as
/// `trim_newline_chars` but over UTF-8 bytes.
pub open spec fn trim_newline_bytes(b: Seq<u8>) -> Seq<u8> {
    if b.len() > 0 && b.last() == 10u8 {
        let c = b.drop_last();
        if c.len() > 0 && c.last() == 13u8 {
            c.drop_last()
        } else {
            c
        }
    } else {
        b
    }
}

/// Strip one trailing newline (and a carriage return before it) from `s`.
pub fn trim_newline(s: &mut String)
    ensures
        final(s)@ == trim_newline_chars(old(s)@),
{
    let n = s.as_str().unicode_len();
    if n > 0 && s.as_str().get_char(n - 1) == '\n' {
        string_pop(s);
        let n2 = n - 1;
        if n2 > 0 && s.as_str().get_char(n2 - 1) == '\r' {
            string_pop(s);
        }
    }
}

/// Match spans forced into shape for rendering over a trimmed line of
/// `tlen` bytes: clipped to `[prev, tlen]`, each start no earlier than the
/// previous end, each end no earlier than its start. Spans that already
/// respect the regex engine's guarantees only lose what the trimmed
/// newline cut off.
pub open spec fn sanitize_spans(spans: Seq<(int, int)>, tlen: int, prev: int) -> Seq<(int, int)>
    decreases spans.len(),
{
    if spans.len() == 0 {
        Seq::empty()
    } else {
        let s = spans.first();
        let start0 = if s.0 < prev {
            prev
        } else {
            s.0
        };
        let start = if start0 > tlen {
            tlen
        } else {
            start0
        };
        let end0 = if s.1 < start {
            start
        } else {
            s.1
        };
        let end = if end0 > tlen {
            tlen
        } else {
            end0
        };
        seq![(start, end)] + sanitize_spans(spans.drop_first(), tlen, end)
    }
}

/// Sanitized spans are ordered and in bounds.
pub proof fn lemma_sanitize_wf(spans: Seq<(int, int)>, tlen: int, prev: int)
    requires
        0 <= prev <= tlen,
    ensures
        ({
            let r = sanitize_spans(spans, tlen, prev);
            &&& r.len() == spans.len()
            &&& forall|i: int|
                0 <= i < r.len() ==> prev <= (#[trigger] r[i]).0 <= r[i].1 <= tlen
            &&& forall|i: int| 0 <= i < r.len() - 1 ==> (#[trigger] r[i]).1 <= r[i + 1].0
        }),
    decreases spans.len(),
{
    if spans.len() > 0 {
        let s = spans.first();
        let start0 = if s.0 < prev {
            prev
        } else {
            s.0
        };
        let start = if start0 > tlen {
            tlen
        } else {
            start0
        };
        let end0 = if s.1 < start {
            start
        } else {
            s.1
        };
        let end = if end0 > tlen {
            tlen
        } else {
            end0
        };
        lemma_sanitize_wf(spans.drop_first(), tlen, end);
    }
}

/// The rendered bytes from position `pos` on: plain bytes up to each span's
/// start, the on-marker, the span's bytes, the off-marker, and so on; after
/// the last span, the rest of the line.
pub open spec fn hl_from(
    b: Seq<u8>,
    spans: Seq<(int, int)>,
    pos: int,
    on: Seq<u8>,
    off: Seq<u8>,
) -> Seq<u8>
    decreases spans.len(),
{
    if spans.len() == 0 {
        b.subrange(pos, b.len() as int)
    } else {
        let s = spans.first();
        b.subrange(pos, s.0) + on + b.subrange(s.0, s.1) + off + hl_from(
            b,
            spans.drop_first(),
            s.1,
            on,
            off,
        )
    }
}

/// A line's bytes with emphasis markers woven in at the (sanitized) match
/// spans' byte offsets.
pub open spec fn highlight_spec(b: Seq<u8>, spans: Seq<(int, int)>, on: Seq<u8>, off: Seq<u8>) -> Seq<
    u8,
> {
    hl_from(b, sanitize_spans(spans, b.len() as int, 0), 0, on, off)
}

/// With ordered, in-bounds spans and empty markers, weaving emphasizes
/// nothing: the bytes from `pos` come out unchanged.
proof fn lemma_hl_from_strip(b: Seq<u8>, spans: Seq<(int, int)>, pos: int)
    requires
        forall|i: int| 0 <= i < spans.len() ==> 0 <= (#[trigger] spans[i]).0 <= spans[i].1
            <= b.len(),
        forall|i: int| 0 <= i < spans.len() - 1 ==> (#[trigger] spans[i]).1 <= spans[i + 1].0,
        0 <= pos <= b.len(),
        spans.len() > 0 ==> pos <= spans[0].0,
    ensures
        hl_from(b, spans, pos, Seq::empty(), Seq::empty()) == b.subrange(pos, b.len() as int),
    decreases spans.len(),
{
    if spans.len() > 0 {
        let s = spans.first();
        assert(forall|i: int|
            0 <= i < spans.drop_first().len() ==> spans.drop_first()[i] == spans[i + 1]);
        lemma_hl_from_strip(b, spans.drop_first(), s.1);
        assert(b.subrange(pos, s.0) + Seq::<u8>::empty() + b.subrange(s.0, s.1)
            + Seq::<u8>::empty() + b.subrange(s.1, b.len() as int) =~= b.subrange(
            pos,
            b.len() as int,
        ));
    }
}

/// Byte-exact highlighting round-trip: stripping the emphasis markers (that
/// is, weaving empty ones) leaves exactly the line's bytes, for every line
/// and every span list.
pub proof fn lemma_highlight_strip(b: Seq<u8>, spans: Seq<(int, int)>)
    ensures
        highlight_spec(b, spans, Seq::empty(), Seq::empty()) == b,
{
    lemma_sanitize_wf(spans, b.len() as int, 0);
    lemma_hl_from_strip(b, sanitize_spans(spans, b.len() as int, 0), 0);
    assert(b.subrange(0, b.len() as int) =~= b);
}

/// Append a string's UTF-8 bytes.
#[verifier::loop_isolation(false)]
fn push_str_bytes(out: &mut Vec<u8>, s: &str)
    ensures
        final(out)@ == old(out)@ + encode_utf8(s@),
{
    let b = s.as_bytes();
    let mut j: usize = 0;
    while j < b.len()
        invariant
            0 <= j <= b@.len(),
            out@ == old(out)@ + b@.take(j as int),
        decreases b@.len() - j,
    {
        out.push(b[j]);
        proof {
            assert(old(out)@ + b@.take(j + 1) =~= (old(out)@ + b@.take(j as int)).push(b@[
                j as int
            ]));
        }
        j += 1;
    }
    proof {
        assert(b@.take(b@.len() as int) =~= b@);
    }
}

/// Append a slice of another byte vector.
#[verifier::loop_isolation(false)]
fn push_range(out: &mut Vec<u8>, b: &Vec<u8>, from: usize, to: usize)
    requires
        from <= to <= b@.len(),
    ensures
        final(out)@ == old(out)@ + b@.subrange(from as int, to as int),
{
    let mut j: usize = from;
    while j < to
        invariant
            from <= j <= to,
            out@ == old(out)@ + b@.subrange(from as int, j as int),
        decreases to - j,
    {
        out.push(b[j]);
        proof {
            assert(old(out)@ + b@.subrange(from as int, j + 1) =~= (old(out)@ + b@.subrange(
                from as int,
                j as int,
            )).push(b@[j as int]));
        }
        j += 1;
    }
}

/// The execution-count annotation: ` [n]` when present; when absent, empty
/// at the terse levels and an explicit `[None]` in the full-sentence form.
pub open spec fn exec_cnt_chars(ec: Option<u64>, detail: u8) -> Seq<char> {
    match ec {
        Some(n) => " ["@ + dec_chars(n as nat) + "]"@,
        None => if detail < 4 {
            Seq::empty()
        } else {
            "[None]"@
        },
    }
}

/// The detail annotation for one match, by verbosity level: level 1 names
/// cell and line, level 2 adds the execution count, level 3 adds the
/// provenance tag, and every higher level is the full sentence form.
pub open spec fn info_chars(
    detail: u8,
    icell: usize,
    ec: Option<u64>,
    piece: Seq<char>,
    line_number: usize,
) -> Seq<char> {
    let ecs = exec_cnt_chars(ec, detail);
    let cell = dec_chars(icell as nat);
    let line = dec_chars((line_number + 1) as nat);
    if detail == 1 {
        "c."@ + cell + " l."@ + line
    } else if detail == 2 {
        "c."@ + cell + ecs + " l."@ + line
    } else if detail == 3 {
        "c."@ + cell + ecs + " ("@ + piece + ") l."@ + line
    } else {
        "Cell #"@ + cell + " (exec. "@ + ecs + ") "@ + piece + ", line "@ + line
    }
}

/// The whole prefix of one output line: the quoted file name when file
/// names are shown, then a bare tab at detail level 0 or the detail
/// annotation followed by a separator.
pub open spec fn line_detail_chars(
    show_file: bool,
    fname: Seq<char>,
    detail: u8,
    icell: usize,
    ec: Option<u64>,
    piece: Seq<char>,
    line_number: usize,
) -> Seq<char> {
    let fp = if show_file {
        "\""@ + fname + "\": "@
    } else {
        Seq::<char>::empty()
    };
    if detail == 0 {
        fp + "\t"@
    } else {
        fp + info_chars(detail, icell, ec, piece, line_number) + ": \t"@
    }
}

/// Render the prefix of one output line: exactly `line_detail_chars` for
/// this configuration and provenance.
pub fn render_line_detail(
    file_name: &str,
    line_number: usize,
    execution_count: Option<u64>,
    icell: usize,
    cell_piece: &str,
    opts: &SearchOptions,
) -> (r: String)
    requires
        line_number < usize::MAX,
    ensures
        r@ == line_detail_chars(
            opts.show_file_name,
            file_name@,
            opts.show_line_detail,
            icell,
            execution_count,
            cell_piece@,
            line_number,
        ),
{
    let mut out = String::new();
    if opts.show_file_name {
        out.append("\"");
        out.append(file_name);
        out.append("\": ");
    }
    if opts.show_line_detail == 0 {
        out.append("\t");
        return out;
    }
    let mut ecs = String::new();
    match execution_count {
        Some(n) => {
            ecs.append(" [");
            ecs.append(u64_to_string(n).as_str());
            ecs.append("]");
        },
        None => {
            if opts.show_line_detail >= 4 {
                ecs.append("[None]");
            }
        },
    }
    let cell = u64_to_string(icell as u64);
    let line = u64_to_string(line_number as u64 + 1);
    if opts.show_line_detail == 1 {
        out.append("c.");
        out.append(cell.as_str());
        out.append(" l.");
        out.append(line.as_str());
    } else if opts.show_line_detail == 2 {
        out.append("c.");
        out.append(cell.as_str());
        out.append(ecs.as_str());
        out.append(" l.");
        out.append(line.as_str());
    } else if opts.show_line_detail == 3 {
        out.append("c.");
        out.append(cell.as_str());
        out.append(ecs.as_str());
        out.append(" (");
        out.append(cell_piece);
        out.append(") l.");
        out.append(line.as_str());
    } else {
        out.append("Cell #");
        out.append(cell.as_str());
        out.append(" (exec. ");
        out.append(ecs.as_str());
        out.append(") ");
        out.append(cell_piece);
        out.append(", line ");
        out.append(line.as_str());
    }
    out.append(": \t");
    out
}

/// The body of a textual match: the line's UTF-8 bytes, newline trimmed,
/// with emphasis markers woven in at the match spans when colorizing.
pub open spec fn text_body_spec(
    line: Seq<char>,
    spans: Seq<(int, int)>,
    color: bool,
    on: Seq<u8>,
    off: Seq<u8>,
) -> Seq<u8> {
    let t = trim_newline_bytes(encode_utf8(line));
    if color {
        highlight_spec(t, spans, on, off)
    } else {
        t
    }
}

/// The trimmed UTF-8 bytes of a line.
fn trimmed_bytes(line: &str) -> (r: Vec<u8>)
    ensures
        r@ == trim_newline_bytes(encode_utf8(line@)),
{
    let mut b = line.as_bytes_vec();
    let n = b.len();
    if n > 0 && b[n - 1] == 10u8 {
        if n > 1 && b[n - 2] == 13u8 {
            b.truncate(n - 2);
            proof {
                assert(b@ =~= trim_newline_bytes(encode_utf8(line@)));
            }
        } else {
            b.truncate(n - 1);
            proof {
                assert(b@ =~= trim_newline_bytes(encode_utf8(line@)));
            }
        }
    }
    b
}

/// Force the match spans into shape for a trimmed line of `tlen` bytes,
/// exactly as `sanitize_spans` says.
#[verifier::loop_isolation(false)]
fn sanitize_positions(positions: &Vec<(usize, usize)>, tlen: usize) -> (r: Vec<(usize, usize)>)
    ensures
        r@.map_values(|p: (usize, usize)| (p.0 as int, p.1 as int)) == sanitize_spans(
            positions@.map_values(|p: (usize, usize)| (p.0 as int, p.1 as int)),
            tlen as int,
            0,
        ),
{
    let ghost spans_v = positions@.map_values(|p: (usize, usize)| (p.0 as int, p.1 as int));
    let mut san: Vec<(usize, usize)> = Vec::new();
    let mut prev: usize = 0;
    let mut i: usize = 0;
    proof {
        assert(spans_v.skip(0) =~= spans_v);
    }
    while i < positions.len()
        invariant
            0 <= i <= positions@.len(),
            san@.len() == i,
            prev <= tlen,
            sanitize_spans(spans_v, tlen as int, 0) == san@.map_values(
                |p: (usize, usize)| (p.0 as int, p.1 as int),
            ) + sanitize_spans(spans_v.skip(i as int), tlen as int, prev as int),
        decreases positions@.len() - i,
    {
        let (s0, s1) = positions[i];
        let start0 = if s0 < prev {
            prev
        } else {
            s0
        };
        let start = if start0 > tlen {
            tlen
        } else {
            start0
        };
        let end0 = if s1 < start {
            start
        } else {
            s1
        };
        let end = if end0 > tlen {
            tlen
        } else {
            end0
        };
        let ghost prev_san = san@;
        san.push((start, end));
        proof {
            assert(spans_v.skip(i as int).first() == spans_v[i as int]);
            assert(spans_v.skip(i as int).drop_first() =~= spans_v.skip(i + 1));
            assert(san@.map_values(|p: (usize, usize)| (p.0 as int, p.1 as int)) =~= prev_san.map_values(
                |p: (usize, usize)| (p.0 as int, p.1 as int),
            ) + seq![(start as int, end as int)]);
        }
        prev = end;
        i += 1;
    }
    proof {
        assert(spans_v.skip(spans_v.len() as int) =~= Seq::<(int, int)>::empty());
    }
    san
}

/// Weave the emphasis markers into a trimmed line's bytes, exactly as
/// `highlight_spec` says.
#[verifier::loop_isolation(false)]
#[verifier::rlimit(60)]
fn highlight_bytes(b: &Vec<u8>, positions: &Vec<(usize, usize)>, on: &Vec<u8>, off: &Vec<u8>) -> (r:
    Vec<u8>)
    ensures
        r@ == highlight_spec(
            b@,
            positions@.map_values(|p: (usize, usize)| (p.0 as int, p.1 as int)),
            on@,
            off@,
        ),
{
    let ghost spans_v = positions@.map_values(|p: (usize, usize)| (p.0 as int, p.1 as int));
    let tlen = b.len();
    let san = sanitize_positions(positions, tlen);
    let ghost san_v = san@.map_values(|p: (usize, usize)| (p.0 as int, p.1 as int));
    proof {
        assert(san_v == sanitize_spans(spans_v, tlen as int, 0));
        lemma_sanitize_wf(spans_v, tlen as int, 0);
    }

    // weave the markers in
    let mut out: Vec<u8> = Vec::new();
    let mut pos: usize = 0;
    let mut k: usize = 0;
    proof {
        assert(san_v.skip(0) =~= san_v);
    }
    while k < san.len()
        invariant
            0 <= k <= san@.len(),
            san_v == san@.map_values(|p: (usize, usize)| (p.0 as int, p.1 as int)),
            san_v.len() == san@.len(),
            pos <= tlen,
            k < san@.len() ==> pos <= san@[k as int].0,
            hl_from(b@, san_v, 0, on@, off@) == out@ + hl_from(
                b@,
                san_v.skip(k as int),
                pos as int,
                on@,
                off@,
            ),
        decreases san@.len() - k,
    {
        let (s0, s1) = san[k];
        let ghost before = out@;
        push_range(&mut out, b, pos, s0);
        push_range_all(&mut out, on);
        push_range(&mut out, b, s0, s1);
        push_range_all(&mut out, off);
        proof {
            assert(san_v.skip(k as int).first() == san_v[k as int]);
            assert(san_v.skip(k as int).drop_first() =~= san_v.skip(k + 1));
            assert(out@ =~= before + b@.subrange(pos as int, s0 as int) + on@ + b@.subrange(
                s0 as int,
                s1 as int,
            ) + off@);
        }
        pos = s1;
        k += 1;
    }
    proof {
        assert(san_v.skip(san_v.len() as int) =~= Seq::<(int, int)>::empty());
    }

    push_range(&mut out, b, pos, tlen);
    proof {
        assert(hl_from(b@, san_v, 0, on@, off@) == out@);
    }
    out
}

/// Append a whole byte vector.
fn push_range_all(out: &mut Vec<u8>, b: &Vec<u8>)
    ensures
        final(out)@ == old(out)@ + b@,
{
    push_range(out, b, 0, b.len());
    proof {
        assert(b@.subrange(0, b@.len() as int) =~= b@);
    }
}

/// Render one textual match as a full output line: the detail prefix, the
/// line's trimmed bytes (highlighted at its byte-offset spans when
/// colorizing), and a final newline.
pub fn render_text_match(
    file_name: &str,
    m: &MatchedLine,
    execution_count: Option<u64>,
    icell: usize,
    cell_piece: &str,
    opts: &SearchOptions,
    on: &Vec<u8>,
    off: &Vec<u8>,
) -> (r: Vec<u8>)
    requires
        m.line_number < usize::MAX,
    ensures
        r@ == encode_utf8(
            line_detail_chars(
                opts.show_file_name,
                file_name@,
                opts.show_line_detail,
                icell,
                execution_count,
                cell_piece@,
                m.line_number,
            ),
        ) + text_body_spec(m.line@, m.spans(), opts.color_matches, on@, off@) + seq![10u8],
{
    let prefix = render_line_detail(
        file_name,
        m.line_number,
        execution_count,
        icell,
        cell_piece,
        opts,
    );
    let mut out: Vec<u8> = Vec::new();
    push_str_bytes(&mut out, prefix.as_str());
    let trimmed = trimmed_bytes(m.line.as_str());
    if opts.color_matches {
        let body = highlight_bytes(&trimmed, &m.match_positions, on, off);
        push_range_all(&mut out, &body);
    } else {
        push_range_all(&mut out, &trimmed);
    }
    out.push(10u8);
    proof {
        assert(out@ =~= encode_utf8(
            line_detail_chars(
                opts.show_file_name,
                file_name@,
                opts.show_line_detail,
                icell,
                execution_count,
                cell_piece@,
                m.line_number,
            ),
        ) + text_body_spec(m.line@, m.spans(), opts.color_matches, on@, off@) + seq![10u8]);
    }
    out
}

/// Render one opaque match as a full output line: the detail prefix, then a
/// fixed notice between the emphasis markers — never the payload itself —
/// and a final newline.
pub fn render_nontext_match(
    file_name: &str,
    m: &MatchedLine,
    execution_count: Option<u64>,
    icell: usize,
    cell_piece: &str,
    opts: &SearchOptions,
    on: &Vec<u8>,
    off: &Vec<u8>,
) -> (r: Vec<u8>)
    requires
        m.line_number < usize::MAX,
    ensures
        r@ == encode_utf8(
            line_detail_chars(
                opts.show_file_name,
                file_name@,
                opts.show_line_detail,
                icell,
                execution_count,
                cell_piece@,
                m.line_number,
            ),
        ) + on@ + encode_utf8("Non-text output data matches."@) + off@ + seq![10u8],
{
    let prefix = render_line_detail(
        file_name,
        m.line_number,
        execution_count,
        icell,
        cell_piece,
        opts,
    );
    let mut out: Vec<u8> = Vec::new();
    push_str_bytes(&mut out, prefix.as_str());
    push_range_all(&mut out, on);
    push_str_bytes(&mut out, "Non-text output data matches.");
    push_range_all(&mut out, off);
    out.push(10u8);
    proof {
        assert(out@ =~= encode_utf8(
            line_detail_chars(
                opts.show_file_name,
                file_name@,
                opts.show_line_detail,
                icell,
                execution_count,
                cell_piece@,
                m.line_number,
            ),
        ) + on@ + encode_utf8("Non-text output data matches."@) + off@ + seq![10u8]);
    }
    out
}

} // verus!
