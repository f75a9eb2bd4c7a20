use jrep::matcher::search_text_lines;
use jrep::options::{RawArgs, SearchOptions};
use jrep::render::{render_line_detail, render_nontext_match, render_text_match, trim_newline};

fn raw_args(pattern: &str) -> RawArgs {
    RawArgs {
        pattern: pattern.to_string(),
        ignore_case: false,
        invert_match: false,
        recursive: false,
        color_choice: "never".to_string(),
        stdout_is_tty: false,
        no_include_source: false,
        cell_types: None,
        output_types: None,
        force_include_output: false,
        no_include_output: false,
        max_line_info: false,
        line_info: 0,
        force_show_file: false,
        show_filenames_choice: "auto".to_string(),
        n_paths: 1,
        any_path_is_dir: false,
    }
}

fn opts_with(pattern: &str, detail: u8, show_file: bool, color: bool) -> SearchOptions {
    let mut args = raw_args(pattern);
    args.line_info = detail;
    args.force_show_file = show_file;
    args.color_choice = if color { "always" } else { "never" }.to_string();
    SearchOptions::from_args(args).expect("options")
}

/// Strip every occurrence of `marker` from `bytes`.
fn strip(bytes: &[u8], marker: &[u8]) -> Vec<u8> {
    let mut out = Vec::new();
    let mut i = 0;
    while i < bytes.len() {
        if i + marker.len() <= bytes.len() && &bytes[i..i + marker.len()] == marker {
            i += marker.len();
        } else {
            out.push(bytes[i]);
            i += 1;
        }
    }
    out
}

#[test]
fn multibyte_highlight_round_trip() {
    // 'é' and 'ö' are two bytes each: byte offsets and char offsets differ
    let opts = opts_with("wörld", 0, false, true);
    let found = search_text_lines(vec!["héllo wörld héllo\n"], &opts);
    assert_eq!(found.len(), 1);
    let m = &found[0];
    let on = b"<<".to_vec();
    let off = b">>".to_vec();
    let line = render_text_match("f", m, None, 0, "source", &opts, &on, &off);
    // prefix at detail 0 without file name is a bare tab; the line ends in \n
    assert_eq!(line[0], b'\t');
    assert_eq!(*line.last().unwrap(), b'\n');
    let body = &line[1..line.len() - 1];
    // the markers sit at the match's byte offsets
    let expected: Vec<u8> = b"h\xc3\xa9llo <<w\xc3\xb6rld>> h\xc3\xa9llo".to_vec();
    assert_eq!(body, &expected[..]);
    // stripping the markers yields the original line, newline trimmed
    let stripped = strip(body, b"<<");
    let stripped = strip(&stripped, b">>");
    assert_eq!(stripped, "héllo wörld héllo".as_bytes().to_vec());
}

#[test]
fn highlight_marks_every_span() {
    let opts = opts_with("ab", 0, false, true);
    let found = search_text_lines(vec!["abxab\n"], &opts);
    let line = render_text_match("f", &found[0], None, 0, "source", &opts, &b"[".to_vec(), &b"]".to_vec());
    assert_eq!(&line[..], b"\t[ab]x[ab]\n");
}

#[test]
fn no_color_prints_trimmed_plain_line() {
    let opts = opts_with("needle", 0, false, false);
    let found = search_text_lines(vec!["a needle here\r\n"], &opts);
    let line = render_text_match("f", &found[0], None, 0, "source", &opts, &b"[".to_vec(), &b"]".to_vec());
    assert_eq!(&line[..], b"\ta needle here\n");
}

#[test]
fn detail_templates() {
    let o1 = opts_with("x", 1, false, false);
    assert_eq!(render_line_detail("f", 0, Some(3), 2, "source", &o1), "c.2 l.1: \t");
    let o2 = opts_with("x", 2, false, false);
    assert_eq!(render_line_detail("f", 4, Some(3), 2, "source", &o2), "c.2 [3] l.5: \t");
    let o3 = opts_with("x", 3, false, false);
    assert_eq!(
        render_line_detail("f", 4, Some(3), 2, "output/text", &o3),
        "c.2 [3] (output/text) l.5: \t"
    );
    let o4 = opts_with("x", 4, false, false);
    assert_eq!(
        render_line_detail("f", 4, Some(3), 2, "source", &o4),
        "Cell #2 (exec.  [3]) source, line 5: \t"
    );
    assert_eq!(
        render_line_detail("f", 4, None, 2, "source", &o4),
        "Cell #2 (exec. [None]) source, line 5: \t"
    );
    // at the terse levels a missing execution count is simply omitted
    assert_eq!(render_line_detail("f", 4, None, 2, "source", &o2), "c.2 l.5: \t");
}

#[test]
fn file_name_prefix_is_quoted() {
    let o = opts_with("x", 1, true, false);
    assert_eq!(
        render_line_detail("demo.ipynb", 0, None, 0, "source", &o),
        "\"demo.ipynb\": c.0 l.1: \t"
    );
}

#[test]
fn nontext_match_prints_fixed_notice_never_payload() {
    let opts = opts_with("AAAA", 0, false, false);
    let m = jrep::matcher::MatchedLine {
        line: "AAAAAAAABBBB".to_string(),
        line_number: 0,
        match_positions: Vec::new(),
        is_text: false,
    };
    let line = render_nontext_match("f", &m, Some(1), 0, "output/data", &opts, &Vec::new(), &Vec::new());
    assert_eq!(&line[..], b"\tNon-text output data matches.\n");
}

#[test]
fn trim_newline_cases() {
    let mut s = "abc\n".to_string();
    trim_newline(&mut s);
    assert_eq!(s, "abc");
    let mut s = "abc\r\n".to_string();
    trim_newline(&mut s);
    assert_eq!(s, "abc");
    let mut s = "abc\r".to_string();
    trim_newline(&mut s);
    assert_eq!(s, "abc\r");
    let mut s = "abc".to_string();
    trim_newline(&mut s);
    assert_eq!(s, "abc");
    let mut s = String::new();
    trim_newline(&mut s);
    assert_eq!(s, "");
}

#[test]
fn full_line_with_filename_detail_and_color() {
    let mut args = raw_args("b");
    args.line_info = 2;
    args.force_show_file = true;
    args.color_choice = "always".to_string();
    let opts = SearchOptions::from_args(args).expect("options");
    let found = search_text_lines(vec!["a b c\n"], &opts);
    let line = render_text_match(
        "f.ipynb",
        &found[0],
        Some(2),
        1,
        "source",
        &opts,
        &b"<<".to_vec(),
        &b">>".to_vec(),
    );
    assert_eq!(&line[..], b"\"f.ipynb\": c.1 [2] l.1: \ta <<b>> c\n");
}

#[test]
fn only_one_trailing_newline_is_trimmed() {
    let mut s = "abc\n\n".to_string();
    trim_newline(&mut s);
    assert_eq!(s, "abc\n");
}
