use jrep::matcher::search_text_lines;
use jrep::options::{ConfigError, RawArgs, SearchOptions};
use jrep::scanner::is_text;
use jrep::strutil::u64_to_string;

fn raw_args(pattern: &str) -> RawArgs {
    RawArgs {
        pattern: pattern.to_string(),
        ignore_case: false,
        invert_match: false,
        recursive: false,
        color_choice: "never".to_string(),
        stdout_is_tty: false,
        no_include_source: false,
        cell_types: None,
        output_types: None,
        force_include_output: false,
        no_include_output: false,
        max_line_info: false,
        line_info: 0,
        force_show_file: false,
        show_filenames_choice: "auto".to_string(),
        n_paths: 1,
        any_path_is_dir: false,
    }
}

fn build(args: RawArgs) -> SearchOptions {
    match SearchOptions::from_args(args) {
        Ok(o) => o,
        Err(e) => panic!("unexpected configuration error: {}", e.message()),
    }
}

#[test]
fn defaults() {
    let o = build(raw_args("x"));
    assert!(o.include_source);
    assert_eq!(
        o.include_cell_types,
        vec!["markdown".to_string(), "code".to_string(), "raw".to_string()]
    );
    assert_eq!(o.include_output_types, vec!["text/plain".to_string()]);
    assert!(!o.color_matches);
    assert!(!o.invert_match);
    assert_eq!(o.show_line_detail, 0);
    assert!(!o.show_file_name);
    assert!(!o.recursive);
}

#[test]
fn ignore_case_folds_matching() {
    let mut args = raw_args("NuMpY");
    args.ignore_case = true;
    let o = build(args);
    let found = search_text_lines(vec!["import numpy\n"], &o);
    assert_eq!(found.len(), 1);
    // still byte-exact spans on the original line
    assert_eq!(found[0].match_positions, vec![(7, 12)]);
}

#[test]
fn case_is_respected_by_default() {
    let o = build(raw_args("NuMpY"));
    let found = search_text_lines(vec!["import numpy\n"], &o);
    assert!(found.is_empty());
}

#[test]
fn bad_pattern_is_reported_with_description() {
    let e = match SearchOptions::from_args(raw_args("(")) {
        Err(e) => e,
        Ok(_) => panic!("an unclosed group must not compile"),
    };
    match e {
        ConfigError::BadPattern(msg) => assert!(!msg.is_empty()),
        ConfigError::BadColorChoice => panic!("wrong error"),
    }
}

#[test]
fn bad_color_choice_is_reported_first() {
    let mut args = raw_args("(");
    args.color_choice = "sometimes".to_string();
    let e = match SearchOptions::from_args(args) {
        Err(e) => e,
        Ok(_) => panic!("must fail"),
    };
    assert!(matches!(e, ConfigError::BadColorChoice));
    assert_eq!(e.message(), "Unexpected value for '--color'");
}

#[test]
fn color_auto_follows_the_terminal() {
    let mut args = raw_args("x");
    args.color_choice = "auto".to_string();
    args.stdout_is_tty = true;
    assert!(build(args).color_matches);
    let mut args = raw_args("x");
    args.color_choice = "auto".to_string();
    args.stdout_is_tty = false;
    assert!(!build(args).color_matches);
    let mut args = raw_args("x");
    args.color_choice = "always".to_string();
    assert!(build(args).color_matches);
}

#[test]
fn output_type_overrides() {
    let mut args = raw_args("x");
    args.output_types = Some(vec!["image/png".to_string()]);
    assert_eq!(build(args).include_output_types, vec!["image/png".to_string()]);

    let mut args = raw_args("x");
    args.output_types = Some(vec!["image/png".to_string()]);
    args.force_include_output = true;
    assert_eq!(build(args).include_output_types, vec!["text/plain".to_string()]);

    let mut args = raw_args("x");
    args.output_types = Some(vec!["image/png".to_string()]);
    args.no_include_output = true;
    assert!(build(args).include_output_types.is_empty());
}

#[test]
fn filename_display_heuristic() {
    let mut args = raw_args("x");
    args.n_paths = 2;
    assert!(build(args).show_file_name);

    let mut args = raw_args("x");
    args.any_path_is_dir = true;
    assert!(build(args).show_file_name);

    let mut args = raw_args("x");
    args.n_paths = 1;
    assert!(!build(args).show_file_name);

    let mut args = raw_args("x");
    args.show_filenames_choice = "always".to_string();
    assert!(build(args).show_file_name);

    let mut args = raw_args("x");
    args.show_filenames_choice = "never".to_string();
    args.n_paths = 5;
    assert!(!build(args).show_file_name);
}

#[test]
fn detail_level_and_its_cap() {
    let mut args = raw_args("x");
    args.line_info = 3;
    assert_eq!(build(args).show_line_detail, 3);
    let mut args = raw_args("x");
    args.line_info = 1;
    args.max_line_info = true;
    assert_eq!(build(args).show_line_detail, 255);
}

#[test]
fn text_mime_type_recognition() {
    assert!(is_text("text/plain"));
    assert!(!is_text("text/html"));
    assert!(!is_text("image/png"));
}

#[test]
fn decimal_rendering() {
    assert_eq!(u64_to_string(0), "0");
    assert_eq!(u64_to_string(7), "7");
    assert_eq!(u64_to_string(10), "10");
    assert_eq!(u64_to_string(987654), "987654");
    assert_eq!(u64_to_string(u64::MAX), "18446744073709551615");
}
