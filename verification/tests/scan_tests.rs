use jrep::matcher::search_text_lines;
use jrep::notebook::load_notebook;
use jrep::options::{RawArgs, SearchOptions};
use jrep::scanner::{search_notebook, CellPiece};

fn raw_args(pattern: &str) -> RawArgs {
    RawArgs {
        pattern: pattern.to_string(),
        ignore_case: false,
        invert_match: false,
        recursive: false,
        color_choice: "never".to_string(),
        stdout_is_tty: false,
        no_include_source: false,
        cell_types: None,
        output_types: None,
        force_include_output: false,
        no_include_output: false,
        max_line_info: false,
        line_info: 0,
        force_show_file: false,
        show_filenames_choice: "auto".to_string(),
        n_paths: 1,
        any_path_is_dir: false,
    }
}

fn default_opts(pattern: &str) -> SearchOptions {
    match SearchOptions::from_args(raw_args(pattern)) {
        Ok(o) => o,
        Err(_) => panic!("pattern should compile"),
    }
}

#[test]
fn scenario_source_match() {
    let doc = r#"{"cells":[{"cell_type":"code","execution_count":1,
        "source":["import numpy as np\n"],"outputs":[]}]}"#;
    let nb = load_notebook(doc).expect("well-formed notebook");
    let opts = default_opts("numpy");
    let outcome = search_notebook(&nb, &opts);
    assert_eq!(outcome.matches.len(), 1);
    let sm = &outcome.matches[0];
    assert!(matches!(sm.piece, CellPiece::Source));
    assert_eq!(sm.cell_index, 0);
    assert_eq!(sm.execution_count, Some(1));
    assert_eq!(sm.m.line_number, 0);
    assert_eq!(sm.m.line, "import numpy as np\n");
    assert!(sm.m.is_text);
    assert_eq!(sm.m.match_positions, vec![(7, 12)]);
    assert!(outcome.issues.is_empty());
}

#[test]
fn scenario_text_output_match() {
    let doc = r#"{"cells":[{"cell_type":"code","execution_count":1,
        "source":["import numpy as np\n"],
        "outputs":[{"output_type":"execute_result",
                    "data":{"text/plain":["array([1, 2, 3])\n"]}}]}]}"#;
    let nb = load_notebook(doc).expect("well-formed notebook");
    let opts = default_opts("array");
    let outcome = search_notebook(&nb, &opts);
    assert_eq!(outcome.matches.len(), 1);
    let sm = &outcome.matches[0];
    assert!(matches!(sm.piece, CellPiece::OutputText));
    assert_eq!(sm.cell_index, 0);
    assert_eq!(sm.m.line_number, 0);
    assert_eq!(sm.m.line, "array([1, 2, 3])\n");
    assert!(sm.m.is_text);
    assert!(outcome.issues.is_empty());
}

#[test]
fn scenario_image_output_skipped_by_default() {
    let doc = r#"{"cells":[{"cell_type":"code","execution_count":2,
        "source":["show()\n"],
        "outputs":[{"output_type":"display_data",
                    "data":{"image/png":"iVBORw0KGgoAAAANSUhEUg"}}]}]}"#;
    let nb = load_notebook(doc).expect("well-formed notebook");
    let opts = default_opts("iVBORw0KG");
    let outcome = search_notebook(&nb, &opts);
    assert!(outcome.matches.is_empty());
    assert!(outcome.issues.is_empty());
}

#[test]
fn scenario_image_output_matched_when_selected() {
    let doc = r#"{"cells":[{"cell_type":"code","execution_count":2,
        "source":["show()\n"],
        "outputs":[{"output_type":"display_data",
                    "data":{"image/png":"iVBORw0KGgoAAAANSUhEUg"}}]}]}"#;
    let nb = load_notebook(doc).expect("well-formed notebook");
    let mut args = raw_args("iVBORw0KG");
    args.output_types = Some(vec!["image/png".to_string()]);
    let opts = SearchOptions::from_args(args).expect("options");
    let outcome = search_notebook(&nb, &opts);
    assert_eq!(outcome.matches.len(), 1);
    let sm = &outcome.matches[0];
    assert!(matches!(sm.piece, CellPiece::OutputData));
    assert!(!sm.m.is_text);
    assert_eq!(sm.m.line_number, 0);
    assert!(sm.m.match_positions.is_empty());
    assert!(outcome.issues.is_empty());
}

#[test]
fn scenario_inverted_match() {
    let doc = r#"{"cells":[{"cell_type":"code","execution_count":null,
        "source":["import numpy\n","import pandas\n"]}]}"#;
    let nb = load_notebook(doc).expect("well-formed notebook");
    let mut args = raw_args("numpy");
    args.invert_match = true;
    let opts = SearchOptions::from_args(args).expect("options");
    let outcome = search_notebook(&nb, &opts);
    assert_eq!(outcome.matches.len(), 1);
    let sm = &outcome.matches[0];
    assert_eq!(sm.m.line_number, 1);
    assert_eq!(sm.m.line, "import pandas\n");
    assert!(sm.m.match_positions.is_empty());
    assert_eq!(sm.execution_count, None);
}

#[test]
fn cell_type_filter_skips_cells() {
    let doc = r#"{"cells":[
        {"cell_type":"markdown","source":["numpy is great\n"]},
        {"cell_type":"code","source":["import numpy\n"]}]}"#;
    let nb = load_notebook(doc).expect("well-formed notebook");
    let mut args = raw_args("numpy");
    args.cell_types = Some(vec!["markdown".to_string()]);
    let opts = SearchOptions::from_args(args).expect("options");
    let outcome = search_notebook(&nb, &opts);
    assert_eq!(outcome.matches.len(), 1);
    assert_eq!(outcome.matches[0].cell_index, 0);
}

#[test]
fn no_include_source_skips_source() {
    let doc = r#"{"cells":[{"cell_type":"code",
        "source":["import numpy\n"],
        "outputs":[{"output_type":"stream","text":["numpy loaded\n"]}]}]}"#;
    let nb = load_notebook(doc).expect("well-formed notebook");
    let mut args = raw_args("numpy");
    args.no_include_source = true;
    let opts = SearchOptions::from_args(args).expect("options");
    let outcome = search_notebook(&nb, &opts);
    assert_eq!(outcome.matches.len(), 1);
    assert!(matches!(outcome.matches[0].piece, CellPiece::OutputText));
    assert_eq!(outcome.matches[0].m.line, "numpy loaded\n");
}

#[test]
fn no_include_output_skips_even_direct_text() {
    let doc = r#"{"cells":[{"cell_type":"code",
        "source":["import numpy\n"],
        "outputs":[{"output_type":"stream","text":["numpy loaded\n"]}]}]}"#;
    let nb = load_notebook(doc).expect("well-formed notebook");
    let mut args = raw_args("numpy");
    args.no_include_output = true;
    let opts = SearchOptions::from_args(args).expect("options");
    let outcome = search_notebook(&nb, &opts);
    assert_eq!(outcome.matches.len(), 1);
    assert!(matches!(outcome.matches[0].piece, CellPiece::Source));
}

#[test]
fn bad_text_payload_is_one_recoverable_issue() {
    let doc = r#"{"cells":[{"cell_type":"code",
        "source":["first\n"],
        "outputs":[{"output_type":"execute_result",
                    "data":{"text/plain":"not an array"}}]},
        {"cell_type":"code","source":["second first\n"]}]}"#;
    let nb = load_notebook(doc).expect("well-formed notebook");
    let opts = default_opts("first");
    let outcome = search_notebook(&nb, &opts);
    // the bad payload is skipped, the rest of the file is still scanned
    assert_eq!(outcome.matches.len(), 2);
    assert_eq!(outcome.issues.len(), 1);
    assert_eq!(outcome.issues[0].cell_index, 0);
    assert_eq!(outcome.issues[0].output_index, 0);
    assert_eq!(
        outcome.issues[0].error.message(),
        "Expected an array for output text values."
    );
}

#[test]
fn multiline_anchor_matches_before_newline() {
    let opts = default_opts("numpy$");
    let lines = vec!["import numpy\n", "import numpy as np\n"];
    let found = search_text_lines(lines, &opts);
    assert_eq!(found.len(), 1);
    assert_eq!(found[0].line_number, 0);
}

#[test]
fn every_nonoverlapping_span_is_recorded() {
    let opts = default_opts("ab");
    let found = search_text_lines(vec!["ababab\n"], &opts);
    assert_eq!(found.len(), 1);
    assert_eq!(found[0].match_positions, vec![(0, 2), (2, 4), (4, 6)]);
}

#[test]
fn at_any_match_start_and_stop() {
    let opts = default_opts("ab");
    let found = search_text_lines(vec!["xabyab\n"], &opts);
    let m = &found[0];
    assert_eq!(m.match_positions, vec![(1, 3), (4, 6)]);
    assert!(m.at_any_match_start(1));
    assert!(m.at_any_match_start(4));
    assert!(!m.at_any_match_start(0));
    assert!(m.at_any_match_stop(3));
    assert!(m.at_any_match_stop(6));
    assert!(!m.at_any_match_stop(1));
}

#[test]
fn found_match_reports_any_match() {
    let doc = r#"{"cells":[{"cell_type":"code","source":["hello\n"]}]}"#;
    let nb = load_notebook(doc).expect("well-formed notebook");
    let hit = search_notebook(&nb, &default_opts("hello"));
    assert!(hit.found_match());
    let miss = search_notebook(&nb, &default_opts("goodbye"));
    assert!(!miss.found_match());
}

#[test]
fn data_results_come_before_direct_text() {
    let doc = r#"{"cells":[{"cell_type":"code",
        "source":[],
        "outputs":[{"output_type":"execute_result",
                    "data":{"text/plain":["hit in data\n"]},
                    "text":["hit in text\n"]}]}]}"#;
    let nb = load_notebook(doc).expect("well-formed notebook");
    let outcome = search_notebook(&nb, &default_opts("hit"));
    assert_eq!(outcome.matches.len(), 2);
    assert_eq!(outcome.matches[0].m.line, "hit in data\n");
    assert_eq!(outcome.matches[1].m.line, "hit in text\n");
}
