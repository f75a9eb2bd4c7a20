use jrep::json::{convert_output_nontext_data, convert_output_text_data, Json};
use jrep::notebook::{load_notebook, notebook_from_json, DecodeError};

#[test]
fn minimal_notebook_decodes() {
    let doc = r#"{"cells":[]}"#;
    let nb = load_notebook(doc).expect("decodes");
    assert!(nb.cells.is_empty());
}

#[test]
fn full_cell_decodes() {
    let doc = r#"{"cells":[{"cell_type":"code","execution_count":3,
        "source":["a\n","b\n"],
        "outputs":[{"output_type":"stream","text":["out\n"]}]}]}"#;
    let nb = load_notebook(doc).expect("decodes");
    assert_eq!(nb.cells.len(), 1);
    let cell = &nb.cells[0];
    assert_eq!(cell.cell_type, "code");
    assert_eq!(cell.execution_count, Some(3));
    assert_eq!(cell.source, vec!["a\n".to_string(), "b\n".to_string()]);
    let outputs = cell.outputs.as_ref().expect("outputs");
    assert_eq!(outputs.len(), 1);
    assert_eq!(outputs[0].output_type, "stream");
    assert!(outputs[0].data.is_none());
    assert_eq!(
        outputs[0].text.as_ref().expect("text"),
        &vec!["out\n".to_string()]
    );
}

#[test]
fn execution_count_null_and_absent_mean_none() {
    let doc = r#"{"cells":[
        {"cell_type":"code","execution_count":null,"source":[]},
        {"cell_type":"markdown","source":[]}]}"#;
    let nb = load_notebook(doc).expect("decodes");
    assert_eq!(nb.cells[0].execution_count, None);
    assert_eq!(nb.cells[1].execution_count, None);
}

#[test]
fn data_entries_keep_their_values() {
    let doc = r#"{"cells":[{"cell_type":"code","source":[],
        "outputs":[{"output_type":"display_data",
                    "data":{"image/png":"AAAA","text/plain":["x\n"]}}]}]}"#;
    let nb = load_notebook(doc).expect("decodes");
    let outputs = nb.cells[0].outputs.as_ref().expect("outputs");
    let data = outputs[0].data.as_ref().expect("data");
    assert_eq!(data.len(), 2);
    // serde_json's map iterates keys in sorted order
    assert_eq!(data[0].mime, "image/png");
    assert!(matches!(&data[0].value, Json::Str(s) if s == "AAAA"));
    assert_eq!(data[1].mime, "text/plain");
    let lines = convert_output_text_data(&data[1].value).expect("lines");
    assert_eq!(lines, vec!["x\n".to_string()]);
}

#[test]
fn syntax_error_is_reported() {
    let e = load_notebook("not json at all").expect_err("must fail");
    assert!(matches!(e, DecodeError::Syntax(_)));
    assert!(!e.message().is_empty());
}

#[test]
fn missing_cells_is_reported() {
    let e = load_notebook(r#"{"other":1}"#).expect_err("must fail");
    assert!(matches!(e, DecodeError::MissingCells));
    assert_eq!(e.message(), "notebook has no 'cells' field");
}

#[test]
fn non_object_document_is_reported() {
    let e = load_notebook("[1,2,3]").expect_err("must fail");
    assert!(matches!(e, DecodeError::NotAnObject));
}

#[test]
fn cells_not_array_is_reported() {
    let e = load_notebook(r#"{"cells":7}"#).expect_err("must fail");
    assert!(matches!(e, DecodeError::CellsNotArray));
}

#[test]
fn bad_cell_type_names_the_cell() {
    let doc = r#"{"cells":[{"cell_type":"code","source":[]},
                           {"cell_type":5,"source":[]}]}"#;
    let e = load_notebook(doc).expect_err("must fail");
    assert!(matches!(e, DecodeError::BadCellType { cell: 1 }));
    assert_eq!(e.message(), "cell 1: bad 'cell_type'");
}

#[test]
fn bad_source_names_the_cell() {
    let doc = r#"{"cells":[{"cell_type":"code","source":["x\n",3]}]}"#;
    let e = load_notebook(doc).expect_err("must fail");
    assert!(matches!(e, DecodeError::BadSource { cell: 0 }));
    assert_eq!(e.message(), "cell 0: bad 'source'");
}

#[test]
fn bad_execution_count_names_the_cell() {
    let doc = r#"{"cells":[{"cell_type":"code","execution_count":-1,"source":[]}]}"#;
    let e = load_notebook(doc).expect_err("must fail");
    assert!(matches!(e, DecodeError::BadExecutionCount { cell: 0 }));
}

#[test]
fn bad_output_type_names_cell_and_output() {
    let doc = r#"{"cells":[{"cell_type":"code","source":[],
        "outputs":[{"output_type":"stream"},{"text":["x\n"]}]}]}"#;
    let e = load_notebook(doc).expect_err("must fail");
    assert!(matches!(e, DecodeError::BadOutputType { cell: 0, output: 1 }));
    assert_eq!(e.message(), "cell 0 output 1: bad 'output_type'");
}

#[test]
fn bad_output_text_names_cell_and_output() {
    let doc = r#"{"cells":[{"cell_type":"code","source":[],
        "outputs":[{"output_type":"stream","text":"flat"}]}]}"#;
    let e = load_notebook(doc).expect_err("must fail");
    assert!(matches!(e, DecodeError::BadOutputText { cell: 0, output: 0 }));
}

#[test]
fn cell_not_an_object_names_the_cell() {
    let doc = r#"{"cells":[{"cell_type":"code","source":[]},"flat"]}"#;
    let e = load_notebook(doc).expect_err("must fail");
    assert!(matches!(e, DecodeError::CellNotAnObject { cell: 1 }));
    assert_eq!(e.message(), "cell 1: not an object");
}

#[test]
fn bad_outputs_names_the_cell() {
    let doc = r#"{"cells":[{"cell_type":"code","source":[],"outputs":"flat"}]}"#;
    let e = load_notebook(doc).expect_err("must fail");
    assert!(matches!(e, DecodeError::BadOutputs { cell: 0 }));
}

#[test]
fn output_not_an_object_names_cell_and_output() {
    let doc = r#"{"cells":[{"cell_type":"code","source":[],"outputs":[17]}]}"#;
    let e = load_notebook(doc).expect_err("must fail");
    assert!(matches!(e, DecodeError::OutputNotAnObject { cell: 0, output: 0 }));
}

#[test]
fn bad_output_data_names_cell_and_output() {
    let doc = r#"{"cells":[{"cell_type":"code","source":[],
        "outputs":[{"output_type":"stream","data":[1]}]}]}"#;
    let e = load_notebook(doc).expect_err("must fail");
    assert!(matches!(e, DecodeError::BadOutputData { cell: 0, output: 0 }));
    assert_eq!(e.message(), "cell 0 output 0: bad 'data'");
}

#[test]
fn duplicate_keys_collapse_to_the_last() {
    // the JSON parser keeps the last occurrence of a repeated key
    let doc = r#"{"cells":[],"cells":[{"cell_type":"raw","source":["x\n"]}]}"#;
    let nb = load_notebook(doc).expect("decodes");
    assert_eq!(nb.cells.len(), 1);
}

#[test]
fn notebook_from_json_accepts_handmade_values() {
    let cell = Json::Obj(vec![
        ("cell_type".to_string(), Json::Str("raw".to_string())),
        ("source".to_string(), Json::Arr(vec![Json::Str("hand\n".to_string())])),
    ]);
    let doc = Json::Obj(vec![("cells".to_string(), Json::Arr(vec![cell]))]);
    let nb = notebook_from_json(doc).expect("decodes");
    assert_eq!(nb.cells[0].cell_type, "raw");
    assert_eq!(nb.cells[0].source, vec!["hand\n".to_string()]);
    assert!(nb.cells[0].outputs.is_none());
}

#[test]
fn nontext_payload_must_be_a_string() {
    let v = Json::Arr(vec![Json::Str("x".to_string())]);
    let e = convert_output_nontext_data(&v).expect_err("must fail");
    assert_eq!(e.message(), "Unexpected type for nontext data");
    let blob = Json::Str("blob".to_string());
    let ok = convert_output_nontext_data(&blob).expect("ok");
    assert_eq!(ok, "blob");
}

#[test]
fn text_payload_element_must_be_strings() {
    let v = Json::Arr(vec![Json::Str("x".to_string()), Json::UInt(3)]);
    let e = convert_output_text_data(&v).expect_err("must fail");
    assert_eq!(
        e.message(),
        "Expected a string for all elements of output text value"
    );
}
