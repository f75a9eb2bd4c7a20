//! The notebook model and its decoder.
//!
//! A [`Notebook`] is an ordered sequence of [`Cell`]s; a cell has a type, an
//! optional execution count, its source lines, and optionally a list of
//! [`Output`]s whose `data` payloads stay as plain [`Json`] values until the
//! scanner reads them. The decoder turns a parsed [`Json`] document into
//! this model, field by field, and reports exactly where a document does not
//! have the expected shape; the spec functions below pin every outcome down.

use vstd::prelude::*;

verus! {

use crate::json::{
    obj_get_spec, parse_json_text, parsed_json, json_error_message, obj_extract, remainder_spec,
    string_lines_spec, convert_output_text_data, Json,
};
use crate::strutil::{dec_chars, u64_to_string};
use vstd::string::StringExecFns;

/// One `data` payload of an output: a MIME type and its raw JSON value.
#[derive(Debug)]
pub struct DataEntry {
    pub mime: String,
    pub value: Json,
}

/// One output of a code cell: its type tag, the optional map from MIME type
/// to payload (in the parser's field order), and the optional direct text
/// line list.
#[derive(Debug)]
pub struct Output {
    pub output_type: String,
    pub data: Option<Vec<DataEntry>>,
    pub text: Option<Vec<String>>,
}

/// One cell: its type, the execution count (present only for executed code
/// cells), its source lines, and its outputs if it has any.
#[derive(Debug)]
pub struct Cell {
    pub cell_type: String,
    pub execution_count: Option<u64>,
    pub source: Vec<String>,
    pub outputs: Option<Vec<Output>>,
}

/// The decoded document: an ordered sequence of cells.
#[derive(Debug)]
pub struct Notebook {
    pub cells: Vec<Cell>,
}

/// The mathematical content of a data entry: the MIME type's characters and
/// the payload value.
pub type DataEntryV = (Seq<char>, Json);

/// The mathematical content of an output.
pub type OutputV = (Seq<char>, Option<Seq<DataEntryV>>, Option<Seq<Seq<char>>>);

/// The mathematical content of a cell.
pub type CellV = (Seq<char>, Option<u64>, Seq<Seq<char>>, Option<Seq<OutputV>>);

impl Output {
    /// The mathematical content of this output.
    pub open spec fn ov(&self) -> OutputV {
        (
            self.output_type@,
            match self.data {
                Some(entries) => Some(
                    entries@.map_values(|e: DataEntry| (e.mime@, e.value)),
                ),
                None => None,
            },
            match self.text {
                Some(lines) => Some(lines@.map_values(|s: String| s@)),
                None => None,
            },
        )
    }
}

impl Cell {
    /// The mathematical content of this cell.
    pub open spec fn cv(&self) -> CellV {
        (
            self.cell_type@,
            self.execution_count,
            self.source@.map_values(|s: String| s@),
            match self.outputs {
                Some(outputs) => Some(outputs@.map_values(|o: Output| o.ov())),
                None => None,
            },
        )
    }
}

impl Notebook {
    /// The mathematical content of this notebook.
    pub open spec fn nv(&self) -> Seq<CellV> {
        self.cells@.map_values(|c: Cell| c.cv())
    }
}

/// Why a document could not be decoded into the notebook model. The
/// variants carrying indices name the cell (and output) at fault.
#[derive(Debug)]
pub enum DecodeError {
    /// The document is not valid JSON; carries the parser's description.
    Syntax(String),
    /// The document is not a JSON object.
    NotAnObject,
    /// The document has no `cells` field.
    MissingCells,
    /// The `cells` field is not an array.
    CellsNotArray,
    /// A cell is not an object.
    CellNotAnObject { cell: usize },
    /// A cell's `cell_type` is missing or not a string.
    BadCellType { cell: usize },
    /// A cell's `execution_count` is neither a non-negative integer, null,
    /// nor absent.
    BadExecutionCount { cell: usize },
    /// A cell's `source` is missing or not an array of strings.
    BadSource { cell: usize },
    /// A cell's `outputs` is neither an array, null, nor absent.
    BadOutputs { cell: usize },
    /// An output is not an object.
    OutputNotAnObject { cell: usize, output: usize },
    /// An output's `output_type` is missing or not a string.
    BadOutputType { cell: usize, output: usize },
    /// An output's `data` is neither an object, null, nor absent.
    BadOutputData { cell: usize, output: usize },
    /// An output's `text` is neither an array of strings, null, nor absent.
    BadOutputText { cell: usize, output: usize },
}

/// What an `execution_count` field decodes to: absent and null mean none,
/// a non-negative integer means itself, anything else is refused.
pub open spec fn exec_count_spec(v: Option<Json>) -> Result<Option<u64>, ()> {
    match v {
        None => Ok(None),
        Some(j) => match j {
            Json::Null => Ok(None),
            Json::UInt(u) => Ok(Some(u)),
            _ => Err(()),
        },
    }
}

/// What a `data` field decodes to: absent and null mean none, an object
/// becomes its (MIME type, value) entries in order, anything else is
/// refused.
pub open spec fn data_field_spec(v: Option<Json>) -> Result<Option<Seq<DataEntryV>>, ()> {
    match v {
        None => Ok(None),
        Some(j) => match j {
            Json::Null => Ok(None),
            Json::Obj(entries) => Ok(
                Some(entries@.map_values(|p: (String, Json)| (p.0@, p.1))),
            ),
            _ => Err(()),
        },
    }
}

/// What a `text` field decodes to: absent and null mean none, an array of
/// strings becomes its lines, anything else is refused.
pub open spec fn text_field_spec(v: Option<Json>) -> Result<Option<Seq<Seq<char>>>, ()> {
    match v {
        None => Ok(None),
        Some(j) => match j {
            Json::Null => Ok(None),
            _ => match string_lines_spec(j) {
                Some(lines) => Ok(Some(lines)),
                None => Err(()),
            },
        },
    }
}

/// What output `k` of cell `i` decodes to: the fields `output_type`, `data`
/// and `text` are taken out of the object in that order, each as its spec
/// function says, or the error naming the first field that is not as
/// expected.
pub open spec fn output_spec(j: Json, i: usize, k: usize) -> Result<OutputV, DecodeError> {
    match j {
        Json::Obj(fields) => match obj_get_spec(fields@, "output_type"@) {
            Some(Json::Str(ts)) => {
                let f1 = remainder_spec(fields@, "output_type"@);
                match data_field_spec(obj_get_spec(f1, "data"@)) {
                    Err(_) => Err(DecodeError::BadOutputData { cell: i, output: k }),
                    Ok(datav) => {
                        let f2 = remainder_spec(f1, "data"@);
                        match text_field_spec(obj_get_spec(f2, "text"@)) {
                            Err(_) => Err(DecodeError::BadOutputText { cell: i, output: k }),
                            Ok(textv) => Ok((ts@, datav, textv)),
                        }
                    },
                }
            },
            _ => Err(DecodeError::BadOutputType { cell: i, output: k }),
        },
        _ => Err(DecodeError::OutputNotAnObject { cell: i, output: k }),
    }
}

/// What a list of output values decodes to: each in turn, stopping at the
/// first error.
pub open spec fn outputs_list_spec(os: Seq<Json>, i: usize) -> Result<Seq<OutputV>, DecodeError>
    decreases os.len(),
{
    if os.len() == 0 {
        Ok(Seq::empty())
    } else {
        match outputs_list_spec(os.drop_last(), i) {
            Err(e) => Err(e),
            Ok(prefix) => match output_spec(os.last(), i, (os.len() - 1) as usize) {
                Err(e) => Err(e),
                Ok(ov) => Ok(prefix.push(ov)),
            },
        }
    }
}

/// What an `outputs` field decodes to: absent and null mean none, an array
/// becomes its decoded outputs, anything else is refused.
pub open spec fn outputs_field_spec(v: Option<Json>, i: usize) -> Result<
    Option<Seq<OutputV>>,
    DecodeError,
> {
    match v {
        None => Ok(None),
        Some(j) => match j {
            Json::Null => Ok(None),
            Json::Arr(os) => match outputs_list_spec(os@, i) {
                Ok(outs) => Ok(Some(outs)),
                Err(e) => Err(e),
            },
            _ => Err(DecodeError::BadOutputs { cell: i }),
        },
    }
}

/// What cell `i` decodes to: the fields `cell_type`, `execution_count`,
/// `source` and `outputs` are taken out of the object in that order, each as
/// its spec function says, or the error naming the first field that is not
/// as expected.
pub open spec fn cell_spec(j: Json, i: usize) -> Result<CellV, DecodeError> {
    match j {
        Json::Obj(fields) => match obj_get_spec(fields@, "cell_type"@) {
            Some(Json::Str(cts)) => {
                let f1 = remainder_spec(fields@, "cell_type"@);
                match exec_count_spec(obj_get_spec(f1, "execution_count"@)) {
                    Err(_) => Err(DecodeError::BadExecutionCount { cell: i }),
                    Ok(ec) => {
                        let f2 = remainder_spec(f1, "execution_count"@);
                        match obj_get_spec(f2, "source"@) {
                            Some(js) => match string_lines_spec(js) {
                                Some(lines) => {
                                    let f3 = remainder_spec(f2, "source"@);
                                    match outputs_field_spec(obj_get_spec(f3, "outputs"@), i) {
                                        Ok(outs) => Ok((cts@, ec, lines, outs)),
                                        Err(e) => Err(e),
                                    }
                                },
                                None => Err(DecodeError::BadSource { cell: i }),
                            },
                            None => Err(DecodeError::BadSource { cell: i }),
                        }
                    },
                }
            },
            _ => Err(DecodeError::BadCellType { cell: i }),
        },
        _ => Err(DecodeError::CellNotAnObject { cell: i }),
    }
}

/// What a list of cell values decodes to: each in turn, stopping at the
/// first error.
pub open spec fn cells_list_spec(cells: Seq<Json>) -> Result<Seq<CellV>, DecodeError>
    decreases cells.len(),
{
    if cells.len() == 0 {
        Ok(Seq::empty())
    } else {
        match cells_list_spec(cells.drop_last()) {
            Err(e) => Err(e),
            Ok(prefix) => match cell_spec(cells.last(), (cells.len() - 1) as usize) {
                Err(e) => Err(e),
                Ok(cv) => Ok(prefix.push(cv)),
            },
        }
    }
}

/// What a whole document value decodes to: the cells of its `cells` array,
/// or the error naming what is not as expected.
pub open spec fn notebook_spec(j: Json) -> Result<Seq<CellV>, DecodeError> {
    match j {
        Json::Obj(fields) => match obj_get_spec(fields@, "cells"@) {
            Some(Json::Arr(cs)) => cells_list_spec(cs@),
            Some(_) => Err(DecodeError::CellsNotArray),
            None => Err(DecodeError::MissingCells),
        },
        _ => Err(DecodeError::NotAnObject),
    }
}

/// Once a list prefix decodes and the next element does not, the whole list
/// reports that element's error.
proof fn lemma_outputs_list_err(os: Seq<Json>, i: usize, n: usize, e: DecodeError)
    requires
        n < os.len(),
        outputs_list_spec(os.take(n as int), i) is Ok,
        output_spec(os[n as int], i, n) == Err::<OutputV, DecodeError>(e),
    ensures
        outputs_list_spec(os, i) == Err::<Seq<OutputV>, DecodeError>(e),
    decreases os.len(),
{
    if os.len() - 1 == n {
        assert(os.take(n as int) =~= os.drop_last());
    } else {
        assert(os.drop_last().take(n as int) =~= os.take(n as int));
        assert(os.drop_last()[n as int] == os[n as int]);
        lemma_outputs_list_err(os.drop_last(), i, n, e);
    }
}

/// Once a cell-list prefix decodes and the next cell does not, the whole
/// list reports that cell's error.
proof fn lemma_cells_list_err(cells: Seq<Json>, n: usize, e: DecodeError)
    requires
        n < cells.len(),
        cells_list_spec(cells.take(n as int)) is Ok,
        cell_spec(cells[n as int], n) == Err::<CellV, DecodeError>(e),
    ensures
        cells_list_spec(cells) == Err::<Seq<CellV>, DecodeError>(e),
    decreases cells.len(),
{
    if cells.len() - 1 == n {
        assert(cells.take(n as int) =~= cells.drop_last());
    } else {
        assert(cells.drop_last().take(n as int) =~= cells.take(n as int));
        assert(cells.drop_last()[n as int] == cells[n as int]);
        lemma_cells_list_err(cells.drop_last(), n, e);
    }
}

/// Decode one output value.
#[verifier::loop_isolation(false)]
fn decode_output(j: Json, i: usize, k: usize) -> (r: Result<Output, DecodeError>)
    ensures
        match r {
            Ok(o) => output_spec(j, i, k) == Ok::<OutputV, DecodeError>(o.ov()),
            Err(e) => output_spec(j, i, k) == Err::<OutputV, DecodeError>(e),
        },
{
    let fields = match j {
        Json::Obj(fields) => fields,
        _ => {
            return Err(DecodeError::OutputNotAnObject { cell: i, output: k });
        },
    };
    let (tv, fields) = obj_extract(fields, "output_type");
    let output_type: String = match tv {
        Some(Json::Str(s)) => s,
        _ => {
            return Err(DecodeError::BadOutputType { cell: i, output: k });
        },
    };
    let (dv, fields) = obj_extract(fields, "data");
    let data: Option<Vec<DataEntry>> = match dv {
        None => None,
        Some(Json::Null) => None,
        Some(Json::Obj(entries)) => {
            let ghost entries_v = entries@;
            let mut out: Vec<DataEntry> = Vec::new();
            let mut rest = entries;
            proof {
                assert(rest@ =~= entries_v.subrange(0, entries_v.len() as int));
            }
            while rest.len() > 0
                invariant
                    out@.len() + rest@.len() == entries_v.len(),
                    rest@ =~= entries_v.subrange(out@.len() as int, entries_v.len() as int),
                    forall|n: int|
                        0 <= n < out@.len() ==> (#[trigger] out@[n]).mime == entries_v[n].0
                            && out@[n].value == entries_v[n].1,
                decreases rest@.len(),
            {
                let (mime, value) = rest.remove(0);
                out.push(DataEntry { mime, value });
            }
            proof {
                assert(out@.map_values(|e: DataEntry| (e.mime@, e.value)) =~= entries_v.map_values(
                    |p: (String, Json)| (p.0@, p.1),
                ));
            }
            Some(out)
        },
        Some(_) => {
            return Err(DecodeError::BadOutputData { cell: i, output: k });
        },
    };
    let (xv, _fields) = obj_extract(fields, "text");
    let text: Option<Vec<String>> = match xv {
        None => None,
        Some(Json::Null) => None,
        Some(other) => match convert_output_text_data(&other) {
            Ok(lines) => Some(lines),
            Err(_) => {
                return Err(DecodeError::BadOutputText { cell: i, output: k });
            },
        },
    };
    Ok(Output { output_type, data, text })
}

/// Decode one cell value.
#[verifier::loop_isolation(false)]
fn decode_cell(j: Json, i: usize) -> (r: Result<Cell, DecodeError>)
    ensures
        match r {
            Ok(c) => cell_spec(j, i) == Ok::<CellV, DecodeError>(c.cv()),
            Err(e) => cell_spec(j, i) == Err::<CellV, DecodeError>(e),
        },
{
    let fields = match j {
        Json::Obj(fields) => fields,
        _ => {
            return Err(DecodeError::CellNotAnObject { cell: i });
        },
    };
    let (ctv, fields) = obj_extract(fields, "cell_type");
    let cell_type: String = match ctv {
        Some(Json::Str(s)) => s,
        _ => {
            return Err(DecodeError::BadCellType { cell: i });
        },
    };
    let (ecv, fields) = obj_extract(fields, "execution_count");
    let execution_count: Option<u64> = match ecv {
        None => None,
        Some(Json::Null) => None,
        Some(Json::UInt(u)) => Some(u),
        Some(_) => {
            return Err(DecodeError::BadExecutionCount { cell: i });
        },
    };
    let (sv, fields) = obj_extract(fields, "source");
    let source: Vec<String> = match sv {
        Some(js) => match convert_output_text_data(&js) {
            Ok(lines) => lines,
            Err(_) => {
                return Err(DecodeError::BadSource { cell: i });
            },
        },
        None => {
            return Err(DecodeError::BadSource { cell: i });
        },
    };
    let (ov, _fields) = obj_extract(fields, "outputs");
    let outputs: Option<Vec<Output>> = match ov {
        None => None,
        Some(Json::Null) => None,
        Some(Json::Arr(os)) => {
            let ghost os_v = os@;
            let mut out: Vec<Output> = Vec::new();
            let mut rest = os;
            proof {
                assert(os_v.take(0) =~= Seq::<Json>::empty());
                assert(out@.map_values(|o2: Output| o2.ov()) =~= Seq::<OutputV>::empty());
                assert(rest@ =~= os_v.subrange(0, os_v.len() as int));
            }
            while rest.len() > 0
                invariant
                    out@.len() + rest@.len() == os_v.len(),
                    rest@ =~= os_v.subrange(out@.len() as int, os_v.len() as int),
                    outputs_list_spec(os_v.take(out@.len() as int), i) == Ok::<
                        Seq<OutputV>,
                        DecodeError,
                    >(out@.map_values(|o: Output| o.ov())),
                decreases rest@.len(),
            {
                let k = out.len();
                let jo = rest.remove(0);
                proof {
                    assert(jo == os_v[k as int]);
                }
                match decode_output(jo, i, k) {
                    Ok(o) => {
                        let ghost prev = out@;
                        out.push(o);
                        proof {
                            assert(os_v.take(k + 1).drop_last() =~= os_v.take(k as int));
                            assert(os_v.take(k + 1).last() == os_v[k as int]);
                            assert(out@.map_values(|o2: Output| o2.ov()) =~= prev.map_values(
                                |o2: Output| o2.ov(),
                            ).push(o.ov()));
                        }
                    },
                    Err(e) => {
                        proof {
                            lemma_outputs_list_err(os_v, i, k, e);
                        }
                        return Err(e);
                    },
                }
            }
            proof {
                assert(os_v.take(os_v.len() as int) =~= os_v);
            }
            Some(out)
        },
        Some(_) => {
            return Err(DecodeError::BadOutputs { cell: i });
        },
    };
    Ok(Cell { cell_type, execution_count, source, outputs })
}

/// Decode a whole document value into the notebook model: exactly what
/// `notebook_spec` says, with the model's content equal to the decoded
/// cells.
#[verifier::loop_isolation(false)]
#[verifier::rlimit(30)]
pub fn notebook_from_json(j: Json) -> (r: Result<Notebook, DecodeError>)
    ensures
        match r {
            Ok(nb) => notebook_spec(j) == Ok::<Seq<CellV>, DecodeError>(nb.nv()),
            Err(e) => notebook_spec(j) == Err::<Seq<CellV>, DecodeError>(e),
        },
{
    let fields = match j {
        Json::Obj(fields) => fields,
        _ => {
            return Err(DecodeError::NotAnObject);
        },
    };
    let (cv, _fields) = obj_extract(fields, "cells");
    let cells_json: Vec<Json> = match cv {
        Some(Json::Arr(cs)) => cs,
        Some(_) => {
            return Err(DecodeError::CellsNotArray);
        },
        None => {
            return Err(DecodeError::MissingCells);
        },
    };
    let ghost cs_v = cells_json@;
    let mut cells: Vec<Cell> = Vec::new();
    let mut rest = cells_json;
    proof {
        assert(cs_v.take(0) =~= Seq::<Json>::empty());
        assert(cells@.map_values(|c2: Cell| c2.cv()) =~= Seq::<CellV>::empty());
        assert(rest@ =~= cs_v.subrange(0, cs_v.len() as int));
    }
    while rest.len() > 0
        invariant
            cells@.len() + rest@.len() == cs_v.len(),
            rest@ =~= cs_v.subrange(cells@.len() as int, cs_v.len() as int),
            cells_list_spec(cs_v.take(cells@.len() as int)) == Ok::<Seq<CellV>, DecodeError>(
                cells@.map_values(|c: Cell| c.cv()),
            ),
        decreases rest@.len(),
    {
        let n = cells.len();
        let jc = rest.remove(0);
        proof {
            assert(jc == cs_v[n as int]);
        }
        match decode_cell(jc, n) {
            Ok(c) => {
                let ghost prev = cells@;
                cells.push(c);
                proof {
                    assert(cs_v.take(n + 1).drop_last() =~= cs_v.take(n as int));
                    assert(cs_v.take(n + 1).last() == cs_v[n as int]);
                    assert(cells@.map_values(|c2: Cell| c2.cv()) =~= prev.map_values(
                        |c2: Cell| c2.cv(),
                    ).push(c.cv()));
                }
            },
            Err(e) => {
                proof {
                    lemma_cells_list_err(cs_v, n, e);
                }
                return Err(e);
            },
        }
    }
    proof {
        assert(cs_v.take(cs_v.len() as int) =~= cs_v);
    }
    Ok(Notebook { cells })
}

/// A decoded output never reports a syntax error: every error it can yield
/// names the shape fault.
proof fn lemma_output_spec_no_syntax(j: Json, i: usize, k: usize)
    ensures
        output_spec(j, i, k) matches Err(e) ==> !(e is Syntax),
{
}

/// A decoded output list never reports a syntax error.
proof fn lemma_outputs_list_no_syntax(os: Seq<Json>, i: usize)
    ensures
        outputs_list_spec(os, i) matches Err(e) ==> !(e is Syntax),
    decreases os.len(),
{
    if os.len() > 0 {
        lemma_outputs_list_no_syntax(os.drop_last(), i);
        lemma_output_spec_no_syntax(os.last(), i, (os.len() - 1) as usize);
    }
}

/// A decoded cell never reports a syntax error.
proof fn lemma_cell_spec_no_syntax(j: Json, i: usize)
    ensures
        cell_spec(j, i) matches Err(e) ==> !(e is Syntax),
{
    if let Json::Obj(fields) = j {
        let f1 = remainder_spec(fields@, "cell_type"@);
        let f2 = remainder_spec(f1, "execution_count"@);
        let f3 = remainder_spec(f2, "source"@);
        if let Some(Json::Arr(os)) = obj_get_spec(f3, "outputs"@) {
            lemma_outputs_list_no_syntax(os@, i);
        }
    }
}

/// A decoded cell list never reports a syntax error.
proof fn lemma_cells_list_no_syntax(cells: Seq<Json>)
    ensures
        cells_list_spec(cells) matches Err(e) ==> !(e is Syntax),
    decreases cells.len(),
{
    if cells.len() > 0 {
        lemma_cells_list_no_syntax(cells.drop_last());
        lemma_cell_spec_no_syntax(cells.last(), (cells.len() - 1) as usize);
    }
}

/// Decoding a value never reports a syntax error: `Syntax` belongs to the
/// parser alone.
pub proof fn lemma_notebook_spec_no_syntax(j: Json)
    ensures
        notebook_spec(j) matches Err(e) ==> !(e is Syntax),
{
    if let Json::Obj(fields) = j {
        if let Some(Json::Arr(cs)) = obj_get_spec(fields@, "cells"@) {
            lemma_cells_list_no_syntax(cs@);
        }
    }
}

/// Decode a document's text into the notebook model. Text that is not valid
/// JSON yields a syntax error (with the parser's description), and nothing
/// else does; text that parses to the value `parsed_json` names decodes
/// exactly as `notebook_spec` says, so a well-shaped document is owed its
/// mirroring notebook and an ill-shaped one the error naming its fault.
pub fn load_notebook(text: &str) -> (r: Result<Notebook, DecodeError>)
    ensures
        parsed_json(text@) matches Some(j) ==> match r {
            Ok(nb) => notebook_spec(j) == Ok::<Seq<CellV>, DecodeError>(nb.nv()),
            Err(e) => notebook_spec(j) == Err::<Seq<CellV>, DecodeError>(e),
        },
        (r matches Err(e) && e is Syntax) <==> parsed_json(text@) is None,
{
    let j = match parse_json_text(text) {
        Ok(j) => j,
        Err(e) => {
            return Err(DecodeError::Syntax(json_error_message(&e)));
        },
    };
    let ghost jg = j;
    match notebook_from_json(j) {
        Ok(nb) => {
            proof {
                assert(notebook_spec(jg) == Ok::<Seq<CellV>, DecodeError>(nb.nv()));
            }
            Ok(nb)
        },
        Err(e) => {
            proof {
                assert(notebook_spec(jg) == Err::<Seq<CellV>, DecodeError>(e));
                lemma_notebook_spec_no_syntax(jg);
            }
            Err(e)
        },
    }
}

impl DecodeError {
    /// The error text, as it is reported to the user.
    pub fn message(&self) -> (r: String)
        ensures
            match *self {
                DecodeError::Syntax(ref m) => r@ == m@,
                DecodeError::NotAnObject => r@ == "notebook is not an object"@,
                DecodeError::MissingCells => r@ == "notebook has no 'cells' field"@,
                DecodeError::CellsNotArray => r@ == "'cells' is not an array"@,
                DecodeError::CellNotAnObject { cell } => r@ == "cell "@ + dec_chars(cell as nat)
                    + ": not an object"@,
                DecodeError::BadCellType { cell } => r@ == "cell "@ + dec_chars(cell as nat)
                    + ": bad 'cell_type'"@,
                DecodeError::BadExecutionCount { cell } => r@ == "cell "@ + dec_chars(cell as nat)
                    + ": bad 'execution_count'"@,
                DecodeError::BadSource { cell } => r@ == "cell "@ + dec_chars(cell as nat)
                    + ": bad 'source'"@,
                DecodeError::BadOutputs { cell } => r@ == "cell "@ + dec_chars(cell as nat)
                    + ": bad 'outputs'"@,
                DecodeError::OutputNotAnObject { cell, output } => r@ == "cell "@ + dec_chars(
                    cell as nat,
                ) + " output "@ + dec_chars(output as nat) + ": not an object"@,
                DecodeError::BadOutputType { cell, output } => r@ == "cell "@ + dec_chars(
                    cell as nat,
                ) + " output "@ + dec_chars(output as nat) + ": bad 'output_type'"@,
                DecodeError::BadOutputData { cell, output } => r@ == "cell "@ + dec_chars(
                    cell as nat,
                ) + " output "@ + dec_chars(output as nat) + ": bad 'data'"@,
                DecodeError::BadOutputText { cell, output } => r@ == "cell "@ + dec_chars(
                    cell as nat,
                ) + " output "@ + dec_chars(output as nat) + ": bad 'text'"@,
            },
    {
        match self {
            DecodeError::Syntax(m) => m.clone(),
            DecodeError::NotAnObject => "notebook is not an object".to_owned(),
            DecodeError::MissingCells => "notebook has no 'cells' field".to_owned(),
            DecodeError::CellsNotArray => "'cells' is not an array".to_owned(),
            DecodeError::CellNotAnObject { cell } => {
                let mut s = "cell ".to_owned();
                s.append(u64_to_string(*cell as u64).as_str());
                s.append(": not an object");
                s
            },
            DecodeError::BadCellType { cell } => {
                let mut s = "cell ".to_owned();
                s.append(u64_to_string(*cell as u64).as_str());
                s.append(": bad 'cell_type'");
                s
            },
            DecodeError::BadExecutionCount { cell } => {
                let mut s = "cell ".to_owned();
                s.append(u64_to_string(*cell as u64).as_str());
                s.append(": bad 'execution_count'");
                s
            },
            DecodeError::BadSource { cell } => {
                let mut s = "cell ".to_owned();
                s.append(u64_to_string(*cell as u64).as_str());
                s.append(": bad 'source'");
                s
            },
            DecodeError::BadOutputs { cell } => {
                let mut s = "cell ".to_owned();
                s.append(u64_to_string(*cell as u64).as_str());
                s.append(": bad 'outputs'");
                s
            },
            DecodeError::OutputNotAnObject { cell, output } => {
                let mut s = "cell ".to_owned();
                s.append(u64_to_string(*cell as u64).as_str());
                s.append(" output ");
                s.append(u64_to_string(*output as u64).as_str());
                s.append(": not an object");
                s
            },
            DecodeError::BadOutputType { cell, output } => {
                let mut s = "cell ".to_owned();
                s.append(u64_to_string(*cell as u64).as_str());
                s.append(" output ");
                s.append(u64_to_string(*output as u64).as_str());
                s.append(": bad 'output_type'");
                s
            },
            DecodeError::BadOutputData { cell, output } => {
                let mut s = "cell ".to_owned();
                s.append(u64_to_string(*cell as u64).as_str());
                s.append(" output ");
                s.append(u64_to_string(*output as u64).as_str());
                s.append(": bad 'data'");
                s
            },
            DecodeError::BadOutputText { cell, output } => {
                let mut s = "cell ".to_owned();
                s.append(u64_to_string(*cell as u64).as_str());
                s.append(" output ");
                s.append(u64_to_string(*output as u64).as_str());
                s.append(": bad 'text'");
                s
            },
        }
    }
}

} // verus!
