//! A search engine for notebook documents: a notebook is decoded from JSON
//! into a cell/output model, selected cells and outputs are scanned line by
//! line with a compiled regular expression, and every match is reported with
//! its byte-offset spans so that a renderer can highlight it exactly.

pub mod json;
pub mod matcher;
pub mod notebook;
pub mod options;
pub mod paths;
pub mod pattern;
pub mod render;
pub mod scanner;
pub mod strutil;

pub use pattern::Pattern;
