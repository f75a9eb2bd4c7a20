//! Search configuration.
//!
//! [`SearchOptions`] is the fully resolved configuration for one run. It is
//! built once by [`SearchOptions::from_args`] from the plain values a
//! command-line layer hands over, and read-only afterwards. Every derived
//! field is pinned down by a spec function, so a caller knows exactly which
//! pattern was compiled, which cell and output types are scanned, and how
//! results are displayed.

use vstd::prelude::*;

verus! {

use crate::pattern::{regex_compiles, Pattern};
use crate::strutil::str_eq;
use vstd::string::StringExecFns;

/// The raw configuration values, as the command-line layer resolved them:
/// plain flags, counts and strings, before defaulting and validation.
pub struct RawArgs {
    /// The pattern text as given by the user.
    pub pattern: String,
    /// Fold case while matching.
    pub ignore_case: bool,
    /// Keep the lines the pattern does not match.
    pub invert_match: bool,
    /// Recurse into subdirectories when expanding a directory.
    pub recursive: bool,
    /// One of "always", "never" or "auto".
    pub color_choice: String,
    /// Whether standard output is an interactive terminal.
    pub stdout_is_tty: bool,
    /// Do not scan cell source text.
    pub no_include_source: bool,
    /// Cell types to scan; `None` means all conventional types.
    pub cell_types: Option<Vec<String>>,
    /// Output MIME types to scan; `None` means the default set.
    pub output_types: Option<Vec<String>>,
    /// Reset the output-type set to the default, overriding `output_types`.
    pub force_include_output: bool,
    /// Scan no outputs at all, overriding `output_types`.
    pub no_include_output: bool,
    /// Select the most verbose line-detail template.
    pub max_line_info: bool,
    /// How many times the line-detail flag was given.
    pub line_info: u8,
    /// Always show file names, overriding `show_filenames_choice`.
    pub force_show_file: bool,
    /// One of "always", "never" or "auto".
    pub show_filenames_choice: String,
    /// How many input paths were given.
    pub n_paths: usize,
    /// Whether any given input path is a directory.
    pub any_path_is_dir: bool,
}

/// A configuration error: an unexpected flag value, or a pattern the regex
/// engine rejected (with its description).
#[derive(Debug)]
pub enum ConfigError {
    BadColorChoice,
    BadPattern(String),
}

impl ConfigError {
    /// The error text, as it is reported to the user.
    pub fn message(&self) -> (r: String)
        ensures
            self is BadColorChoice ==> r@ == "Unexpected value for '--color'"@,
            self matches ConfigError::BadPattern(m) ==> r@ == m@,
    {
        match self {
            ConfigError::BadColorChoice => "Unexpected value for '--color'".to_owned(),
            ConfigError::BadPattern(m) => m.clone(),
        }
    }
}

/// The fully resolved configuration for one search run.
pub struct SearchOptions {
    /// The compiled pattern (multi-line mode, case folded when asked for).
    pub re: Pattern,
    /// Scan cell source text.
    pub include_source: bool,
    /// The cell types whose cells are scanned.
    pub include_cell_types: Vec<String>,
    /// The output MIME types whose data entries are scanned; empty means
    /// outputs are not scanned at all.
    pub include_output_types: Vec<String>,
    /// Highlight match spans in reported lines.
    pub color_matches: bool,
    /// Keep the lines the pattern does not match.
    pub invert_match: bool,
    /// The line-detail verbosity level (0 = none, 255 = the full sentence).
    pub show_line_detail: u8,
    /// Prefix every reported line with the file it came from.
    pub show_file_name: bool,
    /// Recurse into subdirectories when expanding a directory.
    pub recursive: bool,
}

/// The pattern text actually compiled: multi-line mode is always enabled so
/// end-of-line anchors match before embedded newlines, and case folding is
/// prepended when asked for.
pub open spec fn decorated_pattern(pat: Seq<char>, ignore_case: bool) -> Seq<char> {
    if ignore_case {
        "(?i)(?m)"@ + pat
    } else {
        "(?m)"@ + pat
    }
}

/// Whether a color choice is one of the accepted words.
pub open spec fn valid_color_choice(choice: Seq<char>) -> bool {
    choice == "always"@ || choice == "never"@ || choice == "auto"@
}

/// Whether matches are colorized: "always" yes, "never" no, "auto" exactly
/// when standard output is an interactive terminal.
pub open spec fn color_spec(choice: Seq<char>, stdout_is_tty: bool) -> bool {
    if choice == "always"@ {
        true
    } else if choice == "never"@ {
        false
    } else if choice == "auto"@ {
        stdout_is_tty
    } else {
        false
    }
}

/// The conventional cell types, scanned when no explicit set is given.
pub open spec fn default_cell_types() -> Seq<Seq<char>> {
    seq!["markdown"@, "code"@, "raw"@]
}

/// The cell-type set: as given, or all conventional types.
pub open spec fn cell_types_spec(given: Option<Vec<String>>) -> Seq<Seq<char>> {
    match given {
        Option::Some(v) => v@.map_values(|s: String| s@),
        Option::None => default_cell_types(),
    }
}

/// The default output MIME-type set: exactly the plain-text type.
pub open spec fn default_output_types() -> Seq<Seq<char>> {
    seq!["text/plain"@]
}

/// The output-type set: reset to the default or emptied by the overriding
/// flags, otherwise as given, otherwise the default.
pub open spec fn output_types_spec(
    given: Option<Vec<String>>,
    force_include: bool,
    no_include: bool,
) -> Seq<Seq<char>> {
    if force_include {
        default_output_types()
    } else if no_include {
        Seq::empty()
    } else {
        match given {
            Option::Some(v) => v@.map_values(|s: String| s@),
            Option::None => default_output_types(),
        }
    }
}

/// Whether file names are shown: forced on, chosen "always", or "auto" when
/// more than one input path was given or any given path is a directory. The
/// "auto" heuristic is judged on the raw argument list, before directories
/// are expanded into files.
pub open spec fn show_file_spec(
    force: bool,
    choice: Seq<char>,
    n_paths: int,
    any_path_is_dir: bool,
) -> bool {
    if force {
        true
    } else if choice == "auto"@ {
        n_paths > 1 || any_path_is_dir
    } else {
        choice == "always"@
    }
}

/// The line-detail level: the maximum sentinel when the most verbose
/// template is forced, otherwise the flag count.
pub open spec fn detail_spec(max_line_info: bool, line_info: u8) -> u8 {
    if max_line_info {
        255u8
    } else {
        line_info
    }
}

/// Turn a list of string literals into owned strings.
pub fn to_string_vec(a: &[&str]) -> (r: Vec<String>)
    ensures
        r@.map_values(|s: String| s@) == a@.map_values(|s: &str| s@),
{
    let mut tmp: Vec<String> = Vec::new();
    let mut i: usize = 0;
    while i < a.len()
        invariant
            0 <= i <= a@.len(),
            tmp@.len() == i,
            forall|k: int| 0 <= k < i ==> (#[trigger] tmp@[k])@ == a@[k]@,
        decreases a@.len() - i,
    {
        tmp.push(a[i].to_owned());
        i += 1;
    }
    proof {
        assert(tmp@.map_values(|s: String| s@) =~= a@.map_values(|s: &str| s@));
    }
    tmp
}

impl SearchOptions {
    /// Resolve the raw values into a configuration. An unexpected color
    /// choice is rejected first; then the decorated pattern is handed to the
    /// regex engine, whose rejection (the only other failure) is returned
    /// with its description: success exactly when the color choice is one of
    /// the accepted words and the engine accepts the decorated pattern. On
    /// success every field is exactly the value the corresponding spec
    /// function derives from the raw values.
    pub fn from_args(args: RawArgs) -> (r: Result<SearchOptions, ConfigError>)
        ensures
            r is Ok <==> valid_color_choice(args.color_choice@) && regex_compiles(
                decorated_pattern(args.pattern@, args.ignore_case),
            ),
            !valid_color_choice(args.color_choice@) <==> r == Err::<SearchOptions, _>(
                ConfigError::BadColorChoice,
            ),
            r matches Err(e) ==> (valid_color_choice(args.color_choice@) ==> e is BadPattern),
            r matches Ok(o) ==> {
                &&& o.re@ == decorated_pattern(args.pattern@, args.ignore_case)
                &&& o.include_source == !args.no_include_source
                &&& o.include_cell_types@.map_values(|s: String| s@) == cell_types_spec(
                    args.cell_types,
                )
                &&& o.include_output_types@.map_values(|s: String| s@) == output_types_spec(
                    args.output_types,
                    args.force_include_output,
                    args.no_include_output,
                )
                &&& o.color_matches == color_spec(args.color_choice@, args.stdout_is_tty)
                &&& o.invert_match == args.invert_match
                &&& o.show_line_detail == detail_spec(args.max_line_info, args.line_info)
                &&& o.show_file_name == show_file_spec(
                    args.force_show_file,
                    args.show_filenames_choice@,
                    args.n_paths as int,
                    args.any_path_is_dir,
                )
                &&& o.recursive == args.recursive
            },
    {
        let mut re_src: String = if args.ignore_case {
            "(?i)(?m)".to_owned()
        } else {
            "(?m)".to_owned()
        };
        re_src.append(args.pattern.as_str());

        let color = if str_eq(args.color_choice.as_str(), "always") {
            true
        } else if str_eq(args.color_choice.as_str(), "never") {
            false
        } else if str_eq(args.color_choice.as_str(), "auto") {
            args.stdout_is_tty
        } else {
            return Err(ConfigError::BadColorChoice);
        };

        let include_source = !args.no_include_source;

        let cell_types: Vec<String> = match args.cell_types {
            Some(v) => v,
            None => {
                let d = to_string_vec(&["markdown", "code", "raw"]);
                proof {
                    assert(d@.map_values(|s: String| s@) =~= default_cell_types());
                }
                d
            },
        };

        let output_types: Vec<String> = if args.force_include_output {
            let d = to_string_vec(&["text/plain"]);
            proof {
                assert(d@.map_values(|s: String| s@) =~= default_output_types());
            }
            d
        } else if args.no_include_output {
            let d: Vec<String> = Vec::new();
            proof {
                assert(d@.map_values(|s: String| s@) =~= Seq::<Seq<char>>::empty());
            }
            d
        } else {
            match args.output_types {
                Some(v) => v,
                None => {
                    let d = to_string_vec(&["text/plain"]);
                    proof {
                        assert(d@.map_values(|s: String| s@) =~= default_output_types());
                    }
                    d
                },
            }
        };

        let line_detail_level: u8 = if args.max_line_info {
            255u8
        } else {
            args.line_info
        };

        let show_filenames = if args.force_show_file {
            true
        } else if str_eq(args.show_filenames_choice.as_str(), "auto") {
            args.n_paths > 1 || args.any_path_is_dir
        } else {
            str_eq(args.show_filenames_choice.as_str(), "always")
        };

        let re = match Pattern::compile(re_src.as_str()) {
            Ok(p) => p,
            Err(msg) => {
                return Err(ConfigError::BadPattern(msg));
            },
        };

        Ok(
            SearchOptions {
                re,
                include_source,
                include_cell_types: cell_types,
                include_output_types: output_types,
                color_matches: color,
                invert_match: args.invert_match,
                show_line_detail: line_detail_level,
                show_file_name: show_filenames,
                recursive: args.recursive,
            },
        )
    }
}

} // verus!
