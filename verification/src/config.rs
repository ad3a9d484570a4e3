//! Configuration of a diff run.

use crate::text::ascii_case_insensitive_eq;
use crate::text::str_eq_ignore_ascii_case;
use vstd::prelude::*;

verus! {

/// The report format a run asks for.
#[derive(Debug, Clone, Copy, PartialEq, Eq, Structural)]
pub enum OutputFormat {
    Terminal,
    Json,
    Html,
    Unified,
}

impl Default for OutputFormat {
    /// The terminal report is the default.
    fn default() -> (f: OutputFormat)
        ensures
            f == OutputFormat::Terminal,
    {
        OutputFormat::Terminal
    }
}

/// The format a name selects, compared without regard to ASCII case.
pub open spec fn format_of(s: Seq<char>) -> Option<OutputFormat> {
    if ascii_case_insensitive_eq(s, seq!['t', 'e', 'r', 'm', 'i', 'n', 'a', 'l']) {
        Some(OutputFormat::Terminal)
    } else if ascii_case_insensitive_eq(s, seq!['j', 's', 'o', 'n']) {
        Some(OutputFormat::Json)
    } else if ascii_case_insensitive_eq(s, seq!['h', 't', 'm', 'l']) {
        Some(OutputFormat::Html)
    } else if ascii_case_insensitive_eq(s, seq!['u', 'n', 'i', 'f', 'i', 'e', 'd']) {
        Some(OutputFormat::Unified)
    } else {
        None
    }
}

/// Reads an output format name, ignoring ASCII case; an unknown name is
/// rejected.
pub fn parse_output_format(s: &str) -> (r: Option<OutputFormat>)
    ensures
        r == format_of(s@),
{
    proof {
        reveal_strlit("terminal");
        reveal_strlit("json");
        reveal_strlit("html");
        reveal_strlit("unified");
        assert("terminal"@ =~= seq!['t', 'e', 'r', 'm', 'i', 'n', 'a', 'l']);
        assert("json"@ =~= seq!['j', 's', 'o', 'n']);
        assert("html"@ =~= seq!['h', 't', 'm', 'l']);
        assert("unified"@ =~= seq!['u', 'n', 'i', 'f', 'i', 'e', 'd']);
    }
    if str_eq_ignore_ascii_case(s, "terminal") {
        Some(OutputFormat::Terminal)
    } else if str_eq_ignore_ascii_case(s, "json") {
        Some(OutputFormat::Json)
    } else if str_eq_ignore_ascii_case(s, "html") {
        Some(OutputFormat::Html)
    } else if str_eq_ignore_ascii_case(s, "unified") {
        Some(OutputFormat::Unified)
    } else {
        None
    }
}

/// The views of a list of names.
pub open spec fn names_v(s: Seq<String>) -> Seq<Seq<char>> {
    s.map_values(|n: String| n@)
}

/// Configuration for a diff run.  File paths are carried as plain strings;
/// opening the files is the caller's business.  The numeric tolerance is the
/// bit pattern of a non-negative double.
#[derive(Debug)]
pub struct Config {
    pub old_file: String,
    pub new_file: String,
    pub key_columns: Vec<String>,
    pub output_format: OutputFormat,
    pub ignore_case: bool,
    pub numeric_tolerance: Option<u64>,
    pub ignore_whitespace: bool,
    pub ignore_columns: Vec<String>,
    pub sort_by: Option<String>,
    pub sheet_name: Option<String>,
    pub stats_only: bool,
    pub git_driver_mode: bool,
}

/// The mathematical view of a configuration.
pub struct ConfigV {
    pub old_file: Seq<char>,
    pub new_file: Seq<char>,
    pub key_columns: Seq<Seq<char>>,
    pub output_format: OutputFormat,
    pub ignore_case: bool,
    pub numeric_tolerance: Option<u64>,
    pub ignore_whitespace: bool,
    pub ignore_columns: Seq<Seq<char>>,
    pub sort_by: Option<Seq<char>>,
    pub sheet_name: Option<Seq<char>>,
    pub stats_only: bool,
    pub git_driver_mode: bool,
}

impl View for Config {
    type V = ConfigV;

    open spec fn view(&self) -> ConfigV {
        ConfigV {
            old_file: self.old_file@,
            new_file: self.new_file@,
            key_columns: names_v(self.key_columns@),
            output_format: self.output_format,
            ignore_case: self.ignore_case,
            numeric_tolerance: self.numeric_tolerance,
            ignore_whitespace: self.ignore_whitespace,
            ignore_columns: names_v(self.ignore_columns@),
            sort_by: match self.sort_by {
                Some(s) => Some(s@),
                None => None,
            },
            sheet_name: match self.sheet_name {
                Some(s) => Some(s@),
                None => None,
            },
            stats_only: self.stats_only,
            git_driver_mode: self.git_driver_mode,
        }
    }
}

/// Clones a list of names, keeping their views.
pub(crate) fn clone_names(names: &Vec<String>) -> (r: Vec<String>)
    ensures
        names_v(r@) == names_v(names@),
{
    let mut v: Vec<String> = Vec::new();
    let mut i: usize = 0;
    while i < names.len()
        invariant
            0 <= i <= names@.len(),
            v@.len() == i,
            forall|k: int| 0 <= k < i ==> (#[trigger] v@[k])@ == names@[k]@,
        decreases names@.len() - i,
    {
        v.push(names[i].clone());
        i = i + 1;
    }
    proof {
        assert(names_v(v@) =~= names_v(names@));
    }
    v
}

impl Clone for Config {
    /// Cloning keeps every setting.
    fn clone(&self) -> (c: Config)
        ensures
            c@ == self@,
    {
        let c = Config {
            old_file: self.old_file.clone(),
            new_file: self.new_file.clone(),
            key_columns: clone_names(&self.key_columns),
            output_format: self.output_format,
            ignore_case: self.ignore_case,
            numeric_tolerance: self.numeric_tolerance,
            ignore_whitespace: self.ignore_whitespace,
            ignore_columns: clone_names(&self.ignore_columns),
            sort_by: match &self.sort_by {
                Some(s) => Some(s.clone()),
                None => None,
            },
            sheet_name: match &self.sheet_name {
                Some(s) => Some(s.clone()),
                None => None,
            },
            stats_only: self.stats_only,
            git_driver_mode: self.git_driver_mode,
        };
        proof {
            assert(c@ =~= self@);
        }
        c
    }
}

impl Default for Config {
    /// The default run compares exactly, with no key columns designated and
    /// the terminal report.
    fn default() -> (c: Config)
        ensures
            c@.old_file.len() == 0,
            c@.new_file.len() == 0,
            c@.key_columns.len() == 0,
            c@.output_format == OutputFormat::Terminal,
            !c@.ignore_case,
            c@.numeric_tolerance matches None,
            !c@.ignore_whitespace,
            c@.ignore_columns.len() == 0,
            c@.sort_by matches None,
            c@.sheet_name matches None,
            !c@.stats_only,
            !c@.git_driver_mode,
    {
        Config {
            old_file: String::new(),
            new_file: String::new(),
            key_columns: Vec::new(),
            output_format: OutputFormat::Terminal,
            ignore_case: false,
            numeric_tolerance: None,
            ignore_whitespace: false,
            ignore_columns: Vec::new(),
            sort_by: None,
            sheet_name: None,
            stats_only: false,
            git_driver_mode: false,
        }
    }
}

impl Config {
    /// A configuration for the two named files, with default settings.
    pub fn new(old_file: String, new_file: String) -> (c: Config)
        ensures
            c@.old_file == old_file@,
            c@.new_file == new_file@,
            c@.key_columns.len() == 0,
            c@.output_format == OutputFormat::Terminal,
            !c@.ignore_case,
            c@.numeric_tolerance matches None,
            !c@.ignore_whitespace,
            c@.ignore_columns.len() == 0,
            c@.sort_by matches None,
            c@.sheet_name matches None,
            !c@.stats_only,
            !c@.git_driver_mode,
    {
        let mut c = Config::default();
        c.old_file = old_file;
        c.new_file = new_file;
        c
    }

    /// Designates the key columns for row matching.
    pub fn with_key_columns(self, keys: Vec<String>) -> (c: Config)
        ensures
            c.key_columns == keys,
            c == (Config { key_columns: keys, ..self }),
    {
        Config { key_columns: keys, ..self }
    }

    /// Selects the output format.
    pub fn with_output_format(self, format: OutputFormat) -> (c: Config)
        ensures
            c == (Config { output_format: format, ..self }),
    {
        Config { output_format: format, ..self }
    }

    /// Enables or disables case-insensitive text comparison.
    pub fn with_ignore_case(self, ignore: bool) -> (c: Config)
        ensures
            c == (Config { ignore_case: ignore, ..self }),
    {
        Config { ignore_case: ignore, ..self }
    }

    /// Sets the numeric tolerance, as the bit pattern of a double.
    pub fn with_numeric_tolerance(self, tolerance: u64) -> (c: Config)
        ensures
            c == (Config { numeric_tolerance: Some(tolerance), ..self }),
    {
        Config { numeric_tolerance: Some(tolerance), ..self }
    }

    /// Enables or disables whitespace-insensitive text comparison.
    pub fn with_ignore_whitespace(self, ignore: bool) -> (c: Config)
        ensures
            c == (Config { ignore_whitespace: ignore, ..self }),
    {
        Config { ignore_whitespace: ignore, ..self }
    }

    /// Names the columns excluded from cell comparison.
    pub fn with_ignore_columns(self, columns: Vec<String>) -> (c: Config)
        ensures
            c == (Config { ignore_columns: columns, ..self }),
    {
        Config { ignore_columns: columns, ..self }
    }

    /// Names the column to sort by before diffing.
    pub fn with_sort_by(self, column: String) -> (c: Config)
        ensures
            c == (Config { sort_by: Some(column), ..self }),
    {
        Config { sort_by: Some(column), ..self }
    }

    /// Names the sheet to compare, for workbook sources.
    pub fn with_sheet_name(self, name: String) -> (c: Config)
        ensures
            c == (Config { sheet_name: Some(name), ..self }),
    {
        Config { sheet_name: Some(name), ..self }
    }

    /// Enables or disables the statistics-only report.
    pub fn with_stats_only(self, stats_only: bool) -> (c: Config)
        ensures
            c == (Config { stats_only: stats_only, ..self }),
    {
        Config { stats_only: stats_only, ..self }
    }
}

} // verus!
