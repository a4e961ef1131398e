//! The errors of the library, each with its message.

use vstd::prelude::*;
use crate::model::texts;
use crate::text::{
    append_chars, chars_of, decimal, decimal_chars, join, join_chars, lemma_seqs_of_push, push_str,
    seqs_of, string_of,
};

verus! {

#[verifier::external_type_specification]
#[verifier::external_body]
pub struct ExJsonError(serde_json::Error);

#[verifier::external_type_specification]
#[verifier::external_body]
pub struct ExPatternError(glob::PatternError);

/// `serde_json::Error::line`: the line at which the error was found.
/// Nothing is claimed of the number.
#[verifier::external_body]
fn json_error_line(err: &serde_json::Error) -> usize {
    err.line()
}

/// `serde_json::Error::column`: the column at which the error was found.
/// Nothing is claimed of the number.
#[verifier::external_body]
fn json_error_column(err: &serde_json::Error) -> usize {
    err.column()
}

/// The text that `serde_json::Error` displays. Nothing is claimed of the
/// text.
#[verifier::external_body]
fn json_error_text(err: &serde_json::Error) -> String {
    err.to_string()
}

/// The text that `glob::PatternError` displays. Nothing is claimed of the
/// text.
#[verifier::external_body]
fn pattern_error_text(err: &glob::PatternError) -> String {
    err.to_string()
}

/// Errors of configuration loading and merging.
#[derive(Debug, Clone)]
pub enum ConfigError {
    /// The configuration file is no well-formed JSON.
    MalformedJson { path: String, line: usize, column: usize, message: String },
    /// The output format is none of the valid ones.
    InvalidOutputFormat { provided: String, valid: Vec<String> },
    /// Two flags or options contradict each other.
    ConflictingFlags { flag1: String, flag2: String, suggestion: String },
    /// An include or exclude pattern is no glob pattern.
    InvalidGlobPattern { pattern: String, reason: String },
    /// There is no configuration file; the defaults are used.
    ConfigFileNotFound { path: String },
    /// The configuration file cannot be read.
    ConfigFileReadError { path: String, reason: String },
    /// A required field is missing.
    MissingRequiredField { field: String, path: String },
    /// A field has a value that is not accepted.
    InvalidValue { field: String, value: String, reason: String },
    /// A pattern is both included and excluded.
    ConflictingPatterns { pattern: String },
}

/// Errors of reading the index.
#[derive(Debug, Clone)]
pub enum ParseError {
    ScipFileNotFound { path: String },
    ScipDecodeError { path: String, reason: String },
    InvalidScipStructure { path: String, reason: String },
    SourceFileNotFound { file: String, project_root: String },
    SourceFileReadError { path: String, reason: String },
}

/// Errors of output validation.
#[derive(Debug, Clone)]
pub enum ValidationError {
    InvalidYaml { reason: String },
    InvalidAdHocFormat { index: usize, reason: String },
    ReferentialIntegrityViolation { count: usize, details: String },
    EmptyGraph,
    InvalidSymbolDefinition { index: usize, reason: String },
}

/// Errors of file filtering.
#[derive(Debug, Clone)]
pub enum FileFilterError {
    InvalidPattern { pattern: String, reason: String },
    GitignoreParseError { path: String, reason: String },
    NoFilesMatched { patterns: Vec<String> },
    AllFilesExcluded { include_patterns: Vec<String>, exclude_patterns: Vec<String> },
}

/// Any error of a conversion.
#[derive(Debug, Clone)]
pub enum YcgError {
    Config(ConfigError),
    /// A file system operation failed; the text says how.
    FileSystem(String),
    Parse(ParseError),
    Validation(ValidationError),
    FileFilter(FileFilterError),
    /// Any other failure, by its message.
    Other(String),
}

/// The strings joined by `, `.
pub open spec fn comma_list(items: Seq<String>) -> Seq<char> {
    join(texts(items), ", "@)
}

fn comma_list_chars(items: &Vec<String>) -> (r: Vec<char>)
    ensures
        r@ == comma_list(items@),
{
    let mut parts: Vec<Vec<char>> = Vec::new();
    let mut i: usize = 0;
    assert(seqs_of(parts@) =~= texts(items@.take(0)));
    while i < items.len()
        invariant
            i <= items.len(),
            seqs_of(parts@) == texts(items@.take(i as int)),
        decreases items.len() - i,
    {
        let c = chars_of(items[i].as_str());
        proof {
            lemma_seqs_of_push(parts@, c);
            assert(items@.take(i + 1) == items@.take(i as int).push(items@[i as int]));
            crate::model::lemma_texts_push(items@.take(i as int), items@[i as int]);
        }
        parts.push(c);
        i += 1;
    }
    assert(items@.take(items.len() as int) == items@);
    join_chars(&parts, &chars_of(", "))
}

impl ConfigError {
    /// The message of the error.
    pub open spec fn message(&self) -> Seq<char> {
        match self {
            ConfigError::MalformedJson { path, line, column, message } =>
                "Malformed JSON in config file '"@ + path@ + "' at line "@ + decimal(*line as nat)
                    + ", column "@ + decimal(*column as nat) + ": "@ + message@,
            ConfigError::InvalidOutputFormat { provided, valid } => "Invalid output format: '"@
                + provided@ + "'. Valid options are: "@ + comma_list(valid@),
            ConfigError::ConflictingFlags { flag1, flag2, suggestion } =>
                "Conflicting configuration: "@ + flag1@ + " conflicts with "@ + flag2@ + ". "@
                    + suggestion@,
            ConfigError::InvalidGlobPattern { pattern, reason } => "Invalid glob pattern '"@
                + pattern@ + "': "@ + reason@,
            ConfigError::ConfigFileNotFound { path } => "Configuration file not found at '"@ + path@
                + "'. Using default settings."@,
            ConfigError::ConfigFileReadError { path, reason } =>
                "Failed to read configuration file '"@ + path@ + "': "@ + reason@,
            ConfigError::MissingRequiredField { field, path } =>
                "Missing required configuration field: '"@ + field@ + "' in '"@ + path@ + "'"@,
            ConfigError::InvalidValue { field, value, reason } => "Invalid value for '"@ + field@
                + "': "@ + value@ + ". "@ + reason@,
            ConfigError::ConflictingPatterns { pattern } => "Conflicting patterns: '"@ + pattern@
                + "' appears in both include and exclude patterns"@,
        }
    }

    pub fn to_string(&self) -> (r: String)
        ensures
            r@ == self.message(),
    {
        let mut out: Vec<char> = Vec::new();
        match self {
            ConfigError::MalformedJson { path, line, column, message } => {
                push_str(&mut out, "Malformed JSON in config file '");
                push_str(&mut out, path.as_str());
                push_str(&mut out, "' at line ");
                append_chars(&mut out, &decimal_chars(*line));
                push_str(&mut out, ", column ");
                append_chars(&mut out, &decimal_chars(*column));
                push_str(&mut out, ": ");
                push_str(&mut out, message.as_str());
            },
            ConfigError::InvalidOutputFormat { provided, valid } => {
                push_str(&mut out, "Invalid output format: '");
                push_str(&mut out, provided.as_str());
                push_str(&mut out, "'. Valid options are: ");
                append_chars(&mut out, &comma_list_chars(valid));
            },
            ConfigError::ConflictingFlags { flag1, flag2, suggestion } => {
                push_str(&mut out, "Conflicting configuration: ");
                push_str(&mut out, flag1.as_str());
                push_str(&mut out, " conflicts with ");
                push_str(&mut out, flag2.as_str());
                push_str(&mut out, ". ");
                push_str(&mut out, suggestion.as_str());
            },
            ConfigError::InvalidGlobPattern { pattern, reason } => {
                push_str(&mut out, "Invalid glob pattern '");
                push_str(&mut out, pattern.as_str());
                push_str(&mut out, "': ");
                push_str(&mut out, reason.as_str());
            },
            ConfigError::ConfigFileNotFound { path } => {
                push_str(&mut out, "Configuration file not found at '");
                push_str(&mut out, path.as_str());
                push_str(&mut out, "'. Using default settings.");
            },
            ConfigError::ConfigFileReadError { path, reason } => {
                push_str(&mut out, "Failed to read configuration file '");
                push_str(&mut out, path.as_str());
                push_str(&mut out, "': ");
                push_str(&mut out, reason.as_str());
            },
            ConfigError::MissingRequiredField { field, path } => {
                push_str(&mut out, "Missing required configuration field: '");
                push_str(&mut out, field.as_str());
                push_str(&mut out, "' in '");
                push_str(&mut out, path.as_str());
                push_str(&mut out, "'");
            },
            ConfigError::InvalidValue { field, value, reason } => {
                push_str(&mut out, "Invalid value for '");
                push_str(&mut out, field.as_str());
                push_str(&mut out, "': ");
                push_str(&mut out, value.as_str());
                push_str(&mut out, ". ");
                push_str(&mut out, reason.as_str());
            },
            ConfigError::ConflictingPatterns { pattern } => {
                push_str(&mut out, "Conflicting patterns: '");
                push_str(&mut out, pattern.as_str());
                push_str(&mut out, "' appears in both include and exclude patterns");
            },
        }
        assert(out@ =~= self.message());
        string_of(&out)
    }

    /// The error of a configuration file at `path` that is no well-formed
    /// JSON: line, column and message are those of `err`.
    pub fn malformed_json_with_path(path: String, err: serde_json::Error) -> (r: Self)
        ensures
            r matches ConfigError::MalformedJson { path: p, .. } && p@ == path@,
    {
        ConfigError::MalformedJson {
            path,
            line: json_error_line(&err),
            column: json_error_column(&err),
            message: json_error_text(&err),
        }
    }

    /// The error of a configuration text that is no well-formed JSON, where
    /// the file is not known: its path reads `unknown`.
    pub fn from_json_error(err: serde_json::Error) -> (r: Self)
        ensures
            r matches ConfigError::MalformedJson { path: p, .. } && p@ == "unknown"@,
    {
        Self::malformed_json_with_path("unknown".to_string(), err)
    }

    /// An invalid output format, with the valid formats `yaml` and `adhoc`.
    pub fn invalid_output_format(provided: String) -> (r: Self)
        ensures
            r matches ConfigError::InvalidOutputFormat { provided: p, valid: v } && p@ == provided@
                && texts(v@) == seq!["yaml"@, "adhoc"@],
    {
        let mut valid: Vec<String> = Vec::new();
        valid.push("yaml".to_string());
        valid.push("adhoc".to_string());
        assert(texts(valid@) =~= seq!["yaml"@, "adhoc"@]);
        ConfigError::InvalidOutputFormat { provided, valid }
    }

    /// Two conflicting flags, with a suggestion.
    pub fn conflicting_flags_with_suggestion(flag1: String, flag2: String, suggestion: String) -> (r:
        Self)
        ensures
            r matches ConfigError::ConflictingFlags { flag1: a, flag2: b, suggestion: c } && a@
                == flag1@ && b@ == flag2@ && c@ == suggestion@,
    {
        ConfigError::ConflictingFlags { flag1, flag2, suggestion }
    }
}

impl ParseError {
    /// The message of the error.
    pub open spec fn message(&self) -> Seq<char> {
        match self {
            ParseError::ScipFileNotFound { path } => "SCIP index file not found: '"@ + path@
                + "'. Please run 'scip-typescript index' or 'rust-analyzer scip .' first."@,
            ParseError::ScipDecodeError { path, reason } => "Failed to decode SCIP index from '"@
                + path@ + "': "@ + reason@ + ". The file may be corrupted."@,
            ParseError::InvalidScipStructure { path, reason } =>
                "Invalid SCIP document structure in '"@ + path@ + "': "@ + reason@,
            ParseError::SourceFileNotFound { file, project_root } => "Source file '"@ + file@
                + "' referenced in SCIP index not found in project root '"@ + project_root@
                + "'"@,
            ParseError::SourceFileReadError { path, reason } => "Failed to read source file '"@
                + path@ + "': "@ + reason@,
        }
    }

    pub fn to_string(&self) -> (r: String)
        ensures
            r@ == self.message(),
    {
        let mut out: Vec<char> = Vec::new();
        match self {
            ParseError::ScipFileNotFound { path } => {
                push_str(&mut out, "SCIP index file not found: '");
                push_str(&mut out, path.as_str());
                push_str(
                    &mut out,
                    "'. Please run 'scip-typescript index' or 'rust-analyzer scip .' first.",
                );
            },
            ParseError::ScipDecodeError { path, reason } => {
                push_str(&mut out, "Failed to decode SCIP index from '");
                push_str(&mut out, path.as_str());
                push_str(&mut out, "': ");
                push_str(&mut out, reason.as_str());
                push_str(&mut out, ". The file may be corrupted.");
            },
            ParseError::InvalidScipStructure { path, reason } => {
                push_str(&mut out, "Invalid SCIP document structure in '");
                push_str(&mut out, path.as_str());
                push_str(&mut out, "': ");
                push_str(&mut out, reason.as_str());
            },
            ParseError::SourceFileNotFound { file, project_root } => {
                push_str(&mut out, "Source file '");
                push_str(&mut out, file.as_str());
                push_str(&mut out, "' referenced in SCIP index not found in project root '");
                push_str(&mut out, project_root.as_str());
                push_str(&mut out, "'");
            },
            ParseError::SourceFileReadError { path, reason } => {
                push_str(&mut out, "Failed to read source file '");
                push_str(&mut out, path.as_str());
                push_str(&mut out, "': ");
                push_str(&mut out, reason.as_str());
            },
        }
        assert(out@ =~= self.message());
        string_of(&out)
    }

    /// The index file at `path` does not exist.
    pub fn scip_not_found(path: String) -> (r: Self)
        ensures
            r matches ParseError::ScipFileNotFound { path: p } && p@ == path@,
    {
        ParseError::ScipFileNotFound { path }
    }

    /// The index file at `path` cannot be decoded.
    pub fn scip_decode_error(path: String, reason: String) -> (r: Self)
        ensures
            r matches ParseError::ScipDecodeError { path: p, reason: q } && p@ == path@ && q@
                == reason@,
    {
        ParseError::ScipDecodeError { path, reason }
    }
}

/// An invalid edge: its source, its target, whether the source is unknown,
/// whether the target is.
pub type InvalidEdge = (Seq<char>, Seq<char>, bool, bool);

/// The texts of a list of invalid edges.
pub open spec fn invalid_edge_texts(v: Seq<(String, String, bool, bool)>) -> Seq<InvalidEdge> {
    v.map_values(|e: (String, String, bool, bool)| (e.0@, e.1@, e.2, e.3))
}

pub proof fn lemma_invalid_edge_texts_push(
    v: Seq<(String, String, bool, bool)>,
    e: (String, String, bool, bool),
)
    ensures
        invalid_edge_texts(v.push(e)) == invalid_edge_texts(v).push((e.0@, e.1@, e.2, e.3)),
{
    assert(invalid_edge_texts(v.push(e)) =~= invalid_edge_texts(v).push((e.0@, e.1@, e.2, e.3)));
}

/// The line that describes one invalid edge.
pub open spec fn edge_line(e: InvalidEdge) -> Seq<char> {
    "  - Edge from '"@ + e.0 + "' to '"@ + e.1 + (if e.2 && e.3 {
        "': both IDs not found in definitions\n"@
    } else if e.2 {
        "': source ID not found in definitions\n"@
    } else {
        "': target ID not found in definitions\n"@
    })
}

/// The lines of the first `n` invalid edges.
pub open spec fn edge_lines(edges: Seq<InvalidEdge>, n: nat) -> Seq<char>
    decreases n,
{
    if n == 0 {
        Seq::empty()
    } else {
        edge_lines(edges, (n - 1) as nat) + edge_line(edges[n - 1])
    }
}

/// The details of a referential-integrity violation: a line for each of the
/// first five invalid edges and, where there are more, a line that counts
/// the rest.
pub open spec fn integrity_details(edges: Seq<InvalidEdge>) -> Seq<char> {
    if edges.len() > 5 {
        edge_lines(edges, 5) + "  ... and "@ + decimal((edges.len() - 5) as nat) + " more\n"@
    } else {
        edge_lines(edges, edges.len())
    }
}

impl ValidationError {
    /// The message of the error.
    pub open spec fn message(&self) -> Seq<char> {
        match self {
            ValidationError::InvalidYaml { reason } => "Invalid YAML output: "@ + reason@
                + ". The output does not conform to YAML 1.2 specification."@,
            ValidationError::InvalidAdHocFormat { index, reason } =>
                "Invalid ad-hoc format at definition "@ + decimal(*index as nat) + ": "@ + reason@
                    + ". Expected format: 'id|name|type'"@,
            ValidationError::ReferentialIntegrityViolation { count, details } =>
                "Graph referential integrity violation: "@ + decimal(*count as nat)
                    + " invalid edge(s) found.\n"@ + details@,
            ValidationError::EmptyGraph =>
                "Generated graph is empty. This may be due to overly restrictive filters. Try adjusting your include/exclude patterns."@,
            ValidationError::InvalidSymbolDefinition { index, reason } =>
                "Invalid symbol definition at index "@ + decimal(*index as nat) + ": "@ + reason@,
        }
    }

    pub fn to_string(&self) -> (r: String)
        ensures
            r@ == self.message(),
    {
        let mut out: Vec<char> = Vec::new();
        match self {
            ValidationError::InvalidYaml { reason } => {
                push_str(&mut out, "Invalid YAML output: ");
                push_str(&mut out, reason.as_str());
                push_str(&mut out, ". The output does not conform to YAML 1.2 specification.");
            },
            ValidationError::InvalidAdHocFormat { index, reason } => {
                push_str(&mut out, "Invalid ad-hoc format at definition ");
                append_chars(&mut out, &decimal_chars(*index));
                push_str(&mut out, ": ");
                push_str(&mut out, reason.as_str());
                push_str(&mut out, ". Expected format: 'id|name|type'");
            },
            ValidationError::ReferentialIntegrityViolation { count, details } => {
                push_str(&mut out, "Graph referential integrity violation: ");
                append_chars(&mut out, &decimal_chars(*count));
                push_str(&mut out, " invalid edge(s) found.\n");
                push_str(&mut out, details.as_str());
            },
            ValidationError::EmptyGraph => {
                push_str(
                    &mut out,
                    "Generated graph is empty. This may be due to overly restrictive filters. Try adjusting your include/exclude patterns.",
                );
            },
            ValidationError::InvalidSymbolDefinition { index, reason } => {
                push_str(&mut out, "Invalid symbol definition at index ");
                append_chars(&mut out, &decimal_chars(*index));
                push_str(&mut out, ": ");
                push_str(&mut out, reason.as_str());
            },
        }
        assert(out@ =~= self.message());
        string_of(&out)
    }

    /// A referential-integrity violation of the given invalid edges, each a
    /// source, a target, whether the source is unknown and whether the
    /// target is.
    pub fn referential_integrity(invalid_edges: Vec<(String, String, bool, bool)>) -> (r: Self)
        ensures
            r matches ValidationError::ReferentialIntegrityViolation { count, details } && count
                == invalid_edges@.len() && details@ == integrity_details(
                invalid_edge_texts(invalid_edges@),
            ),
    {
        let count = invalid_edges.len();
        let shown: usize = if count > 5 {
            5
        } else {
            count
        };
        let mut out: Vec<char> = Vec::new();
        let mut i: usize = 0;
        while i < shown
            invariant
                i <= shown <= invalid_edges.len(),
                out@ == edge_lines(invalid_edge_texts(invalid_edges@), i as nat),
            decreases shown - i,
        {
            let e = &invalid_edges[i];
            let ghost before = out@;
            push_str(&mut out, "  - Edge from '");
            push_str(&mut out, e.0.as_str());
            push_str(&mut out, "' to '");
            push_str(&mut out, e.1.as_str());
            if e.2 && e.3 {
                push_str(&mut out, "': both IDs not found in definitions\n");
            } else if e.2 {
                push_str(&mut out, "': source ID not found in definitions\n");
            } else {
                push_str(&mut out, "': target ID not found in definitions\n");
            }
            assert(invalid_edge_texts(invalid_edges@)[i as int] == (e.0@, e.1@, e.2, e.3));
            assert(out@ =~= before + edge_line(invalid_edge_texts(invalid_edges@)[i as int]));
            i += 1;
        }
        if count > 5 {
            push_str(&mut out, "  ... and ");
            append_chars(&mut out, &decimal_chars(count - 5));
            push_str(&mut out, " more\n");
        }
        ValidationError::ReferentialIntegrityViolation { count, details: string_of(&out) }
    }

    /// An invalid encoded definition at `index`.
    pub fn invalid_adhoc_format(index: usize, reason: String) -> (r: Self)
        ensures
            r matches ValidationError::InvalidAdHocFormat { index: i, reason: q } && i == index
                && q@ == reason@,
    {
        ValidationError::InvalidAdHocFormat { index, reason }
    }

    /// An invalid YAML output.
    pub fn invalid_yaml(reason: String) -> (r: Self)
        ensures
            r matches ValidationError::InvalidYaml { reason: q } && q@ == reason@,
    {
        ValidationError::InvalidYaml { reason }
    }
}

impl FileFilterError {
    /// The message of the error.
    pub open spec fn message(&self) -> Seq<char> {
        match self {
            FileFilterError::InvalidPattern { pattern, reason } => "Invalid glob pattern '"@
                + pattern@ + "': "@ + reason@
                + ". See https://docs.rs/glob for pattern syntax."@,
            FileFilterError::GitignoreParseError { path, reason } =>
                "Warning: Failed to parse .gitignore file at '"@ + path@ + "': "@ + reason@
                    + ". Continuing without gitignore filtering."@,
            FileFilterError::NoFilesMatched { patterns } =>
                "No files match the specified include patterns: "@ + comma_list(patterns@)
                    + ". Check your patterns and project structure."@,
            FileFilterError::AllFilesExcluded { include_patterns, exclude_patterns } =>
                "All files were excluded by filters. Include patterns: ["@ + comma_list(
                    include_patterns@,
                ) + "], Exclude patterns: ["@ + comma_list(exclude_patterns@) + "]"@,
        }
    }

    pub fn to_string(&self) -> (r: String)
        ensures
            r@ == self.message(),
    {
        let mut out: Vec<char> = Vec::new();
        match self {
            FileFilterError::InvalidPattern { pattern, reason } => {
                push_str(&mut out, "Invalid glob pattern '");
                push_str(&mut out, pattern.as_str());
                push_str(&mut out, "': ");
                push_str(&mut out, reason.as_str());
                push_str(&mut out, ". See https://docs.rs/glob for pattern syntax.");
            },
            FileFilterError::GitignoreParseError { path, reason } => {
                push_str(&mut out, "Warning: Failed to parse .gitignore file at '");
                push_str(&mut out, path.as_str());
                push_str(&mut out, "': ");
                push_str(&mut out, reason.as_str());
                push_str(&mut out, ". Continuing without gitignore filtering.");
            },
            FileFilterError::NoFilesMatched { patterns } => {
                push_str(&mut out, "No files match the specified include patterns: ");
                append_chars(&mut out, &comma_list_chars(patterns));
                push_str(&mut out, ". Check your patterns and project structure.");
            },
            FileFilterError::AllFilesExcluded { include_patterns, exclude_patterns } => {
                push_str(&mut out, "All files were excluded by filters. Include patterns: [");
                append_chars(&mut out, &comma_list_chars(include_patterns));
                push_str(&mut out, "], Exclude patterns: [");
                append_chars(&mut out, &comma_list_chars(exclude_patterns));
                push_str(&mut out, "]");
            },
        }
        assert(out@ =~= self.message());
        string_of(&out)
    }

    /// The error of a pattern that is no glob pattern, where the pattern is
    /// not known: it reads `unknown`; the reason is the text of `err`.
    pub fn from_pattern_error(err: glob::PatternError) -> (r: Self)
        ensures
            r matches FileFilterError::InvalidPattern { pattern: p, .. } && p@ == "unknown"@,
    {
        FileFilterError::InvalidPattern {
            pattern: "unknown".to_string(),
            reason: pattern_error_text(&err),
        }
    }

    /// An invalid pattern.
    pub fn invalid_pattern(pattern: String, reason: String) -> (r: Self)
        ensures
            r matches FileFilterError::InvalidPattern { pattern: p, reason: q } && p@ == pattern@
                && q@ == reason@,
    {
        FileFilterError::InvalidPattern { pattern, reason }
    }

    /// No file matches the include patterns.
    pub fn no_files_matched(patterns: Vec<String>) -> (r: Self)
        ensures
            r matches FileFilterError::NoFilesMatched { patterns: p } && p@ == patterns@,
    {
        FileFilterError::NoFilesMatched { patterns }
    }
}

impl YcgError {
    /// The message of the error.
    pub open spec fn message(&self) -> Seq<char> {
        match self {
            YcgError::Config(e) => "Configuration error: "@ + e.message(),
            YcgError::FileSystem(e) => "File system error: "@ + e@,
            YcgError::Parse(e) => "SCIP parsing error: "@ + e.message(),
            YcgError::Validation(e) => "Validation error: "@ + e.message(),
            YcgError::FileFilter(e) => "File filtering error: "@ + e.message(),
            YcgError::Other(e) => e@,
        }
    }

    pub fn to_string(&self) -> (r: String)
        ensures
            r@ == self.message(),
    {
        let mut out: Vec<char> = Vec::new();
        match self {
            YcgError::Config(e) => {
                push_str(&mut out, "Configuration error: ");
                push_str(&mut out, e.to_string().as_str());
            },
            YcgError::FileSystem(e) => {
                push_str(&mut out, "File system error: ");
                push_str(&mut out, e.as_str());
            },
            YcgError::Parse(e) => {
                push_str(&mut out, "SCIP parsing error: ");
                push_str(&mut out, e.to_string().as_str());
            },
            YcgError::Validation(e) => {
                push_str(&mut out, "Validation error: ");
                push_str(&mut out, e.to_string().as_str());
            },
            YcgError::FileFilter(e) => {
                push_str(&mut out, "File filtering error: ");
                push_str(&mut out, e.to_string().as_str());
            },
            YcgError::Other(e) => {
                push_str(&mut out, e.as_str());
            },
        }
        assert(out@ =~= self.message());
        string_of(&out)
    }
}

impl From<ConfigError> for YcgError {
    fn from(e: ConfigError) -> (r: YcgError) {
        YcgError::Config(e)
    }
}

impl vstd::std_specs::convert::FromSpecImpl<ConfigError> for YcgError {
    open spec fn obeys_from_spec() -> bool {
        true
    }

    open spec fn from_spec(e: ConfigError) -> YcgError {
        YcgError::Config(e)
    }
}

impl From<ParseError> for YcgError {
    fn from(e: ParseError) -> (r: YcgError) {
        YcgError::Parse(e)
    }
}

impl vstd::std_specs::convert::FromSpecImpl<ParseError> for YcgError {
    open spec fn obeys_from_spec() -> bool {
        true
    }

    open spec fn from_spec(e: ParseError) -> YcgError {
        YcgError::Parse(e)
    }
}

impl From<ValidationError> for YcgError {
    fn from(e: ValidationError) -> (r: YcgError) {
        YcgError::Validation(e)
    }
}

impl vstd::std_specs::convert::FromSpecImpl<ValidationError> for YcgError {
    open spec fn obeys_from_spec() -> bool {
        true
    }

    open spec fn from_spec(e: ValidationError) -> YcgError {
        YcgError::Validation(e)
    }
}

impl From<FileFilterError> for YcgError {
    fn from(e: FileFilterError) -> (r: YcgError) {
        YcgError::FileFilter(e)
    }
}

impl vstd::std_specs::convert::FromSpecImpl<FileFilterError> for YcgError {
    open spec fn obeys_from_spec() -> bool {
        true
    }

    open spec fn from_spec(e: FileFilterError) -> YcgError {
        YcgError::FileFilter(e)
    }
}

} // verus!
