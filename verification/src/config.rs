//! Merging of the configuration file with the command line, and the check
//! of the merged configuration for conflicts.

use vstd::prelude::*;
use crate::errors::ConfigError;
use crate::model::{copy_string, texts, FileFilterConfig, OutputFormat, YcgConfigFile};
use crate::ordering::string_eq;
use crate::text::{ascii_lowercase, ascii_lowercase_chars, chars_of, is_literal};

verus! {

/// The configuration after the command line was laid over the file.
#[derive(Debug, Clone)]
pub struct MergedConfig {
    pub compact: bool,
    pub output_format: OutputFormat,
    pub ignore_framework_noise: bool,
    pub file_filter: FileFilterConfig,
}

impl Default for MergedConfig {
    fn default() -> (r: Self)
        ensures
            !r.compact,
            r.output_format == OutputFormat::Yaml,
            !r.ignore_framework_noise,
            r.file_filter.include_patterns@.len() == 0,
            r.file_filter.exclude_patterns@.len() == 0,
            r.file_filter.use_gitignore,
    {
        MergedConfig {
            compact: false,
            output_format: OutputFormat::Yaml,
            ignore_framework_noise: false,
            file_filter: FileFilterConfig {
                include_patterns: Vec::new(),
                exclude_patterns: Vec::new(),
                use_gitignore: true,
            },
        }
    }
}

pub struct MergedView {
    pub compact: bool,
    pub output_format: OutputFormat,
    pub ignore_framework_noise: bool,
    pub include_patterns: Seq<Seq<char>>,
    pub exclude_patterns: Seq<Seq<char>>,
    pub use_gitignore: bool,
}

impl View for MergedConfig {
    type V = MergedView;

    open spec fn view(&self) -> MergedView {
        MergedView {
            compact: self.compact,
            output_format: self.output_format,
            ignore_framework_noise: self.ignore_framework_noise,
            include_patterns: texts(self.file_filter.include_patterns@),
            exclude_patterns: texts(self.file_filter.exclude_patterns@),
            use_gitignore: self.file_filter.use_gitignore,
        }
    }
}

/// The format that a name stands for, in any mix of ASCII upper and lower
/// case.
pub open spec fn format_named(s: Seq<char>) -> Option<OutputFormat> {
    if ascii_lowercase(s) == "yaml"@ {
        Some(OutputFormat::Yaml)
    } else if ascii_lowercase(s) == "adhoc"@ {
        Some(OutputFormat::AdHoc)
    } else {
        None
    }
}

/// The configuration of the file alone; the defaults where there is no
/// file. The name of a format that is none fails the merge.
pub open spec fn from_file(file: Option<YcgConfigFile>) -> Result<MergedView, Seq<char>> {
    match file {
        Some(f) => {
            let format = match f.output.format {
                Some(s) => format_named(s@),
                None => Some(OutputFormat::Yaml),
            };
            match format {
                Some(output_format) => Ok(
                    MergedView {
                        compact: match f.output.compact {
                            Some(c) => c,
                            None => false,
                        },
                        output_format,
                        ignore_framework_noise: match f.output.ignore_framework_noise {
                            Some(c) => c,
                            None => false,
                        },
                        include_patterns: texts(f.includes@),
                        exclude_patterns: match f.ignore.custom_patterns {
                            Some(p) => texts(p@),
                            None => Seq::empty(),
                        },
                        use_gitignore: match f.ignore.use_gitignore {
                            Some(g) => g,
                            None => true,
                        },
                    },
                ),
                None => Err(f.output.format->0@),
            }
        },
        None => Ok(
            MergedView {
                compact: false,
                output_format: OutputFormat::Yaml,
                ignore_framework_noise: false,
                include_patterns: Seq::empty(),
                exclude_patterns: Seq::empty(),
                use_gitignore: true,
            },
        ),
    }
}

/// The merged configuration: what the command line gives takes the place of
/// what the file gives. The result is the name of a format where that name
/// is no format's, the file's name first.
pub open spec fn merged(
    file: Option<YcgConfigFile>,
    cli_compact: Option<bool>,
    cli_output_format: Option<Seq<char>>,
    cli_ignore_framework_noise: Option<bool>,
    cli_include_patterns: Seq<Seq<char>>,
    cli_exclude_patterns: Seq<Seq<char>>,
    cli_no_gitignore: bool,
) -> Result<MergedView, Seq<char>> {
    match from_file(file) {
        Err(name) => Err(name),
        Ok(base) => {
            let format = match cli_output_format {
                Some(s) => format_named(s),
                None => Some(base.output_format),
            };
            match format {
                None => Err(cli_output_format->0),
                Some(output_format) => Ok(
                    MergedView {
                        compact: match cli_compact {
                            Some(c) => c,
                            None => base.compact,
                        },
                        output_format,
                        ignore_framework_noise: match cli_ignore_framework_noise {
                            Some(c) => c,
                            None => base.ignore_framework_noise,
                        },
                        include_patterns: if cli_include_patterns.len() > 0 {
                            cli_include_patterns
                        } else {
                            base.include_patterns
                        },
                        exclude_patterns: if cli_exclude_patterns.len() > 0 {
                            cli_exclude_patterns
                        } else {
                            base.exclude_patterns
                        },
                        use_gitignore: if cli_no_gitignore {
                            false
                        } else {
                            base.use_gitignore
                        },
                    },
                ),
            }
        },
    }
}

/// The index of the first include pattern, among the first `n`, that is
/// also an exclude pattern; `-1` where there is none.
pub open spec fn first_conflict(included: Seq<Seq<char>>, excluded: Seq<Seq<char>>, n: nat) -> int
    decreases n,
{
    if n == 0 {
        -1
    } else if first_conflict(included, excluded, (n - 1) as nat) >= 0 {
        first_conflict(included, excluded, (n - 1) as nat)
    } else if excluded.contains(included[n - 1]) {
        n - 1
    } else {
        -1
    }
}

pub proof fn lemma_first_conflict_stays(
    included: Seq<Seq<char>>,
    excluded: Seq<Seq<char>>,
    k: nat,
    n: nat,
)
    requires
        k <= n,
        first_conflict(included, excluded, k) >= 0,
    ensures
        first_conflict(included, excluded, n) == first_conflict(included, excluded, k),
    decreases n,
{
    if n > k {
        lemma_first_conflict_stays(included, excluded, k, (n - 1) as nat);
    }
}

/// Loads and merges configuration.
pub struct ConfigLoader;

impl ConfigLoader {
    /// Reads the name of an output format.
    pub fn parse_output_format(format_str: &str) -> (r: Result<OutputFormat, ConfigError>)
        ensures
            match r {
                Ok(f) => format_named(format_str@) == Some(f),
                Err(e) => format_named(format_str@).is_none() && (e
                    matches ConfigError::InvalidOutputFormat { provided, valid } && provided@
                    == format_str@ && texts(valid@) == seq!["yaml"@, "adhoc"@]),
            },
    {
        let v = chars_of(format_str);
        let l = ascii_lowercase_chars(&v);
        if is_literal(&l, "yaml") {
            Ok(OutputFormat::Yaml)
        } else if is_literal(&l, "adhoc") {
            Ok(OutputFormat::AdHoc)
        } else {
            Err(ConfigError::invalid_output_format(format_str.to_string()))
        }
    }

    /// Merges the file's configuration with the command line, which takes
    /// precedence. It fails where the file or the command line names a
    /// format that is none.
    pub fn merge_with_cli(
        file_config: Option<YcgConfigFile>,
        cli_compact: Option<bool>,
        cli_output_format: Option<String>,
        cli_ignore_framework_noise: Option<bool>,
        cli_include_patterns: Vec<String>,
        cli_exclude_patterns: Vec<String>,
        cli_no_gitignore: bool,
    ) -> (r: Result<MergedConfig, ConfigError>)
        ensures
            match r {
                Ok(m) => merged(
                    file_config,
                    cli_compact,
                    crate::model::opt_text(cli_output_format),
                    cli_ignore_framework_noise,
                    texts(cli_include_patterns@),
                    texts(cli_exclude_patterns@),
                    cli_no_gitignore,
                ) == Ok::<MergedView, Seq<char>>(m@),
                Err(e) => e matches ConfigError::InvalidOutputFormat { provided, valid } && merged(
                    file_config,
                    cli_compact,
                    crate::model::opt_text(cli_output_format),
                    cli_ignore_framework_noise,
                    texts(cli_include_patterns@),
                    texts(cli_exclude_patterns@),
                    cli_no_gitignore,
                ) == Err::<MergedView, Seq<char>>(provided@) && texts(valid@) == seq![
                    "yaml"@,
                    "adhoc"@,
                ],
            },
    {
        let mut m = MergedConfig::default();
        assert(texts(m.file_filter.include_patterns@) =~= Seq::<Seq<char>>::empty());
        assert(texts(m.file_filter.exclude_patterns@) =~= Seq::<Seq<char>>::empty());
        match file_config {
            Some(file_cfg) => {
                match file_cfg.output.compact {
                    Some(c) => {
                        m.compact = c;
                    },
                    None => {},
                }
                match &file_cfg.output.format {
                    Some(format_str) => {
                        match Self::parse_output_format(format_str.as_str()) {
                            Ok(f) => {
                                m.output_format = f;
                            },
                            Err(e) => {
                                return Err(e);
                            },
                        }
                    },
                    None => {},
                }
                match file_cfg.output.ignore_framework_noise {
                    Some(c) => {
                        m.ignore_framework_noise = c;
                    },
                    None => {},
                }
                m.file_filter.include_patterns = file_cfg.includes;
                match file_cfg.ignore.custom_patterns {
                    Some(p) => {
                        m.file_filter.exclude_patterns = p;
                    },
                    None => {},
                }
                match file_cfg.ignore.use_gitignore {
                    Some(g) => {
                        m.file_filter.use_gitignore = g;
                    },
                    None => {},
                }
            },
            None => {},
        }
        match cli_compact {
            Some(c) => {
                m.compact = c;
            },
            None => {},
        }
        match &cli_output_format {
            Some(format_str) => {
                match Self::parse_output_format(format_str.as_str()) {
                    Ok(f) => {
                        m.output_format = f;
                    },
                    Err(e) => {
                        return Err(e);
                    },
                }
            },
            None => {},
        }
        match cli_ignore_framework_noise {
            Some(c) => {
                m.ignore_framework_noise = c;
            },
            None => {},
        }
        if cli_include_patterns.len() > 0 {
            m.file_filter.include_patterns = cli_include_patterns;
        }
        if cli_exclude_patterns.len() > 0 {
            m.file_filter.exclude_patterns = cli_exclude_patterns;
        }
        if cli_no_gitignore {
            m.file_filter.use_gitignore = false;
        }
        Ok(m)
    }

    /// Checks the merged configuration for conflicts: no pattern may be
    /// both included and excluded. The error names the first include
    /// pattern that is.
    pub fn validate(config: &MergedConfig) -> (r: Result<(), ConfigError>)
        ensures
            match r {
                Ok(_) => first_conflict(
                    config@.include_patterns,
                    config@.exclude_patterns,
                    config@.include_patterns.len(),
                ) == -1,
                Err(e) => {
                    let k = first_conflict(
                        config@.include_patterns,
                        config@.exclude_patterns,
                        config@.include_patterns.len(),
                    );
                    k >= 0 && (e matches ConfigError::ConflictingPatterns { pattern } && pattern@
                        == config@.include_patterns[k])
                },
            },
    {
        let included = &config.file_filter.include_patterns;
        let excluded = &config.file_filter.exclude_patterns;
        let mut i: usize = 0;
        while i < included.len()
            invariant
                i <= included.len(),
                included@ == config.file_filter.include_patterns@,
                excluded@ == config.file_filter.exclude_patterns@,
                first_conflict(texts(included@), texts(excluded@), i as nat) == -1,
            decreases included.len() - i,
        {
            let mut j: usize = 0;
            while j < excluded.len()
                invariant
                    j <= excluded.len(),
                    i < included.len(),
                    included@ == config.file_filter.include_patterns@,
                    excluded@ == config.file_filter.exclude_patterns@,
                    first_conflict(texts(included@), texts(excluded@), i as nat) == -1,
                    forall|k: int| 0 <= k < j ==> texts(excluded@)[k] != texts(included@)[i as int],
                decreases excluded.len() - j,
            {
                if string_eq(included[i].as_str(), excluded[j].as_str()) {
                    proof {
                        assert(texts(excluded@)[j as int] == texts(included@)[i as int]);
                        assert(texts(excluded@).contains(texts(included@)[i as int]));
                        assert(first_conflict(texts(included@), texts(excluded@), (i + 1) as nat)
                            == i);
                        assert(texts(included@)[i as int] == included@[i as int]@);
                        lemma_first_conflict_stays(
                            texts(included@),
                            texts(excluded@),
                            (i + 1) as nat,
                            included@.len(),
                        );
                    }
                    return Err(
                        ConfigError::ConflictingPatterns { pattern: copy_string(&included[i]) },
                    );
                }
                j += 1;
            }
            proof {
                let inc = texts(included@)[i as int];
                if texts(excluded@).contains(inc) {
                    let k = choose|k: int|
                        0 <= k < texts(excluded@).len() && texts(excluded@)[k] == inc;
                    assert(texts(excluded@)[k] != texts(included@)[i as int]);
                }
            }
            i += 1;
        }
        Ok(())
    }
}

} // verus!
