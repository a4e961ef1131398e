//! The choice of an indexer from the files that a project directory holds.

use vstd::prelude::*;

verus! {

/// The language of a project.
#[derive(Debug, Clone, Copy, PartialEq, Eq, Structural)]
pub enum ProjectLanguage {
    Rust,
    TypeScript,
}

/// The indexer that makes the index of a project.
#[derive(Debug, Clone, Copy, PartialEq, Eq, Structural)]
pub enum Indexer {
    RustAnalyzer,
    ScipTypescript,
}

impl ProjectLanguage {
    /// The name of the language.
    pub fn name(&self) -> (r: &'static str)
        ensures
            r@ == (match self {
                ProjectLanguage::Rust => "rust"@,
                ProjectLanguage::TypeScript => "typescript"@,
            }),
    {
        match self {
            ProjectLanguage::Rust => "rust",
            ProjectLanguage::TypeScript => "typescript",
        }
    }

    /// The indexer for the language.
    pub fn indexer(&self) -> (r: Indexer)
        ensures
            r == (match self {
                ProjectLanguage::Rust => Indexer::RustAnalyzer,
                ProjectLanguage::TypeScript => Indexer::ScipTypescript,
            }),
    {
        match self {
            ProjectLanguage::Rust => Indexer::RustAnalyzer,
            ProjectLanguage::TypeScript => Indexer::ScipTypescript,
        }
    }
}

/// The language of a project directory: Rust where it holds `Cargo.toml`;
/// else TypeScript where it holds `package.json` or `tsconfig.json`; else
/// none.
pub fn detect_project_language(has_cargo_toml: bool, has_package_json: bool, has_tsconfig: bool)
    -> (r: Option<ProjectLanguage>)
    ensures
        r == (if has_cargo_toml {
            Some(ProjectLanguage::Rust)
        } else if has_package_json || has_tsconfig {
            Some(ProjectLanguage::TypeScript)
        } else {
            None
        }),
{
    if has_cargo_toml {
        Some(ProjectLanguage::Rust)
    } else if has_package_json || has_tsconfig {
        Some(ProjectLanguage::TypeScript)
    } else {
        None
    }
}

} // verus!
