//! Turns a decoded source-code index into a compact, deterministic graph of
//! symbols and references, and writes that graph in token-efficient forms.

use vstd::prelude::*;

pub use crate::builder::{convert_scip_to_ycg, convert_with_two_passes};
pub use crate::graph::optimize_graph;


pub mod abbreviation_laws;
pub mod adhoc_format;
pub mod adhoc_serializer_v2;
pub mod adjacency;
pub mod adjacency_laws;
pub mod anchor;
pub mod ast_cache;
pub mod builder;
pub mod config;
pub mod enricher;
pub mod errors;
pub mod framework_filter;
pub mod graph;
pub mod logic_extractor;
pub mod model;
pub mod ordering;
pub mod project;
pub mod scip;
pub mod scope;
pub mod signature_extractor;
pub mod symbol;
pub mod text;
pub mod type_abbreviator;
pub mod validators;
pub mod yaml;

verus! {

/// How many low-value definitions and edges are kept.
#[derive(Debug, Clone, Copy, PartialEq, Eq, Structural)]
pub enum LevelOfDetail {
    Low,
    Medium,
    High,
}

impl LevelOfDetail {
    /// The level that a number on the command line stands for: 0 is low,
    /// 1 is medium, anything else is high.
    pub fn from_level(level: u8) -> (r: Self)
        ensures
            r == (if level == 0 {
                LevelOfDetail::Low
            } else if level == 1 {
                LevelOfDetail::Medium
            } else {
                LevelOfDetail::High
            }),
    {
        if level == 0 {
            LevelOfDetail::Low
        } else if level == 1 {
            LevelOfDetail::Medium
        } else {
            LevelOfDetail::High
        }
    }
}

/// The settings of one conversion.
pub struct YcgConfig {
    pub lod: LevelOfDetail,
    pub project_root: String,
    /// Whether the graph is written in its adjacency form.
    pub compact: bool,
    pub output_format: model::OutputFormat,
    pub ignore_framework_noise: bool,
    pub file_filter: model::FileFilterConfig,
    pub adhoc_granularity: model::AdHocGranularity,
}

/// What a conversion hands to the writer.
#[derive(Debug)]
pub enum ConversionOutput {
    /// The flat graph.
    Flat(model::YcgGraph),
    /// The graph in adjacency form.
    Optimized(model::YcgGraphOptimized),
    /// The graph with pipe-delimited definitions.
    AdHoc(model::YcgGraphAdHoc),
}

/// The graph of an index under a configuration, before it is written: the
/// graph at the level of detail, filtered where the configuration says so.
pub open spec fn prepared_graph(
    index: scip::Index,
    table: Seq<Vec<Option<enricher::EnrichmentResult>>>,
    config: YcgConfig,
) -> model::GraphView {
    let g = builder::graph_of(index, table, config.lod);
    if config.ignore_framework_noise {
        framework_filter::filtered(g)
    } else {
        g
    }
}

/// Converts a decoded index: builds the graph, removes framework noise
/// where that is asked for, and shapes the result for the output format.
/// The pipe-delimited form is written at the configured granularity; the
/// other format is the adjacency form where `compact` is set and the flat
/// graph where not.
pub fn convert_index(
    index: &scip::Index,
    enrichments: &Vec<Vec<Option<enricher::EnrichmentResult>>>,
    config: &YcgConfig,
) -> (r: ConversionOutput)
    ensures
        match r {
            ConversionOutput::AdHoc(g) => config.output_format == model::OutputFormat::AdHoc && g@
                == (model::AdHocView {
                metadata: prepared_graph(*index, enrichments@, *config).metadata,
                definitions: adhoc_serializer_v2::encoded_all(
                    config.adhoc_granularity,
                    prepared_graph(*index, enrichments@, *config).definitions,
                ),
                adjacency: adjacency::adjacency_of(
                    prepared_graph(*index, enrichments@, *config).references,
                    prepared_graph(*index, enrichments@, *config).references.len(),
                ),
            }),
            ConversionOutput::Optimized(g) => config.output_format == model::OutputFormat::Yaml
                && config.compact && g@ == graph::optimized(
                prepared_graph(*index, enrichments@, *config),
            ),
            ConversionOutput::Flat(g) => config.output_format == model::OutputFormat::Yaml
                && !config.compact && g@ == prepared_graph(*index, enrichments@, *config),
        },
{
    let mut g = builder::convert_scip_to_ycg(index, enrichments, config.lod);
    if config.ignore_framework_noise {
        framework_filter::FrameworkNoiseFilter::filter_graph(&mut g);
    }
    match config.output_format {
        model::OutputFormat::AdHoc => {
            let serializer = adhoc_serializer_v2::AdHocSerializerV2::new(config.adhoc_granularity);
            let sources = adhoc_serializer_v2::SourceMap::new();
            ConversionOutput::AdHoc(serializer.serialize_graph(&g, &sources))
        },
        model::OutputFormat::Yaml => {
            if config.compact {
                ConversionOutput::Optimized(graph::optimize_graph(g))
            } else {
                ConversionOutput::Flat(g)
            }
        },
    }
}

} // verus!
