//! What the source-reading enricher reports of one definition.

use vstd::prelude::*;
use crate::model::{copy_opt_string, copy_strings, opt_text, texts};

verus! {

/// Signature text, documentation text and guard-clause preconditions of a
/// definition, as far as the enricher found them.
#[derive(Debug, Clone)]
pub struct EnrichmentResult {
    pub signature: Option<String>,
    pub documentation: Option<String>,
    pub preconditions: Vec<String>,
}

pub struct EnrichmentView {
    pub signature: Option<Seq<char>>,
    pub documentation: Option<Seq<char>>,
    pub preconditions: Seq<Seq<char>>,
}

impl View for EnrichmentResult {
    type V = EnrichmentView;

    open spec fn view(&self) -> EnrichmentView {
        EnrichmentView {
            signature: opt_text(self.signature),
            documentation: opt_text(self.documentation),
            preconditions: texts(self.preconditions@),
        }
    }
}

impl EnrichmentResult {
    pub fn copy(&self) -> (r: EnrichmentResult)
        ensures
            r@ == self@,
    {
        EnrichmentResult {
            signature: copy_opt_string(&self.signature),
            documentation: copy_opt_string(&self.documentation),
            preconditions: copy_strings(&self.preconditions),
        }
    }
}

} // verus!
