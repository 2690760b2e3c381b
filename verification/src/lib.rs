//! Translates Raspberry Pi firmware boot-configuration text (`config.txt`)
//! into an equivalent U-Boot command string.
//!
//! The pipeline is: text -> typed entries -> sections keyed by conditional
//! filter -> sections keyed by fine-grained board model -> one semicolon
//! joined command string.  Every stage is specified against a mathematical
//! model and verified.

pub mod arrange;
pub mod entries;
pub mod errors;
pub mod generate;
pub mod parser;
pub mod sections;
pub mod text;

use vstd::prelude::*;

use crate::sections::Sections;

verus! {

/// A parsed boot configuration: entries bucketed by conditional filter.
#[derive(Debug, PartialEq)]
pub struct RPiConfig {
    pub configs: Sections,
}

impl RPiConfig {
    /// An empty configuration with no buckets at all; translating it
    /// reports that there is nothing to do.
    pub fn new() -> (r: Self)
        ensures
            r.configs@.len() == 0,
            r.configs.wf(),
    {
        RPiConfig { configs: Sections::new() }
    }
}

} // verus!
