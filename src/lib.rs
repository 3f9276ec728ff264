//! Extraction of a vocabulary list from the HTML tables of a markdown document,
//! and recovery of structured corrections from free-form model replies.
use vstd::prelude::*;

pub mod text;
pub mod word_extractor;
pub mod llm_corrector;
pub mod bbdc_checker;
pub mod env_loader;
pub mod cli;

verus! {

/// The failures that the library reports as errors.
#[derive(Debug, Clone, PartialEq, Eq)]
pub enum Error {
    /// A required setting is missing.
    EnvVar(String),
    /// A document or a reply could not be parsed.
    Parse(String),
    /// Any other failure.
    Other(String),
}

} // verus!
