//! The commands of the command-line front end, and the choices that follow
//! from their options.
use vstd::prelude::*;

use crate::llm_corrector::CorrectionResult;
use crate::text::same_text;

verus! {

/// A subcommand.
pub enum Commands {
    /// Extract the words of a document; `mode` is `words_only`, `with_meaning` or `full`.
    Extract {
        input: String,
        output: Option<String>,
        unique: bool,
        auto_check: bool,
        mode: String,
    },
    /// Check a file of words against the vocabulary service.
    Check { input: String },
    /// Report the settings in use.
    Env,
}

/// The command line: a subcommand, or the options of the interactive mode.
pub struct Cli {
    pub command: Option<Commands>,
    pub input: Option<String>,
    pub output: Option<String>,
    pub unique: bool,
    pub auto_check: bool,
    pub include_phrases: bool,
}

/// The suffix of the file written in an extraction mode.
pub open spec fn suffix_of(mode: Seq<char>) -> Seq<char> {
    if mode == "words_only"@ {
        "_单词.txt"@
    } else if mode == "with_meaning"@ {
        "_单词词义.txt"@
    } else {
        "_完整.txt"@
    }
}

impl Cli {
    /// Phrases are extracted in `full` mode only.
    pub fn mode_includes_phrases(mode: &str) -> (r: bool)
        ensures
            r == (mode@ == "full"@),
    {
        same_text(mode, "full")
    }

    /// Only the words, one per line, are written in `words_only` mode; the
    /// other modes write the listing with meanings.
    pub fn mode_writes_words_only(mode: &str) -> (r: bool)
        ensures
            r == (mode@ == "words_only"@),
    {
        same_text(mode, "words_only")
    }

    /// The written words are checked against the vocabulary service only when
    /// asked and in `words_only` mode.
    pub fn checks_after_extract(auto_check: bool, mode: &str) -> (r: bool)
        ensures
            r == (auto_check && mode@ == "words_only"@),
    {
        auto_check && same_text(mode, "words_only")
    }

    /// The name of the file written when none is given: the input's stem and
    /// the suffix of the mode.
    pub fn default_output_name(stem: &str, mode: &str) -> (r: String)
        ensures
            r@ == stem@ + suffix_of(mode@),
    {
        let suffix = if same_text(mode, "words_only") {
            "_单词.txt"
        } else if same_text(mode, "with_meaning") {
            "_单词词义.txt"
        } else {
            "_完整.txt"
        };
        String::from_str(stem).concat(suffix)
    }

    /// The name of the file written in the interactive mode when none is given.
    pub fn interactive_output_name(stem: &str) -> (r: String)
        ensures
            r@ == stem@ + "_单词.txt"@,
    {
        String::from_str(stem).concat("_单词.txt")
    }
}

impl CorrectionResult {
    /// A correction worth reporting: successful, and different from the original.
    pub fn is_change(&self) -> (r: bool)
        ensures
            r == (self.success && self.corrected@ != self.original@),
    {
        self.success && !same_text(self.corrected.as_str(), self.original.as_str())
    }
}

} // verus!
