//! The configuration consumed by the counting engine.

use vstd::prelude::*;

verus! {

/// The validated configuration: the inputs to count, in order, and which
/// of the four metrics to show.  The input name `-` stands for standard
/// input.
#[derive(Debug, Clone)]
pub struct Cli {
    pub files: Vec<String>,
    pub bytes: bool,
    pub chars: bool,
    pub lines: bool,
    pub words: bool,
}

impl Cli {
    /// True when at least one metric is requested.
    pub open spec fn some_metric(&self) -> bool {
        self.lines || self.words || self.chars || self.bytes
    }

    /// Applies the default metric rule: when the caller requested no
    /// metric at all, lines, words and bytes are shown (characters are
    /// not); otherwise the request stands unchanged.
    pub fn apply_defaults(&mut self)
        ensures
            final(self).files == old(self).files,
            old(self).some_metric() ==> *final(self) == *old(self),
            !old(self).some_metric() ==> final(self).lines && final(self).words
                && !final(self).chars && final(self).bytes,
            final(self).some_metric(),
    {
        if !(self.lines || self.words || self.chars || self.bytes) {
            self.lines = true;
            self.words = true;
            self.bytes = true;
        }
    }
}

} // verus!
