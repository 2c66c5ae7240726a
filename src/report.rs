//! The result of a run: how many files were converted, and which failed.

use vstd::prelude::*;

verus! {

/// What became of one source file.
#[derive(Debug, PartialEq, Eq)]
pub enum Outcome {
    Converted,
    /// Left alone: not modified within the threshold.
    SkippedStale,
    /// Could not be read, converted or written; the reason.
    Failed(String),
}

/// A file that could not be converted, and why.
#[derive(Debug)]
pub struct Failure {
    pub path: Vec<String>,
    pub reason: String,
}

/// The running tally of a conversion run.
#[derive(Debug)]
pub struct Summary {
    pub converted: usize,
    pub failures: Vec<Failure>,
}

impl Summary {
    pub fn new() -> (r: Summary)
        ensures
            r.converted == 0,
            r.failures@.len() == 0,
    {
        Summary { converted: 0, failures: Vec::new() }
    }

    /// Counts a converted file, or keeps a failed one with its reason; a
    /// skipped file changes nothing.
    pub fn record(&mut self, path: Vec<String>, outcome: Outcome)
        requires
            old(self).converted < usize::MAX,
        ensures
            match outcome {
                Outcome::Converted => final(self).converted == old(self).converted + 1
                    && final(self).failures@ == old(self).failures@,
                Outcome::SkippedStale => final(self).converted == old(self).converted
                    && final(self).failures@ == old(self).failures@,
                Outcome::Failed(reason) => final(self).converted == old(self).converted
                    && final(self).failures@.len() == old(self).failures@.len() + 1
                    && final(self).failures@.drop_last() == old(self).failures@
                    && final(self).failures@.last().path == path
                    && final(self).failures@.last().reason == reason,
            },
    {
        match outcome {
            Outcome::Converted => {
                self.converted = self.converted + 1;
            },
            Outcome::SkippedStale => {},
            Outcome::Failed(reason) => {
                self.failures.push(Failure { path, reason });
                assert(self.failures@.drop_last() =~= old(self).failures@);
            },
        }
    }

    /// Whether every file that was tried was converted.
    pub fn is_clean(&self) -> (r: bool)
        ensures
            r == (self.failures@.len() == 0),
    {
        self.failures.len() == 0
    }
}

} // verus!
