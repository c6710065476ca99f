use vstd::prelude::*;

verus! {

// Run tally: the per-run counters. Every line read counts as processed,
// whether or not it yields an entry; only lines that yield an entry count
// as valid.

/// The two counters of a run.
#[derive(PartialEq, Eq, Structural, Clone, Copy, Debug)]
pub struct RunTally {
    pub lines_processed: u64,
    pub valid_entries: u64,
}

/// Well-formed tally: the valid-entry count never exceeds the
/// lines-processed count.
pub open spec fn tally_wf(t: RunTally) -> bool {
    t.valid_entries <= t.lines_processed
}

impl RunTally {
    /// A fresh tally with both counters at zero.
    pub fn new() -> (r: RunTally)
        ensures
            r.lines_processed == 0,
            r.valid_entries == 0,
            tally_wf(r),
    {
        RunTally { lines_processed: 0, valid_entries: 0 }
    }

    /// Counts one processed line, and counts it as valid when it yielded an
    /// entry. Preserves well-formedness.
    pub fn record(&mut self, valid: bool)
        requires
            old(self).lines_processed < u64::MAX,
            tally_wf(*old(self)),
        ensures
            final(self).lines_processed == old(self).lines_processed + 1,
            final(self).valid_entries == old(self).valid_entries + if valid {
                1int
            } else {
                0int
            },
            tally_wf(*final(self)),
    {
        self.lines_processed = self.lines_processed + 1;
        if valid {
            self.valid_entries = self.valid_entries + 1;
        }
    }
}

/// Run tally invariant: for any input, in every state a run can reach, the
/// valid-entry count is at most the lines-processed count.
pub proof fn lemma_tally_invariant(t: RunTally)
    requires
        tally_wf(t),
    ensures
        t.valid_entries <= t.lines_processed,
{
}

} // verus!
