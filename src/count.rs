//! Counting the entries of a column family: the store's scan runs outside, and
//! hands each thing it meets to a tally, which says whether to go on.

use vstd::prelude::*;

verus! {

/// What a forward scan of a column family met next.
#[derive(Debug, Clone, Copy, PartialEq, Eq, Structural)]
pub enum ScanEvent {
    /// One more entry.
    Entry,
    /// The store failed to read on.
    ReadFailed,
    /// There are no more entries.
    End,
}

/// What the scan is to do next.
#[derive(Debug, Clone, Copy, PartialEq, Eq, Structural)]
pub enum ScanStep {
    /// Read the next entry.
    Continue,
    /// The scan is complete; the column family holds this many entries.
    Done(u64),
    /// A read failed: the count is abandoned, with nothing masked.
    Failed,
}

/// The count after `e`, from a count of `n`, and what the scan does next.
pub open spec fn tally_step(n: nat, e: ScanEvent) -> (nat, ScanStep) {
    match e {
        ScanEvent::Entry => (n + 1, ScanStep::Continue),
        ScanEvent::ReadFailed => (n, ScanStep::Failed),
        ScanEvent::End => (n, ScanStep::Done(n as u64)),
    }
}

/// Where a scan that meets `events` from a count of `n` ends: the count and the
/// last step taken (`Continue` for no events).
pub open spec fn tally_run(n: nat, events: Seq<ScanEvent>) -> (nat, ScanStep)
    decreases events.len(),
{
    if events.len() == 0 {
        (n, ScanStep::Continue)
    } else {
        let (m, step) = tally_step(n, events[0]);
        if events.len() == 1 {
            (m, step)
        } else {
            tally_run(m, events.drop_first())
        }
    }
}

/// The entries seen so far in one scan.
pub struct EntryTally {
    seen: u64,
}

impl EntryTally {
    pub closed spec fn view(&self) -> nat {
        self.seen as nat
    }

    /// A tally before the scan has met anything.
    pub fn new() -> (r: Self)
        ensures
            r@ == 0,
    {
        EntryTally { seen: 0 }
    }

    /// The entries seen so far.
    pub fn seen(&self) -> (r: u64)
        ensures
            r == self@,
    {
        self.seen
    }

    /// Takes in what the scan met next, and says what it is to do.
    pub fn observe(&mut self, event: ScanEvent) -> (r: ScanStep)
        requires
            event == ScanEvent::Entry ==> old(self)@ < u64::MAX,
        ensures
            (final(self)@, r) == tally_step(old(self)@, event),
    {
        match event {
            ScanEvent::Entry => {
                self.seen = self.seen + 1;
                ScanStep::Continue
            },
            ScanEvent::ReadFailed => ScanStep::Failed,
            ScanEvent::End => ScanStep::Done(self.seen),
        }
    }
}

/// `n` entries, one after another.
pub open spec fn entries(n: nat) -> Seq<ScanEvent> {
    Seq::new(n, |i: int| ScanEvent::Entry)
}

/// A scan of a column family that holds `n` entries counts exactly `n`; one of
/// an empty column family counts 0.
pub proof fn lemma_scan_counts_entries(n: nat)
    requires
        n <= u64::MAX,
    ensures
        tally_run(0, entries(n).push(ScanEvent::End)) == (n, ScanStep::Done(n as u64)),
{
    lemma_entries_then_end(0, n);
}

proof fn lemma_entries_then_end(start: nat, n: nat)
    requires
        start + n <= u64::MAX,
    ensures
        tally_run(start, entries(n).push(ScanEvent::End)) == (
            start + n,
            ScanStep::Done((start + n) as u64),
        ),
    decreases n,
{
    let evs = entries(n).push(ScanEvent::End);
    if n > 0 {
        assert(evs.drop_first() =~= entries((n - 1) as nat).push(ScanEvent::End));
        lemma_entries_then_end(start + 1, (n - 1) as nat);
    }
}

} // verus!
