use dbcheck::count::{EntryTally, ScanEvent, ScanStep};

fn run(n: u64) -> ScanStep {
    let mut t = EntryTally::new();
    for _ in 0..n {
        assert_eq!(t.observe(ScanEvent::Entry), ScanStep::Continue);
    }
    t.observe(ScanEvent::End)
}

#[test]
fn empty_column_family_counts_zero() {
    assert_eq!(run(0), ScanStep::Done(0));
}

#[test]
fn counts_every_entry() {
    assert_eq!(run(1), ScanStep::Done(1));
    assert_eq!(run(1000), ScanStep::Done(1000));
}

#[test]
fn read_failure_is_not_masked() {
    let mut t = EntryTally::new();
    t.observe(ScanEvent::Entry);
    assert_eq!(t.observe(ScanEvent::ReadFailed), ScanStep::Failed);
    assert_eq!(t.seen(), 1);
}
