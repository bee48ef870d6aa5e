use lidar_map::scanner::{Phase, Position, ScanReply, ScanRequest, Scanner};

#[test]
fn clean_sweep_visits_every_slot_in_order() {
    let mut s = Scanner::new(3);
    assert_eq!(s.resolution(), 3);
    for sweep in 0..2 {
        for slot in 0..3usize {
            assert_eq!(s.request(), ScanRequest::Aim { step: slot, steps: 3 });
            s.advance(ScanReply::Done);
            assert_eq!(s.request(), ScanRequest::Measure);
            let distance = (100 * sweep + slot) as u16;
            s.advance(ScanReply::Distance(distance));
            assert_eq!(
                s.request(),
                ScanRequest::Publish { slot, step: slot, steps: 3, distance }
            );
            s.advance(ScanReply::Done);
        }
        assert_eq!(s.request(), ScanRequest::CountSweep);
        s.advance(ScanReply::Done);
    }
    assert_eq!(s.position(), Position { index: 0, phase: Phase::Aim });
}

#[test]
fn failed_aim_skips_the_slot() {
    let mut s = Scanner::new(3);
    s.advance(ScanReply::Failed);
    assert_eq!(s.request(), ScanRequest::Aim { step: 1, steps: 3 });
}

#[test]
fn failed_reading_skips_the_slot() {
    let mut s = Scanner::new(3);
    s.advance(ScanReply::Done);
    s.advance(ScanReply::Failed);
    assert_eq!(s.request(), ScanRequest::Aim { step: 1, steps: 3 });
    // an answer of the wrong kind is a failure too
    s.advance(ScanReply::Done);
    s.advance(ScanReply::Done);
    assert_eq!(s.request(), ScanRequest::Aim { step: 2, steps: 3 });
}

#[test]
fn failed_publishing_goes_on() {
    let mut s = Scanner::new(2);
    s.advance(ScanReply::Done);
    s.advance(ScanReply::Distance(7));
    s.advance(ScanReply::Failed);
    assert_eq!(s.request(), ScanRequest::Aim { step: 1, steps: 2 });
}

#[test]
fn failure_at_the_last_slot_ends_the_sweep() {
    let mut s = Scanner::new(2);
    s.advance(ScanReply::Failed);
    s.advance(ScanReply::Failed);
    assert_eq!(s.request(), ScanRequest::CountSweep);
    s.advance(ScanReply::Failed);
    assert_eq!(s.request(), ScanRequest::Aim { step: 0, steps: 2 });
}

#[test]
fn scanner_without_slots_only_counts() {
    let mut s = Scanner::new(0);
    for _ in 0..5 {
        assert_eq!(s.request(), ScanRequest::CountSweep);
        assert_eq!(s.position(), Position { index: 0, phase: Phase::Count });
        s.advance(ScanReply::Done);
    }
}

#[test]
fn single_slot_scanner() {
    let mut s = Scanner::new(1);
    assert_eq!(s.request(), ScanRequest::Aim { step: 0, steps: 1 });
    s.advance(ScanReply::Done);
    s.advance(ScanReply::Distance(65535));
    assert_eq!(
        s.request(),
        ScanRequest::Publish { slot: 0, step: 0, steps: 1, distance: 65535 }
    );
    s.advance(ScanReply::Done);
    assert_eq!(s.request(), ScanRequest::CountSweep);
}
