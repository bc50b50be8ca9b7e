use relativity::tracker::{active_stage, Advance, StageTracker};

#[test]
fn tracker_visits_stages_in_order() {
    // a path of five events has four stages: 0, 1, 2, 3
    let mut t = StageTracker::new(5);
    assert_eq!(t.stage, 0);
    assert_eq!(t.step(false), Advance::Stay);
    assert_eq!(t.step(true), Advance::Enter(1));
    assert_eq!(t.step(true), Advance::Enter(2));
    assert_eq!(t.step(false), Advance::Stay);
    assert_eq!(t.stage, 2);
    assert_eq!(t.step(true), Advance::Enter(3));
    assert!(!t.finished);
    assert_eq!(t.step(true), Advance::Finished);
    assert!(t.finished);
    assert_eq!(t.stage, 3);
}

#[test]
fn tracker_single_stage_finishes_at_once() {
    let mut t = StageTracker::new(2);
    assert_eq!(t.step(false), Advance::Stay);
    assert_eq!(t.step(true), Advance::Finished);
    assert_eq!(t.stage, 0);
}

#[test]
fn tracker_reports_finished_once() {
    let mut t = StageTracker::new(4);
    let mut reports = Vec::new();
    while !t.finished {
        reports.push(t.step(true));
    }
    assert_eq!(reports, vec![Advance::Enter(1), Advance::Enter(2), Advance::Finished]);
}

#[test]
fn active_stage_found() {
    assert_eq!(active_stage(&vec![true, false, false]), Some(0));
    assert_eq!(active_stage(&vec![true, true, false]), Some(1));
    assert_eq!(active_stage(&vec![true, true, true, false]), Some(2));
}

#[test]
fn active_stage_absent() {
    // before the path starts, or after it ended
    assert_eq!(active_stage(&vec![false, false, false]), None);
    assert_eq!(active_stage(&vec![true, true, true]), None);
    assert_eq!(active_stage(&vec![true]), None);
    assert_eq!(active_stage(&vec![]), None);
}
