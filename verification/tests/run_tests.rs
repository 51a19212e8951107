use sprite_painter::{best_candidate, RunStep, RunTracker, Session};

#[test]
fn best_of_nothing_is_first_slot() {
    assert_eq!(best_candidate(&vec![]), (0, -1));
}

#[test]
fn best_ignores_scores_not_above_minus_one() {
    assert_eq!(best_candidate(&vec![-1, -7, -1]), (0, -1));
}

#[test]
fn best_is_first_of_the_highest() {
    assert_eq!(best_candidate(&vec![3, 7, 7, -5]), (1, 7));
    assert_eq!(best_candidate(&vec![-4, 0]), (1, 0));
}

#[test]
fn run_tries_wanted_candidates() {
    let mut run = RunTracker::new(vec![], 3);
    assert!(run.reports_progress());
    assert_eq!(run.record(10), RunStep::Continue);
    assert!(!run.reports_progress());
    assert_eq!(run.record(30), RunStep::Continue);
    assert_eq!(run.record(20), RunStep::Finished { best_index: 1, best_score: 30 });
    assert_eq!(run.attempted(), 3);
    assert_eq!(run.scores(), &vec![10, 30, 20]);
}

#[test]
fn run_with_no_wanted_candidates_tries_one() {
    let mut run = RunTracker::new(vec![], 0);
    assert_eq!(run.record(5), RunStep::Finished { best_index: 0, best_score: 5 });
    let mut run = RunTracker::new(vec![], -4);
    assert_eq!(run.record(0), RunStep::Finished { best_index: 0, best_score: 0 });
}

#[test]
fn run_keeps_earlier_scores() {
    let mut run = RunTracker::new(vec![100], 1);
    assert_eq!(run.record(50), RunStep::Finished { best_index: 0, best_score: 100 });
}

#[test]
fn huge_scores_wrap_to_negative() {
    let mut run = RunTracker::new(vec![], 1);
    assert_eq!(run.record(u32::MAX), RunStep::Finished { best_index: 0, best_score: -1 });
    assert_eq!(run.scores(), &vec![-1]);
}

#[test]
fn progress_every_fifty() {
    let mut run = RunTracker::new(vec![], 200);
    let mut reported = vec![];
    for i in 0..120 {
        if run.reports_progress() {
            reported.push(i);
        }
        assert_eq!(run.record(1), RunStep::Continue);
    }
    assert_eq!(reported, vec![0, 50, 100]);
}

#[test]
fn session_makes_wanted_runs() {
    let mut s = Session::new(3);
    assert_eq!(s.completed(), 0);
    assert!(s.complete_run());
    assert!(s.complete_run());
    assert!(!s.complete_run());
    assert_eq!(s.completed(), 3);
    assert_eq!(s.wanted(), 3);
}

#[test]
fn session_makes_at_least_one_run() {
    let mut s = Session::new(0);
    assert!(!s.complete_run());
    assert_eq!(s.completed(), 1);
}
