//! The bookkeeping of a run: how many candidates are tried, when progress
//! is reported, which candidate wins, and how many runs a session makes.

use vstd::prelude::*;

verus! {

/// `(index, value)` is the pick of a scan that starts from `(0, -1)` and
/// moves to every later score that beats the current value: with no score
/// above -1 the pick is `(0, -1)`; otherwise `value` is the highest score and
/// `index` the first position that holds it.
pub open spec fn is_best_choice(scores: Seq<i32>, index: int, value: int) -> bool {
    if forall|j: int| 0 <= j < scores.len() ==> scores[j] <= -1 {
        index == 0 && value == -1
    } else {
        &&& 0 <= index < scores.len()
        &&& scores[index] == value
        &&& forall|j: int| 0 <= j < scores.len() ==> scores[j] <= value
        &&& forall|j: int| 0 <= j < index ==> scores[j] < value
    }
}

/// At most one pair satisfies [`is_best_choice`].
pub proof fn lemma_best_choice_unique(scores: Seq<i32>, i1: int, v1: int, i2: int, v2: int)
    requires
        is_best_choice(scores, i1, v1),
        is_best_choice(scores, i2, v2),
    ensures
        i1 == i2,
        v1 == v2,
{
    if !(forall|j: int| 0 <= j < scores.len() ==> scores[j] <= -1) {
        assert(scores[i1] <= v2 && scores[i2] <= v1);
        if i1 < i2 {
            assert(scores[i1] < v2);
        }
        if i2 < i1 {
            assert(scores[i2] < v1);
        }
    }
}

/// The winning candidate of a run: the first one with the highest score,
/// or the first one of all when no score is above -1.
pub fn best_candidate(scores: &Vec<i32>) -> (best: (usize, i32))
    ensures
        is_best_choice(scores@, best.0 as int, best.1 as int),
{
    let mut best_index: usize = 0;
    let mut best_value: i32 = -1;
    let mut i: usize = 0;
    while i < scores.len()
        invariant
            i <= scores@.len(),
            best_value >= -1,
            forall|j: int| 0 <= j < i ==> scores@[j] <= best_value,
            best_value == -1 ==> best_index == 0,
            best_value > -1 ==> {
                &&& best_index < i
                &&& scores@[best_index as int] == best_value
                &&& forall|j: int| 0 <= j < best_index ==> scores@[j] < best_value
            },
        decreases scores@.len() - i,
    {
        if scores[i] > best_value {
            best_value = scores[i];
            best_index = i;
        }
        i = i + 1;
    }
    if best_value > -1 {
        assert(!(forall|j: int| 0 <= j < scores@.len() ==> scores@[j] <= -1)) by {
            assert(scores@[best_index as int] > -1);
        }
    }
    (best_index, best_value)
}

/// What the next step of a run is after a candidate was scored.
#[derive(Clone, Copy, Debug, PartialEq, Eq, Structural)]
pub enum RunStep {
    /// Try another candidate.
    Continue,
    /// Enough candidates were tried; this one won.
    Finished { best_index: usize, best_score: i32 },
}

/// The mathematical picture of a run in progress.
pub struct RunView {
    /// The scores of all candidates held, earlier ones first.
    pub scores: Seq<i32>,
    /// How many candidates this run has tried.
    pub attempted: int,
    /// How many candidates the run is meant to try.
    pub wanted: int,
}

impl RunView {
    /// A run ends once it has tried at least one candidate and at least as
    /// many as wanted.
    pub open spec fn finished(self) -> bool {
        self.attempted > 0 && self.attempted >= self.wanted
    }
}

/// The state of one run: the scores of the candidates so far.
pub struct RunTracker {
    scores: Vec<i32>,
    attempted: i32,
    wanted: i32,
}

impl View for RunTracker {
    type V = RunView;

    closed spec fn view(&self) -> RunView {
        RunView { scores: self.scores@, attempted: self.attempted as int, wanted: self.wanted as int }
    }
}

impl RunTracker {
    /// A run that has tried nothing yet, continuing a list of earlier scores.
    pub fn new(earlier_scores: Vec<i32>, wanted: i32) -> (run: Self)
        ensures
            run@ == (RunView { scores: earlier_scores@, attempted: 0, wanted: wanted as int }),
    {
        RunTracker { scores: earlier_scores, attempted: 0, wanted }
    }

    /// How many candidates this run has tried.
    pub fn attempted(&self) -> (n: i32)
        ensures
            n == self@.attempted,
    {
        self.attempted
    }

    /// How many candidates this run is meant to try.
    pub fn wanted(&self) -> (n: i32)
        ensures
            n == self@.wanted,
    {
        self.wanted
    }

    /// All scores held, earlier ones first.
    pub fn scores(&self) -> (scores: &Vec<i32>)
        ensures
            scores@ == self@.scores,
    {
        &self.scores
    }

    /// Whether progress is reported before the next candidate is recorded:
    /// every fiftieth candidate, starting with the first.
    pub fn reports_progress(&self) -> (report: bool)
        requires
            self@.attempted >= 0,
        ensures
            report == (self@.attempted % 50 == 0),
    {
        self.attempted % 50 == 0
    }

    /// Records the score of one more candidate and says whether the run goes
    /// on or which candidate won. The score is stored as an `i32`, so a score
    /// above `i32::MAX` is kept as the negative number with the same bits.
    pub fn record(&mut self, score: u32) -> (step: RunStep)
        requires
            !old(self)@.finished(),
            old(self)@.attempted >= 0,
        ensures
            final(self)@.scores == old(self)@.scores.push(score as i32),
            final(self)@.attempted == old(self)@.attempted + 1,
            final(self)@.wanted == old(self)@.wanted,
            match step {
                RunStep::Continue => !final(self)@.finished(),
                RunStep::Finished { best_index, best_score } => {
                    &&& final(self)@.finished()
                    &&& is_best_choice(final(self)@.scores, best_index as int, best_score as int)
                },
            },
    {
        self.scores.push(score as i32);
        self.attempted = self.attempted + 1;
        if self.attempted >= self.wanted {
            let (best_index, best_score) = best_candidate(&self.scores);
            RunStep::Finished { best_index, best_score }
        } else {
            RunStep::Continue
        }
    }
}

/// A run that starts with nothing tried ends after exactly
/// `max(wanted, 1)` candidates: it has finished once and only once that
/// many were recorded.
pub proof fn lemma_run_length(run: RunView)
    requires
        run.attempted >= 0,
    ensures
        run.finished() <==> run.attempted >= (if run.wanted > 1 { run.wanted } else { 1 }),
{
}

/// The mathematical picture of a session of runs.
pub struct SessionView {
    /// How many runs have completed.
    pub completed: int,
    /// How many runs the session is meant to make.
    pub wanted: int,
}

impl SessionView {
    /// A session ends once at least one run and at least as many as wanted
    /// have completed.
    pub open spec fn finished(self) -> bool {
        self.completed > 0 && self.completed >= self.wanted
    }
}

/// A sequence of runs.
pub struct Session {
    completed: i32,
    wanted: i32,
}

impl View for Session {
    type V = SessionView;

    closed spec fn view(&self) -> SessionView {
        SessionView { completed: self.completed as int, wanted: self.wanted as int }
    }
}

impl Session {
    /// A session with no run made yet.
    pub fn new(wanted_runs: i32) -> (session: Self)
        ensures
            session@ == (SessionView { completed: 0, wanted: wanted_runs as int }),
    {
        Session { completed: 0, wanted: wanted_runs }
    }

    /// How many runs have completed; the number of the next run.
    pub fn completed(&self) -> (n: i32)
        ensures
            n == self@.completed,
    {
        self.completed
    }

    /// How many runs the session is meant to make.
    pub fn wanted(&self) -> (n: i32)
        ensures
            n == self@.wanted,
    {
        self.wanted
    }

    /// Counts one more completed run; `true` when another run follows.
    pub fn complete_run(&mut self) -> (more: bool)
        requires
            !old(self)@.finished(),
            old(self)@.completed >= 0,
        ensures
            final(self)@.completed == old(self)@.completed + 1,
            final(self)@.wanted == old(self)@.wanted,
            more == !final(self)@.finished(),
    {
        self.completed = self.completed + 1;
        self.completed < self.wanted
    }
}

/// A session that starts with no run made makes exactly `max(wanted, 1)`
/// runs: it has finished once and only once that many have completed.
pub proof fn lemma_session_length(session: SessionView)
    requires
        session.completed >= 0,
    ensures
        session.finished() <==> session.completed >= (if session.wanted > 1 {
            session.wanted
        } else {
            1
        }),
{
}

} // verus!
