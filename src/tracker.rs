use vstd::prelude::*;

verus! {

/// What one check of the followed path's next stage boundary decides.
#[derive(Clone, Copy, Debug, PartialEq, Eq, Structural)]
pub enum Advance {
    /// The boundary has not passed yet: the stage is kept.
    Stay,
    /// The boundary has passed: the tracker enters the given stage.
    Enter(usize),
    /// The boundary has passed and no further stage exists.
    Finished,
}

/// The decision for a tracker in `stage` of a path of `n_events` events, once it
/// knows whether the next stage boundary, seen from its own frame, has passed.
pub open spec fn advance_of(stage: nat, n_events: nat, passed: bool) -> Advance {
    if !passed {
        Advance::Stay
    } else if stage + 2 >= n_events {
        Advance::Finished
    } else {
        Advance::Enter((stage + 1) as usize)
    }
}

/// The reports of a tracker that starts in `stage` and is handed the boundary
/// checks `checks` in turn; it stops after the first `Finished`.
pub open spec fn walk(stage: nat, n_events: nat, checks: Seq<bool>) -> Seq<Advance>
    decreases checks.len(),
{
    if checks.len() == 0 {
        Seq::empty()
    } else {
        let a = advance_of(stage, n_events, checks[0]);
        match a {
            Advance::Stay => seq![a] + walk(stage, n_events, checks.drop_first()),
            Advance::Enter(k) => seq![a] + walk(k as nat, n_events, checks.drop_first()),
            Advance::Finished => seq![a],
        }
    }
}

/// Number of `Enter` reports.
pub open spec fn count_entered(reports: Seq<Advance>) -> nat
    decreases reports.len(),
{
    if reports.len() == 0 {
        0
    } else {
        (if reports[0] is Enter {
            1nat
        } else {
            0nat
        }) + count_entered(reports.drop_first())
    }
}

/// Position of the tracker along the followed path.
pub struct StageTracker {
    pub stage: usize,
    pub n_events: usize,
    pub finished: bool,
}

impl StageTracker {
    /// A tracker is in a stage of the path, and has finished only in the last one.
    pub open spec fn wf(&self) -> bool {
        &&& 2 <= self.n_events
        &&& self.stage + 2 <= self.n_events
        &&& self.finished ==> self.stage + 2 == self.n_events
    }

    /// A tracker at the first stage of a path of `n_events` events.
    pub fn new(n_events: usize) -> (r: StageTracker)
        requires
            2 <= n_events,
        ensures
            r.wf(),
            r.stage == 0,
            r.n_events == n_events,
            !r.finished,
    {
        StageTracker { stage: 0, n_events, finished: false }
    }

    /// Applies one boundary check and reports what it decided.
    pub fn step(&mut self, passed: bool) -> (r: Advance)
        requires
            old(self).wf(),
            !old(self).finished,
        ensures
            final(self).wf(),
            r == advance_of(old(self).stage as nat, old(self).n_events as nat, passed),
            final(self).n_events == old(self).n_events,
            final(self).finished == (r is Finished),
            final(self).stage == match r {
                Advance::Enter(k) => k,
                _ => old(self).stage,
            },
    {
        if !passed {
            Advance::Stay
        } else if self.stage + 2 >= self.n_events {
            self.finished = true;
            Advance::Finished
        } else {
            self.stage = self.stage + 1;
            Advance::Enter(self.stage)
        }
    }
}

proof fn lemma_count_prefix(a: Advance, rest: Seq<Advance>, j: int)
    requires
        1 <= j <= rest.len() + 1,
    ensures
        count_entered((seq![a] + rest).take(j)) == (if a is Enter {
            1nat
        } else {
            0nat
        }) + count_entered(rest.take(j - 1)),
{
    let s = (seq![a] + rest).take(j);
    assert(s.drop_first() =~= rest.take(j - 1));
    assert(s[0] == a);
}

proof fn lemma_walk_from(stage: nat, n_events: nat, checks: Seq<bool>)
    requires
        2 <= n_events <= usize::MAX,
        stage + 2 <= n_events,
    ensures
        forall|j: int|
            0 <= j < walk(stage, n_events, checks).len() && #[trigger] walk(
                stage,
                n_events,
                checks,
            )[j] is Enter ==> {
                let k = walk(stage, n_events, checks)[j]->Enter_0 as nat;
                &&& k == stage + count_entered(walk(stage, n_events, checks).take(j)) + 1
                &&& k + 2 <= n_events
            },
        forall|j: int|
            0 <= j < walk(stage, n_events, checks).len() && #[trigger] walk(
                stage,
                n_events,
                checks,
            )[j] is Finished ==> {
                &&& j == walk(stage, n_events, checks).len() - 1
                &&& stage + count_entered(walk(stage, n_events, checks).take(j)) + 2 == n_events
            },
    decreases checks.len(),
{
    let out = walk(stage, n_events, checks);
    if checks.len() > 0 {
        let a = advance_of(stage, n_events, checks[0]);
        let next = match a {
            Advance::Enter(k) => k as nat,
            _ => stage,
        };
        let rest = walk(next, n_events, checks.drop_first());
        lemma_walk_from(next, n_events, checks.drop_first());
        assert(out.take(0) =~= Seq::<Advance>::empty());
        if !(a is Finished) {
            assert(out =~= seq![a] + rest);
            assert forall|j: int| 1 <= j < out.len() implies out[j] == rest[j - 1] && count_entered(
                out.take(j),
            ) == (if a is Enter {
                1nat
            } else {
                0nat
            }) + count_entered(rest.take(j - 1)) by {
                lemma_count_prefix(a, rest, j);
            }
        }
    }
}

/// A tracker started at the first stage of a path of `n_events` events enters
/// the stages one after another, each the one after the last, never beyond the
/// last stage; it reports that no further stage exists at most once, as its last
/// report, and only after it has entered every stage.
pub proof fn lemma_stages_in_order(n_events: nat, checks: Seq<bool>)
    requires
        2 <= n_events <= usize::MAX,
    ensures
        forall|j: int|
            0 <= j < walk(0, n_events, checks).len() && #[trigger] walk(0, n_events, checks)[j] is Enter
                ==> {
                let k = walk(0, n_events, checks)[j]->Enter_0 as nat;
                &&& k == count_entered(walk(0, n_events, checks).take(j)) + 1
                &&& k + 2 <= n_events
            },
        forall|j: int|
            0 <= j < walk(0, n_events, checks).len() && #[trigger] walk(0, n_events, checks)[j]
                is Finished ==> {
                &&& j == walk(0, n_events, checks).len() - 1
                &&& count_entered(walk(0, n_events, checks).take(j)) + 2 == n_events
            },
{
    lemma_walk_from(0, n_events, checks);
}

proof fn lemma_walk_passed_from(stage: nat, n_events: nat, checks: Seq<bool>)
    requires
        2 <= n_events <= usize::MAX,
        stage + 2 <= n_events,
        stage + checks.len() + 1 >= n_events,
        forall|i: int| 0 <= i < checks.len() ==> checks[i],
    ensures
        walk(stage, n_events, checks).len() + stage + 1 == n_events,
        walk(stage, n_events, checks).last() is Finished,
    decreases checks.len(),
{
    if stage + 2 < n_events {
        let rest = checks.drop_first();
        lemma_walk_passed_from(stage + 1, n_events, rest);
        let tail = walk(stage + 1, n_events, rest);
        assert(walk(stage, n_events, checks) =~= seq![Advance::Enter((stage + 1) as usize)] + tail);
    }
}

/// A tracker started at the first stage of a path of `n_events` events, whose
/// boundary checks all find the boundary passed, enters every further stage and
/// then reports that no further stage exists: `n_events - 1` reports, the last
/// of them `Finished`.
pub proof fn lemma_passed_boundaries_finish(n_events: nat, checks: Seq<bool>)
    requires
        2 <= n_events <= usize::MAX,
        checks.len() + 1 >= n_events,
        forall|i: int| 0 <= i < checks.len() ==> checks[i],
    ensures
        walk(0, n_events, checks).len() + 1 == n_events,
        walk(0, n_events, checks).last() is Finished,
{
    lemma_walk_passed_from(0, n_events, checks);
}

/// Stage `i` of a path is active when its start event has been reached and its
/// end event has not; `reached[i]` says whether event `i`, seen from the
/// observer's frame, lies at or before the observer's time.
pub open spec fn is_active_stage(reached: Seq<bool>, i: int) -> bool {
    &&& 0 <= i
    &&& i + 1 < reached.len()
    &&& reached[i]
    &&& !reached[i + 1]
}

/// The first active stage of a path, or `None` when the path is not active at
/// the observer's time.
pub fn active_stage(reached: &Vec<bool>) -> (r: Option<usize>)
    ensures
        r matches Some(i) ==> is_active_stage(reached@, i as int),
        r matches Some(i) ==> forall|j: int| 0 <= j < i ==> !is_active_stage(reached@, j),
        r is None <==> forall|j: int| !is_active_stage(reached@, j),
{
    let mut i: usize = 0;
    while i < reached.len() && i + 1 < reached.len()
        invariant
            i <= reached@.len(),
            forall|j: int| 0 <= j < i ==> !is_active_stage(reached@, j),
        decreases reached@.len() - i,
    {
        if reached[i] && !reached[i + 1] {
            assert(is_active_stage(reached@, i as int));
            return Some(i);
        }
        i = i + 1;
    }
    None
}

} // verus!
