//! The run of a plan: first its cases that run together, then those that run
//! alone, one after the other.

use crate::dispatch;
use crate::dispatch::{CaseState, ParallelPhase};
use crate::orchestrator;
use crate::orchestrator::Tally;
use crate::retry::Verdict;
use vstd::prelude::*;

verus! {

/// What comes next in a run.
#[derive(Clone, Copy, Debug, PartialEq, Eq, Structural)]
pub enum Step {
    /// Start that case of the parallel phase.
    Parallel(usize),
    /// Start that case of the exclusive phase.
    Exclusive(usize),
    /// Wait until a case that runs is done.
    Wait,
    /// Every case is done.
    Done,
}

/// The run of a plan.
pub struct Execution {
    /// The parallel phase.
    pub phase: ParallelPhase,
    /// The number of cases in the exclusive phase.
    pub exclusive: usize,
    /// The number of them that were started.
    pub started: usize,
    /// Whether the one that was started last still runs.
    pub alone: bool,
    /// What the cases that are done came to, in the order in which they were.
    pub verdicts: Vec<Verdict>,
}

/// Whether every case of a parallel phase is done.
pub open spec fn all_finished(phase: ParallelPhase) -> bool {
    forall|k: int| 0 <= k < phase.len() ==> #[trigger] phase.states@[k] is Finished
}

fn is_finished(phase: &ParallelPhase) -> (r: bool)
    ensures
        r == all_finished(*phase),
{
    let mut i: usize = 0;
    while i < phase.states.len()
        invariant
            i <= phase.states@.len(),
            forall|k: int| 0 <= k < i ==> #[trigger] phase.states@[k] is Finished,
        decreases phase.states@.len() - i,
    {
        if phase.states[i] != CaseState::Finished {
            assert(!(phase.states@[i as int] is Finished));
            return false;
        }
        i += 1;
    }
    true
}

impl Execution {
    /// The number of cases that are done.
    pub open spec fn finished(self) -> int {
        dispatch::finished_among(self.phase.states@, self.phase.len()) + self.started - if self.alone {
            1int
        } else {
            0
        }
    }

    /// What holds of every run: no case of the exclusive phase is started
    /// before every case of the parallel phase is done, and every case that is
    /// done has one verdict.
    pub open spec fn well_formed(self) -> bool {
        &&& self.phase.well_formed()
        &&& self.started <= self.exclusive
        &&& self.alone ==> self.started > 0
        &&& self.started > 0 ==> all_finished(self.phase)
        &&& self.verdicts@.len() == self.finished()
    }

    /// Whether nothing of the run has started.
    pub open spec fn is_new(self) -> bool {
        &&& self.well_formed()
        &&& forall|i: int| 0 <= i < self.phase.len() ==> #[trigger] self.phase.states@[i] is Queued
        &&& self.started == 0
        &&& !self.alone
        &&& self.verdicts@.len() == 0
    }

    /// The run of a parallel phase in which nothing has started, followed by
    /// that many cases that run alone.
    pub fn new(phase: ParallelPhase, exclusive: usize) -> (r: Execution)
        requires
            phase.well_formed(),
            forall|i: int| 0 <= i < phase.len() ==> #[trigger] phase.states@[i] is Queued,
        ensures
            r.is_new(),
            r.phase == phase,
            r.exclusive == exclusive,
    {
        proof {
            lemma_none_finished(phase.states@, phase.len());
        }
        Execution { phase, exclusive, started: 0, alone: false, verdicts: Vec::new() }
    }

    /// What comes next. A case that is to be started counts as running from
    /// then on.
    pub fn poll(&mut self) -> (step: Step)
        requires
            old(self).well_formed(),
        ensures
            polled(*old(self), *final(self), step),
    {
        let ghost before = *self;
        if !is_finished(&self.phase) {
            let next = self.phase.poll();
            proof {
                lemma_same_finished(before.phase.states@, self.phase.states@, self.phase.len());
            }
            return match next {
                Some(i) => Step::Parallel(i),
                None => Step::Wait,
            };
        }
        if self.alone {
            return Step::Wait;
        }
        if self.started < self.exclusive {
            let k: usize = self.started;
            self.started = k + 1;
            self.alone = true;
            return Step::Exclusive(k);
        }
        Step::Done
    }

    /// Marks case `i` of the parallel phase as done, with that verdict.
    pub fn finish_parallel(&mut self, i: usize, verdict: Verdict)
        requires
            old(self).well_formed(),
            i < old(self).phase.len(),
            old(self).phase.states@[i as int] is Running,
        ensures
            parallel_done(*old(self), *final(self), i, verdict),
    {
        let ghost before = *self;
        self.phase.finish(i);
        self.verdicts.push(verdict);
        proof {
            lemma_finished_update(before.phase.states@, i as int, before.phase.len());
        }
    }

    /// Marks the case of the exclusive phase that runs as done, with that
    /// verdict.
    pub fn finish_exclusive(&mut self, verdict: Verdict)
        requires
            old(self).well_formed(),
            old(self).alone,
        ensures
            exclusive_done(*old(self), *final(self), verdict),
    {
        self.alone = false;
        self.verdicts.push(verdict);
    }

    /// The number of cases that passed and of those that were skipped.
    pub fn tally(&self) -> (t: Tally)
        ensures
            t.passed == orchestrator::count_of(
                self.verdicts@,
                Verdict::Passed,
                self.verdicts@.len() as int,
            ),
            t.skipped == orchestrator::count_of(
                self.verdicts@,
                Verdict::Skipped,
                self.verdicts@.len() as int,
            ),
            t.passed + t.skipped <= self.verdicts@.len(),
    {
        proof {
            orchestrator::law_every_test_counts(self.verdicts@, self.verdicts@.len() as int);
            lemma_count_not_negative(
                self.verdicts@,
                Verdict::Failed,
                self.verdicts@.len() as int,
            );
        }
        orchestrator::tally_all(&self.verdicts)
    }
}

/// Whether `b` is what `a` becomes where `step` comes next.
pub open spec fn polled(a: Execution, b: Execution, step: Step) -> bool {
    &&& b.well_formed()
    &&& b.exclusive == a.exclusive
    &&& b.verdicts@ == a.verdicts@
    &&& match step {
        Step::Parallel(i) => {
            &&& !all_finished(a.phase)
            &&& a.phase.startable(i as int)
            &&& forall|k: int| 0 <= k < i ==> !(#[trigger] a.phase.startable(k))
            &&& b.phase.cap == a.phase.cap
            &&& b.phase.groups@ == a.phase.groups@
            &&& b.phase.next == a.phase.next_behind(i as int)
            &&& b.phase.states@ == a.phase.states_admitting(a.phase.next_behind(i as int)).update(
                i as int,
                CaseState::Running,
            )
            &&& b.started == a.started
            &&& b.alone == a.alone
        },
        Step::Exclusive(k) => {
            &&& all_finished(a.phase)
            &&& !a.alone
            &&& k == a.started
            &&& k < a.exclusive
            &&& b.phase == a.phase
            &&& b.started == k + 1
            &&& b.alone
        },
        Step::Wait => {
            &&& if all_finished(a.phase) {
                a.alone && b.phase == a.phase
            } else {
                &&& forall|k: int| !(#[trigger] a.phase.startable(k))
                &&& b.phase.admits(a.phase, a.phase.next_at_cap())
            }
            &&& b.started == a.started
            &&& b.alone == a.alone
        },
        Step::Done => {
            &&& all_finished(a.phase)
            &&& !a.alone
            &&& a.started == a.exclusive
            &&& b == a
        },
    }
}

/// Whether `b` is what `a` becomes once case `i` of the parallel phase is done
/// with that verdict.
pub open spec fn parallel_done(a: Execution, b: Execution, i: usize, verdict: Verdict) -> bool {
    &&& b.well_formed()
    &&& i < a.phase.len()
    &&& a.phase.states@[i as int] is Running
    &&& b.phase.cap == a.phase.cap
    &&& b.phase.groups@ == a.phase.groups@
    &&& b.phase.next == a.phase.next
    &&& b.phase.states@ == a.phase.states@.update(i as int, CaseState::Finished)
    &&& b.exclusive == a.exclusive
    &&& b.started == a.started
    &&& b.alone == a.alone
    &&& b.verdicts@ == a.verdicts@.push(verdict)
}

/// Whether `b` is what `a` becomes once the case of the exclusive phase that
/// runs is done with that verdict.
pub open spec fn exclusive_done(a: Execution, b: Execution, verdict: Verdict) -> bool {
    &&& b.well_formed()
    &&& a.alone
    &&& b.phase == a.phase
    &&& b.exclusive == a.exclusive
    &&& b.started == a.started
    &&& !b.alone
    &&& b.verdicts@ == a.verdicts@.push(verdict)
}

proof fn lemma_none_finished(states: Seq<CaseState>, n: int)
    requires
        0 <= n <= states.len(),
        forall|k: int| 0 <= k < n ==> !(#[trigger] states[k] is Finished),
    ensures
        dispatch::finished_among(states, n) == 0,
    decreases n,
{
    if n > 0 {
        lemma_none_finished(states, n - 1);
    }
}

proof fn lemma_all_finished(states: Seq<CaseState>, n: int)
    requires
        0 <= n <= states.len(),
        forall|k: int| 0 <= k < n ==> #[trigger] states[k] is Finished,
    ensures
        dispatch::finished_among(states, n) == n,
    decreases n,
{
    if n > 0 {
        lemma_all_finished(states, n - 1);
    }
}

proof fn lemma_same_finished(a: Seq<CaseState>, b: Seq<CaseState>, n: int)
    requires
        0 <= n <= a.len(),
        n <= b.len(),
        forall|k: int| 0 <= k < n ==> (a[k] is Finished <==> #[trigger] b[k] is Finished),
    ensures
        dispatch::finished_among(a, n) == dispatch::finished_among(b, n),
    decreases n,
{
    if n > 0 {
        lemma_same_finished(a, b, n - 1);
        assert(b[n - 1] is Finished <==> a[n - 1] is Finished);
    }
}

proof fn lemma_finished_update(states: Seq<CaseState>, i: int, n: int)
    requires
        0 <= i < states.len(),
        0 <= n <= states.len(),
        !(states[i] is Finished),
    ensures
        dispatch::finished_among(states.update(i, CaseState::Finished), n)
            == dispatch::finished_among(states, n) + if i < n {
            1int
        } else {
            0
        },
    decreases n,
{
    if n > 0 {
        lemma_finished_update(states, i, n - 1);
    }
}

proof fn lemma_count_not_negative(verdicts: Seq<Verdict>, v: Verdict, n: int)
    ensures
        orchestrator::count_of(verdicts, v, n) >= 0,
    decreases n,
{
    if n > 0 {
        lemma_count_not_negative(verdicts, v, n - 1);
    }
}

// ── laws ────────────────────────────────────────────────────────────────────

/// While a case of the exclusive phase runs, nothing else does.
pub proof fn law_exclusive_runs_alone(e: Execution)
    requires
        e.well_formed(),
        e.alone,
    ensures
        forall|k: int| 0 <= k < e.phase.len() ==> !(#[trigger] e.phase.states@[k] is Running),
        e.phase.running() == 0,
{
    lemma_nothing_runs(e.phase, e.phase.len());
}

proof fn lemma_nothing_runs(phase: ParallelPhase, n: int)
    requires
        0 <= n <= phase.len(),
        all_finished(phase),
    ensures
        dispatch::running_among(phase.states@, n) == 0,
    decreases n,
{
    if n > 0 {
        lemma_nothing_runs(phase, n - 1);
        assert(phase.states@[n - 1] is Finished);
    }
}

/// With a cap of at least one, a run waits only where some case runs.
pub proof fn law_waits_for_something(e: Execution)
    requires
        e.well_formed(),
        e.phase.cap >= 1,
        all_finished(e.phase) ==> e.alone,
        forall|k: int| !(#[trigger] e.phase.startable(k)),
    ensures
        e.alone || exists|k: int| 0 <= k < e.phase.len() && #[trigger] e.phase.states@[k] is Running,
{
    if forall|k: int| 0 <= k < e.phase.len() ==> !(#[trigger] e.phase.states@[k] is Running) {
        dispatch::law_progress(e.phase);
    }
}

/// What happens in a run.
pub enum Event {
    /// That came next.
    Polled(Step),
    /// That case of the parallel phase was done, with that verdict.
    ParallelDone(usize, Verdict),
    /// The case of the exclusive phase that ran was done, with that verdict.
    ExclusiveDone(Verdict),
}

/// Whether `b` is what `a` becomes where that happens.
pub open spec fn moves(a: Execution, b: Execution, event: Event) -> bool {
    match event {
        Event::Polled(step) => polled(a, b, step),
        Event::ParallelDone(i, verdict) => parallel_done(a, b, i, verdict),
        Event::ExclusiveDone(verdict) => exclusive_done(a, b, verdict),
    }
}

/// Whether a run in which nothing had started went through those states as
/// that happened.
pub open spec fn history(states: Seq<Execution>, events: Seq<Event>) -> bool {
    &&& states.len() == events.len() + 1
    &&& states[0].is_new()
    &&& forall|i: int|
        0 <= i < events.len() ==> moves(states[i], #[trigger] states[i + 1], events[i])
}

/// How often a step came next.
pub open spec fn times(events: Seq<Event>, step: Step) -> nat
    decreases events.len(),
{
    if events.len() == 0 {
        0
    } else {
        times(events.drop_last(), step) + if events.last() == Event::Polled(step) {
            1nat
        } else {
            0
        }
    }
}

/// How often a case of the parallel phase was done.
pub open spec fn times_done(events: Seq<Event>, i: usize) -> nat
    decreases events.len(),
{
    if events.len() == 0 {
        0
    } else {
        times_done(events.drop_last(), i) + if events.last() is ParallelDone
            && events.last()->ParallelDone_0 == i {
            1nat
        } else {
            0
        }
    }
}

/// How often a case of the exclusive phase was done.
pub open spec fn times_alone(events: Seq<Event>) -> nat
    decreases events.len(),
{
    if events.len() == 0 {
        0
    } else {
        times_alone(events.drop_last()) + if events.last() is ExclusiveDone {
            1nat
        } else {
            0
        }
    }
}

/// The verdicts of the cases that were done, in order.
pub open spec fn verdicts_of(events: Seq<Event>) -> Seq<Verdict>
    decreases events.len(),
{
    if events.len() == 0 {
        seq![]
    } else {
        let before = verdicts_of(events.drop_last());
        match events.last() {
            Event::Polled(step) => before,
            Event::ParallelDone(i, verdict) => before.push(verdict),
            Event::ExclusiveDone(verdict) => before.push(verdict),
        }
    }
}

/// Whether a state is the one that those events lead to from `first`: a case of
/// the parallel phase was started once where it runs or is done, and done once
/// where it is; of the exclusive phase, the first cases were started once each,
/// and all of them but one that still runs were done.
pub open spec fn tells(first: Execution, s: Execution, events: Seq<Event>) -> bool {
    &&& s.well_formed()
    &&& s.exclusive == first.exclusive
    &&& s.phase.len() == first.phase.len()
    &&& s.phase.cap == first.phase.cap
    &&& s.phase.groups@ == first.phase.groups@
    &&& s.verdicts@ == verdicts_of(events)
    &&& times_alone(events) + (if s.alone {
        1nat
    } else {
        0
    }) == s.started
    &&& forall|i: usize| #[trigger]
        times(events, Step::Parallel(i)) == if i < s.phase.len() && (
        s.phase.states@[i as int] is Running || s.phase.states@[i as int] is Finished) {
            1nat
        } else {
            0
        }
    &&& forall|i: usize| #[trigger]
        times_done(events, i) == if i < s.phase.len() && s.phase.states@[i as int] is Finished {
            1nat
        } else {
            0
        }
    &&& forall|k: usize| #[trigger]
        times(events, Step::Exclusive(k)) == if k < s.started {
            1nat
        } else {
            0
        }
}

proof fn lemma_tells(states: Seq<Execution>, events: Seq<Event>)
    requires
        history(states, events),
    ensures
        tells(states[0], states.last(), events),
    decreases events.len(),
{
    let s = states.last();
    if events.len() > 0 {
        let n = events.len() - 1;
        let earlier = states.drop_last();
        let before = events.drop_last();
        assert forall|i: int| 0 <= i < before.len() implies moves(
            earlier[i],
            #[trigger] earlier[i + 1],
            before[i],
        ) by {
            assert(earlier[i + 1] == states[i + 1]);
        }
        lemma_tells(earlier, before);
        let a = states[n];
        assert(earlier.last() == a);
        assert(s == states[n + 1]);
        let event = events.last();
        assert(moves(a, s, event));
        assert(a.phase.well_formed());
        assert forall|i: usize| #[trigger]
            times(events, Step::Parallel(i)) == if i < s.phase.len() && (
            s.phase.states@[i as int] is Running || s.phase.states@[i as int] is Finished) {
                1nat
            } else {
                0
            } by {
            assert(times(before, Step::Parallel(i)) == if i < a.phase.len() && (
            a.phase.states@[i as int] is Running || a.phase.states@[i as int] is Finished) {
                1nat
            } else {
                0
            });
            if i < a.phase.len() {
                assert(a.phase.states@[i as int] is Queued <==> i >= a.phase.next);
            }
        }
        assert forall|i: usize| #[trigger]
            times_done(events, i) == if i < s.phase.len() && s.phase.states@[i as int] is Finished {
                1nat
            } else {
                0
            } by {
            assert(times_done(before, i) == if i < a.phase.len()
                && a.phase.states@[i as int] is Finished {
                1nat
            } else {
                0
            });
            if i < a.phase.len() {
                assert(a.phase.states@[i as int] is Queued <==> i >= a.phase.next);
            }
        }
        assert forall|k: usize| #[trigger]
            times(events, Step::Exclusive(k)) == if k < s.started {
                1nat
            } else {
                0
            } by {
            assert(times(before, Step::Exclusive(k)) == if k < a.started {
                1nat
            } else {
                0
            });
        }
    } else {
        assert(s == states[0]);
        assert(s.verdicts@ =~= verdicts_of(events));
    }
}

/// At every moment of a run, at most as many cases of the parallel phase run as
/// the cap allows, no two of them have the same group, and none of them runs
/// while one of the exclusive phase does.
pub proof fn law_limits_hold_throughout(states: Seq<Execution>, events: Seq<Event>, n: int)
    requires
        history(states, events),
        0 <= n < states.len(),
    ensures
        states[n].phase.cap == states[0].phase.cap,
        states[n].phase.groups@ == states[0].phase.groups@,
        states[n].phase.running() <= states[0].phase.cap,
        forall|i: int, j: int|
            0 <= i < j < states[n].phase.len() && #[trigger] states[n].phase.states@[i] is Running
                && #[trigger] states[n].phase.states@[j] is Running
                && states[0].phase.groups@[i] is Some ==> states[0].phase.groups@[i]
                != states[0].phase.groups@[j],
        states[n].alone ==> states[n].phase.running() == 0,
{
    let part = states.take(n + 1);
    let seen = events.take(n);
    assert forall|i: int| 0 <= i < seen.len() implies moves(part[i], #[trigger] part[i + 1], seen[i]) by {
        assert(part[i + 1] == states[i + 1]);
    }
    lemma_tells(part, seen);
    assert(part.last() == states[n]);
    dispatch::law_cap(states[n].phase);
    if states[n].alone {
        law_exclusive_runs_alone(states[n]);
    }
}

/// A run that comes to its end has started every case exactly once, each case
/// of the parallel phase was done exactly once and those of the exclusive phase
/// as often as there are any, and there are as many verdicts as cases.
pub proof fn law_every_case_runs_once(states: Seq<Execution>, events: Seq<Event>)
    requires
        history(states, events),
        polled(states.last(), states.last(), Step::Done),
    ensures
        forall|i: usize|
            i < states[0].phase.len() ==> #[trigger] times(events, Step::Parallel(i)) == 1,
        forall|i: usize|
            i >= states[0].phase.len() ==> #[trigger] times(events, Step::Parallel(i)) == 0,
        forall|i: usize| i < states[0].phase.len() ==> #[trigger] times_done(events, i) == 1,
        forall|k: usize|
            k < states[0].exclusive ==> #[trigger] times(events, Step::Exclusive(k)) == 1,
        forall|k: usize|
            k >= states[0].exclusive ==> #[trigger] times(events, Step::Exclusive(k)) == 0,
        times_alone(events) == states[0].exclusive,
        states.last().verdicts@ == verdicts_of(events),
        verdicts_of(events).len() == states[0].phase.len() + states[0].exclusive,
{
    lemma_tells(states, events);
    let s = states.last();
    lemma_all_finished(s.phase.states@, s.phase.len());
    assert forall|i: usize| i < states[0].phase.len() implies #[trigger] times(
        events,
        Step::Parallel(i),
    ) == 1 by {
        assert(s.phase.states@[i as int] is Finished);
    }
    assert forall|i: usize| i < states[0].phase.len() implies #[trigger] times_done(events, i) == 1 by {
        assert(s.phase.states@[i as int] is Finished);
    }
}

/// Cases of the parallel phase start in order: one that starts passes over
/// none that could start, so that whatever stands before it runs, is done, or
/// waits for a case of its own group that runs. Nothing else starts with it.
pub proof fn law_cases_start_in_order(a: Execution, b: Execution, i: usize, k: int)
    requires
        a.well_formed(),
        polled(a, b, Step::Parallel(i)),
        0 <= k < a.phase.len(),
    ensures
        !(a.phase.states@[i as int] is Running || a.phase.states@[i as int] is Finished),
        b.phase.states@[i as int] is Running,
        k < i ==> {
            ||| a.phase.states@[k] is Running
            ||| a.phase.states@[k] is Finished
            ||| exists|j: int|
                0 <= j < a.phase.len() && #[trigger] a.phase.states@[j] is Running
                    && a.phase.groups@[j] == a.phase.groups@[k] && a.phase.groups@[k] is Some
        },
        k != i ==> (b.phase.states@[k] is Running <==> a.phase.states@[k] is Running),
        k != i ==> (b.phase.states@[k] is Finished <==> a.phase.states@[k] is Finished),
{
    let p = a.phase;
    if k < i {
        assert(!p.startable(k));
        if p.states@[k] is Waiting || p.states@[k] is Queued {
            assert(p.states@[k] is Queued ==> k >= p.next);
            assert(p.states@[i as int] is Queued <==> i >= p.next);
            assert(!dispatch::group_free(p.states@, p.groups@, k));
            let g = p.groups@[k]->0;
            assert(dispatch::group_busy(p.states@, p.groups@, g));
        }
    }
    if k != i {
        assert(b.phase.states@[k] == p.states_admitting(p.next_behind(i as int))[k]);
        if p.next <= k {
            assert(p.states@[k] is Queued);
        }
    }
}

/// A run waits only where it has to: where a case of the exclusive phase runs,
/// or where no case of the parallel phase can start, because those that are
/// admitted wait for a case of their own group and the next one does so too or
/// has to wait until another is done.
pub proof fn law_waits_only_where_it_has_to(a: Execution, b: Execution, k: int)
    requires
        a.well_formed(),
        polled(a, b, Step::Wait),
        !a.alone,
        0 <= k < a.phase.len(),
        a.phase.states@[k] is Waiting || k == a.phase.next,
    ensures
        !all_finished(a.phase),
        a.phase.admitted() >= a.phase.cap && k == a.phase.next || exists|j: int|
            0 <= j < a.phase.len() && #[trigger] a.phase.states@[j] is Running && a.phase.groups@[j]
                == a.phase.groups@[k] && a.phase.groups@[k] is Some,
{
    let p = a.phase;
    assert(!p.startable(k));
    if k == p.next {
        assert(p.states@[k] is Queued);
    }
    if !dispatch::group_free(p.states@, p.groups@, k) {
        let g = p.groups@[k]->0;
        assert(dispatch::group_busy(p.states@, p.groups@, g));
    }
}

/// The cases of the exclusive phase run one after the other, in order, and
/// only once every case of the parallel phase is done.
pub proof fn law_exclusive_cases_come_last(a: Execution, b: Execution, k: usize, i: int)
    requires
        polled(a, b, Step::Exclusive(k)),
        0 <= i < a.phase.len(),
    ensures
        a.phase.states@[i] is Finished,
        k == a.started,
        b.started == a.started + 1,
        !a.alone,
        b.alone,
{
}

/// The end of a case that ran alone is that of one case: nothing runs alone
/// any more, one more case is finished, and what came of the others stays.
pub proof fn law_exclusive_case_ends(a: Execution, b: Execution, verdict: Verdict)
    requires
        a.well_formed(),
        exclusive_done(a, b, verdict),
    ensures
        a.alone && !b.alone,
        b.finished() == a.finished() + 1,
        b.verdicts@.len() == a.verdicts@.len() + 1,
        b.verdicts@.last() == verdict,
        forall|i: int| 0 <= i < a.verdicts@.len() ==> #[trigger] b.verdicts@[i] == a.verdicts@[i],
{
}

} // verus!
