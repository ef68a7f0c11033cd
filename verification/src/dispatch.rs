//! The order in which the cases of a parallel phase start: at most so many at
//! a time, and no two of one group at a time.
//!
//! A case is first admitted, in the given order and as long as fewer cases
//! than the cap are admitted, and then waits for its group, if it has one. An
//! admitted case counts against the cap until it has finished, whether it
//! waits or runs.

use crate::schedule;
use crate::schedule::PlannedCase;
use crate::text;
use vstd::prelude::*;

verus! {

/// Where a case stands.
#[derive(Clone, Copy, Debug, PartialEq, Eq, Structural)]
pub enum CaseState {
    /// Not admitted yet.
    Queued,
    /// Admitted, and waiting for its group.
    Waiting,
    /// Running.
    Running,
    /// Done.
    Finished,
}

/// The cases of a parallel phase, and where each of them stands.
pub struct ParallelPhase {
    /// The number of cases that may be admitted at a time.
    pub cap: usize,
    /// The group of each case, by its position in the list of groups.
    pub groups: Vec<Option<usize>>,
    /// Where each case stands.
    pub states: Vec<CaseState>,
    /// The position of the first case that is not admitted yet.
    pub next: usize,
}

/// Whether a case is admitted and not done.
pub open spec fn is_admitted(state: CaseState) -> bool {
    state is Waiting || state is Running
}

/// The number of cases among the first `n` that are admitted and not done.
pub open spec fn admitted_among(states: Seq<CaseState>, n: int) -> int
    decreases n,
{
    if n <= 0 {
        0
    } else {
        admitted_among(states, n - 1) + if is_admitted(states[n - 1]) {
            1int
        } else {
            0
        }
    }
}

/// The number of cases among the first `n` that run.
pub open spec fn running_among(states: Seq<CaseState>, n: int) -> int
    decreases n,
{
    if n <= 0 {
        0
    } else {
        running_among(states, n - 1) + if states[n - 1] is Running {
            1int
        } else {
            0
        }
    }
}

/// The number of cases among the first `n` that are done.
pub open spec fn finished_among(states: Seq<CaseState>, n: int) -> int
    decreases n,
{
    if n <= 0 {
        0
    } else {
        finished_among(states, n - 1) + if states[n - 1] is Finished {
            1int
        } else {
            0
        }
    }
}

/// Whether a case of the group runs.
pub open spec fn group_busy(states: Seq<CaseState>, groups: Seq<Option<usize>>, g: usize) -> bool {
    exists|j: int| 0 <= j < states.len() && #[trigger] states[j] is Running && groups[j] == Some(g)
}

/// Whether nothing keeps an admitted case `i` from running.
pub open spec fn group_free(states: Seq<CaseState>, groups: Seq<Option<usize>>, i: int) -> bool {
    groups[i] matches Some(g) ==> !group_busy(states, groups, g)
}

proof fn lemma_running_admitted(states: Seq<CaseState>, n: int)
    requires
        0 <= n <= states.len(),
    ensures
        0 <= running_among(states, n) <= admitted_among(states, n) <= n,
    decreases n,
{
    if n > 0 {
        lemma_running_admitted(states, n - 1);
    }
}

proof fn lemma_admitted_update(states: Seq<CaseState>, i: int, s: CaseState, n: int)
    requires
        0 <= i < states.len(),
        0 <= n <= states.len(),
    ensures
        admitted_among(states.update(i, s), n) == admitted_among(states, n) + if i < n {
            (if is_admitted(s) {
                1int
            } else {
                0
            }) - (if is_admitted(states[i]) {
                1int
            } else {
                0
            })
        } else {
            0
        },
    decreases n,
{
    if n > 0 {
        lemma_admitted_update(states, i, s, n - 1);
    }
}

impl ParallelPhase {
    /// The number of cases.
    pub open spec fn len(self) -> int {
        self.states@.len() as int
    }

    /// The number of cases that are admitted and not done.
    pub open spec fn admitted(self) -> int {
        admitted_among(self.states@, self.len())
    }

    /// The number of cases that run.
    pub open spec fn running(self) -> int {
        running_among(self.states@, self.len())
    }

    /// What holds of every phase: cases are admitted in order and no more of
    /// them than the cap, and no two running cases have the same group.
    pub open spec fn well_formed(self) -> bool {
        &&& self.groups@.len() == self.states@.len()
        &&& self.next <= self.len()
        &&& forall|i: int|
            0 <= i < self.len() ==> (#[trigger] self.states@[i] is Queued <==> i >= self.next)
        &&& self.admitted() <= self.cap
        &&& forall|i: int, j: int|
            0 <= i < j < self.len() && #[trigger] self.states@[i] is Running
                && #[trigger] self.states@[j] is Running && self.groups@[i] is Some
                ==> self.groups@[i] != self.groups@[j]
    }

    /// Whether case `i` can start: its group is free, and it is admitted, or
    /// it and every case queued before it can be admitted.
    pub open spec fn startable(self, i: int) -> bool {
        &&& 0 <= i < self.len()
        &&& group_free(self.states@, self.groups@, i)
        &&& (self.states@[i] is Waiting || (self.states@[i] is Queued && self.admitted() + (i
            - self.next) < self.cap))
    }

    /// Where each case stands once the cases up to `next` are admitted.
    pub open spec fn states_admitting(self, next: int) -> Seq<CaseState> {
        Seq::new(
            self.states@.len(),
            |k: int|
                if self.next <= k < next {
                    CaseState::Waiting
                } else {
                    self.states@[k]
                },
        )
    }

    /// Whether this phase is `before` with the cases up to `next` admitted.
    pub open spec fn admits(self, before: ParallelPhase, next: int) -> bool {
        &&& self.cap == before.cap
        &&& self.groups@ == before.groups@
        &&& self.next == next
        &&& self.states@ == before.states_admitting(next)
    }

    /// The position behind the last case that is admitted once case `i` is.
    pub open spec fn next_behind(self, i: int) -> int {
        if i < self.next {
            self.next as int
        } else {
            i + 1
        }
    }

    /// The position behind the last case that the cap allows to be admitted.
    pub open spec fn next_at_cap(self) -> int {
        if self.next + self.cap - self.admitted() < self.len() {
            self.next + self.cap - self.admitted()
        } else {
            self.len()
        }
    }

    /// The phase of `cases`, with nothing started.
    pub fn new(cases: &Vec<PlannedCase>, cap: usize, groups: &Vec<&'static str>) -> (phase: Self)
        requires
            groups_listed(cases@, groups@),
        ensures
            phase.well_formed(),
            phase.cap == cap,
            phase.len() == cases@.len(),
            forall|i: int| 0 <= i < phase.len() ==> #[trigger] phase.states@[i] is Queued,
            forall|i: int|
                0 <= i < phase.len() ==> match (#[trigger] phase.groups@[i]) {
                    Some(g) => cases@[i].serial_group is Some && g < groups@.len() && groups@[g as int]@
                        == cases@[i].serial_group->0@,
                    None => cases@[i].serial_group is None,
                },
            forall|i: int, j: int|
                0 <= i < phase.len() && 0 <= j < phase.len() && cases@[i].serial_group is Some
                    && cases@[j].serial_group is Some ==> (#[trigger] phase.groups@[i]
                    == #[trigger] phase.groups@[j] <==> cases@[i].serial_group->0@
                    == cases@[j].serial_group->0@),
    {
        let mut positions: Vec<Option<usize>> = Vec::new();
        let mut states: Vec<CaseState> = Vec::new();
        let mut i: usize = 0;
        while i < cases.len()
            invariant
                i <= cases@.len(),
                groups_listed(cases@, groups@),
                positions@.len() == i,
                states@.len() == i,
                forall|k: int| 0 <= k < i ==> #[trigger] states@[k] is Queued,
                admitted_among(states@, i as int) == 0,
                forall|k: int|
                    0 <= k < i ==> match (#[trigger] positions@[k]) {
                        Some(g) => cases@[k].serial_group is Some && is_first(
                            groups@,
                            g as int,
                            cases@[k].serial_group->0@,
                        ),
                        None => cases@[k].serial_group is None,
                    },
            decreases cases@.len() - i,
        {
            let position = match cases[i].serial_group {
                Some(name) => {
                    proof {
                        assert(cases@[i as int].serial_group->0@ == name@);
                    }
                    Some(position_of(groups, name))
                },
                None => None,
            };
            let ghost was = states@;
            positions.push(position);
            states.push(CaseState::Queued);
            proof {
                lemma_admitted_prefix(was, states@, i as int);
            }
            i += 1;
        }
        let phase = ParallelPhase { cap, groups: positions, states, next: 0 };
        proof {
            assert forall|a: int, b: int|
                0 <= a < phase.len() && 0 <= b < phase.len() && cases@[a].serial_group is Some
                    && cases@[b].serial_group is Some implies (#[trigger] phase.groups@[a]
                == #[trigger] phase.groups@[b] <==> cases@[a].serial_group->0@
                == cases@[b].serial_group->0@) by {
                let x = phase.groups@[a]->0;
                let y = phase.groups@[b]->0;
                if cases@[a].serial_group->0@ == cases@[b].serial_group->0@ {
                    if x < y {
                        assert(groups@[x as int]@ != cases@[b].serial_group->0@);
                    } else if y < x {
                        assert(groups@[y as int]@ != cases@[a].serial_group->0@);
                    }
                }
            }
        }
        phase
    }

    /// Starts the first case that can start, and admits every case before it;
    /// where none can, admits as many as the cap allows.
    pub fn poll(&mut self) -> (r: Option<usize>)
        requires
            old(self).well_formed(),
        ensures
            final(self).well_formed(),
            match r {
                Some(i) => {
                    &&& old(self).startable(i as int)
                    &&& forall|k: int| 0 <= k < i ==> !(#[trigger] old(self).startable(k))
                    &&& final(self).cap == old(self).cap
                    &&& final(self).groups@ == old(self).groups@
                    &&& final(self).next == old(self).next_behind(i as int)
                    &&& final(self).states@ == old(self).states_admitting(
                        old(self).next_behind(i as int),
                    ).update(i as int, CaseState::Running)
                },
                None => {
                    &&& forall|k: int| !(#[trigger] old(self).startable(k))
                    &&& final(self).admits(*old(self), old(self).next_at_cap())
                },
            },
    {
        let ghost before = *self;
        let n: usize = self.states.len();
        let mut room: usize = self.cap - self.count_admitted();
        proof {
            assert(self.states@ =~= before.states_admitting(before.next as int));
        }
        let mut i: usize = 0;
        while i < n
            invariant
                before == *old(self),
                n == before.states@.len(),
                i <= n,
                before.well_formed(),
                self.well_formed(),
                self.admits(before, self.next as int),
                self.next == if i < before.next {
                    before.next
                } else {
                    i
                },
                room + self.admitted() == before.cap,
                room + (self.next - before.next) + before.admitted() == before.cap,
                forall|k: int| 0 <= k < i ==> !(#[trigger] before.startable(k)),
            decreases n - i,
        {
            let ghost prior = *self;
            assert(self.states@[i as int] == before.states@[i as int]);
            let state = self.states[i];
            if state == CaseState::Queued {
                assert(i >= before.next);
                assert(self.next == i);
                if room == 0 {
                    proof {
                        assert forall|k: int| !(#[trigger] before.startable(k)) by {
                            if k >= i && before.startable(k) {
                                assert(before.states@[k] is Queued);
                            }
                        }
                    }
                    return None;
                }
                self.states.set(i, CaseState::Waiting);
                self.next = i + 1;
                room -= 1;
                proof {
                    lemma_admitted_update(
                        prior.states@,
                        i as int,
                        CaseState::Waiting,
                        prior.len(),
                    );
                    assert(self.states@ =~= before.states_admitting(self.next as int));
                }
            }
            if state == CaseState::Queued || state == CaseState::Waiting {
                proof {
                    lemma_same_busy(before, *self);
                }
                if self.is_free(i) {
                    let ghost mid = *self;
                    self.states.set(i, CaseState::Running);
                    proof {
                        lemma_admitted_update(
                            mid.states@,
                            i as int,
                            CaseState::Running,
                            mid.len(),
                        );
                        assert(before.startable(i as int));
                        assert(mid.admits(before, before.next_behind(i as int)));
                        assert forall|a: int, b: int|
                            0 <= a < b < self.len() && #[trigger] self.states@[a] is Running
                                && #[trigger] self.states@[b] is Running
                                && self.groups@[a] is Some implies self.groups@[a]
                            != self.groups@[b] by {
                            if a == i {
                                assert(mid.states@[b] is Running);
                            } else if b == i {
                                assert(mid.states@[a] is Running);
                            } else {
                                assert(mid.states@[a] is Running);
                                assert(mid.states@[b] is Running);
                            }
                        }
                    }
                    return Some(i);
                }
            }
            i += 1;
        }
        proof {
            assert forall|k: int| !(#[trigger] before.startable(k)) by {}
        }
        None
    }

    /// Marks case `i` as done.
    pub fn finish(&mut self, i: usize)
        requires
            old(self).well_formed(),
            i < old(self).len(),
            old(self).states@[i as int] is Running,
        ensures
            final(self).well_formed(),
            final(self).cap == old(self).cap,
            final(self).groups@ == old(self).groups@,
            final(self).next == old(self).next,
            final(self).states@ == old(self).states@.update(i as int, CaseState::Finished),
    {
        let ghost before = *self;
        self.states.set(i, CaseState::Finished);
        proof {
            lemma_admitted_update(before.states@, i as int, CaseState::Finished, before.len());
            assert forall|a: int, b: int|
                0 <= a < b < self.len() && #[trigger] self.states@[a] is Running
                    && #[trigger] self.states@[b] is Running && self.groups@[a] is Some implies self.groups@[a]
                != self.groups@[b] by {
                assert(before.states@[a] is Running);
                assert(before.states@[b] is Running);
            }
        }
    }

    fn count_admitted(&self) -> (c: usize)
        requires
            self.admitted() <= self.cap,
        ensures
            c == self.admitted(),
    {
        let mut c: usize = 0;
        let mut i: usize = 0;
        while i < self.states.len()
            invariant
                i <= self.states@.len(),
                c <= i,
                c == admitted_among(self.states@, i as int),
            decreases self.states@.len() - i,
        {
            if self.states[i] == CaseState::Waiting || self.states[i] == CaseState::Running {
                c += 1;
            }
            i += 1;
        }
        c
    }

    fn is_free(&self, i: usize) -> (r: bool)
        requires
            self.groups@.len() == self.states@.len(),
            i < self.len(),
        ensures
            r == group_free(self.states@, self.groups@, i as int),
    {
        let group = match self.groups[i] {
            Some(g) => g,
            None => return true,
        };
        let mut j: usize = 0;
        while j < self.states.len()
            invariant
                j <= self.states@.len(),
                self.groups@.len() == self.states@.len(),
                i < self.len(),
                self.groups@[i as int] == Some(group),
                forall|k: int|
                    0 <= k < j ==> !(#[trigger] self.states@[k] is Running && self.groups@[k]
                        == Some(group)),
            decreases self.states@.len() - j,
        {
            if self.states[j] == CaseState::Running {
                if let Some(g) = self.groups[j] {
                    if g == group {
                        assert(self.states@[j as int] is Running);
                        return false;
                    }
                }
            }
            j += 1;
        }
        true
    }
}

proof fn lemma_admitted_prefix(a: Seq<CaseState>, b: Seq<CaseState>, n: int)
    requires
        0 <= n < b.len(),
        a.len() == n,
        forall|k: int| 0 <= k < n ==> a[k] == b[k],
        b[n] is Queued,
        admitted_among(a, n) == 0,
    ensures
        admitted_among(b, n + 1) == 0,
{
    lemma_admitted_same(a, b, n);
}

proof fn lemma_admitted_same(a: Seq<CaseState>, b: Seq<CaseState>, n: int)
    requires
        0 <= n <= a.len(),
        n <= b.len(),
        forall|k: int| 0 <= k < n ==> a[k] == b[k],
    ensures
        admitted_among(a, n) == admitted_among(b, n),
    decreases n,
{
    if n > 0 {
        lemma_admitted_same(a, b, n - 1);
    }
}

proof fn lemma_same_busy(before: ParallelPhase, now: ParallelPhase)
    requires
        before.well_formed(),
        now.admits(before, now.next as int),
        before.next <= now.next <= before.len(),
    ensures
        forall|i: int|
            0 <= i < before.len() ==> #[trigger] group_free(before.states@, before.groups@, i)
                == group_free(now.states@, now.groups@, i),
{
    assert forall|j: int| 0 <= j < before.len() implies (before.states@[j] is Running
        <==> #[trigger] now.states@[j] is Running) by {
        if before.next <= j {
            assert(before.states@[j] is Queued);
        }
    }
    assert forall|g: usize|
        group_busy(before.states@, before.groups@, g) <==> #[trigger] group_busy(
            now.states@,
            now.groups@,
            g,
        ) by {
        if group_busy(before.states@, before.groups@, g) {
            let j = choose|j: int|
                0 <= j < before.states@.len() && #[trigger] before.states@[j] is Running
                    && before.groups@[j] == Some(g);
            assert(now.states@[j] is Running);
        }
        if group_busy(now.states@, now.groups@, g) {
            let j = choose|j: int|
                0 <= j < now.states@.len() && #[trigger] now.states@[j] is Running && now.groups@[j]
                    == Some(g);
            assert(before.states@[j] is Running);
        }
    }
}

/// Whether every group that a case names is in the list.
pub open spec fn groups_listed(cases: Seq<PlannedCase>, groups: Seq<&'static str>) -> bool {
    forall|i: int|
        0 <= i < cases.len() && (#[trigger] cases[i]).serial_group is Some ==> text::names(
            groups,
        ).contains(cases[i].serial_group->0@)
}

/// Whether `g` is the first position at which `name` stands in the list.
pub open spec fn is_first(groups: Seq<&'static str>, g: int, name: Seq<char>) -> bool {
    &&& 0 <= g < groups.len()
    &&& groups[g]@ == name
    &&& forall|k: int| 0 <= k < g ==> (#[trigger] groups[k])@ != name
}

fn position_of(groups: &Vec<&'static str>, name: &str) -> (g: usize)
    requires
        text::names(groups@).contains(name@),
    ensures
        is_first(groups@, g as int, name@),
{
    let ghost at = text::names(groups@).index_of(name@);
    let n: usize = groups.len();
    let mut g: usize = 0;
    assert(groups@[at]@ == name@);
    while !text::same(groups[g], name)
        invariant
            0 <= at < groups@.len(),
            n == groups@.len(),
            g <= at,
            groups@[at]@ == name@,
            forall|k: int| 0 <= k < g ==> (#[trigger] groups@[k])@ != name@,
        decreases at - g,
    {
        g += 1;
    }
    g
}

// ── laws ────────────────────────────────────────────────────────────────────

/// At most as many cases run at a time as the cap allows.
pub proof fn law_cap(phase: ParallelPhase)
    requires
        phase.well_formed(),
    ensures
        phase.running() <= phase.cap,
{
    lemma_running_admitted(phase.states@, phase.len());
}

/// No two cases of one group run at the same time.
pub proof fn law_group_exclusive(phase: ParallelPhase, i: int, j: int)
    requires
        phase.well_formed(),
        0 <= i < phase.len(),
        0 <= j < phase.len(),
        i != j,
        phase.states@[i] is Running,
        phase.states@[j] is Running,
        phase.groups@[i] is Some,
    ensures
        phase.groups@[i] != phase.groups@[j],
{
    if j < i {
        if phase.groups@[j] is Some {
            assert(phase.groups@[j] != phase.groups@[i]);
        }
    }
}

proof fn lemma_none_admitted(states: Seq<CaseState>, n: int)
    requires
        0 <= n <= states.len(),
        forall|k: int| 0 <= k < n ==> !is_admitted(#[trigger] states[k]),
    ensures
        admitted_among(states, n) == 0,
    decreases n,
{
    if n > 0 {
        lemma_none_admitted(states, n - 1);
    }
}

/// With a cap of at least one, a phase in which nothing runs and no case can
/// start is one in which every case is done.
pub proof fn law_progress(phase: ParallelPhase)
    requires
        phase.well_formed(),
        phase.cap >= 1,
        forall|k: int| !(#[trigger] phase.startable(k)),
        forall|k: int| 0 <= k < phase.len() ==> !(#[trigger] phase.states@[k] is Running),
    ensures
        forall|k: int| 0 <= k < phase.len() ==> #[trigger] phase.states@[k] is Finished,
{
    assert forall|k: int| 0 <= k < phase.len() implies !(#[trigger] phase.states@[k] is Waiting) by {
        if phase.states@[k] is Waiting {
            assert(!phase.startable(k));
        }
    }
    lemma_none_admitted(phase.states@, phase.len());
    assert forall|k: int| 0 <= k < phase.len() implies #[trigger] phase.states@[k] is Finished by {
        if phase.next < phase.len() {
            assert(!phase.startable(phase.next as int));
            assert(phase.states@[phase.next as int] is Queued);
        }
    }
}

/// The list of groups that a plan comes with serves its cases.
pub proof fn law_planned_groups_are_listed(cases: Seq<PlannedCase>, groups: Seq<&'static str>)
    requires
        schedule::groups_of(cases, groups),
    ensures
        groups_listed(cases, groups),
{
    assert forall|i: int|
        0 <= i < cases.len() && (#[trigger] cases[i]).serial_group is Some implies text::names(
        groups,
    ).contains(cases[i].serial_group->0@) by {
        assert(schedule::has_group(cases, cases[i].serial_group->0@));
    }
}

/// A case does not start while another one of its group runs; one that was
/// admitted and is in no group, or in one of which none runs, can.
pub proof fn law_group_waits(phase: ParallelPhase, i: int)
    requires
        phase.well_formed(),
        0 <= i < phase.len(),
    ensures
        (exists|j: int|
            0 <= j < phase.len() && #[trigger] phase.states@[j] is Running && phase.groups@[i]
                is Some && phase.groups@[j] == phase.groups@[i]) ==> !phase.startable(i),
        phase.states@[i] is Waiting && (forall|j: int|
            0 <= j < phase.len() && #[trigger] phase.states@[j] is Running ==> phase.groups@[j]
                is None || phase.groups@[j] != phase.groups@[i]) ==> phase.startable(i),
        phase.startable(i) ==> phase.states@[i] is Waiting || phase.states@[i] is Queued,
{
}

} // verus!
