//! The plan of a run: which cases run together, which run alone, and with
//! what timeout and how many attempts.

use crate::duration::Duration;
use crate::registry::TestCase;
use crate::text;
use vstd::prelude::*;

verus! {

/// A test case with every scheduling decision resolved.
#[derive(Clone, Copy, Debug, PartialEq)]
pub struct PlannedCase<'a> {
    /// The registered case.
    pub case: &'a TestCase,
    /// The timeout that applies.
    pub timeout: Option<Duration>,
    /// Total number of attempts.
    pub max_attempts: u32,
    /// The group whose members never overlap.
    pub serial_group: Option<&'static str>,
}

/// The timeout that applies to `tc`: none where it declares `no_timeout`, its
/// own where it has one, else the suite's.
pub open spec fn timeout_of(tc: TestCase, suite_default: Option<Duration>) -> Option<Duration> {
    if tc.no_timeout {
        None
    } else if tc.timeout is Some {
        tc.timeout
    } else {
        suite_default
    }
}

/// The number of attempts for `tc`: one more than its retries, or than the
/// override where there is one, and never more than `u32::MAX`.
pub open spec fn attempts_of(tc: TestCase, retries_override: Option<usize>) -> int {
    let retries: int = match retries_override {
        Some(n) => n as int,
        None => tc.retries as int,
    };
    if retries < u32::MAX {
        retries + 1
    } else {
        u32::MAX as int
    }
}

impl<'a> PlannedCase<'a> {
    /// Whether this is `tc` with its scheduling decisions resolved.
    pub open spec fn resolves(
        self,
        tc: &'a TestCase,
        retries_override: Option<usize>,
        suite_default: Option<Duration>,
    ) -> bool {
        &&& self.case == tc
        &&& self.timeout == timeout_of(*tc, suite_default)
        &&& self.max_attempts == attempts_of(*tc, retries_override)
        &&& self.serial_group == tc.serial_group
    }

    /// Resolves the scheduling decisions for `case`.
    pub fn resolve(
        case: &'a TestCase,
        retries_override: Option<usize>,
        suite_default: Option<Duration>,
    ) -> (pc: PlannedCase<'a>)
        ensures
            pc.resolves(case, retries_override, suite_default),
    {
        let retries: u32 = match retries_override {
            Some(n) => if n >= u32::MAX as usize { u32::MAX } else { n as u32 },
            None => case.retries,
        };
        PlannedCase {
            case,
            timeout: effective_timeout(case, suite_default),
            max_attempts: retries.saturating_add(1),
            serial_group: case.serial_group,
        }
    }
}

/// The timeout that applies to `tc`.
pub fn effective_timeout(tc: &TestCase, suite_default: Option<Duration>) -> (r: Option<Duration>)
    ensures
        r == timeout_of(*tc, suite_default),
{
    if tc.no_timeout {
        None
    } else if tc.timeout.is_some() {
        tc.timeout
    } else {
        suite_default
    }
}

/// One phase of a run.
#[derive(Debug, PartialEq)]
pub enum Phase<'a> {
    /// Cases that run together, at most `cap` of them at a time, and no two
    /// of one group at a time.
    Parallel {
        cases: Vec<PlannedCase<'a>>,
        cap: usize,
        /// The distinct groups among `cases`, in order.
        groups: Vec<&'static str>,
    },
    /// Cases that run one at a time, with nothing else running.
    Exclusive { cases: Vec<PlannedCase<'a>> },
}

/// The phases of a run, in order.
#[derive(Debug, PartialEq)]
pub struct Schedule<'a> {
    pub phases: Vec<Phase<'a>>,
}

/// The cases that run alone (`serial`), or the others, in their given order.
pub open spec fn cases_with<'a>(cases: Seq<&'a TestCase>, serial: bool) -> Seq<&'a TestCase> {
    cases.filter(|tc: &'a TestCase| tc.serial == serial)
}

/// Whether `planned` are the cases `cases`, one for one, with their scheduling
/// decisions resolved.
pub open spec fn resolved<'a>(
    planned: Seq<PlannedCase<'a>>,
    cases: Seq<&'a TestCase>,
    retries_override: Option<usize>,
    suite_default: Option<Duration>,
) -> bool {
    &&& planned.len() == cases.len()
    &&& forall|i: int|
        0 <= i < cases.len() ==> (#[trigger] planned[i]).resolves(
            cases[i],
            retries_override,
            suite_default,
        )
}

/// Whether some case is in the group of that name.
pub open spec fn has_group(cases: Seq<PlannedCase>, group: Seq<char>) -> bool {
    exists|i: int|
        0 <= i < cases.len() && (#[trigger] cases[i]).serial_group is Some
            && cases[i].serial_group->0@ == group
}

/// Whether `groups` are the groups of `cases`, each once, in order.
pub open spec fn groups_of(cases: Seq<PlannedCase>, groups: Seq<&'static str>) -> bool {
    &&& text::ascending(text::names(groups))
    &&& forall|g: Seq<char>| #[trigger] text::names(groups).contains(g) <==> has_group(cases, g)
}

impl<'a> Schedule<'a> {
    /// The planned cases of the parallel phase.
    pub open spec fn parallel(self) -> Seq<PlannedCase<'a>> {
        self.phases@[0]->Parallel_cases@
    }

    /// The planned cases of the exclusive phase.
    pub open spec fn exclusive(self) -> Seq<PlannedCase<'a>> {
        self.phases@[1]->Exclusive_cases@
    }

    /// Whether this is the plan of `cases`: first a parallel phase of those
    /// that need not run alone, then an exclusive one of the others, each in
    /// their given order.
    pub open spec fn plans(
        self,
        cases: Seq<&'a TestCase>,
        cap: usize,
        retries_override: Option<usize>,
        suite_default: Option<Duration>,
    ) -> bool {
        &&& self.phases@.len() == 2
        &&& self.phases@[0] is Parallel
        &&& self.phases@[1] is Exclusive
        &&& self.phases@[0]->cap == cap
        &&& resolved(self.parallel(), cases_with(cases, false), retries_override, suite_default)
        &&& resolved(self.exclusive(), cases_with(cases, true), retries_override, suite_default)
        &&& groups_of(self.parallel(), self.phases@[0]->groups@)
    }

    /// Plans `cases`: those that need not run alone first, together and at
    /// most `cap` at a time, then those that run alone.
    pub fn plan(
        cases: Vec<&'a TestCase>,
        cap: usize,
        retries_override: Option<usize>,
        suite_default: Option<Duration>,
    ) -> (schedule: Schedule<'a>)
        ensures
            schedule.plans(cases@, cap, retries_override, suite_default),
    {
        let mut parallel: Vec<PlannedCase<'a>> = Vec::new();
        let mut exclusive: Vec<PlannedCase<'a>> = Vec::new();
        let mut groups: Vec<&'static str> = Vec::new();
        let mut i: usize = 0;
        assert(cases@.take(0) =~= seq![]);
        assert(cases_with(cases@.take(0), false) =~= seq![]) by {
            reveal(Seq::filter);
        }
        assert(cases_with(cases@.take(0), true) =~= seq![]) by {
            reveal(Seq::filter);
        }
        while i < cases.len()
            invariant
                i <= cases@.len(),
                resolved(
                    parallel@,
                    cases_with(cases@.take(i as int), false),
                    retries_override,
                    suite_default,
                ),
                resolved(
                    exclusive@,
                    cases_with(cases@.take(i as int), true),
                    retries_override,
                    suite_default,
                ),
                groups_of(parallel@, groups@),
            decreases cases@.len() - i,
        {
            let tc = cases[i];
            let pc = PlannedCase::resolve(tc, retries_override, suite_default);
            proof {
                assert(cases@.take(i + 1) =~= cases@.take(i as int).push(tc));
                lemma_cases_with_push(cases@.take(i as int), tc, false);
                lemma_cases_with_push(cases@.take(i as int), tc, true);
            }
            if tc.serial {
                exclusive.push(pc);
            } else {
                let ghost was = parallel@;
                parallel.push(pc);
                proof {
                    assert forall|g: Seq<char>| has_group(parallel@, g) <==> (has_group(was, g)
                        || (pc.serial_group is Some && pc.serial_group->0@ == g)) by {
                        if has_group(was, g) {
                            let k = choose|k: int|
                                0 <= k < was.len() && (#[trigger] was[k]).serial_group is Some
                                    && was[k].serial_group->0@ == g;
                            assert(parallel@[k] == was[k]);
                        }
                        if has_group(parallel@, g) {
                            let k = choose|k: int|
                                0 <= k < parallel@.len() && (
                                #[trigger] parallel@[k]).serial_group is Some
                                    && parallel@[k].serial_group->0@ == g;
                            if k < was.len() {
                                assert(was[k] == parallel@[k]);
                            }
                        }
                        assert(parallel@[was.len() as int] == pc);
                    }
                }
                if let Some(g) = pc.serial_group {
                    text::insert_name(&mut groups, g);
                }
            }
            i += 1;
        }
        assert(cases@.take(i as int) =~= cases@);
        Schedule {
            phases: vec![
                Phase::Parallel { cases: parallel, cap, groups },
                Phase::Exclusive { cases: exclusive },
            ],
        }
    }
}

proof fn lemma_cases_with_push(cases: Seq<&TestCase>, tc: &TestCase, serial: bool)
    ensures
        cases_with(cases.push(tc), serial) == if tc.serial == serial {
            cases_with(cases, serial).push(tc)
        } else {
            cases_with(cases, serial)
        },
{
    reveal(Seq::filter);
    assert(cases.push(tc).drop_last() =~= cases);
}

// ── laws ────────────────────────────────────────────────────────────────────

/// The planned cases.
pub open spec fn cases_in<'a>(planned: Seq<PlannedCase<'a>>) -> Seq<&'a TestCase> {
    planned.map_values(|pc: PlannedCase<'a>| pc.case)
}

proof fn lemma_cases_in<'a>(
    planned: Seq<PlannedCase<'a>>,
    cases: Seq<&'a TestCase>,
    retries_override: Option<usize>,
    suite_default: Option<Duration>,
)
    requires
        resolved(planned, cases, retries_override, suite_default),
    ensures
        cases_in(planned) == cases,
{
    assert forall|i: int| 0 <= i < cases.len() implies #[trigger] cases_in(planned)[i]
        == cases[i] by {
        assert(planned[i].resolves(cases[i], retries_override, suite_default));
    }
    assert(cases_in(planned) =~= cases);
}

proof fn lemma_split<'a>(cases: Seq<&'a TestCase>)
    ensures
        cases_with(cases, false).to_multiset().add(cases_with(cases, true).to_multiset())
            == cases.to_multiset(),
    decreases cases.len(),
{
    broadcast use vstd::seq_lib::group_to_multiset_ensures;

    if cases.len() == 0 {
        reveal(Seq::filter);
        assert(cases_with(cases, false) =~= cases);
        assert(cases_with(cases, true) =~= cases);
        assert(cases.to_multiset().len() == 0);
        assert(cases.to_multiset().add(cases.to_multiset()) =~= cases.to_multiset());
    } else {
        let head = cases.drop_last();
        let x = cases.last();
        lemma_split(head);
        assert(cases =~= head.push(x));
        lemma_cases_with_push(head, x, false);
        lemma_cases_with_push(head, x, true);
        assert(cases_with(cases, false).to_multiset().add(cases_with(cases, true).to_multiset())
            =~= cases.to_multiset());
    }
}

/// A plan drops no case, adds none and repeats none.
pub proof fn law_every_case_is_planned_once<'a>(
    schedule: Schedule<'a>,
    cases: Seq<&'a TestCase>,
    cap: usize,
    retries_override: Option<usize>,
    suite_default: Option<Duration>,
)
    requires
        schedule.plans(cases, cap, retries_override, suite_default),
    ensures
        cases_in(schedule.parallel()).to_multiset().add(
            cases_in(schedule.exclusive()).to_multiset(),
        ) == cases.to_multiset(),
{
    lemma_cases_in(
        schedule.parallel(),
        cases_with(cases, false),
        retries_override,
        suite_default,
    );
    lemma_cases_in(
        schedule.exclusive(),
        cases_with(cases, true),
        retries_override,
        suite_default,
    );
    lemma_split(cases);
}

/// Every case attempts at least once, and a case with `no_timeout` has none.
pub proof fn law_plan_decisions<'a>(
    pc: PlannedCase<'a>,
    tc: &'a TestCase,
    retries_override: Option<usize>,
    suite_default: Option<Duration>,
)
    requires
        pc.resolves(tc, retries_override, suite_default),
    ensures
        pc.max_attempts >= 1,
        tc.no_timeout ==> pc.timeout is None,
        !tc.no_timeout && tc.timeout is Some ==> pc.timeout == tc.timeout,
{
}

/// Where an override is given, the number of attempts does not depend on the
/// retries that a case declares: it is the same for any two cases, and one
/// more than the override. Without one it is one more than what the case
/// declares. In neither case does it go beyond what can be counted.
pub proof fn law_override_replaces_declared_retries<'a>(
    a: PlannedCase<'a>,
    b: PlannedCase<'a>,
    tc: &'a TestCase,
    other: &'a TestCase,
    retries_override: Option<usize>,
    suite_default: Option<Duration>,
)
    requires
        a.resolves(tc, retries_override, suite_default),
        b.resolves(other, retries_override, suite_default),
    ensures
        retries_override is Some ==> a.max_attempts == b.max_attempts,
        retries_override matches Some(n) ==> {
            &&& n < u32::MAX ==> a.max_attempts == n + 1
            &&& n >= u32::MAX ==> a.max_attempts == u32::MAX
        },
        retries_override is None && tc.retries < u32::MAX ==> a.max_attempts == tc.retries + 1,
        retries_override is None && tc.retries == u32::MAX ==> a.max_attempts == u32::MAX,
{
}

/// The timeout of the suite applies to a case exactly where the case declares
/// neither a timeout of its own nor that it has none; the timeout of another
/// case has no bearing on it.
pub proof fn law_suite_timeout_is_a_default<'a>(
    a: PlannedCase<'a>,
    b: PlannedCase<'a>,
    tc: &'a TestCase,
    retries_override: Option<usize>,
    first: Option<Duration>,
    second: Option<Duration>,
)
    requires
        a.resolves(tc, retries_override, first),
        b.resolves(tc, retries_override, second),
    ensures
        tc.no_timeout || tc.timeout is Some ==> a.timeout == b.timeout,
        !tc.no_timeout && tc.timeout is None ==> a.timeout == first && b.timeout == second,
        tc.no_timeout ==> a.timeout is None,
        a.case == tc,
        a.serial_group == tc.serial_group,
{
}

/// What runs in the exclusive phase is what declares that it runs alone, and
/// in the parallel phase what does not, each phase in the order in which the
/// cases are given; the limit of the parallel phase is the one that is given.
pub proof fn law_cases_run_where_they_belong<'a>(
    schedule: Schedule<'a>,
    cases: Seq<&'a TestCase>,
    cap: usize,
    retries_override: Option<usize>,
    suite_default: Option<Duration>,
)
    requires
        schedule.plans(cases, cap, retries_override, suite_default),
    ensures
        forall|i: int|
            0 <= i < schedule.parallel().len() ==> !(#[trigger] schedule.parallel()[i]).case.serial,
        forall|i: int|
            0 <= i < schedule.exclusive().len() ==> (
            #[trigger] schedule.exclusive()[i]).case.serial,
        in_given_order(cases_in(schedule.parallel()), cases),
        in_given_order(cases_in(schedule.exclusive()), cases),
        schedule.phases@[0]->cap == cap,
{
    lemma_cases_in(schedule.parallel(), cases_with(cases, false), retries_override, suite_default);
    lemma_cases_in(schedule.exclusive(), cases_with(cases, true), retries_override, suite_default);
    lemma_cases_with(cases, false);
    lemma_cases_with(cases, true);
    assert forall|i: int| 0 <= i < schedule.parallel().len() implies !(
    #[trigger] schedule.parallel()[i]).case.serial by {
        assert(cases_in(schedule.parallel())[i] == schedule.parallel()[i].case);
    }
    assert forall|i: int| 0 <= i < schedule.exclusive().len() implies (
    #[trigger] schedule.exclusive()[i]).case.serial by {
        assert(cases_in(schedule.exclusive())[i] == schedule.exclusive()[i].case);
    }
}

/// Whether `some` are among `all`, in the order in which they stand there.
pub open spec fn in_given_order<'a>(some: Seq<&'a TestCase>, all: Seq<&'a TestCase>) -> bool
    decreases all.len(),
{
    if some.len() == 0 {
        true
    } else if all.len() == 0 {
        false
    } else {
        ||| some.last() == all.last() && in_given_order(some.drop_last(), all.drop_last())
        ||| in_given_order(some, all.drop_last())
    }
}

proof fn lemma_cases_with<'a>(cases: Seq<&'a TestCase>, serial: bool)
    ensures
        in_given_order(cases_with(cases, serial), cases),
        forall|i: int|
            0 <= i < cases_with(cases, serial).len() ==> (#[trigger] cases_with(
                cases,
                serial,
            )[i]).serial == serial,
    decreases cases.len(),
{
    if cases.len() == 0 {
        reveal(Seq::filter);
        assert(cases_with(cases, serial).len() == 0);
    } else {
        let head = cases.drop_last();
        lemma_cases_with(head, serial);
        assert(cases =~= head.push(cases.last()));
        lemma_cases_with_push(head, cases.last(), serial);
        assert(cases_with(head, serial).push(cases.last()).drop_last() =~= cases_with(
            head,
            serial,
        ));
    }
}

/// Two cases that share a group stand in it under one name, and a group of
/// the parallel phase is that of one of its cases: no two groups of a phase
/// have the same name.
pub proof fn law_groups_are_listed_once<'a>(
    schedule: Schedule<'a>,
    cases: Seq<&'a TestCase>,
    cap: usize,
    retries_override: Option<usize>,
    suite_default: Option<Duration>,
    i: int,
    a: int,
    b: int,
)
    requires
        schedule.plans(cases, cap, retries_override, suite_default),
        0 <= i < schedule.parallel().len(),
        0 <= a < b < schedule.phases@[0]->groups@.len(),
    ensures
        schedule.parallel()[i].serial_group matches Some(g) ==> text::names(
            schedule.phases@[0]->groups@,
        ).contains(g@),
        schedule.phases@[0]->groups@[a]@ != schedule.phases@[0]->groups@[b]@,
        exists|k: int|
            0 <= k < schedule.parallel().len() && (
            #[trigger] schedule.parallel()[k]).serial_group is Some
                && schedule.parallel()[k].serial_group->0@ == schedule.phases@[0]->groups@[a]@,
{
    let groups = schedule.phases@[0]->groups@;
    let names = text::names(groups);
    if let Some(g) = schedule.parallel()[i].serial_group {
        assert(has_group(schedule.parallel(), g@));
        assert(names.contains(g@));
    }
    assert(names[a] == groups[a]@ && names[b] == groups[b]@);
    text::lemma_precedes_total(names[a], names[b]);
    assert(names.contains(names[a]));
    assert(has_group(schedule.parallel(), names[a]));
}

} // verus!
