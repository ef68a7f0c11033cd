//! The external dependencies that a suite declares, as a list of probes.

use crate::duration;
use crate::duration::Duration;
use crate::text;
use vstd::prelude::*;
use vstd::string::*;

verus! {

/// The timeout of a probe, in seconds, unless it has another one.
pub const DEFAULT_PROBE_TIMEOUT_SECS: u64 = 30;

/// The timeout of a probe, unless it has another one.
pub fn default_probe_timeout() -> (d: Duration)
    ensures
        d@ == DEFAULT_PROBE_TIMEOUT_SECS * duration::NANOS_PER_SEC,
{
    Duration::from_secs(DEFAULT_PROBE_TIMEOUT_SECS)
}

/// The status that an HTTP probe accepts.
#[derive(Clone, Copy, Debug, PartialEq, Eq, Structural)]
pub enum ExpectStatus {
    /// That one.
    Exact(u16),
    /// Those from the first to the last, both included.
    Range { first: u16, last: u16 },
}

impl ExpectStatus {
    /// Whether `status` is accepted.
    pub open spec fn accepts(self, status: u16) -> bool {
        match self {
            ExpectStatus::Exact(s) => status == s,
            ExpectStatus::Range { first, last } => first <= status <= last,
        }
    }

    /// The accepted status, as text.
    pub open spec fn text(self) -> Seq<char> {
        match self {
            ExpectStatus::Exact(s) => text::decimal(s as nat),
            ExpectStatus::Range { first, last } => text::decimal(first as nat) + "..="@
                + text::decimal(last as nat),
        }
    }

    /// Whether `status` is accepted.
    pub fn matches(&self, status: u16) -> (r: bool)
        ensures
            r == self.accepts(status),
    {
        match self {
            ExpectStatus::Exact(s) => status == *s,
            ExpectStatus::Range { first, last } => *first <= status && status <= *last,
        }
    }

    /// The accepted status, as text.
    pub fn render(&self) -> (s: String)
        ensures
            s@ == self.text(),
    {
        match self {
            ExpectStatus::Exact(s) => text::number(*s as u128),
            ExpectStatus::Range { first, last } => {
                let mut s = text::number(*first as u128);
                s.append("..=");
                s.append(&text::number(*last as u128));
                s
            },
        }
    }
}

/// What a probe checks.
#[derive(Debug)]
#[non_exhaustive]
pub enum ProbeKind {
    /// That a TCP connection to the target, `host:port`, can be made.
    Tcp { target: String },
    /// That the environment variable is set: to that value, or to any but the
    /// empty one.
    Env { var: String, expected: Option<String> },
    /// That the host resolves to an address.
    Dns { host: String },
    /// That a request for the URL is answered with an accepted status.
    Http { url: String, expect: ExpectStatus },
    /// That the command succeeds on the remote host.
    Ssh { dest: String, command: String },
    /// That a check of the suite's own succeeds, found by its handle.
    Custom { handle: usize },
}

pub enum ProbeKindV {
    Tcp { target: Seq<char> },
    Env { var: Seq<char>, expected: Option<Seq<char>> },
    Dns { host: Seq<char> },
    Http { url: Seq<char>, expect: ExpectStatus },
    Ssh { dest: Seq<char>, command: Seq<char> },
    Custom { handle: usize },
}

impl DeepView for ProbeKind {
    type V = ProbeKindV;

    open spec fn deep_view(&self) -> ProbeKindV {
        match self {
            ProbeKind::Tcp { target } => ProbeKindV::Tcp { target: target@ },
            ProbeKind::Env { var, expected } => ProbeKindV::Env {
                var: var@,
                expected: expected.deep_view(),
            },
            ProbeKind::Dns { host } => ProbeKindV::Dns { host: host@ },
            ProbeKind::Http { url, expect } => ProbeKindV::Http { url: url@, expect: *expect },
            ProbeKind::Ssh { dest, command } => ProbeKindV::Ssh {
                dest: dest@,
                command: command@,
            },
            ProbeKind::Custom { handle } => ProbeKindV::Custom { handle: *handle },
        }
    }
}

/// A declared check.
#[derive(Debug)]
#[non_exhaustive]
pub struct Probe {
    /// The name under which it is reported.
    pub name: String,
    /// What it checks.
    pub kind: ProbeKind,
    /// After what time it fails, if after any.
    pub timeout: Option<Duration>,
}

pub struct ProbeV {
    pub name: Seq<char>,
    pub kind: ProbeKindV,
    pub timeout: Option<nat>,
}

impl DeepView for Probe {
    type V = ProbeV;

    open spec fn deep_view(&self) -> ProbeV {
        ProbeV {
            name: self.name@,
            kind: self.kind.deep_view(),
            timeout: match self.timeout {
                Some(d) => Some(d@),
                None => None,
            },
        }
    }
}

/// The default timeout, in nanoseconds.
pub open spec fn default_timeout() -> Option<nat> {
    Some((DEFAULT_PROBE_TIMEOUT_SECS * duration::NANOS_PER_SEC) as nat)
}

/// A list of probes, in the order in which they were declared.
#[derive(Debug)]
#[non_exhaustive]
#[must_use]
pub struct Preflight {
    probes: Vec<Probe>,
}

impl View for Preflight {
    type V = Seq<ProbeV>;

    closed spec fn view(&self) -> Seq<ProbeV> {
        self.probes.deep_view()
    }
}

/// The list with its last probe changed to `p`.
pub open spec fn with_last(probes: Seq<ProbeV>, p: ProbeV) -> Seq<ProbeV> {
    probes.update(probes.len() - 1, p)
}

impl Preflight {
    /// No probes.
    pub fn new() -> (p: Preflight)
        ensures
            p@ == Seq::<ProbeV>::empty(),
    {
        let p = Preflight { probes: Vec::new() };
        assert(p@ =~= seq![]);
        p
    }

    fn with(self, name: &str, kind: ProbeKind, timeout: Option<Duration>) -> (p: Preflight)
        ensures
            p@ == self@.push(
                (ProbeV {
                    name: name@,
                    kind: kind.deep_view(),
                    timeout: match timeout {
                        Some(d) => Some(d@),
                        None => None,
                    },
                }),
            ),
    {
        let mut probes = self.probes;
        let probe = Probe { name: name.to_owned(), kind, timeout };
        probes.push(probe);
        let p = Preflight { probes };
        assert(p@ =~= self@.push(probe.deep_view()));
        p
    }

    /// Adds a TCP probe.
    pub fn tcp(self, name: &str, target: &str) -> (p: Preflight)
        ensures
            p@ == self@.push(
                (ProbeV {
                    name: name@,
                    kind: ProbeKindV::Tcp { target: target@ },
                    timeout: default_timeout(),
                }),
            ),
    {
        self.with(
            name,
            ProbeKind::Tcp { target: target.to_owned() },
            Some(default_probe_timeout()),
        )
    }

    /// Adds an environment probe: the variable has to be set and not empty.
    pub fn env(self, name: &str, var: &str) -> (p: Preflight)
        ensures
            p@ == self@.push(
                (ProbeV {
                    name: name@,
                    kind: ProbeKindV::Env { var: var@, expected: None },
                    timeout: default_timeout(),
                }),
            ),
    {
        self.with(
            name,
            ProbeKind::Env { var: var.to_owned(), expected: None },
            Some(default_probe_timeout()),
        )
    }

    /// Adds a DNS probe.
    pub fn dns(self, name: &str, host: &str) -> (p: Preflight)
        ensures
            p@ == self@.push(
                (ProbeV {
                    name: name@,
                    kind: ProbeKindV::Dns { host: host@ },
                    timeout: default_timeout(),
                }),
            ),
    {
        self.with(name, ProbeKind::Dns { host: host.to_owned() }, Some(default_probe_timeout()))
    }

    /// Adds an HTTP probe, which accepts any status from 200 to 299.
    pub fn http(self, name: &str, url: &str) -> (p: Preflight)
        ensures
            p@ == self@.push(
                (ProbeV {
                    name: name@,
                    kind: ProbeKindV::Http {
                        url: url@,
                        expect: ExpectStatus::Range { first: 200, last: 299 },
                    },
                    timeout: default_timeout(),
                }),
            ),
    {
        self.with(
            name,
            ProbeKind::Http {
                url: url.to_owned(),
                expect: ExpectStatus::Range { first: 200, last: 299 },
            },
            Some(default_probe_timeout()),
        )
    }

    /// Adds an SSH probe, which runs `true` on the remote host.
    pub fn ssh(self, name: &str, dest: &str) -> (p: Preflight)
        ensures
            p@ == self@.push(
                (ProbeV {
                    name: name@,
                    kind: ProbeKindV::Ssh { dest: dest@, command: "true"@ },
                    timeout: default_timeout(),
                }),
            ),
    {
        self.with(
            name,
            ProbeKind::Ssh { dest: dest.to_owned(), command: "true".to_owned() },
            Some(default_probe_timeout()),
        )
    }

    /// Adds a probe of the suite's own, which has no timeout.
    pub fn custom(self, name: &str, handle: usize) -> (p: Preflight)
        ensures
            p@ == self@.push(
                (ProbeV { name: name@, kind: ProbeKindV::Custom { handle }, timeout: None }),
            ),
    {
        self.with(name, ProbeKind::Custom { handle }, None)
    }

    /// Sets the timeout of the probe that was added last.
    pub fn timeout(self, d: Duration) -> (p: Preflight)
        ensures
            p@ == if self@.len() > 0 {
                with_last(self@, ProbeV { timeout: Some(d@), ..self@.last() })
            } else {
                self@
            },
    {
        let mut probes = self.probes;
        match probes.pop() {
            Some(last) => {
                let probe = Probe { name: last.name, kind: last.kind, timeout: Some(d) };
                probes.push(probe);
                let p = Preflight { probes };
                proof {
                    assert(self@.last() == self.probes@.last().deep_view());
                    assert(p@ =~= with_last(
                        self@,
                        ProbeV { timeout: Some(d@), ..self@.last() },
                    ));
                }
                p
            },
            None => Preflight { probes },
        }
    }

    fn with_last_kind(self, kind: ProbeKind) -> (p: Preflight)
        requires
            self@.len() > 0,
        ensures
            p@ == with_last(self@, (ProbeV { kind: kind.deep_view(), ..self@.last() })),
    {
        let mut probes = self.probes;
        match probes.pop() {
            Some(last) => {
                let probe = Probe { name: last.name, kind, timeout: last.timeout };
                probes.push(probe);
                let p = Preflight { probes };
                proof {
                    assert(self@.last() == self.probes@.last().deep_view());
                    assert(p@ =~= with_last(
                        self@,
                        ProbeV { kind: kind.deep_view(), ..self@.last() },
                    ));
                }
                p
            },
            None => Preflight { probes },
        }
    }

    /// Asks of the probe that was added last, where it is an environment
    /// probe, that the variable is set to `value`.
    pub fn equals(self, value: &str) -> (p: Preflight)
        ensures
            p@ == if self@.len() > 0 && self@.last().kind is Env {
                with_last(
                    self@,
                    (ProbeV {
                        kind: ProbeKindV::Env {
                            var: self@.last().kind->var,
                            expected: Some(value@),
                        },
                        ..self@.last()
                    }),
                )
            } else {
                self@
            },
    {
        if self.probes.len() == 0 {
            return self;
        }
        assert(self@.last() == self.probes@.last().deep_view());
        let kind = match &self.probes[self.probes.len() - 1].kind {
            ProbeKind::Env { var, expected } => ProbeKind::Env {
                var: var.clone(),
                expected: Some(value.to_owned()),
            },
            _ => return self,
        };
        self.with_last_kind(kind)
    }

    /// Sets what the probe that was added last accepts, where it is an HTTP
    /// probe.
    pub fn expect_status(self, expect: ExpectStatus) -> (p: Preflight)
        ensures
            p@ == if self@.len() > 0 && self@.last().kind is Http {
                with_last(
                    self@,
                    (ProbeV {
                        kind: ProbeKindV::Http { url: self@.last().kind->url, expect },
                        ..self@.last()
                    }),
                )
            } else {
                self@
            },
    {
        if self.probes.len() == 0 {
            return self;
        }
        assert(self@.last() == self.probes@.last().deep_view());
        let kind = match &self.probes[self.probes.len() - 1].kind {
            ProbeKind::Http { url, .. } => ProbeKind::Http { url: url.clone(), expect },
            _ => return self,
        };
        self.with_last_kind(kind)
    }

    /// Sets the command of the probe that was added last, where it is an SSH
    /// probe.
    pub fn command(self, command: &str) -> (p: Preflight)
        ensures
            p@ == if self@.len() > 0 && self@.last().kind is Ssh {
                with_last(
                    self@,
                    (ProbeV {
                        kind: ProbeKindV::Ssh { dest: self@.last().kind->dest, command: command@ },
                        ..self@.last()
                    }),
                )
            } else {
                self@
            },
    {
        if self.probes.len() == 0 {
            return self;
        }
        assert(self@.last() == self.probes@.last().deep_view());
        let kind = match &self.probes[self.probes.len() - 1].kind {
            ProbeKind::Ssh { dest, .. } => ProbeKind::Ssh {
                dest: dest.clone(),
                command: command.to_owned(),
            },
            _ => return self,
        };
        self.with_last_kind(kind)
    }

    /// The probes.
    pub fn into_probes(self) -> (probes: Vec<Probe>)
        ensures
            probes.deep_view() == self@,
    {
        self.probes
    }

    /// The probes.
    pub fn probes(&self) -> (probes: &[Probe])
        ensures
            probes.deep_view() == self@,
    {
        let probes = self.probes.as_slice();
        assert(probes.deep_view() =~= self@);
        probes
    }
}

impl Default for Preflight {
    fn default() -> (p: Preflight)
        ensures
            p@ == Seq::<ProbeV>::empty(),
    {
        Preflight::new()
    }
}

// ── names ───────────────────────────────────────────────────────────────────

/// The name of what a probe checks.
pub open spec fn type_label(kind: ProbeKindV) -> Seq<char> {
    match kind {
        ProbeKindV::Tcp { target } => "tcp"@,
        ProbeKindV::Env { var, expected } => "env"@,
        ProbeKindV::Dns { host } => "dns"@,
        ProbeKindV::Http { url, expect } => "http"@,
        ProbeKindV::Ssh { dest, command } => "ssh"@,
        ProbeKindV::Custom { handle } => "custom"@,
    }
}

/// What a probe is aimed at; nothing for one of the suite's own.
pub open spec fn target_of(kind: ProbeKindV) -> Option<Seq<char>> {
    match kind {
        ProbeKindV::Tcp { target } => Some(target),
        ProbeKindV::Env { var, expected } => Some(var),
        ProbeKindV::Dns { host } => Some(host),
        ProbeKindV::Http { url, expect } => Some(url),
        ProbeKindV::Ssh { dest, command } => Some(dest),
        ProbeKindV::Custom { handle } => None,
    }
}

/// Whether both probes have the same name.
pub open spec fn same_name(a: ProbeV, b: ProbeV) -> bool {
    a.name == b.name
}

/// Whether both probes have the same name and check the same kind of thing.
pub open spec fn same_type(a: ProbeV, b: ProbeV) -> bool {
    a.name == b.name && type_label(a.kind) == type_label(b.kind)
}

/// Whether both probes have the same name, check the same kind of thing, and
/// are aimed at the same target, or at none.
pub open spec fn same_target(a: ProbeV, b: ProbeV) -> bool {
    same_type(a, b) && target_of(a.kind) == target_of(b.kind)
}

/// Whether another probe has the name of probe `i`.
pub open spec fn shares_name(probes: Seq<ProbeV>, i: int) -> bool {
    exists|j: int| 0 <= j < probes.len() && j != i && same_name(probes[i], #[trigger] probes[j])
}

/// Whether another probe has the name and type of probe `i`.
pub open spec fn shares_type(probes: Seq<ProbeV>, i: int) -> bool {
    exists|j: int| 0 <= j < probes.len() && j != i && same_type(probes[i], #[trigger] probes[j])
}

/// Whether another probe has the name, type and target of probe `i`.
pub open spec fn shares_target(probes: Seq<ProbeV>, i: int) -> bool {
    exists|j: int| 0 <= j < probes.len() && j != i && same_target(probes[i], #[trigger] probes[j])
}

/// The name under which probe `i` is reported: its own where no other probe
/// has it, else with its type, and with its target where its type does not
/// tell it apart either.
pub open spec fn resolved_name(probes: Seq<ProbeV>, i: int) -> Seq<char> {
    let p = probes[i];
    if !shares_name(probes, i) {
        p.name
    } else if !shares_type(probes, i) {
        p.name + "("@ + type_label(p.kind) + ")"@
    } else {
        p.name + "("@ + type_label(p.kind) + "["@ + (match target_of(p.kind) {
            Some(t) => t,
            None => seq![],
        }) + "])"@
    }
}

/// Whether nothing tells probe `i` from another one.
pub open spec fn is_duplicate(probes: Seq<ProbeV>, i: int) -> bool {
    shares_target(probes, i)
}

/// What is wrong with a probe that nothing tells from another one.
pub open spec fn duplicate_message(p: ProbeV) -> Seq<char> {
    if p.kind is Custom {
        "cargo-rigtest: duplicate custom probe name "@ + text::quoted(p.name)
            + " in #[preflight] (custom probes have no target that could tell them apart; rename one of the colliding probes)"@
    } else {
        "cargo-rigtest: duplicate probe name "@ + text::quoted(p.name)
            + " in #[preflight] (name, type and target are all identical; rename one of the colliding probes)"@
    }
}

/// The names under which the probes are reported, or what is wrong with the
/// first that nothing tells from another one.
pub open spec fn names_of(
    r: Result<Vec<String>, String>,
    probes: Seq<ProbeV>,
) -> bool {
    match r {
        Ok(names) => {
            &&& forall|i: int| 0 <= i < probes.len() ==> !(#[trigger] is_duplicate(probes, i))
            &&& names@.len() == probes.len()
            &&& forall|i: int|
                0 <= i < probes.len() ==> (#[trigger] names@[i])@ == resolved_name(probes, i)
        },
        Err(e) => exists|i: int|
            {
                &&& 0 <= i < probes.len()
                &&& #[trigger] is_duplicate(probes, i)
                &&& forall|k: int| 0 <= k < i ==> !(#[trigger] is_duplicate(probes, k))
                &&& e@ == duplicate_message(probes[i])
            },
    }
}

fn label(kind: &ProbeKind) -> (r: &'static str)
    ensures
        r@ == type_label(kind.deep_view()),
{
    match kind {
        ProbeKind::Tcp { .. } => "tcp",
        ProbeKind::Env { .. } => "env",
        ProbeKind::Dns { .. } => "dns",
        ProbeKind::Http { .. } => "http",
        ProbeKind::Ssh { .. } => "ssh",
        ProbeKind::Custom { .. } => "custom",
    }
}

fn target(kind: &ProbeKind) -> (r: Option<&String>)
    ensures
        r.deep_view() == target_of(kind.deep_view()),
{
    match kind {
        ProbeKind::Tcp { target } => Some(target),
        ProbeKind::Env { var, .. } => Some(var),
        ProbeKind::Dns { host } => Some(host),
        ProbeKind::Http { url, .. } => Some(url),
        ProbeKind::Ssh { dest, .. } => Some(dest),
        ProbeKind::Custom { .. } => None,
    }
}

/// How far another probe agrees with probe `i`.
#[derive(Clone, Copy, PartialEq, Eq, Structural)]
struct Clash {
    name: bool,
    kind: bool,
    target: bool,
}

fn clash(probes: &[Probe], i: usize) -> (c: Clash)
    requires
        i < probes@.len(),
    ensures
        c.name == shares_name(probes.deep_view(), i as int),
        c.kind == shares_type(probes.deep_view(), i as int),
        c.target == shares_target(probes.deep_view(), i as int),
{
    let ghost all = probes.deep_view();
    let ghost p = all[i as int];
    let mut c = Clash { name: false, kind: false, target: false };
    let mut j: usize = 0;
    while j < probes.len()
        invariant
            j <= probes@.len(),
            i < probes@.len(),
            all == probes.deep_view(),
            p == all[i as int],
            c.name == exists|k: int| 0 <= k < j && k != i && same_name(p, #[trigger] all[k]),
            c.kind == exists|k: int| 0 <= k < j && k != i && same_type(p, #[trigger] all[k]),
            c.target == exists|k: int| 0 <= k < j && k != i && same_target(p, #[trigger] all[k]),
        decreases probes@.len() - j,
    {
        if j != i {
            let a = &probes[i];
            let b = &probes[j];
            assert(all[i as int] == probes@[i as int].deep_view());
            assert(all[j as int] == probes@[j as int].deep_view());
            if text::same(&a.name, &b.name) {
                assert(same_name(p, all[j as int]));
                c.name = true;
                if text::same(label(&a.kind), label(&b.kind)) {
                    assert(same_type(p, all[j as int]));
                    c.kind = true;
                    let same = match (target(&a.kind), target(&b.kind)) {
                        (Some(x), Some(y)) => text::same(x, y),
                        (None, None) => true,
                        _ => false,
                    };
                    if same {
                        assert(same_target(p, all[j as int]));
                        c.target = true;
                    }
                }
            }
        }
        j += 1;
    }
    c
}

fn resolve_name(p: &Probe, c: Clash) -> (s: String)
    ensures
        !c.name ==> s@ == p.name@,
        c.name && !c.kind ==> s@ == p.name@ + "("@ + type_label(p.kind.deep_view()) + ")"@,
        c.name && c.kind ==> s@ == p.name@ + "("@ + type_label(p.kind.deep_view()) + "["@ + (
        match target_of(p.kind.deep_view()) {
            Some(t) => t,
            None => seq![],
        }) + "])"@,
{
    let mut s = p.name.clone();
    if c.name {
        s.append("(");
        s.append(label(&p.kind));
        if c.kind {
            s.append("[");
            match target(&p.kind) {
                Some(t) => s.append(t),
                None => s.append(""),
            }
            s.append("])");
            proof {
                reveal_strlit("");
                assert(""@ =~= seq![]);
            }
        } else {
            s.append(")");
        }
    }
    s
}

/// The names under which the probes are reported.
pub fn resolve_names(probes: &[Probe]) -> (r: Result<Vec<String>, String>)
    ensures
        names_of(r, probes.deep_view()),
{
    let ghost all = probes.deep_view();
    let mut names: Vec<String> = Vec::new();
    let mut i: usize = 0;
    while i < probes.len()
        invariant
            i <= probes@.len(),
            all == probes.deep_view(),
            names@.len() == i,
            forall|k: int| 0 <= k < i ==> !(#[trigger] is_duplicate(all, k)),
            forall|k: int| 0 <= k < i ==> (#[trigger] names@[k])@ == resolved_name(all, k),
        decreases probes@.len() - i,
    {
        let c = clash(probes, i);
        let p = &probes[i];
        assert(all[i as int] == probes@[i as int].deep_view());
        if c.target {
            assert(is_duplicate(all, i as int));
            let mut e = if matches!(p.kind, ProbeKind::Custom { .. }) {
                "cargo-rigtest: duplicate custom probe name ".to_owned()
            } else {
                "cargo-rigtest: duplicate probe name ".to_owned()
            };
            e.append(&text::quote(&p.name));
            if matches!(p.kind, ProbeKind::Custom { .. }) {
                e.append(
                    " in #[preflight] (custom probes have no target that could tell them apart; rename one of the colliding probes)",
                );
            } else {
                e.append(
                    " in #[preflight] (name, type and target are all identical; rename one of the colliding probes)",
                );
            }
            assert(e@ == duplicate_message(all[i as int]));
            return Err(e);
        }
        let name = resolve_name(p, c);
        proof {
            if c.kind {
                let j = choose|j: int|
                    0 <= j < all.len() && j != i && same_type(all[i as int], #[trigger] all[j]);
                assert(same_name(all[i as int], all[j]));
            }
            assert(name@ == resolved_name(all, i as int));
        }
        names.push(name);
        i += 1;
    }
    Ok(names)
}

/// Whether an earlier probe has the name of probe `i`.
pub open spec fn repeats_name(probes: Seq<ProbeV>, i: int) -> bool {
    exists|j: int| 0 <= j < i && same_name(probes[i], #[trigger] probes[j])
}

/// The first name that a probe repeats.
pub fn first_duplicate_name(probes: &[Probe]) -> (r: Option<&str>)
    ensures
        match r {
            Some(name) => exists|i: int|
                {
                    &&& 0 <= i < probes@.len()
                    &&& #[trigger] repeats_name(probes.deep_view(), i)
                    &&& forall|k: int|
                        0 <= k < i ==> !(#[trigger] repeats_name(probes.deep_view(), k))
                    &&& name@ == probes@[i].name@
                },
            None => forall|k: int|
                0 <= k < probes@.len() ==> !(#[trigger] repeats_name(probes.deep_view(), k)),
        },
{
    let ghost all = probes.deep_view();
    let mut i: usize = 0;
    while i < probes.len()
        invariant
            i <= probes@.len(),
            all == probes.deep_view(),
            forall|k: int| 0 <= k < i ==> !(#[trigger] repeats_name(all, k)),
        decreases probes@.len() - i,
    {
        assert(all[i as int] == probes@[i as int].deep_view());
        let mut j: usize = 0;
        while j < i
            invariant
                j <= i < probes@.len(),
                all == probes.deep_view(),
                forall|k: int| 0 <= k < i ==> !(#[trigger] repeats_name(all, k)),
                forall|k: int| 0 <= k < j ==> !same_name(all[i as int], #[trigger] all[k]),
            decreases i - j,
        {
            assert(all[i as int] == probes@[i as int].deep_view());
            assert(all[j as int] == probes@[j as int].deep_view());
            if text::same(&probes[i].name, &probes[j].name) {
                assert(same_name(all[i as int], all[j as int]));
                assert(repeats_name(all, i as int));
                return Some(probes[i].name.as_str());
            }
            j += 1;
        }
        i += 1;
    }
    None
}

// ── laws ────────────────────────────────────────────────────────────────────

proof fn lemma_labels(a: ProbeKindV, b: ProbeKindV)
    ensures
        forall|k: int| 0 <= k < type_label(a).len() ==> #[trigger] type_label(a)[k] != '[' && type_label(a)[k] != ')',
        type_label(a).len() > 0,
        (target_of(a) is None <==> type_label(a) == "custom"@),
        type_label(a) == type_label(b) ==> (target_of(a) is None <==> target_of(b) is None),
{
    reveal_strlit("tcp");
    reveal_strlit("env");
    reveal_strlit("dns");
    reveal_strlit("http");
    reveal_strlit("ssh");
    reveal_strlit("custom");
    assert("custom"@[0] == 'c');
    assert("tcp"@[0] == 't');
    assert("env"@[0] == 'e');
    assert("dns"@[0] == 'd');
    assert("http"@[0] == 'h');
    assert("ssh"@[0] == 's');
}

/// Two probes of one name are reported under different names, unless nothing
/// tells them apart.
pub proof fn law_names_tell_apart(probes: Seq<ProbeV>, i: int, j: int)
    requires
        0 <= i < probes.len(),
        0 <= j < probes.len(),
        i != j,
        probes[i].name == probes[j].name,
        !is_duplicate(probes, i),
    ensures
        resolved_name(probes, i) != resolved_name(probes, j),
{
    reveal_strlit("(");
    reveal_strlit(")");
    reveal_strlit("[");
    reveal_strlit("])");
    let p = probes[i];
    let q = probes[j];
    assert(same_name(p, q));
    assert(same_name(q, p));
    assert(shares_name(probes, i));
    assert(shares_name(probes, j));
    assert(!same_target(p, q)) by {
        if same_target(p, q) {
            assert(shares_target(probes, i));
        }
    }
    let x = resolved_name(probes, i);
    let y = resolved_name(probes, j);
    let n = p.name.len() as int;
    let a = type_label(p.kind);
    let b = type_label(q.kind);
    lemma_labels(p.kind, q.kind);
    lemma_labels(q.kind, p.kind);
    let ta = match target_of(p.kind) {
        Some(t) => t,
        None => seq![],
    };
    let tb = match target_of(q.kind) {
        Some(t) => t,
        None => seq![],
    };
    // What follows the name and the opening bracket.
    let xs = if !shares_type(probes, i) {
        a + ")"@
    } else {
        a + "["@ + ta + "])"@
    };
    let ys = if !shares_type(probes, j) {
        b + ")"@
    } else {
        b + "["@ + tb + "])"@
    };
    assert(x =~= p.name + "("@ + xs);
    assert(y =~= q.name + "("@ + ys);
    if x == y {
        assert(xs =~= x.skip(n + 1));
        assert(ys =~= y.skip(n + 1));
        assert(xs == ys);
        if a.len() < b.len() {
            assert(xs[a.len() as int] == '[' || xs[a.len() as int] == ')');
            assert(ys[a.len() as int] == b[a.len() as int]);
        } else if b.len() < a.len() {
            assert(ys[b.len() as int] == '[' || ys[b.len() as int] == ')');
            assert(xs[b.len() as int] == a[b.len() as int]);
        } else {
            assert forall|k: int| 0 <= k < a.len() implies a[k] == b[k] by {
                assert(xs[k] == a[k]);
                assert(ys[k] == b[k]);
            }
            assert(a =~= b);
            assert(same_type(p, q));
            assert(same_type(q, p));
            assert(shares_type(probes, i));
            assert(shares_type(probes, j));
            let rest = (a + "["@).len() as int;
            assert(xs.len() == ys.len());
            assert(ta.len() == tb.len());
            assert forall|k: int| 0 <= k < ta.len() implies ta[k] == tb[k] by {
                assert(xs[rest + k] == ta[k]);
                assert(ys[rest + k] == tb[k]);
            }
            assert(ta =~= tb);
        }
    }
}

/// A probe whose name no other one has is reported under that name; and under
/// whatever name a probe is reported, it begins with its own. Where neither
/// the name nor the type tells it apart, its target does.
pub proof fn law_own_name_is_shown(probes: Seq<ProbeV>, i: int)
    requires
        0 <= i < probes.len(),
    ensures
        (forall|j: int|
            0 <= j < probes.len() && j != i ==> (#[trigger] probes[j]).name != probes[i].name)
            ==> resolved_name(probes, i) == probes[i].name,
        probes[i].name.is_prefix_of(resolved_name(probes, i)),
        (exists|j: int|
            0 <= j < probes.len() && j != i && (#[trigger] probes[j]).name == probes[i].name)
            ==> text::contains(resolved_name(probes, i), type_label(probes[i].kind)),
        (exists|j: int|
            0 <= j < probes.len() && j != i && (#[trigger] probes[j]).name == probes[i].name
                && type_label(probes[j].kind) == type_label(probes[i].kind)) && target_of(
            probes[i].kind,
        ) is Some ==> text::contains(resolved_name(probes, i), target_of(probes[i].kind)->0),
{
    let p = probes[i];
    let x = resolved_name(probes, i);
    let a = type_label(p.kind);
    assert(x.take(p.name.len() as int) =~= p.name);
    assert(a.subrange(0, a.len() as int) =~= a);
    assert(text::occurs_at(a, a, 0));
    if exists|j: int| 0 <= j < probes.len() && j != i && (#[trigger] probes[j]).name == p.name {
        let j = choose|j: int|
            0 <= j < probes.len() && j != i && (#[trigger] probes[j]).name == p.name;
        assert(same_name(p, probes[j]));
        assert(shares_name(probes, i));
        if !shares_type(probes, i) {
            text::lemma_contains_within(p.name + "("@, a, ")"@, a);
        } else {
            let t = match target_of(p.kind) {
                Some(t) => t,
                None => seq![],
            };
            text::lemma_contains_within(p.name + "("@, a, "["@ + t + "])"@, a);
            assert(x =~= p.name + "("@ + a + ("["@ + t + "])"@));
            assert(t.subrange(0, t.len() as int) =~= t);
            assert(text::occurs_at(t, t, 0));
            text::lemma_contains_within(p.name + "("@ + a + "["@, t, "])"@, t);
        }
    }
    if exists|j: int|
        0 <= j < probes.len() && j != i && (#[trigger] probes[j]).name == p.name && type_label(
            probes[j].kind,
        ) == a {
        let j = choose|j: int|
            0 <= j < probes.len() && j != i && (#[trigger] probes[j]).name == p.name && type_label(
                probes[j].kind,
            ) == a;
        assert(same_type(p, probes[j]));
        assert(shares_type(probes, i));
    }
}

/// Two probes cannot be told apart exactly where they have the same name,
/// check the same kind of thing, and are aimed at the same target or have
/// none; then each of them is a duplicate.
pub proof fn law_duplicates(probes: Seq<ProbeV>, i: int, j: int)
    requires
        0 <= i < probes.len(),
        0 <= j < probes.len(),
        i != j,
        probes[i].name == probes[j].name,
        type_label(probes[i].kind) == type_label(probes[j].kind),
        target_of(probes[i].kind) == target_of(probes[j].kind),
    ensures
        is_duplicate(probes, i),
        is_duplicate(probes, j),
        text::contains(duplicate_message(probes[i]), text::quoted(probes[i].name)),
{
    assert(same_target(probes[i], probes[j]));
    assert(same_target(probes[j], probes[i]));
    let q = text::quoted(probes[i].name);
    assert(q.subrange(0, q.len() as int) =~= q);
    assert(text::occurs_at(q, q, 0));
    if probes[i].kind is Custom {
        text::lemma_contains_within(
            "cargo-rigtest: duplicate custom probe name "@,
            q,
            " in #[preflight] (custom probes have no target that could tell them apart; rename one of the colliding probes)"@,
            q,
        );
    } else {
        text::lemma_contains_within(
            "cargo-rigtest: duplicate probe name "@,
            q,
            " in #[preflight] (name, type and target are all identical; rename one of the colliding probes)"@,
            q,
        );
    }
}

/// What a probe is aimed at is what it was declared with, and probes of
/// different kinds have different labels.
pub proof fn law_labels_tell_kinds_apart(a: ProbeKindV, b: ProbeKindV)
    ensures
        type_label(a) == type_label(b) <==> {
            ||| a is Tcp && b is Tcp
            ||| a is Env && b is Env
            ||| a is Dns && b is Dns
            ||| a is Http && b is Http
            ||| a is Ssh && b is Ssh
            ||| a is Custom && b is Custom
        },
        target_of(a) is None <==> a is Custom,
{
    reveal_strlit("tcp");
    reveal_strlit("env");
    reveal_strlit("dns");
    reveal_strlit("http");
    reveal_strlit("ssh");
    reveal_strlit("custom");
    assert("custom"@[0] == 'c');
    assert("tcp"@[0] == 't');
    assert("env"@[0] == 'e');
    assert("dns"@[0] == 'd');
    assert("http"@[0] == 'h');
    assert("ssh"@[0] == 's');
}

/// The names of the probes are given out exactly where nothing makes two of
/// them the same probe. There is one for each probe, and probes of one name go
/// by different ones.
pub proof fn law_names_are_given_out(r: Result<Vec<String>, String>, probes: Seq<ProbeV>)
    requires
        names_of(r, probes),
    ensures
        r is Ok <==> forall|k: int| 0 <= k < probes.len() ==> !(#[trigger] is_duplicate(probes, k)),
        r matches Ok(names) ==> names@.len() == probes.len(),
        r matches Ok(names) ==> forall|i: int, j: int|
            0 <= i < probes.len() && 0 <= j < probes.len() && i != j && (#[trigger] probes[i]).name
                == (#[trigger] probes[j]).name ==> names@[i]@ != names@[j]@,
{
    if let Ok(names) = r {
        assert forall|i: int, j: int|
            0 <= i < probes.len() && 0 <= j < probes.len() && i != j && (#[trigger] probes[i]).name
                == (#[trigger] probes[j]).name implies names@[i]@ != names@[j]@ by {
            assert(!is_duplicate(probes, i));
            assert(names@[i]@ == resolved_name(probes, i));
            assert(names@[j]@ == resolved_name(probes, j));
            law_names_tell_apart(probes, i, j);
        }
    }
}

} // verus!
