//! The reconciler: merges explicit and discovered container names, drives
//! per-container inspection and publication, applies the error-escalation
//! policy, and decides when the refresh loop ends.

use vstd::prelude::*;
use vstd::string::StringExecFns;
use crate::common::{Config, MissingContainerHandling, MissingEnvVarHandling};
use crate::inspector::{Inspect, Inspection, InspectionError};
use crate::publisher::{Publication, Publish, PublishingError};

verus! {

/// A work item annotated with whether it was requested explicitly by the
/// operator or discovered on a best-effort basis; the distinction drives
/// the error-escalation policy.
#[derive(Debug, Clone)]
pub struct Pending<T> {
    /// Whether the item was listed explicitly.
    pub explicit: bool,
    /// The thing that needs to be done.
    pub todo: T,
}

impl<T> Pending<T> {
    /// Applies `f` to the payload, keeping the annotation.
    pub fn map<R, F: FnOnce(T) -> R>(self, f: F) -> (r: Pending<R>)
        requires
            call_requires(f, (self.todo,)),
        ensures
            r.explicit == self.explicit,
            call_ensures(f, (self.todo,), r.todo),
    {
        let explicit = self.explicit;
        Pending { explicit, todo: f(self.todo) }
    }

    /// Applies a fallible `f` to the payload, keeping the annotation on
    /// success.
    pub fn try_map<R, E, F: FnOnce(T) -> Result<R, E>>(self, f: F) -> (r: Result<Pending<R>, E>)
        requires
            call_requires(f, (self.todo,)),
        ensures
            match r {
                Ok(p) => p.explicit == self.explicit && call_ensures(
                    f,
                    (self.todo,),
                    Ok(p.todo),
                ),
                Err(e) => call_ensures(f, (self.todo,), Err(e)),
            },
    {
        let explicit = self.explicit;
        match f(self.todo) {
            Ok(t) => Ok(Pending { explicit, todo: t }),
            Err(e) => Err(e),
        }
    }
}

/// An error collected during one reconciliation cycle.
#[derive(Debug, Clone)]
pub enum CompanionError {
    /// A container could not be inspected or enumerated.
    Inspection(InspectionError),
    /// A publication could not be written to the registry.
    Publishing(PublishingError),
    /// A container lacks the configured environment variable; carries the
    /// container name and the variable name.
    EnvVarMissing(String, String),
}

/// The rendered description of a cycle error.
pub open spec fn companion_error_text(e: CompanionError) -> Seq<char> {
    match e {
        CompanionError::Inspection(ie) => "Error during inspection. Error: "@ + ie.message@,
        CompanionError::Publishing(pe) => "Error during publishing. Error: "@ + pe.message@,
        CompanionError::EnvVarMissing(c, v) =>
            "Configured environment variable missing on container. container name: "@ + c@
                + ", environment variable: "@ + v@,
    }
}

impl CompanionError {
    /// A human-readable description of this error, naming what failed.
    pub fn message(&self) -> (r: String)
        ensures
            r@ == companion_error_text(*self),
    {
        let mut out: String;
        match self {
            CompanionError::Inspection(ie) => {
                out = "Error during inspection. Error: ".to_owned();
                out.append(ie.message.as_str());
            },
            CompanionError::Publishing(pe) => {
                out = "Error during publishing. Error: ".to_owned();
                out.append(pe.message.as_str());
            },
            CompanionError::EnvVarMissing(c, v) => {
                out =
                "Configured environment variable missing on container. container name: ".to_owned();
                out.append(c.as_str());
                out.append(", environment variable: ");
                out.append(v.as_str());
            },
        }
        proof {
            assert(out@ =~= companion_error_text(*self));
        }
        out
    }
}

/// How loudly a policy branch reports its condition.
#[derive(Debug, Clone, Copy, PartialEq, Eq, Structural)]
pub enum Severity {
    Error,
    Warn,
    Info,
}

/// The escalation table for a container that could not be inspected:
/// `Report` always escalates at error severity; otherwise an explicitly
/// listed container escalates at warning severity, and a discovered one is
/// only noted.  The boolean says whether the error joins the cycle's error
/// list.
pub open spec fn missing_container_decision(
    handling: MissingContainerHandling,
    explicit: bool,
) -> (Severity, bool) {
    if handling == MissingContainerHandling::Report {
        (Severity::Error, true)
    } else if explicit {
        (Severity::Warn, true)
    } else {
        (Severity::Info, false)
    }
}

/// The escalation table for a container without the environment variable:
/// an explicitly listed container under `Automatic`, or any container
/// under `Report`, escalates at error severity; every other combination is
/// only noted.
pub open spec fn missing_envvar_decision(
    explicit: bool,
    handling: MissingEnvVarHandling,
) -> (Severity, bool) {
    if (explicit && handling == MissingEnvVarHandling::Automatic) || handling
        == MissingEnvVarHandling::Report {
        (Severity::Error, true)
    } else {
        (Severity::Info, false)
    }
}

/// Executable form of [`missing_container_decision`].
pub fn classify_missing_container(handling: MissingContainerHandling, explicit: bool) -> (r: (
    Severity,
    bool,
))
    ensures
        r == missing_container_decision(handling, explicit),
{
    if handling == MissingContainerHandling::Report {
        (Severity::Error, true)
    } else if explicit {
        (Severity::Warn, true)
    } else {
        (Severity::Info, false)
    }
}

/// Executable form of [`missing_envvar_decision`].
pub fn classify_missing_envvar(explicit: bool, handling: MissingEnvVarHandling) -> (r: (
    Severity,
    bool,
))
    ensures
        r == missing_envvar_decision(explicit, handling),
{
    match (explicit, handling) {
        (true, MissingEnvVarHandling::Automatic) => (Severity::Error, true),
        (_, MissingEnvVarHandling::Report) => (Severity::Error, true),
        (_, _) => (Severity::Info, false),
    }
}

/// What the reconciler does with one container after inspecting it.
#[derive(Debug, Clone, Copy, PartialEq, Eq, Structural)]
pub enum RefreshPlan {
    /// Inspection failed: skip the container, report at the given
    /// severity, and append the error to the cycle's list iff `record`.
    SkipInspectFailure { severity: Severity, record: bool },
    /// The environment variable is absent: skip the container, report at
    /// the given severity, and append an error iff `record`.
    SkipMissingEnvVar { severity: Severity, record: bool },
    /// A publication would be written, but dry-run mode is on: report it
    /// and touch nothing.
    DryRun,
    /// Build a publication from the inspection and write it.
    Publish,
}

/// The per-container refresh decision: classify an inspection outcome
/// under the configured policies.
pub open spec fn refresh_plan_spec(
    config: Config,
    explicit: bool,
    inspection: Result<Inspection, InspectionError>,
) -> RefreshPlan {
    match inspection {
        Err(_) => {
            let d = missing_container_decision(config.missing_container, explicit);
            RefreshPlan::SkipInspectFailure { severity: d.0, record: d.1 }
        },
        Ok(insp) => {
            if !insp.envvar_present {
                let d = missing_envvar_decision(explicit, config.missing_envvar);
                RefreshPlan::SkipMissingEnvVar { severity: d.0, record: d.1 }
            } else if config.dry_run {
                RefreshPlan::DryRun
            } else {
                RefreshPlan::Publish
            }
        },
    }
}

/// Executable form of [`refresh_plan_spec`].
pub fn refresh_plan(config: &Config, explicit: bool, inspection: &Result<
    Inspection,
    InspectionError,
>) -> (r: RefreshPlan)
    ensures
        r == refresh_plan_spec(*config, explicit, *inspection),
{
    match inspection {
        Err(_) => {
            let d = classify_missing_container(config.missing_container, explicit);
            RefreshPlan::SkipInspectFailure { severity: d.0, record: d.1 }
        },
        Ok(insp) => {
            if !insp.envvar_present {
                let d = classify_missing_envvar(explicit, config.missing_envvar);
                RefreshPlan::SkipMissingEnvVar { severity: d.0, record: d.1 }
            } else if config.dry_run {
                RefreshPlan::DryRun
            } else {
                RefreshPlan::Publish
            }
        },
    }
}

/// Dry run: whatever an inspection returned, the refresh decision under a
/// dry-run configuration never publishes.
pub proof fn lemma_dry_run_never_publishes(
    config: Config,
    explicit: bool,
    inspection: Result<Inspection, InspectionError>,
)
    requires
        config.dry_run,
    ensures
        refresh_plan_spec(config, explicit, inspection) != RefreshPlan::Publish,
{
}

/// Source of the cooperative shutdown request; implemented externally over
/// the process's signal handling and by test doubles.
pub trait TerminationSignal {
    /// Blocks until either `seconds` seconds elapse or termination is
    /// requested, whichever comes first; termination wins when both are
    /// ready.  Returns whether termination was requested.
    fn wait_timeout(&mut self, seconds: u32) -> bool;
}

/// Builds the publication for an inspected container: its host together
/// with the domain specs it declared.
pub fn to_publication(inspection: Pending<Inspection>) -> (r: Publication)
    ensures
        r.host@ == inspection.todo.host@,
        r.specs == inspection.todo.specs,
{
    Publication { host: inspection.todo.host, specs: inspection.todo.specs }
}

/// Whether `name` occurs in `names`.
pub open spec fn contains_name(names: Seq<Seq<char>>, name: Seq<char>) -> bool {
    exists|k: int| 0 <= k < names.len() && names[k] == name
}

/// Whether some pending entry carries `name`.
pub open spec fn entries_contain(entries: Seq<Pending<String>>, name: Seq<char>) -> bool {
    exists|m: int| 0 <= m < entries.len() && entries[m].todo@ == name
}

/// Well-formedness of a cycle's pending set against the explicit name
/// list: no name occurs twice, an entry is marked explicit exactly when
/// its name was listed explicitly, and every explicit name is present.
pub open spec fn pending_set_wf(entries: Seq<Pending<String>>, explicit: Seq<Seq<char>>) -> bool {
    &&& forall|a: int, b: int|
        0 <= a < b < entries.len() ==> (#[trigger] entries[a].todo@) != (#[trigger] entries[b].todo@)
    &&& forall|k: int|
        0 <= k < entries.len() ==> ((#[trigger] entries[k].explicit) <==> contains_name(
            explicit,
            entries[k].todo@,
        ))
    &&& forall|k: int| 0 <= k < explicit.len() ==> entries_contain(entries, #[trigger] explicit[k])
}

/// Whether some pending entry carries the same name as `name`.
fn pending_contains(entries: &Vec<Pending<String>>, name: &String) -> (r: bool)
    ensures
        r == entries_contain(entries@, name@),
{
    let n = entries.len();
    let mut k: usize = 0;
    while k < n
        invariant
            k <= n,
            n == entries@.len(),
            forall|m: int| 0 <= m < k ==> (#[trigger] entries@[m].todo@) != name@,
        decreases n - k,
    {
        if entries[k].todo == *name {
            proof {
                assert(entries@[k as int].todo@ == name@);
            }
            return true;
        }
        k = k + 1;
    }
    false
}

/// Builds the per-cycle pending set: every explicitly listed name marked
/// explicit, then every discovered name that was not already present,
/// marked discovered.  A name occurring on both sides is recorded once,
/// as explicit; duplicates within either list are recorded once.
pub fn merge_pending(explicit_names: &Vec<String>, discovered: &Vec<String>) -> (r: Vec<
    Pending<String>,
>)
    ensures
        pending_set_wf(r@, explicit_names.deep_view()),
        forall|k: int|
            0 <= k < r@.len() ==> contains_name(
                explicit_names.deep_view(),
                #[trigger] r@[k].todo@,
            ) || contains_name(discovered.deep_view(), r@[k].todo@),
        forall|k: int|
            0 <= k < discovered.deep_view().len() ==> entries_contain(
                r@,
                #[trigger] discovered.deep_view()[k],
            ),
{
    let ghost edv = explicit_names.deep_view();
    let ghost ddv = discovered.deep_view();
    let mut result: Vec<Pending<String>> = Vec::new();
    let n = explicit_names.len();
    let mut k: usize = 0;
    while k < n
        invariant
            k <= n,
            n == explicit_names@.len(),
            edv == explicit_names.deep_view(),
            forall|a: int, b: int|
                0 <= a < b < result@.len() ==> (#[trigger] result@[a].todo@) != (
                #[trigger] result@[b].todo@),
            forall|m: int|
                0 <= m < result@.len() ==> (#[trigger] result@[m]).explicit == true
                    && contains_name(edv, result@[m].todo@),
            forall|m: int| 0 <= m < k ==> entries_contain(result@, #[trigger] edv[m]),
        decreases n - k,
    {
        let name = &explicit_names[k];
        proof {
            assert(edv[k as int] == name@);
        }
        if !pending_contains(&result, name) {
            let ghost pre = result@;
            result.push(Pending { explicit: true, todo: name.clone() });
            proof {
                assert(result@ == pre.push(Pending { explicit: true, todo: *name }));
                assert(contains_name(edv, name@));
                assert(result@[pre.len() as int].todo@ == edv[k as int]);
                assert(entries_contain(result@, edv[k as int]));
                assert forall|m: int| 0 <= m < k + 1 implies entries_contain(
                    result@,
                    #[trigger] edv[m],
                ) by {
                    if m < k {
                        let w = choose|w: int| 0 <= w < pre.len() && pre[w].todo@ == edv[m];
                        assert(result@[w].todo@ == edv[m]);
                    }
                }
            }
        } else {
            proof {
                let w = choose|w: int| 0 <= w < result@.len() && result@[w].todo@ == name@;
                assert(result@[w].todo@ == edv[k as int]);
                assert(entries_contain(result@, edv[k as int]));
            }
        }
        k = k + 1;
    }
    proof {
        assert forall|m: int| 0 <= m < result@.len() implies ((#[trigger] result@[m].explicit)
            <==> contains_name(edv, result@[m].todo@)) && (contains_name(edv, result@[m].todo@)
            || contains_name(ddv, result@[m].todo@)) by {
            assert(result@[m].explicit == true && contains_name(edv, result@[m].todo@));
        }
        assert forall|m: int| 0 <= m < result@.len() implies contains_name(
            edv,
            #[trigger] result@[m].todo@,
        ) || contains_name(ddv, result@[m].todo@) by {
            assert(result@[m].explicit == true && contains_name(edv, result@[m].todo@));
        }
    }
    let dn = discovered.len();
    let mut j: usize = 0;
    while j < dn
        invariant
            j <= dn,
            dn == discovered@.len(),
            edv == explicit_names.deep_view(),
            ddv == discovered.deep_view(),
            forall|a: int, b: int|
                0 <= a < b < result@.len() ==> (#[trigger] result@[a].todo@) != (
                #[trigger] result@[b].todo@),
            forall|m: int|
                0 <= m < result@.len() ==> ((#[trigger] result@[m].explicit) <==> contains_name(
                    edv,
                    result@[m].todo@,
                )),
            forall|m: int| 0 <= m < edv.len() ==> entries_contain(result@, #[trigger] edv[m]),
            forall|m: int|
                0 <= m < result@.len() ==> contains_name(edv, #[trigger] result@[m].todo@)
                    || contains_name(ddv, result@[m].todo@),
            forall|m: int| 0 <= m < j ==> entries_contain(result@, #[trigger] ddv[m]),
        decreases dn - j,
    {
        let name = &discovered[j];
        proof {
            assert(ddv[j as int] == name@);
        }
        if !pending_contains(&result, name) {
            let ghost pre = result@;
            // The name was not merged yet, so in particular it was not
            // listed explicitly: every explicit name already has an entry.
            proof {
                if contains_name(edv, name@) {
                    let w = choose|w: int| 0 <= w < edv.len() && edv[w] == name@;
                    assert(entries_contain(pre, edv[w]));
                }
            }
            result.push(Pending { explicit: false, todo: name.clone() });
            proof {
                assert(result@ == pre.push(Pending { explicit: false, todo: *name }));
                assert(result@[pre.len() as int].todo@ == ddv[j as int]);
                assert(entries_contain(result@, ddv[j as int]));
                assert(contains_name(ddv, name@));
                assert forall|m: int| 0 <= m < j + 1 implies entries_contain(
                    result@,
                    #[trigger] ddv[m],
                ) by {
                    if m < j {
                        let w = choose|w: int| 0 <= w < pre.len() && pre[w].todo@ == ddv[m];
                        assert(result@[w].todo@ == ddv[m]);
                    }
                }
                assert forall|m: int| 0 <= m < edv.len() implies entries_contain(
                    result@,
                    #[trigger] edv[m],
                ) by {
                    let w = choose|w: int| 0 <= w < pre.len() && pre[w].todo@ == edv[m];
                    assert(result@[w].todo@ == edv[m]);
                }
            }
        } else {
            proof {
                let w = choose|w: int| 0 <= w < result@.len() && result@[w].todo@ == name@;
                assert(result@[w].todo@ == ddv[j as int]);
                assert(entries_contain(result@, ddv[j as int]));
            }
        }
        j = j + 1;
    }
    result
}

/// The reconciler's working state: the configuration and the two
/// capabilities, plus the source of the shutdown request.
pub struct Context<I: Inspect, P: Publish, S: TerminationSignal> {
    pub config: Config,
    pub inspector: I,
    pub publisher: P,
    pub termination_signal: S,
}

impl<I: Inspect, P: Publish, S: TerminationSignal> Context<I, P, S> {
    pub fn new(config: Config, inspector: I, publisher: P, termination_signal: S) -> (r: Context<
        I,
        P,
        S,
    >)
        ensures
            r.config == config,
    {
        Context { config, termination_signal, inspector, publisher }
    }

    /// Inspects one pending container, keeping its annotation.
    pub fn inspect(&mut self, container_name: Pending<String>) -> (r: Result<
        Pending<Inspection>,
        CompanionError,
    >)
        ensures
            final(self).config == old(self).config,
            match r {
                Ok(p) => p.explicit == container_name.explicit,
                Err(e) => e is Inspection,
            },
    {
        let explicit = container_name.explicit;
        match self.inspector.inspect(container_name.todo.as_str()) {
            Ok(i) => Ok(Pending { explicit, todo: i }),
            Err(e) => Err(CompanionError::Inspection(e)),
        }
    }

    /// Writes one publication through the publishing capability.
    pub fn publish(&mut self, publication: Publication) -> (r: Result<(), CompanionError>)
        ensures
            final(self).config == old(self).config,
            r is Err ==> r->Err_0 is Publishing,
    {
        match self.publisher.publish(&publication) {
            Ok(()) => Ok(()),
            Err(e) => Err(CompanionError::Publishing(e)),
        }
    }

    /// Builds the cycle's pending set: the explicitly listed names, and,
    /// when enumeration is enabled, whatever the inspector's enumeration
    /// discovered on top of them.  Enumeration failure does not abort the
    /// cycle: the explicit names still proceed and the failure is handed
    /// back as the cycle's enumeration error.
    pub fn enumerate(&mut self, explicit_container_names: &Vec<String>) -> (r: (
        Vec<Pending<String>>,
        Result<(), CompanionError>,
    ))
        ensures
            final(self).config == old(self).config,
            pending_set_wf(r.0@, explicit_container_names.deep_view()),
            !old(self).config.enumerate ==> r.1 is Ok && forall|k: int|
                0 <= k < r.0@.len() ==> (#[trigger] r.0@[k]).explicit,
            r.1 is Err ==> r.1->Err_0 is Inspection && old(self).config.enumerate,
    {
        let mut discovered: Vec<String> = Vec::new();
        let mut enum_result: Result<(), CompanionError> = Ok(());
        if self.config.enumerate {
            let mut enumeration: Vec<String> = Vec::new();
            match self.inspector.enumerate(&mut enumeration) {
                Ok(()) => {
                    discovered = enumeration;
                },
                Err(e) => {
                    enum_result = Err(CompanionError::Inspection(e));
                },
            }
        }
        let names = merge_pending(explicit_container_names, &discovered);
        proof {
            if !self.config.enumerate {
                assert(discovered.deep_view().len() == 0);
                assert forall|k: int| 0 <= k < names@.len() implies (
                #[trigger] names@[k]).explicit by {
                    assert(contains_name(
                        explicit_container_names.deep_view(),
                        names@[k].todo@,
                    ) || contains_name(discovered.deep_view(), names@[k].todo@));
                }
            }
        }
        (names, enum_result)
    }

    /// Waits for the next refresh.  Without a refresh interval the loop
    /// runs once: the wait returns "stop" immediately, consulting neither
    /// a timer nor the termination signal.  Otherwise it blocks until the
    /// interval elapses (continue) or termination is requested (stop).
    pub fn wait(&mut self) -> (do_continue: bool)
        ensures
            final(self).config == old(self).config,
            old(self).config.refresh_seconds is None ==> !do_continue,
    {
        match self.config.refresh_seconds {
            Some(refresh_seconds) => {
                let terminated = self.termination_signal.wait_timeout(refresh_seconds);
                !terminated
            },
            None => false,
        }
    }
}

/// Which errors the refresh of one container may escalate: an inspection
/// failure only when the missing-container policy records it for this
/// container's origin, a missing environment variable only when the
/// missing-env-var policy records it (and then naming this container and
/// the configured variable), and a publishing failure never under dry
/// run.
pub open spec fn refresh_error_admissible(
    config: Config,
    name: Pending<String>,
    e: CompanionError,
) -> bool {
    match e {
        CompanionError::Inspection(_) => missing_container_decision(
            config.missing_container,
            name.explicit,
        ).1,
        CompanionError::EnvVarMissing(c, v) => missing_envvar_decision(
            name.explicit,
            config.missing_envvar,
        ).1 && c@ == name.todo@ && v@ == config.envvar@,
        CompanionError::Publishing(_) => !config.dry_run,
    }
}

/// What any error of a whole cycle's list may be, whichever containers
/// the cycle processed: a missing-env-var error only under a policy that
/// records it for at least one origin (always naming the configured
/// variable), and a publishing failure never under dry run.  Inspection
/// errors are unconstrained here: an enumeration failure is always
/// recorded, and an explicitly listed container records one under every
/// policy setting.
pub open spec fn cycle_error_admissible(config: Config, e: CompanionError) -> bool {
    match e {
        CompanionError::Inspection(_) => true,
        CompanionError::EnvVarMissing(_, v) => missing_envvar_decision(
            true,
            config.missing_envvar,
        ).1 && v@ == config.envvar@,
        CompanionError::Publishing(_) => !config.dry_run,
    }
}

/// Inspects the indicated container and publishes its domain specs.
/// Failures are classified under the configured policies; only the
/// branches the policy deems problematic append to `errors`, at most one
/// error is appended per container, and every appended error is one the
/// policy admits for this container — in particular, under dry run the
/// publisher is never invoked, so no publishing error can be appended.
pub fn refresh_container<I: Inspect, P: Publish, S: TerminationSignal>(
    name: Pending<String>,
    errors: &mut Vec<CompanionError>,
    ctx: &mut Context<I, P, S>,
)
    ensures
        final(ctx).config == old(ctx).config,
        old(errors)@.len() <= final(errors)@.len() <= old(errors)@.len() + 1,
        final(errors)@.take(old(errors)@.len() as int) == old(errors)@,
        forall|k: int|
            old(errors)@.len() <= k < final(errors)@.len() ==> refresh_error_admissible(
                old(ctx).config,
                name,
                #[trigger] final(errors)@[k],
            ),
{
    let explicit = name.explicit;
    let container = name.todo;
    let inspection = ctx.inspector.inspect(container.as_str());
    match inspection {
        Err(e) => {
            let decision = classify_missing_container(ctx.config.missing_container, explicit);
            if decision.1 {
                errors.push(CompanionError::Inspection(e));
            }
        },
        Ok(insp) => {
            if !insp.envvar_present {
                let decision = classify_missing_envvar(explicit, ctx.config.missing_envvar);
                if decision.1 {
                    errors.push(
                        CompanionError::EnvVarMissing(container, ctx.config.envvar.clone()),
                    );
                }
            } else {
                let publication = to_publication(Pending { explicit, todo: insp });
                if ctx.config.dry_run {
                    // Dry run: the intended publication is only reported;
                    // the publisher is not consulted.
                } else {
                    match ctx.publish(publication) {
                        Ok(()) => {},
                        Err(e) => {
                            errors.push(e);
                        },
                    }
                }
            }
        },
    }
    proof {
        assert(errors@.take(old(errors)@.len() as int) =~= old(errors)@);
    }
}

/// One reconciliation cycle: merge the explicit and discovered container
/// names, then inspect and publish each one, collecting the errors that
/// the configured policies escalate.  With nothing to do — no explicit
/// names and enumeration disabled — the cycle succeeds outright, and
/// every collected error is one the policies admit.
pub fn run_cycle<I: Inspect, P: Publish, S: TerminationSignal>(
    ctx: &mut Context<I, P, S>,
    explicit_container_names: &Vec<String>,
) -> (errors: Vec<CompanionError>)
    ensures
        final(ctx).config == old(ctx).config,
        explicit_container_names@.len() == 0 && !old(ctx).config.enumerate ==> errors@.len()
            == 0,
        forall|k: int|
            0 <= k < errors@.len() ==> cycle_error_admissible(
                old(ctx).config,
                #[trigger] errors@[k],
            ),
{
    let ghost workload_empty = explicit_container_names@.len() == 0
        && !old(ctx).config.enumerate;
    let mut errors: Vec<CompanionError> = Vec::new();
    let enumeration = ctx.enumerate(explicit_container_names);
    let mut names = enumeration.0;
    match enumeration.1 {
        Ok(()) => {},
        Err(e) => {
            errors.push(e);
        },
    }
    proof {
        if workload_empty && names@.len() > 0 {
            assert(names@[0].explicit);
            assert(contains_name(explicit_container_names.deep_view(), names@[0].todo@));
            assert(explicit_container_names.deep_view().len() == 0);
            assert(false);
        }
    }
    while names.len() > 0
        invariant
            ctx.config == old(ctx).config,
            workload_empty == (explicit_container_names@.len() == 0
                && !old(ctx).config.enumerate),
            workload_empty ==> names@.len() == 0 && errors@.len() == 0,
            forall|k: int|
                0 <= k < errors@.len() ==> cycle_error_admissible(
                    old(ctx).config,
                    #[trigger] errors@[k],
                ),
        decreases names@.len(),
    {
        let name = names.remove(0);
        let ghost gname = name;
        let ghost pre_len = errors@.len() as int;
        refresh_container(name, &mut errors, ctx);
        proof {
            assert forall|k: int| 0 <= k < errors@.len() implies cycle_error_admissible(
                old(ctx).config,
                #[trigger] errors@[k],
            ) by {
                if k < pre_len {
                    assert(errors@[k] == errors@.take(pre_len)[k]);
                } else {
                    assert(refresh_error_admissible(old(ctx).config, gname, errors@[k]));
                }
            }
        }
    }
    errors
}

/// One pass of the reconciliation loop: a full cycle followed by the wait
/// step.  `None` asks the caller for another pass (the finished cycle's
/// errors are discarded: they were handled where they occurred); `Some`
/// carries the final outcome, the just-finished cycle's error list, where
/// an empty list is success.  The caller repeats passes until one returns
/// `Some`; with no refresh interval configured the very first pass does —
/// and with nothing to do on top of that, it reports clean success.
pub fn run_step<I: Inspect, P: Publish, S: TerminationSignal>(
    ctx: &mut Context<I, P, S>,
    explicit_container_names: &Vec<String>,
) -> (r: Option<Result<(), Vec<CompanionError>>>)
    ensures
        final(ctx).config == old(ctx).config,
        old(ctx).config.refresh_seconds is None ==> r is Some,
        old(ctx).config.refresh_seconds is None && explicit_container_names@.len() == 0
            && !old(ctx).config.enumerate ==> r == Some(Ok::<(), Vec<CompanionError>>(())),
        match r {
            Some(Err(es)) => es@.len() > 0 && forall|k: int|
                0 <= k < es@.len() ==> cycle_error_admissible(
                    old(ctx).config,
                    #[trigger] es@[k],
                ),
            _ => true,
        },
{
    let errors = run_cycle(ctx, explicit_container_names);
    if ctx.wait() {
        None
    } else {
        if errors.len() == 0 {
            Some(Ok(()))
        } else {
            Some(Err(errors))
        }
    }
}

} // verus!
