//! What holds of failures and of inspecting a cluster.

use vstd::prelude::*;

use crate::kubeconfig::ContextEntry;
use crate::kubernetes;
use crate::kubernetes::client::{ClientSetup, Timeouts};
use crate::kubernetes::health::{
    CronJob, CronJobStats, DaemonSet, DaemonSetStats, Deployment, Job, JobStats, Namespace,
    NamespaceSummary, Node, NodeSummary, Observation, Pod, PodStats, ReplicaStats, Severity,
    StatefulSet,
};
use crate::kubernetes::inspection;
use crate::kubernetes::inspection::{
    Availability, Inspection, Outcome, Plan, Section, Sections, ServerVersion,
};
use crate::kubernetes::read::Listing;
use crate::kubernetes::{ConnectionState, Failure, InspectError};
use crate::text;
use crate::time::Duration;

verus! {

// ---------------------------------------------------------------------------------------------
// Failures
// ---------------------------------------------------------------------------------------------
/// An answer of the API is told apart by its status: 401 is a failed authentication, 403 a refused
/// permission, everything else an error of the API. The last two say the message, else the reason,
/// else that there is none.
pub proof fn lemma_api_failures(failure: &Failure, r: InspectError)
    requires
        call_ensures(kubernetes::classify, (failure,), r),
    ensures
        failure matches Failure::Api { code, message, reason } ==> {
            let told = if message@.len() > 0 {
                message@
            } else if reason@.len() > 0 {
                reason@
            } else {
                "no detail provided"@
            };
            &&& r is AuthenticationFailed <==> code == 401
            &&& r is PermissionDenied <==> code == 403
            &&& r is Api <==> code != 401 && code != 403
            &&& r matches InspectError::PermissionDenied(shown) ==> shown@ == told
            &&& r matches InspectError::Api(shown) ==> shown@ == told
        },
        failure is Auth ==> r is AuthenticationFailed,
        failure matches Failure::Tls(source) ==> r == InspectError::Tls(*source),
        failure matches Failure::Config(source) ==> r == InspectError::Config(*source),
{
}

/// Whether a text names a timeout.
pub open spec fn names_timeout(s: Seq<char>) -> bool {
    ||| text::occurs(s, "timed out"@)
    ||| text::occurs(s, "timeout"@)
    ||| text::occurs(s, "deadline has elapsed"@)
}

/// Whether a text names a fault of the secured connection.
pub open spec fn names_tls(s: Seq<char>) -> bool {
    ||| text::occurs(s, "certificate"@)
    ||| text::occurs(s, "tls handshake"@)
    ||| text::occurs(s, "handshake failure"@)
    ||| text::occurs(s, "unknownissuer"@)
    ||| text::occurs(s, "invalid peer"@)
}

/// A failure of the connection is judged by its chain of causes, letter case aside: one that names
/// a timeout is one, another that names a fault of the secured connection is that, and any other
/// means that the cluster is unavailable. The last two say the whole chain.
pub proof fn lemma_connection_failures(causes: Vec<String>, r: InspectError)
    requires
        call_ensures(kubernetes::classify, (&Failure::Other(causes),), r),
    ensures
        ({
            let chain = text::joined(text::squeezed(text::texts(causes@)), ": "@);
            let lowered = text::lowered(chain);
            &&& r is TimedOut <==> names_timeout(lowered)
            &&& r is Tls <==> !names_timeout(lowered) && names_tls(lowered)
            &&& r is Unavailable <==> !names_timeout(lowered) && !names_tls(lowered)
            &&& r matches InspectError::TimedOut(budget) ==> budget@ == 0
            &&& r matches InspectError::Tls(shown) ==> shown@ == chain
            &&& r matches InspectError::Unavailable(shown) ==> shown@ == chain
        }),
{
}

/// The tests on messages look for the same words, letter case aside.
pub proof fn lemma_words_in_messages(message: &str, timeout: bool, tls: bool)
    requires
        call_ensures(kubernetes::looks_like_timeout, (message,), timeout),
        call_ensures(kubernetes::looks_like_tls, (message,), tls),
    ensures
        timeout <==> names_timeout(text::lowered(message@)),
        tls <==> names_tls(text::lowered(message@)),
{
}

/// A chain of causes says each of them once, in order, with colons between.
pub proof fn lemma_chain_of_causes(causes: &Vec<String>, r: String)
    requires
        call_ensures(kubernetes::error_chain, (causes,), r),
    ensures
        causes@.len() == 1 ==> r@ == causes@[0]@,
        causes@.len() == 2 && causes@[0]@ != causes@[1]@ ==> r@ == causes@[0]@ + ": "@
            + causes@[1]@,
        causes@.len() == 2 && causes@[0]@ == causes@[1]@ ==> r@ == causes@[0]@,
{
    reveal_with_fuel(text::squeezed, 3);
    reveal_with_fuel(text::joined, 3);
    let list = text::texts(causes@);
    let parts = text::squeezed(list);
    if causes@.len() == 1 {
        assert(parts == seq![list[0]]);
    }
    if causes@.len() == 2 {
        assert(list.drop_last() == seq![list[0]]);
        if list[0] == list[1] {
            assert(parts == seq![list[0]]);
        } else {
            assert(parts == seq![list[0], list[1]]);
            assert(parts.drop_last() == seq![list[0]]);
        }
    }
}

/// Every error leads to the state of its kind, and no two kinds but an unusable configuration and
/// an unreachable cluster share one.
pub proof fn lemma_states_of_errors(error: &InspectError, r: ConnectionState)
    requires
        call_ensures(InspectError::state, (error,), r),
    ensures
        r == ConnectionState::Unavailable <==> error is Config || error is Unavailable,
        r == ConnectionState::AuthenticationFailed <==> error is AuthenticationFailed,
        r == ConnectionState::PermissionDenied <==> error is PermissionDenied,
        r == ConnectionState::TimedOut <==> error is TimedOut,
        r == ConnectionState::TlsError <==> error is Tls,
        r == ConnectionState::ApiError <==> error is Api,
        r != ConnectionState::Connected,
        r != ConnectionState::Connecting,
{
}

/// What an error says holds the message that it carries.
pub proof fn lemma_errors_say_their_message(error: &InspectError, r: String)
    requires
        call_ensures(InspectError::to_string, (error,), r),
    ensures
        error matches InspectError::Config(message) ==> r@
            == "kubeconfig is not usable for this context: "@ + message@,
        error matches InspectError::Unavailable(message) ==> r@ == "cluster is unreachable: "@
            + message@,
        error is AuthenticationFailed ==> r@ == "authentication failed"@,
        error matches InspectError::PermissionDenied(message) ==> r@ == "permission denied: "@
            + message@,
        error matches InspectError::TimedOut(budget) ==> (budget@ == 0 ==> r@ == "timed out"@),
        error matches InspectError::TimedOut(budget) ==> (budget.beyond() == 0 && 0
            < budget.whole() <= 16_777_216 ==> r@ == "timed out after "@ + (text::decimal(
            budget.whole() as nat,
        ) + ".0"@) + "s"@),
        error matches InspectError::Tls(message) ==> r@ == "TLS error: "@ + message@,
        error matches InspectError::Api(message) ==> r@ == "Kubernetes API error: "@ + message@,
{
}

/// The name of a state.
pub proof fn lemma_names_of_states(state: &ConnectionState, r: String)
    requires
        call_ensures(ConnectionState::to_string, (state,), r),
    ensures
        state is Connecting ==> r@ == "Connecting..."@,
        state is Connected ==> r@ == "Connected"@,
        state is Unavailable ==> r@ == "Unavailable"@,
        state is AuthenticationFailed ==> r@ == "Authentication failed"@,
        state is PermissionDenied ==> r@ == "Permission denied"@,
        state is TimedOut ==> r@ == "Timed out"@,
        state is TlsError ==> r@ == "TLS error"@,
        state is ApiError ==> r@ == "API error"@,
{
}

// ---------------------------------------------------------------------------------------------
// Sections
// ---------------------------------------------------------------------------------------------
/// A section that failed is denied exactly if the answer was 403, else unavailable with what the
/// error says; it is never read.
pub proof fn lemma_failed_sections<T>(failure: &Failure, r: Availability<T>)
    requires
        call_ensures(Availability::<T>::from_error, (failure,), r),
    ensures
        r is Denied <==> (failure matches Failure::Api { code, .. } && code == 403),
        r is Denied || r is Unavailable,
        r matches Availability::Unavailable(message) ==> exists|error: InspectError| #[trigger]
            kubernetes::classified(*failure, error) && message@ == error.shown(),
{
}

/// What is said of a section that was not read.
pub proof fn lemma_sections_described<T>(section: &Availability<T>, r: String)
    requires
        call_ensures(Availability::<T>::describe, (section,), r),
    ensures
        section is Denied ==> r@ == "unavailable (permission denied)"@,
        section matches Availability::Unavailable(message) ==> r@ == "unavailable ("@ + message@
            + ")"@,
        section is NotChecked ==> r@ == "not checked"@,
{
}

/// Whether a failure makes a section denied or unavailable.
pub open spec fn fails<T>(failure: Failure, section: Availability<T>) -> bool {
    &&& section is Denied <==> (failure matches Failure::Api { code, .. } && code == 403)
    &&& section is Denied || section is Unavailable
}

/// Each section is the health of what was listed, with the list's own word on whether it was cut
/// short, or has failed where the request did.
pub proof fn lemma_sections_are_read(
    nodes: Result<Listing<Node>, Failure>,
    nodes_r: Section<NodeSummary>,
    namespace: Result<Namespace, Failure>,
    namespace_r: Section<NamespaceSummary>,
    pods: Result<Listing<Pod>, Failure>,
    pods_r: Section<PodStats>,
    deployments: Result<Listing<Deployment>, Failure>,
    deployments_r: Section<ReplicaStats>,
)
    requires
        call_ensures(inspection::read_nodes, (nodes,), nodes_r),
        call_ensures(inspection::read_namespace, (namespace,), namespace_r),
        call_ensures(inspection::read_pods, (pods,), pods_r),
        call_ensures(inspection::read_deployments, (deployments,), deployments_r),
    ensures
        nodes is Ok <==> nodes_r is Read,
        nodes matches Err(failure) ==> fails(failure, nodes_r),
        nodes matches Ok(listing) ==> kubernetes::health::nodes_summarised(
            listing.items@,
            listing.truncated,
            nodes_r->Read_0,
        ),
        namespace is Ok <==> namespace_r is Read,
        namespace matches Err(failure) ==> fails(failure, namespace_r),
        namespace matches Ok(object) ==> kubernetes::health::namespace_summarised(
            object,
            namespace_r->Read_0,
        ),
        pods is Ok <==> pods_r is Read,
        pods matches Err(failure) ==> fails(failure, pods_r),
        pods matches Ok(listing) ==> kubernetes::health::pods_summarised(
            listing.items@,
            listing.truncated,
            pods_r->Read_0,
        ),
        deployments is Ok <==> deployments_r is Read,
        deployments matches Err(failure) ==> fails(failure, deployments_r),
        deployments matches Ok(listing) ==> kubernetes::health::deployments_summarised(
            listing.items@,
            listing.truncated,
            deployments_r->Read_0,
        ),
{
}

/// The same of the other kinds.
pub proof fn lemma_more_sections_are_read(
    statefulsets: Result<Listing<StatefulSet>, Failure>,
    statefulsets_r: Section<ReplicaStats>,
    daemonsets: Result<Listing<DaemonSet>, Failure>,
    daemonsets_r: Section<DaemonSetStats>,
    jobs: Result<Listing<Job>, Failure>,
    jobs_r: Section<JobStats>,
    cronjobs: Result<Listing<CronJob>, Failure>,
    cronjobs_r: Section<CronJobStats>,
)
    requires
        call_ensures(inspection::read_statefulsets, (statefulsets,), statefulsets_r),
        call_ensures(inspection::read_daemonsets, (daemonsets,), daemonsets_r),
        call_ensures(inspection::read_jobs, (jobs,), jobs_r),
        call_ensures(inspection::read_cronjobs, (cronjobs,), cronjobs_r),
    ensures
        statefulsets is Ok <==> statefulsets_r is Read,
        statefulsets matches Err(failure) ==> fails(failure, statefulsets_r),
        statefulsets matches Ok(listing) ==> kubernetes::health::statefulsets_summarised(
            listing.items@,
            listing.truncated,
            statefulsets_r->Read_0,
        ),
        daemonsets is Ok <==> daemonsets_r is Read,
        daemonsets matches Err(failure) ==> fails(failure, daemonsets_r),
        daemonsets matches Ok(listing) ==> kubernetes::health::daemonsets_summarised(
            listing.items@,
            listing.truncated,
            daemonsets_r->Read_0,
        ),
        jobs is Ok <==> jobs_r is Read,
        jobs matches Err(failure) ==> fails(failure, jobs_r),
        jobs matches Ok(listing) ==> kubernetes::health::jobs_summarised(
            listing.items@,
            listing.truncated,
            jobs_r->Read_0,
        ),
        cronjobs is Ok <==> cronjobs_r is Read,
        cronjobs matches Err(failure) ==> fails(failure, cronjobs_r),
        cronjobs matches Ok(listing) ==> kubernetes::health::cronjobs_summarised(
            listing.items@,
            listing.truncated,
            cronjobs_r->Read_0,
        ),
{
}

/// A list was cut short exactly if the server sent a token to go on with.
pub proof fn lemma_lists_cut_short<T>(items: Vec<T>, token: Option<&str>, r: Listing<T>)
    requires
        call_ensures(Listing::<T>::new, (items, token), r),
    ensures
        r.items@ == items@,
        token is None ==> !r.truncated,
        token matches Some(token) ==> (r.truncated <==> token@.len() > 0),
{
}

/// What a section found.
pub open spec fn found<T>(section: Section<T>) -> Seq<Observation> {
    match section {
        Availability::Read(pair) => pair.1@,
        _ => Seq::empty(),
    }
}

/// Whether a summary keeps what a section holds: its figures if it was read, else why not.
pub open spec fn keeps<T>(section: Section<T>, summary: Availability<T>) -> bool {
    match section {
        Availability::Read(pair) => summary == Availability::Read(pair.0),
        Availability::Denied => summary is Denied,
        Availability::Unavailable(message) => summary == Availability::<T>::Unavailable(message),
        Availability::NotChecked => summary is NotChecked,
    }
}

/// Filling in sections keeps each one's figures in its own place and adds what they found in the
/// order nodes, namespace, pods, deployments, StatefulSets, DaemonSets, jobs, CronJobs. Everything
/// else stays.
pub proof fn lemma_filling(snapshot: &mut Inspection, sections: Sections)
    requires
        call_ensures(Inspection::fill, (snapshot, sections), ()),
    ensures
        keeps(sections.nodes, final(snapshot).nodes),
        keeps(sections.namespace, final(snapshot).namespace_status),
        keeps(sections.pods, final(snapshot).workloads.pods),
        keeps(sections.deployments, final(snapshot).workloads.deployments),
        keeps(sections.statefulsets, final(snapshot).workloads.statefulsets),
        keeps(sections.daemonsets, final(snapshot).workloads.daemonsets),
        keeps(sections.jobs, final(snapshot).workloads.jobs),
        keeps(sections.cronjobs, final(snapshot).workloads.cronjobs),
        final(snapshot).observations@ == old(snapshot).observations@ + found(sections.nodes)
            + found(sections.namespace) + found(sections.pods) + found(sections.deployments)
            + found(sections.statefulsets) + found(sections.daemonsets) + found(sections.jobs)
            + found(sections.cronjobs),
        final(snapshot).context == old(snapshot).context,
        final(snapshot).cluster == old(snapshot).cluster,
        final(snapshot).server == old(snapshot).server,
        final(snapshot).namespace == old(snapshot).namespace,
        final(snapshot).identity == old(snapshot).identity,
        final(snapshot).state == old(snapshot).state,
        final(snapshot).message == old(snapshot).message,
        final(snapshot).latency == old(snapshot).latency,
        final(snapshot).version == old(snapshot).version,
{
    let parts = inspection::parts(sections);
    let before = old(snapshot).observations@;
    next_part(before, parts, 0);
    next_part(before, parts, 1);
    next_part(before, parts, 2);
    next_part(before, parts, 3);
    next_part(before, parts, 4);
    next_part(before, parts, 5);
    next_part(before, parts, 6);
    next_part(before, parts, 7);
    assert(parts.take(8) == parts);
}

proof fn next_part(before: Seq<Observation>, parts: Seq<Seq<Observation>>, k: int)
    requires
        0 <= k < parts.len(),
    ensures
        before + inspection::strung(parts.take(k + 1)) == before + inspection::strung(parts.take(k))
            + parts[k],
        k == 0 ==> before + inspection::strung(parts.take(k)) == before,
{
    assert(parts.take(k + 1).drop_last() == parts.take(k));
    assert(parts.take(k + 1).last() == parts[k]);
    let front = inspection::strung(parts.take(k));
    assert(before + (front + parts[k]) == before + front + parts[k]);
    if k == 0 {
        assert(front.len() == 0);
        assert(before + front == before);
    }
}

// ---------------------------------------------------------------------------------------------
// The course of an inspection
// ---------------------------------------------------------------------------------------------
/// An inspection starts from what the context says of itself, in the namespace that was asked for
/// or the one that the context sets, with nothing checked and nothing found.
pub proof fn lemma_start(entry: &ContextEntry, over: Option<&str>, r: Inspection)
    requires
        call_ensures(Inspection::start, (entry, over), r),
    ensures
        r.context@ == entry.name@,
        r.cluster@ == entry.cluster@,
        r.server == entry.server,
        r.identity == entry.auth_method,
        over matches Some(namespace) ==> r.namespace@ == namespace@,
        over is None && entry.namespace is Some ==> r.namespace@ == entry.namespace->0@,
        over is None && entry.namespace is None ==> r.namespace@ == "default"@,
        r.state is Connecting,
        r.message is None,
        r.latency is None,
        r.version is NotChecked,
        r.nodes is NotChecked,
        r.namespace_status is NotChecked,
        r.workloads.pods is NotChecked,
        r.workloads.deployments is NotChecked,
        r.workloads.statefulsets is NotChecked,
        r.workloads.daemonsets is NotChecked,
        r.workloads.jobs is NotChecked,
        r.workloads.cronjobs is NotChecked,
        r.observations@.len() == 0,
{
}

/// Connecting sets the server, and the namespace unless one was asked for.
pub proof fn lemma_connect(
    snapshot: &mut Inspection,
    server: String,
    namespace: String,
    overridden: bool,
)
    requires
        call_ensures(Inspection::connect, (snapshot, server, namespace, overridden), ()),
    ensures
        final(snapshot).server == Some(server),
        overridden ==> final(snapshot).namespace == old(snapshot).namespace,
        !overridden ==> final(snapshot).namespace == namespace,
        *final(snapshot) == (Inspection {
            server: final(snapshot).server,
            namespace: final(snapshot).namespace,
            ..*old(snapshot)
        }),
{
}

/// The probe keeps the version and the time it took; a refused permission counts as an answer, and
/// any other failure ends the inspection and changes nothing.
pub proof fn lemma_probe(
    snapshot: &mut Inspection,
    answer: Result<ServerVersion, Failure>,
    latency: Duration,
    r: Result<(), InspectError>,
)
    requires
        call_ensures(Inspection::probe, (snapshot, answer, latency), r),
    ensures
        r is Ok <==> (answer is Ok || (answer->Err_0 matches Failure::Api { code, .. } && code
            == 403)),
        r is Ok ==> final(snapshot).latency == Some(latency),
        answer matches Ok(version) ==> final(snapshot).version == Availability::Read(version),
        answer is Err && r is Ok ==> final(snapshot).version is Denied,
        r is Err ==> *final(snapshot) == *old(snapshot) && kubernetes::classified(
            answer->Err_0,
            r->Err_0,
        ),
        *final(snapshot) == (Inspection {
            latency: final(snapshot).latency,
            version: final(snapshot).version,
            ..*old(snapshot)
        }),
{
}

/// What is asked for is the nodes, the namespace itself and the six kinds of workloads in that
/// namespace and in no other, at most five hundred of each.
pub proof fn lemma_plan(snapshot: &Inspection, r: Plan)
    requires
        call_ensures(Inspection::plan, (snapshot,), r),
    ensures
        r.nodes.limit == 500,
        r.namespace.name@ == snapshot.namespace@,
        r.pods.namespace@ == snapshot.namespace@ && r.pods.limit == 500,
        r.deployments.namespace@ == snapshot.namespace@ && r.deployments.limit == 500,
        r.statefulsets.namespace@ == snapshot.namespace@ && r.statefulsets.limit == 500,
        r.daemonsets.namespace@ == snapshot.namespace@ && r.daemonsets.limit == 500,
        r.jobs.namespace@ == snapshot.namespace@ && r.jobs.limit == 500,
        r.cronjobs.namespace@ == snapshot.namespace@ && r.cronjobs.limit == 500,
{
    assert(r.workloads()[0] == r.pods);
    assert(r.workloads()[1] == r.deployments);
    assert(r.workloads()[2] == r.statefulsets);
    assert(r.workloads()[3] == r.daemonsets);
    assert(r.workloads()[4] == r.jobs);
    assert(r.workloads()[5] == r.cronjobs);
}

/// An inspection ends connected, or with the state and the words of its error, or timed out; what
/// was found is put in order, and everything else stays.
pub proof fn lemma_finish(snapshot: &mut Inspection, outcome: Outcome)
    requires
        call_ensures(Inspection::finish, (snapshot, outcome), ()),
    ensures
        outcome is Complete ==> final(snapshot).state is Connected && final(snapshot).message
            == old(snapshot).message,
        outcome matches Outcome::Failed(error) ==> {
            &&& final(snapshot).state == error.implied()
            &&& final(snapshot).message matches Some(message) && message@ == error.shown()
        },
        outcome matches Outcome::Elapsed(overall) ==> {
            &&& final(snapshot).state is TimedOut
            &&& final(snapshot).message matches Some(message) && message@
                == InspectError::TimedOut(overall).shown()
        },
        final(snapshot).observations@ == inspection::ranked(old(snapshot).observations@),
        *final(snapshot) == (Inspection {
            state: final(snapshot).state,
            message: final(snapshot).message,
            observations: final(snapshot).observations,
            ..*old(snapshot)
        }),
{
}

/// Whether no problem stands behind a warning or a note, and no warning behind a note.
pub open spec fn descends(observations: Seq<Observation>) -> bool {
    forall|i: int, j: int|
        0 <= i < j < observations.len() ==> !((#[trigger] observations[j]).severity is Problem
            && !((#[trigger] observations[i]).severity is Problem)) && !(
        observations[j].severity is Warning && observations[i].severity is Info)
}

/// What was found is put in the order of its severity, as [`lemma_severities_descend`] and
/// [`lemma_severity_is_kept`] say.
pub proof fn lemma_most_severe_first(observations: &Vec<Observation>, r: Vec<Observation>)
    requires
        call_ensures(inspection::most_severe_first, (observations,), r),
    ensures
        r@ == inspection::ranked(observations@),
        descends(r@),
{
    lemma_severities_descend(observations@);
}

/// What is of a severity is told by the severity alone.
pub proof fn lemma_of_severity(observations: Seq<Observation>)
    ensures
        observations.filter(|o: Observation| o.severity is Problem) == inspection::of_severity(
            observations,
            Severity::Problem,
        ),
        observations.filter(|o: Observation| o.severity is Warning) == inspection::of_severity(
            observations,
            Severity::Warning,
        ),
        observations.filter(|o: Observation| o.severity is Info) == inspection::of_severity(
            observations,
            Severity::Info,
        ),
{
    crate::laws::health::same_filter(
        observations,
        |o: Observation| o.severity is Problem,
        |o: Observation| o.severity == Severity::Problem,
    );
    crate::laws::health::same_filter(
        observations,
        |o: Observation| o.severity is Warning,
        |o: Observation| o.severity == Severity::Warning,
    );
    crate::laws::health::same_filter(
        observations,
        |o: Observation| o.severity is Info,
        |o: Observation| o.severity == Severity::Info,
    );
}

/// Problems come before warnings and warnings before notes.
pub proof fn lemma_severities_descend(observations: Seq<Observation>)
    ensures
        descends(inspection::ranked(observations)),
{
    let all = inspection::ranked(observations);
    let problems = inspection::of_severity(observations, Severity::Problem);
    let warnings = inspection::of_severity(observations, Severity::Warning);
    let infos = inspection::of_severity(observations, Severity::Info);
    one_severity(observations, Severity::Problem);
    one_severity(observations, Severity::Warning);
    one_severity(observations, Severity::Info);
    assert forall|i: int, j: int| 0 <= i < j < all.len() implies !((
    #[trigger] all[j]).severity is Problem && !((#[trigger] all[i]).severity is Problem)) && !(
    all[j].severity is Warning && all[i].severity is Info) by {
        let a = problems.len() as int;
        let b = a + warnings.len();
        assert(i < a ==> all[i] == problems[i]);
        assert(a <= i < b ==> all[i] == warnings[i - a]);
        assert(b <= i ==> all[i] == infos[i - b]);
        assert(j < a ==> all[j] == problems[j]);
        assert(a <= j < b ==> all[j] == warnings[j - a]);
        assert(b <= j ==> all[j] == infos[j - b]);
    }
}

/// Of each severity, everything found stays, and in its order.
pub proof fn lemma_severity_is_kept(observations: Seq<Observation>, severity: Severity)
    ensures
        inspection::of_severity(inspection::ranked(observations), severity)
            == inspection::of_severity(observations, severity),
{
    let problems = inspection::of_severity(observations, Severity::Problem);
    let warnings = inspection::of_severity(observations, Severity::Warning);
    let infos = inspection::of_severity(observations, Severity::Info);
    one_severity(observations, Severity::Problem);
    one_severity(observations, Severity::Warning);
    one_severity(observations, Severity::Info);
    let wanted = |o: Observation| o.severity == severity;
    Seq::filter_distributes_over_add(problems + warnings, infos, wanted);
    Seq::filter_distributes_over_add(problems, warnings, wanted);
    filter_all_or_none(problems, Severity::Problem, severity);
    filter_all_or_none(warnings, Severity::Warning, severity);
    filter_all_or_none(infos, Severity::Info, severity);
    let none = Seq::<Observation>::empty();
    assert(none + none == none);
    assert(problems + none + none == problems);
    assert(none + warnings + none == warnings);
    assert(none + none + infos == infos);
}

proof fn one_severity(observations: Seq<Observation>, severity: Severity)
    ensures
        forall|i: int|
            0 <= i < inspection::of_severity(observations, severity).len() ==> (
            #[trigger] inspection::of_severity(observations, severity)[i]).severity == severity,
{
    crate::laws::health::filtered_holds(observations, |o: Observation| o.severity == severity);
}

proof fn filter_all_or_none(all: Seq<Observation>, had: Severity, severity: Severity)
    requires
        forall|i: int| 0 <= i < all.len() ==> (#[trigger] all[i]).severity == had,
    ensures
        all.filter(|o: Observation| o.severity == severity) == (if had == severity {
            all
        } else {
            Seq::<Observation>::empty()
        }),
    decreases all.len(),
{
    reveal(Seq::filter);
    if all.len() > 0 {
        let front = all.drop_last();
        assert forall|i: int| 0 <= i < front.len() implies (#[trigger] front[i]).severity
            == had by {
            assert(front[i] == all[i]);
        }
        filter_all_or_none(front, had, severity);
        assert(all[all.len() - 1].severity == had);
        assert(front.push(all.last()) == all);
    }
}

/// There are problems exactly if something was found that is a warning or a problem.
pub proof fn lemma_has_problems(snapshot: &Inspection, r: bool)
    requires
        call_ensures(Inspection::has_problems, (snapshot,), r),
    ensures
        r <==> exists|i: int|
            0 <= i < snapshot.observations@.len() && ((
            #[trigger] snapshot.observations@[i]).severity is Warning
                || snapshot.observations@[i].severity is Problem),
{
}

/// Connecting may take three seconds, a request five and everything eight; with another limit for
/// everything, neither of the others is longer than it.
pub proof fn lemma_timeouts(standard: Timeouts, overall: Duration, r: Timeouts)
    requires
        call_ensures(Timeouts::default, (), standard),
        call_ensures(Timeouts::with_overall, (overall,), r),
    ensures
        standard.connect@ == 3_000_000_000,
        standard.request@ == 5_000_000_000,
        standard.overall@ == 8_000_000_000,
        r.overall == overall,
        r.connect@ <= overall@ && r.connect@ <= 3_000_000_000,
        r.connect@ == overall@ || r.connect@ == 3_000_000_000,
        r.request@ <= overall@ && r.request@ <= 5_000_000_000,
        r.request@ == overall@ || r.request@ == 5_000_000_000,
{
}

/// A client reads the context of its own file, waits no longer than the timeouts say, and does not
/// try again.
pub proof fn lemma_client_setup(entry: &ContextEntry, timeouts: Timeouts, r: ClientSetup)
    requires
        call_ensures(ClientSetup::new, (entry, timeouts), r),
    ensures
        r.source@ == entry.source@,
        r.context@ == entry.name@,
        r.connect_timeout@ == timeouts.connect@,
        r.read_timeout@ == timeouts.request@,
        r.write_timeout@ == timeouts.request@,
        !r.retry,
{
}

/// An inspection that is pending stands in the namespace given to it, with nothing checked; a
/// section has a value exactly if it was read.
pub proof fn lemma_pending<T>(
    entry: &ContextEntry,
    namespace: &str,
    r: Inspection,
    section: &Availability<T>,
    value: Option<&T>,
    unchecked: Availability<T>,
)
    requires
        call_ensures(Inspection::pending, (entry, namespace), r),
        call_ensures(Availability::<T>::value, (section,), value),
        call_ensures(Availability::<T>::default, (), unchecked),
    ensures
        r.context@ == entry.name@,
        r.cluster@ == entry.cluster@,
        r.server == entry.server,
        r.namespace@ == namespace@,
        r.identity == entry.auth_method,
        r.state is Connecting,
        r.message is None,
        r.latency is None,
        r.version is NotChecked,
        r.nodes is NotChecked,
        r.namespace_status is NotChecked,
        r.workloads.pods is NotChecked,
        r.workloads.cronjobs is NotChecked,
        r.observations@.len() == 0,
        value is Some <==> section is Read,
        value matches Some(stats) ==> section == Availability::Read(*stats),
        unchecked is NotChecked,
{
}

/// What an answer says is its message, else its reason; only a refused permission counts as one;
/// and a message on time says the seconds.
pub proof fn lemma_small_words(
    message: &str,
    reason: &str,
    told: String,
    error: &InspectError,
    denied: bool,
    seconds: &str,
    timeout: String,
)
    requires
        call_ensures(kubernetes::describe, (message, reason), told),
        call_ensures(InspectError::is_permission_denied, (error,), denied),
        call_ensures(kubernetes::timeout_text, (seconds,), timeout),
    ensures
        message@.len() > 0 ==> told@ == message@,
        message@.len() == 0 && reason@.len() > 0 ==> told@ == reason@,
        message@.len() == 0 && reason@.len() == 0 ==> told@ == "no detail provided"@,
        denied <==> error is PermissionDenied,
        timeout@ == "timed out after "@ + seconds@ + "s"@,
{
}

/// Judging a chain of causes looks at its words in lower case, timeouts first, and keeps the chain
/// as it is.
pub proof fn lemma_judging(chain: String, lowered: &str, r: InspectError)
    requires
        call_ensures(kubernetes::judge, (chain, lowered), r),
    ensures
        r is TimedOut <==> names_timeout(lowered@),
        r is Tls <==> !names_timeout(lowered@) && names_tls(lowered@),
        r is Unavailable <==> !names_timeout(lowered@) && !names_tls(lowered@),
        r matches InspectError::TimedOut(budget) ==> budget@ == 0,
        r matches InspectError::Tls(shown) ==> shown@ == chain@,
        r matches InspectError::Unavailable(shown) ==> shown@ == chain@,
{
}

/// Collecting a section keeps its figures and adds what it found behind what there was.
pub proof fn lemma_collecting<T>(
    section: Section<T>,
    observations: &mut Vec<Observation>,
    r: Availability<T>,
)
    requires
        call_ensures(inspection::collect::<T>, (section, observations), r),
    ensures
        keeps(section, r),
        final(observations)@ == old(observations)@ + found(section),
{
}

/// A section that was read is described as available.
pub proof fn lemma_read_section_described<T>(section: &Availability<T>, r: String)
    requires
        call_ensures(Availability::<T>::describe, (section,), r),
        section is Read,
    ensures
        r@ == "available"@,
{
}

} // verus!
