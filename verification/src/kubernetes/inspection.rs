//! Turning the answers of a cluster into a read-only snapshot of a context.
//!
//! Two properties matter here:
//!
//! * **Nothing happens until asked.** Building the context list never calls this module, so
//!   startup stays local and instant.
//! * **Partial results are normal.** Every section is fetched independently and degrades to
//!   [`Availability::Denied`] or [`Availability::Unavailable`] on its own, so read-only
//!   credentials that cannot list Nodes still get Pod information.

use vstd::prelude::*;

use crate::kubeconfig::{AuthMethod, ContextEntry};
use crate::kubernetes;
use crate::kubernetes::health;
use crate::kubernetes::health::{
    observe_cronjobs, observe_daemonsets, observe_deployments, observe_jobs, observe_namespace,
    observe_nodes, observe_pods, observe_statefulsets, CronJob, CronJobStats, DaemonSet,
    DaemonSetStats, Deployment, Job, JobStats, Namespace, NamespaceSummary, Node, NodeSummary,
    Observation, Pod, PodStats, ReplicaStats, Severity, StatefulSet,
};
use crate::kubernetes::read::{ClusterGet, ClusterList, Listing, NamespacedList};
use crate::kubernetes::{classify, ConnectionState, Failure, InspectError};
use crate::text;
use crate::text::copy_optional;
use crate::time::Duration;

verus! {

/// Upper bound on objects fetched per kind. Inspection is a glance, not an inventory.
pub const LIST_LIMIT: u32 = 500;

/// Whether a section of the snapshot could be filled in.
#[derive(Debug, Clone, PartialEq, Eq)]
pub enum Availability<T> {
    /// The data was read successfully.
    Read(T),
    /// The credentials are not allowed to read it (HTTP 403).
    Denied,
    /// The read failed for another reason.
    Unavailable(String),
    /// Not attempted, because the cluster could not be reached at all.
    NotChecked,
}

impl<T> Default for Availability<T> {
    fn default() -> (r: Self)
        ensures
            r is NotChecked,
    {
        Availability::NotChecked
    }
}

/// Whether a section is what a failed read makes of it: permission problems are expected and
/// reported as such, any other failure with its message.
pub open spec fn failed_section<T>(failure: Failure, section: Availability<T>) -> bool {
    exists|error: InspectError|
        {
            &&& #[trigger] kubernetes::classified(failure, error)
            &&& if error is PermissionDenied {
                section is Denied
            } else {
                section matches Availability::Unavailable(message) && message@ == error.shown()
            }
        }
}

impl<T> Availability<T> {
    /// Classify a failed read: permission problems are expected and reported as such.
    pub fn from_error(failure: &Failure) -> (r: Self)
        ensures
            failed_section(*failure, r),
    {
        let error = classify(failure);
        if error.is_permission_denied() {
            Availability::Denied
        } else {
            Availability::Unavailable(error.to_string())
        }
    }

    /// The value, if it was read.
    pub fn value(&self) -> (r: Option<&T>)
        ensures
            match self {
                Availability::Read(value) => r == Some(value),
                _ => r is None,
            },
    {
        match self {
            Availability::Read(value) => Some(value),
            _ => None,
        }
    }

    /// How a section is described to a reader.
    pub open spec fn described(self) -> Seq<char> {
        match self {
            Availability::Read(_) => "available"@,
            Availability::Denied => "unavailable (permission denied)"@,
            Availability::Unavailable(message) => "unavailable ("@ + message@ + ")"@,
            Availability::NotChecked => "not checked"@,
        }
    }

    /// How to describe this section to a reader — shared by the CLI and the TUI so both explain
    /// a missing section the same way.
    pub fn describe(&self) -> (r: String)
        ensures
            r@ == self.described(),
    {
        match self {
            Availability::Read(_) => "available".to_owned(),
            Availability::Denied => "unavailable (permission denied)".to_owned(),
            Availability::Unavailable(message) => {
                let mut out = "unavailable (".to_owned();
                out.append(message.as_str());
                out.append(")");
                out
            },
            Availability::NotChecked => "not checked".to_owned(),
        }
    }
}

/// Server version as reported by `/version`.
#[derive(Debug, Clone, PartialEq, Eq)]
pub struct ServerVersion {
    /// e.g. `v1.30.2`.
    pub git_version: String,
    /// e.g. `linux/amd64`.
    pub platform: String,
}

/// Per-kind workload summaries for the inspected namespace.
#[derive(Debug, Clone, PartialEq, Eq)]
pub struct Workloads {
    /// Pods.
    pub pods: Availability<PodStats>,
    /// Deployments.
    pub deployments: Availability<ReplicaStats>,
    /// StatefulSets.
    pub statefulsets: Availability<ReplicaStats>,
    /// DaemonSets.
    pub daemonsets: Availability<DaemonSetStats>,
    /// Jobs.
    pub jobs: Availability<JobStats>,
    /// CronJobs.
    pub cronjobs: Availability<CronJobStats>,
}

impl Default for Workloads {
    fn default() -> (r: Self)
        ensures
            r == nothing_checked(),
    {
        Workloads {
            pods: Availability::NotChecked,
            deployments: Availability::NotChecked,
            statefulsets: Availability::NotChecked,
            daemonsets: Availability::NotChecked,
            jobs: Availability::NotChecked,
            cronjobs: Availability::NotChecked,
        }
    }
}

/// Workloads of which none were attempted.
pub open spec fn nothing_checked() -> Workloads {
    Workloads {
        pods: Availability::NotChecked,
        deployments: Availability::NotChecked,
        statefulsets: Availability::NotChecked,
        daemonsets: Availability::NotChecked,
        jobs: Availability::NotChecked,
        cronjobs: Availability::NotChecked,
    }
}

/// A read-only snapshot of one context.
#[derive(Debug, Clone, PartialEq, Eq)]
pub struct Inspection {
    /// Context name.
    pub context: String,
    /// Cluster name from the kubeconfig.
    pub cluster: String,
    /// API server URL.
    pub server: Option<String>,
    /// Namespace the workload sections refer to.
    pub namespace: String,
    /// How the context authenticates (never a credential itself).
    pub identity: AuthMethod,
    /// Outcome of the connection attempt.
    pub state: ConnectionState,
    /// Detail for a non-`Connected` state.
    pub message: Option<String>,
    /// Round-trip time of the `/version` request.
    pub latency: Option<Duration>,
    /// Kubernetes version of the API server.
    pub version: Availability<ServerVersion>,
    /// Cluster nodes.
    pub nodes: Availability<NodeSummary>,
    /// The inspected namespace itself.
    pub namespace_status: Availability<NamespaceSummary>,
    /// Workloads in the inspected namespace.
    pub workloads: Workloads,
    /// Everything notable that was observed, most severe first.
    pub observations: Vec<Observation>,
}

/// Whether a snapshot of a context has not been attempted yet.
pub open spec fn is_pending(entry: ContextEntry, namespace: Seq<char>, snapshot: Inspection) -> bool {
    &&& snapshot.context == entry.name
    &&& snapshot.cluster == entry.cluster
    &&& snapshot.server == entry.server
    &&& snapshot.namespace@ == namespace
    &&& snapshot.identity == entry.auth_method
    &&& snapshot.state == ConnectionState::Connecting
    &&& snapshot.message is None
    &&& snapshot.latency is None
    &&& snapshot.version is NotChecked
    &&& snapshot.nodes is NotChecked
    &&& snapshot.namespace_status is NotChecked
    &&& snapshot.workloads == nothing_checked()
    &&& snapshot.observations@.len() == 0
}

impl Inspection {
    /// A snapshot that has not been attempted yet, used for the `Connecting...` state.
    pub fn pending(entry: &ContextEntry, namespace: &str) -> (r: Self)
        ensures
            is_pending(*entry, namespace@, r),
    {
        Inspection {
            context: entry.name.clone(),
            cluster: entry.cluster.clone(),
            server: copy_optional(&entry.server),
            namespace: namespace.to_owned(),
            identity: entry.auth_method.clone(),
            state: ConnectionState::Connecting,
            message: None,
            latency: None,
            version: Availability::NotChecked,
            nodes: Availability::NotChecked,
            namespace_status: Availability::NotChecked,
            workloads: Workloads::default(),
            observations: Vec::new(),
        }
    }

    /// True when at least one observation is a warning or a problem.
    pub fn has_problems(&self) -> (r: bool)
        ensures
            r == exists|i: int|
                0 <= i < self.observations@.len() && (#[trigger] self.observations@[i]).severity
                    != Severity::Info,
    {
        for i in 0..self.observations.len()
            invariant
                forall|j: int|
                    0 <= j < i ==> (#[trigger] self.observations@[j]).severity == Severity::Info,
        {
            if self.observations[i].severity != Severity::Info {
                return true;
            }
        }
        false
    }
}

// ---------------------------------------------------------------------------------------------
// The order of observations
// ---------------------------------------------------------------------------------------------
/// The observations of one severity, in order.
pub open spec fn of_severity(observations: Seq<Observation>, severity: Severity) -> Seq<
    Observation,
> {
    observations.filter(|observation: Observation| observation.severity == severity)
}

/// Observations with the most severe first; equal severities keep the order they came in.
pub open spec fn ranked(observations: Seq<Observation>) -> Seq<Observation> {
    of_severity(observations, Severity::Problem) + of_severity(observations, Severity::Warning)
        + of_severity(observations, Severity::Info)
}

fn push_severity(
    sorted: &mut Vec<Observation>,
    observations: &Vec<Observation>,
    severity: Severity,
)
    ensures
        final(sorted)@ == old(sorted)@ + of_severity(observations@, severity),
{
    let ghost given = sorted@;
    let ghost wanted = |observation: Observation| observation.severity == severity;
    proof {
        reveal(Seq::filter);
        assert(given + observations@.take(0).filter(wanted) == given);
    }
    for i in 0..observations.len()
        invariant
            given == old(sorted)@,
            wanted == (|observation: Observation| observation.severity == severity),
            sorted@ == given + observations@.take(i as int).filter(wanted),
    {
        proof {
            reveal(Seq::filter);
            assert(observations@.take(i + 1).drop_last() == observations@.take(i as int));
        }
        if observations[i].severity == severity {
            sorted.push(observations[i].clone());
        }
    }
    proof {
        assert(observations@.take(observations@.len() as int) == observations@);
    }
}

/// Most severe first; equal severities keep the order they were produced in.
pub fn most_severe_first(observations: &Vec<Observation>) -> (r: Vec<Observation>)
    ensures
        r@ == ranked(observations@),
{
    let mut sorted: Vec<Observation> = Vec::new();
    push_severity(&mut sorted, observations, Severity::Problem);
    push_severity(&mut sorted, observations, Severity::Warning);
    push_severity(&mut sorted, observations, Severity::Info);
    sorted
}

/// How severe an observation is, as a number.
pub open spec fn weight(severity: Severity) -> int {
    match severity {
        Severity::Info => 0,
        Severity::Warning => 1,
        Severity::Problem => 2,
    }
}

/// Ranking keeps every observation and puts none before a more severe one.
pub proof fn lemma_ranked(observations: Seq<Observation>)
    ensures
        ranked(observations).to_multiset() == observations.to_multiset(),
        forall|i: int, j: int|
            0 <= i < j < ranked(observations).len() ==> weight(
                (#[trigger] ranked(observations)[i]).severity,
            ) >= weight((#[trigger] ranked(observations)[j]).severity),
{
    let problems = of_severity(observations, Severity::Problem);
    let warnings = of_severity(observations, Severity::Warning);
    let infos = of_severity(observations, Severity::Info);
    lemma_severities_partition(observations);
    vstd::seq_lib::lemma_multiset_commutative(problems, warnings);
    vstd::seq_lib::lemma_multiset_commutative(problems + warnings, infos);
    lemma_one_severity(observations, Severity::Problem);
    lemma_one_severity(observations, Severity::Warning);
    lemma_one_severity(observations, Severity::Info);
    let all = ranked(observations);
    assert forall|i: int, j: int| 0 <= i < j < all.len() implies weight(
        (#[trigger] all[i]).severity,
    ) >= weight((#[trigger] all[j]).severity) by {
        let a = problems.len() as int;
        let b = a + warnings.len();
        assert(i < a ==> all[i] == problems[i]);
        assert(a <= i < b ==> all[i] == warnings[i - a]);
        assert(b <= i ==> all[i] == infos[i - b]);
        assert(j < a ==> all[j] == problems[j]);
        assert(a <= j < b ==> all[j] == warnings[j - a]);
        assert(b <= j ==> all[j] == infos[j - b]);
    }
}

proof fn lemma_one_severity(observations: Seq<Observation>, severity: Severity)
    ensures
        forall|i: int|
            0 <= i < of_severity(observations, severity).len() ==> (#[trigger] of_severity(
                observations,
                severity,
            )[i]).severity == severity,
    decreases observations.len(),
{
    reveal(Seq::filter);
    if observations.len() > 0 {
        lemma_one_severity(observations.drop_last(), severity);
    }
}

proof fn lemma_severities_partition(observations: Seq<Observation>)
    ensures
        observations.to_multiset() == of_severity(
            observations,
            Severity::Problem,
        ).to_multiset().add(of_severity(observations, Severity::Warning).to_multiset()).add(
            of_severity(observations, Severity::Info).to_multiset(),
        ),
    decreases observations.len(),
{
    broadcast use vstd::seq_lib::group_to_multiset_ensures;

    reveal(Seq::filter);
    if observations.len() == 0 {
        assert(observations.to_multiset() =~= vstd::multiset::Multiset::empty());
        assert(of_severity(observations, Severity::Problem).to_multiset()
            =~= vstd::multiset::Multiset::empty());
        assert(observations.to_multiset() =~= of_severity(
            observations,
            Severity::Problem,
        ).to_multiset().add(of_severity(observations, Severity::Warning).to_multiset()).add(
            of_severity(observations, Severity::Info).to_multiset(),
        ));
    } else {
        let shorter = observations.drop_last();
        lemma_severities_partition(shorter);
        assert(observations == shorter.push(observations.last()));
        assert(observations.to_multiset() =~= of_severity(
            observations,
            Severity::Problem,
        ).to_multiset().add(of_severity(observations, Severity::Warning).to_multiset()).add(
            of_severity(observations, Severity::Info).to_multiset(),
        ));
    }
}

// ---------------------------------------------------------------------------------------------
// Sections
// ---------------------------------------------------------------------------------------------
/// A section as it was read: a summary with what was observed.
pub type Section<T> = Availability<(T, Vec<Observation>)>;

/// Cluster nodes, if the credentials may list them.
pub fn read_nodes(answer: Result<Listing<Node>, Failure>) -> (r: Section<NodeSummary>)
    ensures
        match answer {
            Ok(listing) => r matches Availability::Read(found) && health::nodes_summarised(
                listing.items@,
                listing.truncated,
                found,
            ),
            Err(failure) => failed_section(failure, r),
        },
{
    match answer {
        Ok(listing) => Availability::Read(observe_nodes(&listing.items, listing.truncated)),
        Err(failure) => Availability::from_error(&failure),
    }
}

/// The inspected namespace object itself.
pub fn read_namespace(answer: Result<Namespace, Failure>) -> (r: Section<NamespaceSummary>)
    ensures
        match answer {
            Ok(object) => r matches Availability::Read(found) && health::namespace_summarised(
                object,
                found,
            ),
            Err(failure) => failed_section(failure, r),
        },
{
    match answer {
        Ok(object) => Availability::Read(observe_namespace(&object)),
        Err(failure) => Availability::from_error(&failure),
    }
}

/// Pods in the inspected namespace.
pub fn read_pods(answer: Result<Listing<Pod>, Failure>) -> (r: Section<PodStats>)
    ensures
        match answer {
            Ok(listing) => r matches Availability::Read(found) && health::pods_summarised(
                listing.items@,
                listing.truncated,
                found,
            ),
            Err(failure) => failed_section(failure, r),
        },
{
    match answer {
        Ok(listing) => Availability::Read(observe_pods(&listing.items, listing.truncated)),
        Err(failure) => Availability::from_error(&failure),
    }
}

/// Deployments in the inspected namespace.
pub fn read_deployments(answer: Result<Listing<Deployment>, Failure>) -> (r: Section<ReplicaStats>)
    requires
        answer is Ok ==> health::sums_fit(health::deployment_counts(answer->Ok_0.items@)),
    ensures
        match answer {
            Ok(listing) => r matches Availability::Read(found) && health::deployments_summarised(
                listing.items@,
                listing.truncated,
                found,
            ),
            Err(failure) => failed_section(failure, r),
        },
{
    match answer {
        Ok(listing) => Availability::Read(observe_deployments(&listing.items, listing.truncated)),
        Err(failure) => Availability::from_error(&failure),
    }
}

/// StatefulSets in the inspected namespace.
pub fn read_statefulsets(answer: Result<Listing<StatefulSet>, Failure>) -> (r: Section<ReplicaStats>)
    requires
        answer is Ok ==> health::sums_fit(health::statefulset_counts(answer->Ok_0.items@)),
    ensures
        match answer {
            Ok(listing) => r matches Availability::Read(found) && health::statefulsets_summarised(
                listing.items@,
                listing.truncated,
                found,
            ),
            Err(failure) => failed_section(failure, r),
        },
{
    match answer {
        Ok(listing) => Availability::Read(observe_statefulsets(&listing.items, listing.truncated)),
        Err(failure) => Availability::from_error(&failure),
    }
}

/// DaemonSets in the inspected namespace.
pub fn read_daemonsets(answer: Result<Listing<DaemonSet>, Failure>) -> (r: Section<DaemonSetStats>)
    requires
        answer is Ok ==> health::sums_fit(health::daemonset_counts(answer->Ok_0.items@)),
    ensures
        match answer {
            Ok(listing) => r matches Availability::Read(found) && health::daemonsets_summarised(
                listing.items@,
                listing.truncated,
                found,
            ),
            Err(failure) => failed_section(failure, r),
        },
{
    match answer {
        Ok(listing) => Availability::Read(observe_daemonsets(&listing.items, listing.truncated)),
        Err(failure) => Availability::from_error(&failure),
    }
}

/// Jobs in the inspected namespace.
pub fn read_jobs(answer: Result<Listing<Job>, Failure>) -> (r: Section<JobStats>)
    ensures
        match answer {
            Ok(listing) => r matches Availability::Read(found) && health::jobs_summarised(
                listing.items@,
                listing.truncated,
                found,
            ),
            Err(failure) => failed_section(failure, r),
        },
{
    match answer {
        Ok(listing) => Availability::Read(observe_jobs(&listing.items, listing.truncated)),
        Err(failure) => Availability::from_error(&failure),
    }
}

/// CronJobs in the inspected namespace.
pub fn read_cronjobs(answer: Result<Listing<CronJob>, Failure>) -> (r: Section<CronJobStats>)
    ensures
        match answer {
            Ok(listing) => r matches Availability::Read(found) && health::cronjobs_summarised(
                listing.items@,
                listing.truncated,
                found,
            ),
            Err(failure) => failed_section(failure, r),
        },
{
    match answer {
        Ok(listing) => Availability::Read(observe_cronjobs(&listing.items, listing.truncated)),
        Err(failure) => Availability::from_error(&failure),
    }
}

/// The summary of a section, or why there is none.
pub open spec fn summary_of<T>(section: Section<T>) -> Availability<T> {
    match section {
        Availability::Read(found) => Availability::Read(found.0),
        Availability::Denied => Availability::Denied,
        Availability::Unavailable(message) => Availability::Unavailable(message),
        Availability::NotChecked => Availability::NotChecked,
    }
}

/// What was observed in a section.
pub open spec fn found_in<T>(section: Section<T>) -> Seq<Observation> {
    match section {
        Availability::Read(found) => found.1@,
        _ => Seq::empty(),
    }
}

/// Split an analysed section into its summary and its observations.
pub fn collect<T>(section: Section<T>, observations: &mut Vec<Observation>) -> (r: Availability<T>)
    ensures
        r == summary_of(section),
        final(observations)@ == old(observations)@ + found_in(section),
{
    match section {
        Availability::Read((summary, found)) => {
            let mut found = found;
            observations.append(&mut found);
            Availability::Read(summary)
        },
        Availability::Denied => Availability::Denied,
        Availability::Unavailable(message) => Availability::Unavailable(message),
        Availability::NotChecked => Availability::NotChecked,
    }
}

/// Everything that is read of a cluster once it answers.
#[derive(Debug)]
pub struct Sections {
    /// Cluster nodes.
    pub nodes: Section<NodeSummary>,
    /// The inspected namespace itself.
    pub namespace: Section<NamespaceSummary>,
    /// Pods.
    pub pods: Section<PodStats>,
    /// Deployments.
    pub deployments: Section<ReplicaStats>,
    /// StatefulSets.
    pub statefulsets: Section<ReplicaStats>,
    /// DaemonSets.
    pub daemonsets: Section<DaemonSetStats>,
    /// Jobs.
    pub jobs: Section<JobStats>,
    /// CronJobs.
    pub cronjobs: Section<CronJobStats>,
}

/// What each section contributes, in the order in which the sections are reported.
pub open spec fn parts(sections: Sections) -> Seq<Seq<Observation>> {
    seq![
        found_in(sections.nodes),
        found_in(sections.namespace),
        found_in(sections.pods),
        found_in(sections.deployments),
        found_in(sections.statefulsets),
        found_in(sections.daemonsets),
        found_in(sections.jobs),
        found_in(sections.cronjobs),
    ]
}

/// Contributions one after the other.
pub open spec fn strung(parts: Seq<Seq<Observation>>) -> Seq<Observation>
    decreases parts.len(),
{
    if parts.len() == 0 {
        Seq::empty()
    } else {
        strung(parts.drop_last()) + parts.last()
    }
}

/// Everything observed in the sections, section by section.
pub open spec fn all_found(sections: Sections) -> Seq<Observation> {
    strung(parts(sections))
}

/// Contributions can be strung together in two steps.
proof fn lemma_strung_split(parts: Seq<Seq<Observation>>, k: int)
    requires
        0 <= k <= parts.len(),
    ensures
        strung(parts) == strung(parts.take(k)) + strung(parts.skip(k)),
    decreases parts.len() - k,
{
    if k == parts.len() {
        assert(parts.take(k) == parts);
    } else {
        lemma_strung_split(parts.drop_last(), k);
        assert(parts.drop_last().take(k) == parts.take(k));
        assert(parts.drop_last().skip(k) == parts.skip(k).drop_last());
        assert(parts.skip(k).last() == parts.last());
    }
}

/// What is asked of a cluster once it answers: at most this, and all of it read-only.
#[derive(Debug)]
pub struct Plan {
    /// The cluster nodes.
    pub nodes: ClusterList,
    /// The inspected namespace itself.
    pub namespace: ClusterGet,
    /// Pods.
    pub pods: NamespacedList,
    /// Deployments.
    pub deployments: NamespacedList,
    /// StatefulSets.
    pub statefulsets: NamespacedList,
    /// DaemonSets.
    pub daemonsets: NamespacedList,
    /// Jobs.
    pub jobs: NamespacedList,
    /// CronJobs.
    pub cronjobs: NamespacedList,
}

impl Plan {
    /// The requests for workloads.
    pub open spec fn workloads(self) -> Seq<NamespacedList> {
        seq![
            self.pods,
            self.deployments,
            self.statefulsets,
            self.daemonsets,
            self.jobs,
            self.cronjobs,
        ]
    }

    /// Whether the requests look into this namespace and no other, with every list capped.
    pub open spec fn looks_into(self, namespace: Seq<char>) -> bool {
        &&& self.nodes.limit == LIST_LIMIT
        &&& self.namespace.name@ == namespace
        &&& forall|i: int|
            0 <= i < self.workloads().len() ==> {
                &&& (#[trigger] self.workloads()[i]).namespace@ == namespace
                &&& self.workloads()[i].limit == LIST_LIMIT
            }
    }
}

// ---------------------------------------------------------------------------------------------
// Taking a snapshot, step by step
// ---------------------------------------------------------------------------------------------
/// How an inspection ended.
#[derive(Debug)]
pub enum Outcome {
    /// Every section was attempted.
    Complete,
    /// The cluster could not be inspected.
    Failed(InspectError),
    /// The inspection outlived its overall budget.
    Elapsed(Duration),
}

/// The namespace an inspection starts with: the override, else the one of the context.
pub open spec fn initial_namespace(entry: ContextEntry, over: Option<&str>) -> Seq<char> {
    match over {
        Some(namespace) => namespace@,
        None => entry.namespace_text(),
    }
}

impl Inspection {
    /// The snapshot with what a client was configured with: its server, and its namespace unless
    /// another was asked for.
    pub open spec fn configured(
        self,
        server: String,
        namespace: String,
        overridden: bool,
    ) -> Inspection {
        Inspection {
            server: Some(server),
            namespace: if overridden {
                self.namespace
            } else {
                namespace
            },
            ..self
        }
    }

    /// Whether this is `before` with the outcome recorded and the observations in order.
    pub open spec fn finishes(self, before: Inspection, outcome: Outcome) -> bool {
        &&& match outcome {
            Outcome::Complete => {
                &&& self.state == ConnectionState::Connected
                &&& self.message == before.message
            },
            Outcome::Failed(error) => {
                &&& self.state == error.implied()
                &&& text::optional(self.message) == Some(error.shown())
            },
            Outcome::Elapsed(overall) => {
                &&& self.state == ConnectionState::TimedOut
                &&& text::optional(self.message) == Some(kubernetes::timeout_shown(overall))
            },
        }
        &&& self.observations@ == ranked(before.observations@)
        &&& self == (Inspection {
            state: self.state,
            message: self.message,
            observations: self.observations,
            ..before
        })
    }

    /// Start inspecting a context: a pending snapshot of the namespace asked for.
    pub fn start(entry: &ContextEntry, namespace_override: Option<&str>) -> (r: Self)
        ensures
            is_pending(*entry, initial_namespace(*entry, namespace_override), r),
    {
        match namespace_override {
            Some(namespace) => Inspection::pending(entry, namespace),
            None => Inspection::pending(entry, entry.effective_namespace()),
        }
    }

    /// Take in what a client was configured with: the server, and the namespace where none was
    /// asked for, since the namespace resolved for the context is authoritative then.
    pub fn connect(&mut self, server: String, namespace: String, overridden: bool)
        ensures
            *final(self) == old(self).configured(server, namespace, overridden),
    {
        self.server = Some(server);
        if !overridden {
            self.namespace = namespace;
        }
    }

    /// Take in the answer to the `/version` request, which doubles as the reachability probe and
    /// the latency sample. An error means that nothing else can succeed either.
    pub fn probe(&mut self, answer: Result<ServerVersion, Failure>, latency: Duration) -> (r: Result<
        (),
        InspectError,
    >)
        ensures
            match answer {
                Ok(version) => {
                    &&& r is Ok
                    &&& *final(self) == (Inspection {
                        latency: Some(latency),
                        version: Availability::Read(version),
                        ..*old(self)
                    })
                },
                Err(failure) => exists|error: InspectError|
                    {
                        &&& #[trigger] kubernetes::classified(failure, error)
                        &&& if error is PermissionDenied {
                            &&& r is Ok
                            &&& *final(self) == (Inspection {
                                latency: Some(latency),
                                version: Availability::Denied,
                                ..*old(self)
                            })
                        } else {
                            &&& r == Err::<(), InspectError>(error)
                            &&& *final(self) == *old(self)
                        }
                    },
            },
    {
        match answer {
            Ok(version) => {
                self.latency = Some(latency);
                self.version = Availability::Read(version);
                Ok(())
            },
            Err(failure) => {
                let error = classify(&failure);
                if !error.is_permission_denied() {
                    // Unreachable, unauthenticated or broken TLS: nothing else can succeed either.
                    return Err(error);
                }
                // Reachable and authenticated, just not allowed to read the version.
                self.latency = Some(latency);
                self.version = Availability::Denied;
                Ok(())
            },
        }
    }

    /// What to ask of the cluster now that it answered.
    pub fn plan(&self) -> (r: Plan)
        ensures
            r.looks_into(self.namespace@),
    {
        let namespace = self.namespace.as_str();
        Plan {
            nodes: ClusterList { limit: LIST_LIMIT },
            namespace: ClusterGet { name: namespace.to_owned() },
            pods: NamespacedList::new(namespace, LIST_LIMIT),
            deployments: NamespacedList::new(namespace, LIST_LIMIT),
            statefulsets: NamespacedList::new(namespace, LIST_LIMIT),
            daemonsets: NamespacedList::new(namespace, LIST_LIMIT),
            jobs: NamespacedList::new(namespace, LIST_LIMIT),
            cronjobs: NamespacedList::new(namespace, LIST_LIMIT),
        }
    }

    /// Take in every section that was read.
    pub fn fill(&mut self, sections: Sections)
        ensures
            final(self).nodes == summary_of(sections.nodes),
            final(self).namespace_status == summary_of(sections.namespace),
            final(self).workloads.pods == summary_of(sections.pods),
            final(self).workloads.deployments == summary_of(sections.deployments),
            final(self).workloads.statefulsets == summary_of(sections.statefulsets),
            final(self).workloads.daemonsets == summary_of(sections.daemonsets),
            final(self).workloads.jobs == summary_of(sections.jobs),
            final(self).workloads.cronjobs == summary_of(sections.cronjobs),
            final(self).observations@ == old(self).observations@ + all_found(sections),
            *final(self) == (Inspection {
                nodes: final(self).nodes,
                namespace_status: final(self).namespace_status,
                workloads: final(self).workloads,
                observations: final(self).observations,
                ..*old(self)
            }),
    {
        let ghost given = self.observations@;
        self.nodes = collect(sections.nodes, &mut self.observations);
        self.namespace_status = collect(sections.namespace, &mut self.observations);
        self.workloads = Workloads {
            pods: collect(sections.pods, &mut self.observations),
            deployments: collect(sections.deployments, &mut self.observations),
            statefulsets: collect(sections.statefulsets, &mut self.observations),
            daemonsets: collect(sections.daemonsets, &mut self.observations),
            jobs: collect(sections.jobs, &mut self.observations),
            cronjobs: collect(sections.cronjobs, &mut self.observations),
        };
        proof {
            reveal_with_fuel(strung, 9);
            assert(self.observations@ == given + all_found(sections));
        }
    }

    /// Record how the inspection ended, and bring the observations into order.
    ///
    /// This never fails: an unreachable or forbidden cluster is a *result*, described by
    /// [`Inspection::state`], so the caller (CLI or TUI) always has something to show.
    pub fn finish(&mut self, outcome: Outcome)
        ensures
            final(self).finishes(*old(self), outcome),
    {
        match outcome {
            Outcome::Complete => {
                self.state = ConnectionState::Connected;
            },
            Outcome::Failed(error) => {
                self.state = error.state();
                self.message = Some(error.to_string());
            },
            Outcome::Elapsed(overall) => {
                let error = InspectError::TimedOut(overall);
                self.state = error.state();
                self.message = Some(error.to_string());
            },
        }
        self.observations = most_severe_first(&self.observations);
    }
}

/// Partial results are normal: a section degrades on its own, so whatever became of one of them
/// takes nothing away from what the others contribute, before it or after it.
pub proof fn lemma_sections_degrade_alone(a: Sections, b: Sections, k: int)
    requires
        0 <= k < parts(a).len(),
        forall|j: int|
            0 <= j < parts(a).len() && j != k ==> #[trigger] parts(a)[j] == parts(b)[j],
    ensures
        exists|before: Seq<Observation>, after: Seq<Observation>|
            #![trigger before + parts(a)[k] + after]
            {
                &&& all_found(a) == before + parts(a)[k] + after
                &&& all_found(b) == before + parts(b)[k] + after
            },
{
    let before = strung(parts(a).take(k));
    let after = strung(parts(a).skip(k + 1));
    assert(parts(b).take(k) == parts(a).take(k));
    assert(parts(b).skip(k + 1) == parts(a).skip(k + 1));
    lemma_part(parts(a), k);
    lemma_part(parts(b), k);
    assert(all_found(a) == before + parts(a)[k] + after);
}

/// One contribution among the others.
proof fn lemma_part(parts: Seq<Seq<Observation>>, k: int)
    requires
        0 <= k < parts.len(),
    ensures
        strung(parts) == strung(parts.take(k)) + parts[k] + strung(parts.skip(k + 1)),
{
    lemma_strung_split(parts, k + 1);
    assert(parts.take(k + 1).drop_last() == parts.take(k));
}

/// The override is what is looked into: no request is made of any other namespace.
pub proof fn lemma_only_the_override_is_read(
    entry: ContextEntry,
    over: &str,
    pending: Inspection,
    server: String,
    resolved: String,
    plan: Plan,
)
    requires
        is_pending(entry, initial_namespace(entry, Some(over)), pending),
        plan.looks_into(pending.configured(server, resolved, true).namespace@),
    ensures
        plan.namespace.name@ == over@,
        forall|i: int|
            0 <= i < plan.workloads().len() ==> (#[trigger] plan.workloads()[i]).namespace@
                == over@,
{
}

/// An unreachable cluster is a result: an inspection that fails before any section is read still
/// says how and why, with every section unattempted and nothing observed.
pub proof fn lemma_unreachable_is_a_result(
    entry: ContextEntry,
    namespace: Seq<char>,
    pending: Inspection,
    server: String,
    resolved: String,
    overridden: bool,
    error: InspectError,
    snapshot: Inspection,
)
    requires
        is_pending(entry, namespace, pending),
        snapshot.finishes(
            pending.configured(server, resolved, overridden),
            Outcome::Failed(error),
        ),
    ensures
        snapshot.state == error.implied(),
        text::optional(snapshot.message) == Some(error.shown()),
        snapshot.latency is None,
        snapshot.version is NotChecked,
        snapshot.nodes is NotChecked,
        snapshot.namespace_status is NotChecked,
        snapshot.workloads == nothing_checked(),
        snapshot.observations@.len() == 0,
{
    reveal(Seq::filter);
}

/// The namespace override wins over the context's own and over the one a client resolves.
pub proof fn lemma_override_wins(
    entry: ContextEntry,
    over: &str,
    pending: Inspection,
    server: String,
    resolved: String,
)
    requires
        is_pending(entry, initial_namespace(entry, Some(over)), pending),
    ensures
        pending.configured(server, resolved, true).namespace@ == over@,
{
}

} // verus!
