//! Interpreting Kubernetes objects: counts plus transparent observations.
//!
//! Everything here is a pure function from resource objects to summaries, so it is testable from
//! fixtures without a cluster — and so it can never accidentally issue a request.
//!
//! There is deliberately no health score. Each observation states one fact the user can check
//! themselves ("2 Pods not Ready"), because an opaque number hides more than it explains.

use vstd::prelude::*;

use crate::text;
use crate::text::{
    copy_list, copy_optional, dedup, insert_distinct, join, join_first, list_contains, number,
    same_text, signed, str_or,
};

verus! {

// ---------------------------------------------------------------------------------------------
// Objects
// ---------------------------------------------------------------------------------------------
/// A condition of an object's status.
#[derive(Debug)]
pub struct Condition {
    /// What is reported on, e.g. `Ready`.
    pub kind: String,
    /// `True`, `False` or `Unknown`.
    pub status: String,
}

/// What a node reports about its system.
#[derive(Debug)]
pub struct NodeInfo {
    /// Version of the kubelet.
    pub kubelet_version: String,
    /// Operating system, e.g. `linux`.
    pub operating_system: String,
    /// Processor architecture, e.g. `amd64`.
    pub architecture: String,
}

/// A node of the cluster.
#[derive(Debug)]
pub struct Node {
    /// Its name.
    pub name: Option<String>,
    /// The keys of its labels.
    pub labels: Vec<String>,
    /// Its conditions.
    pub conditions: Vec<Condition>,
    /// Its system, where reported.
    pub info: Option<NodeInfo>,
}

/// A namespace.
#[derive(Debug)]
pub struct Namespace {
    /// Its name.
    pub name: Option<String>,
    /// `status.phase`.
    pub phase: Option<String>,
}

/// The status of one container of a pod.
#[derive(Debug)]
pub struct ContainerStatus {
    /// Why the container waits, where it waits and says why.
    pub waiting_reason: Option<String>,
    /// How often it was restarted.
    pub restart_count: i32,
}

/// A pod.
#[derive(Debug)]
pub struct Pod {
    /// Its name.
    pub name: Option<String>,
    /// `status.phase`.
    pub phase: Option<String>,
    /// Its conditions.
    pub conditions: Vec<Condition>,
    /// The status of its containers.
    pub containers: Vec<ContainerStatus>,
    /// The status of its init containers.
    pub init_containers: Vec<ContainerStatus>,
}

/// A Deployment.
#[derive(Debug)]
pub struct Deployment {
    /// Its name.
    pub name: Option<String>,
    /// `spec.replicas`.
    pub replicas: Option<i32>,
    /// `status.availableReplicas`.
    pub available_replicas: Option<i32>,
}

/// A StatefulSet.
#[derive(Debug)]
pub struct StatefulSet {
    /// Its name.
    pub name: Option<String>,
    /// `spec.replicas`.
    pub replicas: Option<i32>,
    /// `status.readyReplicas`.
    pub ready_replicas: Option<i32>,
}

/// The status of a DaemonSet.
#[derive(Debug, Clone, Copy, PartialEq, Eq, Structural)]
pub struct DaemonSetStatus {
    /// `desiredNumberScheduled`.
    pub desired_number_scheduled: i32,
    /// `numberReady`.
    pub number_ready: i32,
    /// `numberMisscheduled`.
    pub number_misscheduled: i32,
}

/// A DaemonSet.
#[derive(Debug)]
pub struct DaemonSet {
    /// Its name.
    pub name: Option<String>,
    /// Its status, where reported.
    pub status: Option<DaemonSetStatus>,
}

/// The status of a Job.
#[derive(Debug)]
pub struct JobStatus {
    /// Running pods.
    pub active: Option<i32>,
    /// Pods that succeeded.
    pub succeeded: Option<i32>,
    /// Pods that failed.
    pub failed: Option<i32>,
    /// Its conditions.
    pub conditions: Vec<Condition>,
}

/// A Job.
#[derive(Debug)]
pub struct Job {
    /// Its name.
    pub name: Option<String>,
    /// Its status, where reported.
    pub status: Option<JobStatus>,
}

/// A CronJob.
#[derive(Debug)]
pub struct CronJob {
    /// Its name.
    pub name: Option<String>,
    /// `spec.suspend`.
    pub suspend: Option<bool>,
    /// Whether `status.lastScheduleTime` is set.
    pub has_run: bool,
}

// ---------------------------------------------------------------------------------------------
// Observations
// ---------------------------------------------------------------------------------------------
/// How much attention an observation deserves. Used for colouring only.
#[derive(Debug, Clone, Copy, PartialEq, Eq, PartialOrd, Ord, Structural)]
pub enum Severity {
    /// Worth knowing, not wrong.
    Info,
    /// Possibly degraded.
    Warning,
    /// Something is clearly not working.
    Problem,
}

/// One plainly worded statement about the inspected objects.
#[derive(Debug, PartialEq, Eq)]
pub struct Observation {
    /// Attention level.
    pub severity: Severity,
    /// Human-readable statement, e.g. `2 Pods not Ready`.
    pub text: String,
}

impl Clone for Observation {
    fn clone(&self) -> (r: Self)
        ensures
            r == *self,
    {
        Observation { severity: self.severity, text: self.text.clone() }
    }
}

impl Observation {
    /// What an observation says and how severe it is.
    pub open spec fn content(self) -> (Severity, Seq<char>) {
        (self.severity, self.text@)
    }

    /// An informational observation.
    pub fn info(text: String) -> (r: Self)
        ensures
            r == (Observation { severity: Severity::Info, text }),
    {
        Observation { severity: Severity::Info, text }
    }

    /// A possible degradation.
    pub fn warning(text: String) -> (r: Self)
        ensures
            r == (Observation { severity: Severity::Warning, text }),
    {
        Observation { severity: Severity::Warning, text }
    }

    /// A clear problem.
    pub fn problem(text: String) -> (r: Self)
        ensures
            r == (Observation { severity: Severity::Problem, text }),
    {
        Observation { severity: Severity::Problem, text }
    }
}

/// What a list of observations says.
pub open spec fn said(observations: Seq<Observation>) -> Seq<(Severity, Seq<char>)> {
    Seq::new(observations.len(), |i: int| observations[i].content())
}

/// One statement where a condition holds, none where it does not.
pub open spec fn when(condition: bool, severity: Severity, statement: Seq<char>) -> Seq<
    (Severity, Seq<char>),
> {
    if condition {
        seq![(severity, statement)]
    } else {
        Seq::empty()
    }
}

/// Add an observation where a condition holds.
fn note_if(observations: &mut Vec<Observation>, condition: bool, added: Observation)
    ensures
        said(final(observations)@) == said(old(observations)@) + when(
            condition,
            added.severity,
            added.text@,
        ),
{
    let ghost given = observations@;
    if condition {
        observations.push(added);
        proof {
            assert(said(given.push(added)) == said(given) + seq![added.content()]);
        }
    } else {
        proof {
            assert(said(given) + Seq::<(Severity, Seq<char>)>::empty() == said(given));
        }
    }
}

/// At most this many individually named objects per observation kind; the rest are counted.
pub const NAME_LIMIT: usize = 3;

/// Restart count above which a pod is called out.
pub const RESTART_THRESHOLD: i32 = 5;

/// `s` when a count needs a plural.
pub open spec fn plural_of(count: nat) -> Seq<char> {
    if count == 1 {
        ""@
    } else {
        "s"@
    }
}

/// `s` when a count needs a plural.
pub fn plural(count: usize) -> (r: &'static str)
    ensures
        r@ == plural_of(count as nat),
{
    if count == 1 {
        ""
    } else {
        "s"
    }
}

/// The name of an object, which still reads sensibly where it has none.
pub open spec fn name_of(name: Option<String>) -> Seq<char> {
    text::text_or(name, "<unnamed>"@)
}

/// Names of unnamed objects should still read sensibly.
pub fn object_name(name: &Option<String>) -> (r: String)
    ensures
        r@ == name_of(*name),
{
    str_or(name, "<unnamed>").to_owned()
}

/// Up to [`NAME_LIMIT`] names, and how many more there are.
pub open spec fn names_shown(names: Seq<Seq<char>>) -> Seq<char> {
    if names.len() <= NAME_LIMIT {
        text::joined(names, ", "@)
    } else {
        text::joined(names.take(NAME_LIMIT as int), ", "@) + ", +"@ + text::decimal(
            (names.len() - NAME_LIMIT) as nat,
        ) + " more"@
    }
}

/// Join up to [`NAME_LIMIT`] names, counting the rest.
pub fn join_names(names: &Vec<String>) -> (r: String)
    ensures
        r@ == names_shown(text::texts(names@)),
{
    if names.len() <= NAME_LIMIT {
        return join(names, ", ");
    }
    let mut out = join_first(names, NAME_LIMIT, ", ");
    out.append(", +");
    out.append(number(names.len() - NAME_LIMIT).as_str());
    out.append(" more");
    out
}

/// Whether a named condition currently has the given status.
pub open spec fn condition_holds(
    conditions: Seq<Condition>,
    kind: Seq<char>,
    status: Seq<char>,
) -> bool {
    exists|i: int|
        0 <= i < conditions.len() && (#[trigger] conditions[i]).kind@ == kind
            && conditions[i].status@ == status
}

/// Whether a named condition currently has the given status.
pub fn condition_is(conditions: &Vec<Condition>, kind: &str, status: &str) -> (r: bool)
    ensures
        r == condition_holds(conditions@, kind@, status@),
{
    for i in 0..conditions.len()
        invariant
            forall|j: int|
                0 <= j < i ==> !((#[trigger] conditions@[j]).kind@ == kind@
                    && conditions@[j].status@ == status@),
    {
        if same_text(conditions[i].kind.as_str(), kind) && same_text(
            conditions[i].status.as_str(),
            status,
        ) {
            return true;
        }
    }
    false
}

/// How many of a list are wanted.
pub open spec fn count_of<T>(items: Seq<T>, wanted: spec_fn(T) -> bool) -> nat
    decreases items.len(),
{
    if items.len() == 0 {
        0
    } else {
        count_of(items.drop_last(), wanted) + (if wanted(items.last()) {
            1nat
        } else {
            0nat
        })
    }
}

/// The labels of the wanted ones of a list, in order.
pub open spec fn labels_of<T>(
    items: Seq<T>,
    wanted: spec_fn(T) -> bool,
    label: spec_fn(T) -> Seq<char>,
) -> Seq<Seq<char>>
    decreases items.len(),
{
    if items.len() == 0 {
        Seq::empty()
    } else {
        let before = labels_of(items.drop_last(), wanted, label);
        if wanted(items.last()) {
            before.push(label(items.last()))
        } else {
            before
        }
    }
}

proof fn lemma_count_bounded<T>(items: Seq<T>, wanted: spec_fn(T) -> bool)
    ensures
        count_of(items, wanted) <= items.len(),
    decreases items.len(),
{
    if items.len() > 0 {
        lemma_count_bounded(items.drop_last(), wanted);
    }
}

proof fn lemma_count_step<T>(items: Seq<T>, i: int, wanted: spec_fn(T) -> bool)
    requires
        0 <= i < items.len(),
    ensures
        count_of(items.take(i + 1), wanted) == count_of(items.take(i), wanted) + (if wanted(
            items[i],
        ) {
            1nat
        } else {
            0nat
        }),
        count_of(items.take(i), wanted) <= i,
{
    assert(items.take(i + 1).drop_last() == items.take(i));
    lemma_count_bounded(items.take(i), wanted);
}

proof fn lemma_labels_step<T>(
    items: Seq<T>,
    i: int,
    wanted: spec_fn(T) -> bool,
    label: spec_fn(T) -> Seq<char>,
)
    requires
        0 <= i < items.len(),
    ensures
        labels_of(items.take(i + 1), wanted, label) == (if wanted(items[i]) {
            labels_of(items.take(i), wanted, label).push(label(items[i]))
        } else {
            labels_of(items.take(i), wanted, label)
        }),
{
    assert(items.take(i + 1).drop_last() == items.take(i));
}

proof fn lemma_take_all<T>(items: Seq<T>)
    ensures
        items.take(items.len() as int) == items,
{
}

fn push_name(names: &mut Vec<String>, name: String)
    ensures
        text::texts(final(names)@) == text::texts(old(names)@).push(name@),
{
    let ghost given = names@;
    names.push(name);
    proof {
        assert(text::texts(given.push(name)) == text::texts(given).push(name@));
    }
}

// ---------------------------------------------------------------------------------------------
// Nodes
// ---------------------------------------------------------------------------------------------
/// Node-level summary.
#[derive(Debug, Default, PartialEq, Eq)]
pub struct NodeSummary {
    /// Nodes returned by the API.
    pub total: usize,
    /// Nodes whose `Ready` condition is `True`.
    pub ready: usize,
    /// Nodes carrying a control-plane role label.
    pub control_plane: usize,
    /// Distinct kubelet versions, sorted.
    pub versions: Vec<String>,
    /// Distinct `os/arch` combinations, sorted.
    pub platforms: Vec<String>,
    /// True when more nodes exist than were listed.
    pub truncated: bool,
}

impl Clone for NodeSummary {
    fn clone(&self) -> (r: Self)
        ensures
            r.total == self.total,
            r.ready == self.ready,
            r.control_plane == self.control_plane,
            r.versions@ == self.versions@,
            r.platforms@ == self.platforms@,
            r.truncated == self.truncated,
    {
        NodeSummary {
            total: self.total,
            ready: self.ready,
            control_plane: self.control_plane,
            versions: copy_list(&self.versions),
            platforms: copy_list(&self.platforms),
            truncated: self.truncated,
        }
    }
}

/// Whether a node is ready.
pub open spec fn node_ready(node: Node) -> bool {
    condition_holds(node.conditions@, "Ready"@, "True"@)
}

/// Whether a control-plane role label is present.
pub open spec fn control_plane(node: Node) -> bool {
    text::texts(node.labels@).contains("node-role.kubernetes.io/control-plane"@) || text::texts(
        node.labels@,
    ).contains("node-role.kubernetes.io/master"@)
}

/// How many nodes are ready.
pub open spec fn ready_nodes(nodes: Seq<Node>) -> nat {
    count_of(nodes, |node: Node| node_ready(node))
}

/// How many nodes carry a control-plane role label.
pub open spec fn control_plane_nodes(nodes: Seq<Node>) -> nat {
    count_of(nodes, |node: Node| control_plane(node))
}

/// The names of the nodes that are not ready.
pub open spec fn unready_nodes(nodes: Seq<Node>) -> Seq<Seq<char>> {
    labels_of(nodes, |node: Node| !node_ready(node), |node: Node| name_of(node.name))
}

/// The names of the nodes that report a condition.
pub open spec fn pressured_nodes(nodes: Seq<Node>, kind: Seq<char>) -> Seq<Seq<char>> {
    labels_of(
        nodes,
        |node: Node| condition_holds(node.conditions@, kind, "True"@),
        |node: Node| name_of(node.name),
    )
}

/// The kubelet versions nodes report.
pub open spec fn reported_versions(nodes: Seq<Node>) -> Seq<Seq<char>> {
    labels_of(
        nodes,
        |node: Node| node.info is Some,
        |node: Node| node.info->0.kubelet_version@,
    )
}

/// The platforms nodes report.
pub open spec fn reported_platforms(nodes: Seq<Node>) -> Seq<Seq<char>> {
    labels_of(
        nodes,
        |node: Node| node.info is Some,
        |node: Node| node.info->0.operating_system@ + "/"@ + node.info->0.architecture@,
    )
}

/// The statement that nodes report a condition that means trouble.
pub open spec fn pressure_said(nodes: Seq<Node>, kind: Seq<char>) -> Seq<(Severity, Seq<char>)> {
    let names = pressured_nodes(nodes, kind);
    when(
        names.len() > 0,
        Severity::Warning,
        text::decimal(names.len()) + " Node(s) report "@ + kind + " ("@ + names_shown(names) + ")"@,
    )
}

/// The statement that a list was cut short.
pub open spec fn truncation_said(truncated: bool, total: nat, kinds: Seq<char>) -> Seq<
    (Severity, Seq<char>),
> {
    when(
        truncated,
        Severity::Info,
        "only the first "@ + text::decimal(total) + " "@ + kinds + " were inspected"@,
    )
}

/// Everything said about nodes.
pub open spec fn nodes_said(nodes: Seq<Node>, truncated: bool) -> Seq<(Severity, Seq<char>)> {
    let unready = unready_nodes(nodes);
    let versions = text::distinct_ordered(reported_versions(nodes));
    when(
        unready.len() > 0,
        Severity::Problem,
        text::decimal(unready.len()) + " of "@ + text::decimal(nodes.len()) + " Nodes not Ready ("@
            + names_shown(unready) + ")"@,
    ) + pressure_said(nodes, "DiskPressure"@) + pressure_said(nodes, "MemoryPressure"@)
        + pressure_said(nodes, "NetworkUnavailable"@) + pressure_said(nodes, "PIDPressure"@) + when(
        versions.len() > 1,
        Severity::Info,
        "Nodes run "@ + text::decimal(versions.len()) + " different kubelet versions: "@
            + text::joined(versions, ", "@),
    ) + truncation_said(truncated, nodes.len(), "Nodes"@)
}

/// True if a control-plane role label is present.
pub fn is_control_plane(node: &Node) -> (r: bool)
    ensures
        r == control_plane(*node),
{
    list_contains(&node.labels, "node-role.kubernetes.io/control-plane") || list_contains(
        &node.labels,
        "node-role.kubernetes.io/master",
    )
}

fn note_pressure(observations: &mut Vec<Observation>, nodes: &[Node], kind: &str)
    ensures
        said(final(observations)@) == said(old(observations)@) + pressure_said(nodes@, kind@),
{
    let mut names: Vec<String> = Vec::new();
    proof {
        assert(text::texts(names@) == pressured_nodes(nodes@.take(0), kind@));
    }
    for i in 0..nodes.len()
        invariant
            text::texts(names@) == pressured_nodes(nodes@.take(i as int), kind@),
    {
        let node = &nodes[i];
        proof {
            lemma_labels_step(
                nodes@,
                i as int,
                |node: Node| condition_holds(node.conditions@, kind@, "True"@),
                |node: Node| name_of(node.name),
            );
        }
        if condition_is(&node.conditions, kind, "True") {
            push_name(&mut names, object_name(&node.name));
        }
    }
    proof {
        lemma_take_all(nodes@);
    }
    let mut out = number(names.len());
    out.append(" Node(s) report ");
    out.append(kind);
    out.append(" (");
    out.append(join_names(&names).as_str());
    out.append(")");
    note_if(observations, names.len() > 0, Observation::warning(out));
}

fn note_truncation(observations: &mut Vec<Observation>, truncated: bool, total: usize, kinds: &str)
    ensures
        said(final(observations)@) == said(old(observations)@) + truncation_said(
            truncated,
            total as nat,
            kinds@,
        ),
{
    let mut out = "only the first ".to_owned();
    out.append(number(total).as_str());
    out.append(" ");
    out.append(kinds);
    out.append(" were inspected");
    note_if(observations, truncated, Observation::info(out));
}

/// Whether `r` holds the summary of nodes and everything said about them.
pub open spec fn nodes_summarised(
    nodes: Seq<Node>,
    truncated: bool,
    r: (NodeSummary, Vec<Observation>),
) -> bool {
    &&& r.0.total == nodes.len()
    &&& r.0.ready == ready_nodes(nodes)
    &&& r.0.control_plane == control_plane_nodes(nodes)
    &&& text::texts(r.0.versions@) == text::distinct_ordered(reported_versions(nodes))
    &&& text::texts(r.0.platforms@) == text::distinct_ordered(reported_platforms(nodes))
    &&& r.0.truncated == truncated
    &&& said(r.1@) == nodes_said(nodes, truncated)
}

/// Summarise nodes and report readiness problems, notable conditions and version skew.
pub fn observe_nodes(nodes: &[Node], truncated: bool) -> (r: (NodeSummary, Vec<Observation>))
    ensures
        nodes_summarised(nodes@, truncated, r),
{
    let mut ready: usize = 0;
    let mut control: usize = 0;
    let mut versions: Vec<String> = Vec::new();
    let mut platforms: Vec<String> = Vec::new();
    let mut not_ready: Vec<String> = Vec::new();
    proof {
        assert(text::texts(not_ready@) == unready_nodes(nodes@.take(0)));
        assert(text::texts(versions@) == text::distinct_ordered(
            reported_versions(nodes@.take(0)),
        ));
        assert(text::texts(platforms@) == text::distinct_ordered(
            reported_platforms(nodes@.take(0)),
        ));
    }
    for i in 0..nodes.len()
        invariant
            ready == ready_nodes(nodes@.take(i as int)),
            control == control_plane_nodes(nodes@.take(i as int)),
            text::texts(not_ready@) == unready_nodes(nodes@.take(i as int)),
            text::texts(versions@) == text::distinct_ordered(
                reported_versions(nodes@.take(i as int)),
            ),
            text::texts(platforms@) == text::distinct_ordered(
                reported_platforms(nodes@.take(i as int)),
            ),
    {
        let node = &nodes[i];
        proof {
            let at = i as int;
            lemma_count_step(nodes@, at, |node: Node| node_ready(node));
            lemma_count_step(nodes@, at, |node: Node| control_plane(node));
            lemma_labels_step(
                nodes@,
                at,
                |node: Node| !node_ready(node),
                |node: Node| name_of(node.name),
            );
            lemma_labels_step(
                nodes@,
                at,
                |node: Node| node.info is Some,
                |node: Node| node.info->0.kubelet_version@,
            );
            lemma_labels_step(
                nodes@,
                at,
                |node: Node| node.info is Some,
                |node: Node| node.info->0.operating_system@ + "/"@ + node.info->0.architecture@,
            );
        }
        if is_control_plane(node) {
            control = control + 1;
        }
        if condition_is(&node.conditions, "Ready", "True") {
            ready = ready + 1;
        } else {
            push_name(&mut not_ready, object_name(&node.name));
        }
        if let Some(info) = &node.info {
            let mut platform = info.operating_system.clone();
            platform.append("/");
            platform.append(info.architecture.as_str());
            proof {
                let before = reported_versions(nodes@.take(i as int));
                assert(before.push(info.kubelet_version@).drop_last() == before);
                let earlier = reported_platforms(nodes@.take(i as int));
                assert(earlier.push(platform@).drop_last() == earlier);
            }
            insert_distinct(&mut versions, info.kubelet_version.clone());
            insert_distinct(&mut platforms, platform);
        }
    }
    proof {
        lemma_take_all(nodes@);
    }
    let total: usize = nodes.len();
    let mut observations: Vec<Observation> = Vec::new();
    let mut unready = number(not_ready.len());
    unready.append(" of ");
    unready.append(number(total).as_str());
    unready.append(" Nodes not Ready (");
    unready.append(join_names(&not_ready).as_str());
    unready.append(")");
    note_if(&mut observations, not_ready.len() > 0, Observation::problem(unready));
    // Any of these being True is a genuine node problem, unlike Ready which is inverted.
    note_pressure(&mut observations, nodes, "DiskPressure");
    note_pressure(&mut observations, nodes, "MemoryPressure");
    note_pressure(&mut observations, nodes, "NetworkUnavailable");
    note_pressure(&mut observations, nodes, "PIDPressure");
    let mut skew = "Nodes run ".to_owned();
    skew.append(number(versions.len()).as_str());
    skew.append(" different kubelet versions: ");
    skew.append(join(&versions, ", ").as_str());
    note_if(&mut observations, versions.len() > 1, Observation::info(skew));
    note_truncation(&mut observations, truncated, total, "Nodes");
    let summary = NodeSummary {
        total,
        ready,
        control_plane: control,
        versions,
        platforms,
        truncated,
    };
    (summary, observations)
}

// ---------------------------------------------------------------------------------------------
// Namespaces
// ---------------------------------------------------------------------------------------------
/// Namespace-level summary.
#[derive(Debug, PartialEq, Eq)]
pub struct NamespaceSummary {
    /// Namespace name.
    pub name: String,
    /// `status.phase`, e.g. `Active` or `Terminating`.
    pub phase: Option<String>,
}

impl Clone for NamespaceSummary {
    fn clone(&self) -> (r: Self)
        ensures
            r == *self,
    {
        NamespaceSummary { name: self.name.clone(), phase: copy_optional(&self.phase) }
    }
}

/// Everything said about a namespace.
pub open spec fn namespace_said(namespace: Namespace) -> Seq<(Severity, Seq<char>)> {
    let phase = text::text_or(namespace.phase, "Active"@);
    when(
        phase != "Active"@,
        Severity::Warning,
        "Namespace "@ + name_of(namespace.name) + " is "@ + phase,
    )
}

/// Whether `r` holds the summary of a namespace and everything said about it.
pub open spec fn namespace_summarised(
    namespace: Namespace,
    r: (NamespaceSummary, Vec<Observation>),
) -> bool {
    &&& r.0.name@ == name_of(namespace.name)
    &&& r.0.phase == namespace.phase
    &&& said(r.1@) == namespace_said(namespace)
}

/// Summarise a namespace object.
pub fn observe_namespace(namespace: &Namespace) -> (r: (NamespaceSummary, Vec<Observation>))
    ensures
        namespace_summarised(*namespace, r),
{
    let summary = NamespaceSummary {
        name: object_name(&namespace.name),
        phase: copy_optional(&namespace.phase),
    };
    let mut observations: Vec<Observation> = Vec::new();
    let phase = str_or(&namespace.phase, "Active");
    let mut out = "Namespace ".to_owned();
    out.append(summary.name.as_str());
    out.append(" is ");
    out.append(phase);
    note_if(&mut observations, !same_text(phase, "Active"), Observation::warning(out));
    (summary, observations)
}

// ---------------------------------------------------------------------------------------------
// Pods
// ---------------------------------------------------------------------------------------------
/// Pod counts for one namespace.
#[derive(Debug, Default, Clone, Copy, PartialEq, Eq, Structural)]
pub struct PodStats {
    /// Pods returned by the API.
    pub total: usize,
    /// Pods whose `Ready` condition is `True`.
    pub ready: usize,
    /// Pods in `Running` phase.
    pub running: usize,
    /// Pods in `Pending` phase.
    pub pending: usize,
    /// Pods in `Succeeded` phase.
    pub succeeded: usize,
    /// Pods in `Failed` phase.
    pub failed: usize,
    /// True when more pods exist than were listed.
    pub truncated: bool,
}

/// The phase of a pod; empty where it reports none.
pub open spec fn phase_of(pod: Pod) -> Seq<char> {
    text::text_or(pod.phase, ""@)
}

/// Whether a pod is ready.
pub open spec fn pod_ready(pod: Pod) -> bool {
    condition_holds(pod.conditions@, "Ready"@, "True"@)
}

/// Container statuses of a pod, including init containers.
pub open spec fn statuses_of(pod: Pod) -> Seq<ContainerStatus> {
    pod.containers@ + pod.init_containers@
}

/// Whether one of some containers waits for a reason.
pub open spec fn waits_for(statuses: Seq<ContainerStatus>, reason: Seq<char>) -> bool {
    exists|i: int|
        0 <= i < statuses.len() && text::optional((#[trigger] statuses[i]).waiting_reason) == Some(
            reason,
        )
}

/// The highest restart count of some containers; zero where there are none.
pub open spec fn most_restarts(statuses: Seq<ContainerStatus>) -> int
    decreases statuses.len(),
{
    if statuses.len() == 0 {
        0
    } else if statuses.len() == 1 {
        statuses[0].restart_count as int
    } else {
        let before = most_restarts(statuses.drop_last());
        let last = statuses.last().restart_count as int;
        if last > before {
            last
        } else {
            before
        }
    }
}

/// How many pods are ready.
pub open spec fn ready_pods(pods: Seq<Pod>) -> nat {
    count_of(pods, |pod: Pod| pod_ready(pod))
}

/// How many pods are in a phase.
pub open spec fn pods_in_phase(pods: Seq<Pod>, phase: Seq<char>) -> nat {
    count_of(pods, |pod: Pod| phase_of(pod) == phase)
}

/// The names of the pods that are neither ready nor completed.
pub open spec fn unready_pods(pods: Seq<Pod>) -> Seq<Seq<char>> {
    labels_of(
        pods,
        |pod: Pod| !pod_ready(pod) && phase_of(pod) != "Succeeded"@,
        |pod: Pod| name_of(pod.name),
    )
}

/// The names of the pods in which a container waits for a reason.
pub open spec fn waiting_pods(pods: Seq<Pod>, reason: Seq<char>) -> Seq<Seq<char>> {
    labels_of(
        pods,
        |pod: Pod| waits_for(statuses_of(pod), reason),
        |pod: Pod| name_of(pod.name),
    )
}

/// How many pods restarted too often.
pub open spec fn restarting_pods(pods: Seq<Pod>) -> nat {
    count_of(pods, |pod: Pod| most_restarts(statuses_of(pod)) > RESTART_THRESHOLD)
}

/// The highest restart count of the pods that restarted too often; zero where none did.
pub open spec fn worst_restarts(pods: Seq<Pod>) -> int
    decreases pods.len(),
{
    if pods.len() == 0 {
        0
    } else {
        let before = worst_restarts(pods.drop_last());
        let last = most_restarts(statuses_of(pods.last()));
        if last > RESTART_THRESHOLD && last > before {
            last
        } else {
            before
        }
    }
}

/// The statement that pods wait for a reason that always means something is broken rather than
/// starting up. A pod with several broken containers is still one pod.
pub open spec fn waiting_said(pods: Seq<Pod>, reason: Seq<char>) -> Seq<(Severity, Seq<char>)> {
    let names = text::squeezed(waiting_pods(pods, reason));
    when(
        names.len() > 0,
        Severity::Problem,
        text::decimal(names.len()) + " Pod"@ + plural_of(names.len()) + " in "@ + reason + " ("@
            + names_shown(names) + ")"@,
    )
}

/// Everything said about pods.
pub open spec fn pods_said(pods: Seq<Pod>, truncated: bool) -> Seq<(Severity, Seq<char>)> {
    let unready = unready_pods(pods);
    let pending = pods_in_phase(pods, "Pending"@);
    let failed = pods_in_phase(pods, "Failed"@);
    let restarting = restarting_pods(pods);
    when(
        unready.len() > 0,
        Severity::Problem,
        text::decimal(unready.len()) + " Pod"@ + plural_of(unready.len()) + " not Ready ("@
            + names_shown(unready) + ")"@,
    ) + when(
        pending > 0,
        Severity::Warning,
        text::decimal(pending) + " Pod"@ + plural_of(pending) + " Pending"@,
    ) + waiting_said(pods, "CrashLoopBackOff"@) + waiting_said(
        pods,
        "CreateContainerConfigError"@,
    ) + waiting_said(pods, "CreateContainerError"@) + waiting_said(pods, "ErrImagePull"@)
        + waiting_said(pods, "ImagePullBackOff"@) + waiting_said(pods, "InvalidImageName"@)
        + waiting_said(pods, "RunContainerError"@) + when(
        failed > 0,
        Severity::Problem,
        text::decimal(failed) + " Pod"@ + plural_of(failed) + " Failed"@,
    ) + when(
        restarting > 0,
        Severity::Warning,
        text::decimal(restarting) + " Pod"@ + plural_of(restarting) + " with more than "@
            + text::decimal_signed(RESTART_THRESHOLD as int) + " container restarts (highest "@
            + text::decimal_signed(worst_restarts(pods)) + ")"@,
    ) + truncation_said(truncated, pods.len(), "Pods"@)
}

fn any_waits(statuses: &Vec<ContainerStatus>, reason: &str) -> (r: bool)
    ensures
        r == waits_for(statuses@, reason@),
{
    for i in 0..statuses.len()
        invariant
            forall|j: int|
                0 <= j < i ==> text::optional((#[trigger] statuses@[j]).waiting_reason) != Some(
                    reason@,
                ),
    {
        if let Some(shown) = &statuses[i].waiting_reason {
            if same_text(shown.as_str(), reason) {
                return true;
            }
        }
    }
    false
}

fn pod_waits(pod: &Pod, reason: &str) -> (r: bool)
    ensures
        r == waits_for(statuses_of(*pod), reason@),
{
    let first = any_waits(&pod.containers, reason);
    let second = any_waits(&pod.init_containers, reason);
    proof {
        let all = statuses_of(*pod);
        let split = pod.containers@.len() as int;
        if waits_for(pod.containers@, reason@) {
            let i = choose|i: int|
                0 <= i < split && text::optional((#[trigger] pod.containers@[i]).waiting_reason)
                    == Some(reason@);
            assert(all[i] == pod.containers@[i]);
        }
        if waits_for(pod.init_containers@, reason@) {
            let i = choose|i: int|
                0 <= i < pod.init_containers@.len() && text::optional(
                    (#[trigger] pod.init_containers@[i]).waiting_reason,
                ) == Some(reason@);
            assert(all[split + i] == pod.init_containers@[i]);
        }
        if waits_for(all, reason@) {
            let i = choose|i: int|
                0 <= i < all.len() && text::optional((#[trigger] all[i]).waiting_reason) == Some(
                    reason@,
                );
            if i < split {
                assert(pod.containers@[i] == all[i]);
            } else {
                assert(pod.init_containers@[i - split] == all[i]);
            }
        }
    }
    first || second
}

fn pod_restarts(pod: &Pod) -> (r: i32)
    ensures
        r == most_restarts(statuses_of(*pod)),
{
    let ghost all = statuses_of(*pod);
    let split: usize = pod.containers.len();
    let mut most: i32 = 0;
    for i in 0..split
        invariant
            split == pod.containers@.len(),
            all == statuses_of(*pod),
            most == most_restarts(all.take(i as int)),
    {
        let count: i32 = pod.containers[i].restart_count;
        proof {
            assert(all.take(i + 1).drop_last() == all.take(i as int));
            assert(all.take(i + 1).last() == pod.containers@[i as int]);
            assert(i == 0 ==> all.take(i + 1)[0] == pod.containers@[i as int]);
        }
        if i == 0 || count > most {
            most = count;
        }
    }
    for i in 0..pod.init_containers.len()
        invariant
            split == pod.containers@.len(),
            all == statuses_of(*pod),
            most == most_restarts(all.take(split + i)),
    {
        let count: i32 = pod.init_containers[i].restart_count;
        proof {
            assert(all.take(split + i + 1).drop_last() == all.take(split + i));
            assert(all.take(split + i + 1).last() == pod.init_containers@[i as int]);
        }
        if (i == 0 && split == 0) || count > most {
            most = count;
        }
    }
    proof {
        assert(all.take(all.len() as int) == all);
    }
    most
}

fn note_waiting(observations: &mut Vec<Observation>, pods: &[Pod], reason: &str)
    ensures
        said(final(observations)@) == said(old(observations)@) + waiting_said(pods@, reason@),
{
    let mut names: Vec<String> = Vec::new();
    proof {
        assert(text::texts(names@) == waiting_pods(pods@.take(0), reason@));
    }
    for i in 0..pods.len()
        invariant
            text::texts(names@) == waiting_pods(pods@.take(i as int), reason@),
    {
        let pod = &pods[i];
        proof {
            lemma_labels_step(
                pods@,
                i as int,
                |pod: Pod| waits_for(statuses_of(pod), reason@),
                |pod: Pod| name_of(pod.name),
            );
        }
        if pod_waits(pod, reason) {
            push_name(&mut names, object_name(&pod.name));
        }
    }
    proof {
        lemma_take_all(pods@);
    }
    let unique = dedup(&names);
    proof {
        assert(text::texts(unique@).len() == unique@.len());
    }
    let mut out = number(unique.len());
    out.append(" Pod");
    out.append(plural(unique.len()));
    out.append(" in ");
    out.append(reason);
    out.append(" (");
    out.append(join_names(&unique).as_str());
    out.append(")");
    note_if(observations, unique.len() > 0, Observation::problem(out));
}

/// Count pods by phase and readiness.
fn count_pods(pods: &[Pod], truncated: bool) -> (r: PodStats)
    ensures
        r.total == pods@.len(),
        r.ready == ready_pods(pods@),
        r.running == pods_in_phase(pods@, "Running"@),
        r.pending == pods_in_phase(pods@, "Pending"@),
        r.succeeded == pods_in_phase(pods@, "Succeeded"@),
        r.failed == pods_in_phase(pods@, "Failed"@),
        r.truncated == truncated,
{
    let mut stats = PodStats {
        total: pods.len(),
        ready: 0,
        running: 0,
        pending: 0,
        succeeded: 0,
        failed: 0,
        truncated,
    };
    for i in 0..pods.len()
        invariant
            stats.total == pods@.len(),
            stats.ready == ready_pods(pods@.take(i as int)),
            stats.running == pods_in_phase(pods@.take(i as int), "Running"@),
            stats.pending == pods_in_phase(pods@.take(i as int), "Pending"@),
            stats.succeeded == pods_in_phase(pods@.take(i as int), "Succeeded"@),
            stats.failed == pods_in_phase(pods@.take(i as int), "Failed"@),
            stats.truncated == truncated,
    {
        let pod = &pods[i];
        let phase = str_or(&pod.phase, "");
        proof {
            let at = i as int;
            lemma_count_step(pods@, at, |pod: Pod| pod_ready(pod));
            lemma_count_step(pods@, at, |pod: Pod| phase_of(pod) == "Running"@);
            lemma_count_step(pods@, at, |pod: Pod| phase_of(pod) == "Pending"@);
            lemma_count_step(pods@, at, |pod: Pod| phase_of(pod) == "Succeeded"@);
            lemma_count_step(pods@, at, |pod: Pod| phase_of(pod) == "Failed"@);
        }
        if same_text(phase, "Running") {
            stats.running = stats.running + 1;
        }
        if same_text(phase, "Pending") {
            stats.pending = stats.pending + 1;
        }
        if same_text(phase, "Succeeded") {
            stats.succeeded = stats.succeeded + 1;
        }
        if same_text(phase, "Failed") {
            stats.failed = stats.failed + 1;
        }
        if condition_is(&pod.conditions, "Ready", "True") {
            stats.ready = stats.ready + 1;
        }
    }
    proof {
        lemma_take_all(pods@);
    }
    stats
}

fn note_restarts(observations: &mut Vec<Observation>, pods: &[Pod])
    ensures
        said(final(observations)@) == said(old(observations)@) + when(
            restarting_pods(pods@) > 0,
            Severity::Warning,
            text::decimal(restarting_pods(pods@)) + " Pod"@ + plural_of(restarting_pods(pods@))
                + " with more than "@ + text::decimal_signed(RESTART_THRESHOLD as int)
                + " container restarts (highest "@ + text::decimal_signed(worst_restarts(pods@))
                + ")"@,
        ),
{
    let mut count: usize = 0;
    let mut worst: i32 = 0;
    for i in 0..pods.len()
        invariant
            count == restarting_pods(pods@.take(i as int)),
            worst == worst_restarts(pods@.take(i as int)),
    {
        proof {
            lemma_count_step(
                pods@,
                i as int,
                |pod: Pod| most_restarts(statuses_of(pod)) > RESTART_THRESHOLD,
            );
            assert(pods@.take(i + 1).drop_last() == pods@.take(i as int));
        }
        let restarts: i32 = pod_restarts(&pods[i]);
        if restarts > RESTART_THRESHOLD {
            count = count + 1;
            if restarts > worst {
                worst = restarts;
            }
        }
    }
    proof {
        lemma_take_all(pods@);
    }
    let mut out = number(count);
    out.append(" Pod");
    out.append(plural(count));
    out.append(" with more than ");
    out.append(signed(RESTART_THRESHOLD).as_str());
    out.append(" container restarts (highest ");
    out.append(signed(worst).as_str());
    out.append(")");
    note_if(observations, count > 0, Observation::warning(out));
}

/// Whether `r` holds the counts of pods and everything said about them.
pub open spec fn pods_summarised(
    pods: Seq<Pod>,
    truncated: bool,
    r: (PodStats, Vec<Observation>),
) -> bool {
    &&& r.0.total == pods.len()
    &&& r.0.ready == ready_pods(pods)
    &&& r.0.running == pods_in_phase(pods, "Running"@)
    &&& r.0.pending == pods_in_phase(pods, "Pending"@)
    &&& r.0.succeeded == pods_in_phase(pods, "Succeeded"@)
    &&& r.0.failed == pods_in_phase(pods, "Failed"@)
    &&& r.0.truncated == truncated
    &&& said(r.1@) == pods_said(pods, truncated)
}

/// Summarise pods and report readiness, waiting reasons and restart counts.
pub fn observe_pods(pods: &[Pod], truncated: bool) -> (r: (PodStats, Vec<Observation>))
    ensures
        pods_summarised(pods@, truncated, r),
{
    let stats = count_pods(pods, truncated);
    let mut not_ready: Vec<String> = Vec::new();
    proof {
        assert(text::texts(not_ready@) == unready_pods(pods@.take(0)));
    }
    for i in 0..pods.len()
        invariant
            text::texts(not_ready@) == unready_pods(pods@.take(i as int)),
    {
        let pod = &pods[i];
        proof {
            lemma_labels_step(
                pods@,
                i as int,
                |pod: Pod| !pod_ready(pod) && phase_of(pod) != "Succeeded"@,
                |pod: Pod| name_of(pod.name),
            );
        }
        // Completed pods are not "not Ready" in any interesting sense.
        if !condition_is(&pod.conditions, "Ready", "True") && !same_text(
            str_or(&pod.phase, ""),
            "Succeeded",
        ) {
            push_name(&mut not_ready, object_name(&pod.name));
        }
    }
    proof {
        lemma_take_all(pods@);
    }
    let mut observations: Vec<Observation> = Vec::new();
    let mut unready = number(not_ready.len());
    unready.append(" Pod");
    unready.append(plural(not_ready.len()));
    unready.append(" not Ready (");
    unready.append(join_names(&not_ready).as_str());
    unready.append(")");
    note_if(&mut observations, not_ready.len() > 0, Observation::problem(unready));
    let mut pending = number(stats.pending);
    pending.append(" Pod");
    pending.append(plural(stats.pending));
    pending.append(" Pending");
    note_if(&mut observations, stats.pending > 0, Observation::warning(pending));
    note_waiting(&mut observations, pods, "CrashLoopBackOff");
    note_waiting(&mut observations, pods, "CreateContainerConfigError");
    note_waiting(&mut observations, pods, "CreateContainerError");
    note_waiting(&mut observations, pods, "ErrImagePull");
    note_waiting(&mut observations, pods, "ImagePullBackOff");
    note_waiting(&mut observations, pods, "InvalidImageName");
    note_waiting(&mut observations, pods, "RunContainerError");
    let mut failed = number(stats.failed);
    failed.append(" Pod");
    failed.append(plural(stats.failed));
    failed.append(" Failed");
    note_if(&mut observations, stats.failed > 0, Observation::problem(failed));
    note_restarts(&mut observations, pods);
    note_truncation(&mut observations, truncated, pods.len(), "Pods");
    (stats, observations)
}

// ---------------------------------------------------------------------------------------------
// Replica counts
// ---------------------------------------------------------------------------------------------
/// Replica counts aggregated over Deployments or StatefulSets.
#[derive(Debug, Default, Clone, Copy, PartialEq, Eq, Structural)]
pub struct ReplicaStats {
    /// Objects returned by the API.
    pub total: usize,
    /// Sum of desired replicas.
    pub desired: i32,
    /// Sum of available replicas.
    pub available: i32,
    /// Objects with fewer available replicas than desired.
    pub degraded: usize,
    /// True when more objects exist than were listed.
    pub truncated: bool,
}

/// The name of an object with its desired and its healthy replicas.
#[derive(Debug)]
struct Tally {
    name: String,
    desired: i32,
    healthy: i32,
}

/// The name of an object, its desired and its healthy replicas.
pub type Count = (Seq<char>, int, int);

/// The sum of desired replicas.
pub open spec fn desired_sum(counts: Seq<Count>) -> int
    decreases counts.len(),
{
    if counts.len() == 0 {
        0
    } else {
        desired_sum(counts.drop_last()) + counts.last().1
    }
}

/// The sum of healthy replicas.
pub open spec fn healthy_sum(counts: Seq<Count>) -> int
    decreases counts.len(),
{
    if counts.len() == 0 {
        0
    } else {
        healthy_sum(counts.drop_last()) + counts.last().2
    }
}

/// Whether a number can be a sum of replicas.
pub open spec fn countable(n: int) -> bool {
    i32::MIN <= n <= i32::MAX
}

/// Whether the replicas of objects can be added up, one object after the other.
pub open spec fn sums_fit(counts: Seq<Count>) -> bool {
    forall|i: int|
        0 <= i <= counts.len() ==> countable(desired_sum(#[trigger] counts.take(i)))
            && countable(healthy_sum(counts.take(i)))
}

/// How many objects have fewer healthy replicas than desired.
pub open spec fn degraded_count(counts: Seq<Count>) -> nat {
    count_of(counts, |count: Count| count.2 < count.1)
}

/// The objects with fewer healthy replicas than desired, as `name healthy/desired`.
pub open spec fn shortfalls(counts: Seq<Count>) -> Seq<Seq<char>> {
    labels_of(
        counts,
        |count: Count| count.2 < count.1,
        |count: Count|
            count.0 + " "@ + text::decimal_signed(count.2) + "/"@ + text::decimal_signed(count.1),
    )
}

/// The statement about an object given as `name healthy/desired`: the name ends at the first
/// space.
pub open spec fn shortfall_line(kind: Seq<char>, quality: Seq<char>, entry: Seq<char>) -> Seq<
    char,
> {
    match text::first_occurrence(entry, " "@) {
        Some(k) => kind + " "@ + entry.take(k) + " has "@ + entry.skip(k + 1) + " "@ + quality
            + " replicas"@,
        None => kind + " "@ + entry + " has "@ + ""@ + " "@ + quality + " replicas"@,
    }
}

/// At most [`NAME_LIMIT`] statements, each a problem.
pub open spec fn problem_lines(lines: Seq<Seq<char>>) -> Seq<(Severity, Seq<char>)> {
    Seq::new(
        if lines.len() <= NAME_LIMIT {
            lines.len()
        } else {
            NAME_LIMIT as nat
        },
        |i: int| (Severity::Problem, lines[i]),
    )
}

/// The statement that there are more degraded objects than were named.
pub open spec fn further_said(count: nat, kinds: Seq<char>) -> Seq<(Severity, Seq<char>)> {
    when(
        count > NAME_LIMIT,
        Severity::Problem,
        text::decimal((count - NAME_LIMIT) as nat) + " further "@ + kinds + " are degraded"@,
    )
}

/// Everything said about objects with replicas.
pub open spec fn replicas_said(
    kind: Seq<char>,
    kinds: Seq<char>,
    quality: Seq<char>,
    counts: Seq<Count>,
    truncated: bool,
) -> Seq<(Severity, Seq<char>)> {
    let short = shortfalls(counts);
    problem_lines(
        Seq::new(short.len(), |i: int| shortfall_line(kind, quality, short[i])),
    ) + further_said(short.len(), kinds) + truncation_said(truncated, counts.len(), kinds)
}

fn note_further(observations: &mut Vec<Observation>, count: usize, kinds: &str)
    ensures
        said(final(observations)@) == said(old(observations)@) + further_said(
            count as nat,
            kinds@,
        ),
{
    let rest: usize = if count > NAME_LIMIT {
        count - NAME_LIMIT
    } else {
        0
    };
    let mut out = number(rest);
    out.append(" further ");
    out.append(kinds);
    out.append(" are degraded");
    note_if(observations, count > NAME_LIMIT, Observation::problem(out));
}

fn note_problems(observations: &mut Vec<Observation>, lines: &Vec<String>)
    ensures
        said(final(observations)@) == said(old(observations)@) + problem_lines(
            text::texts(lines@),
        ),
{
    let count: usize = if lines.len() <= NAME_LIMIT {
        lines.len()
    } else {
        NAME_LIMIT
    };
    let ghost given = said(observations@);
    let ghost all = problem_lines(text::texts(lines@));
    proof {
        assert(given + all.take(0) == given);
    }
    for i in 0..count
        invariant
            count <= lines@.len(),
            all == problem_lines(text::texts(lines@)),
            count == all.len(),
            given == said(old(observations)@),
            said(observations@) == given + all.take(i as int),
    {
        let ghost before = observations@;
        let added = Observation::problem(lines[i].clone());
        observations.push(added);
        proof {
            assert(said(before.push(added)) == said(before).push(added.content()));
            assert(added.content() == all[i as int]);
            assert(all.take(i + 1) == all.take(i as int).push(all[i as int]));
            assert((given + all.take(i as int)).push(all[i as int]) == given + all.take(i + 1));
        }
    }
    proof {
        assert(all.take(all.len() as int) == all);
    }
}

fn short_line(kind: &str, quality: &str, entry: &str) -> (r: String)
    ensures
        r@ == shortfall_line(kind@, quality@, entry@),
{
    let chars = text::chars_of(entry);
    let space = text::chars_of(" ");
    let mut out = kind.to_owned();
    out.append(" ");
    match text::find(&chars, &space) {
        Some(k) => {
            proof {
                text::lemma_next_occurrence(entry@, " "@, 0);
                reveal_strlit(" ");
                assert(k < chars.len());
                assert(entry@.subrange(0, k as int) == entry@.take(k as int));
                assert(entry@.subrange(k + 1, entry@.len() as int) == entry@.skip(k + 1));
            }
            out.append(entry.substring_char(0, k));
            out.append(" has ");
            out.append(entry.substring_char(k + 1, chars.len()));
        },
        None => {
            out.append(entry);
            out.append(" has ");
            out.append("");
        },
    }
    out.append(" ");
    out.append(quality);
    out.append(" replicas");
    out
}

proof fn lemma_sums_step(counts: Seq<Count>, i: int)
    requires
        0 <= i < counts.len(),
    ensures
        desired_sum(counts.take(i + 1)) == desired_sum(counts.take(i)) + counts[i].1,
        healthy_sum(counts.take(i + 1)) == healthy_sum(counts.take(i)) + counts[i].2,
{
    assert(counts.take(i + 1).drop_last() == counts.take(i));
}

/// What a list of tallies counts.
spec fn tallied(tallies: Seq<Tally>) -> Seq<Count> {
    Seq::new(
        tallies.len(),
        |i: int| (tallies[i].name@, tallies[i].desired as int, tallies[i].healthy as int),
    )
}

/// Whether the replicas of objects can be added up.
fn tallies_fit(tallies: &Vec<Tally>) -> (r: bool)
    ensures
        r == sums_fit(tallied(tallies@)),
{
    let ghost counts = tallied(tallies@);
    let mut desired: i64 = 0;
    let mut healthy: i64 = 0;
    for i in 0..tallies.len()
        invariant
            counts == tallied(tallies@),
            desired == desired_sum(counts.take(i as int)),
            healthy == healthy_sum(counts.take(i as int)),
            countable(desired as int),
            countable(healthy as int),
            forall|k: int|
                0 <= k <= i ==> countable(desired_sum(#[trigger] counts.take(k))) && countable(
                    healthy_sum(counts.take(k)),
                ),
    {
        proof {
            lemma_sums_step(counts, i as int);
        }
        desired = desired + tallies[i].desired as i64;
        healthy = healthy + tallies[i].healthy as i64;
        if desired < -0x8000_0000 || desired > 0x7fff_ffff || healthy < -0x8000_0000 || healthy
            > 0x7fff_ffff {
            proof {
                assert(!(countable(desired_sum(counts.take(i + 1))) && countable(
                    healthy_sum(counts.take(i + 1)),
                )));
            }
            return false;
        }
    }
    true
}

/// Shared aggregation for the two replica-shaped controllers.
fn replica_observations(
    kind: &str,
    kinds: &str,
    quality: &str,
    tallies: &Vec<Tally>,
    truncated: bool,
) -> (r: (ReplicaStats, Vec<Observation>))
    requires
        sums_fit(tallied(tallies@)),
    ensures
        r.0.total == tallies@.len(),
        r.0.desired == desired_sum(tallied(tallies@)),
        r.0.available == healthy_sum(tallied(tallies@)),
        r.0.degraded == degraded_count(tallied(tallies@)),
        r.0.truncated == truncated,
        said(r.1@) == replicas_said(kind@, kinds@, quality@, tallied(tallies@), truncated),
{
    let mut desired: i32 = 0;
    let mut available: i32 = 0;
    let mut degraded: usize = 0;
    let mut short: Vec<String> = Vec::new();
    let mut lines: Vec<String> = Vec::new();
    let ghost counts = tallied(tallies@);
    let ghost line = |entry: Seq<char>| shortfall_line(kind@, quality@, entry);
    proof {
        assert(text::texts(short@) == shortfalls(counts.take(0)));
        assert(text::texts(lines@) == text::texts(short@).map_values(line));
    }
    for i in 0..tallies.len()
        invariant
            counts == tallied(tallies@),
            sums_fit(counts),
            line == (|entry: Seq<char>| shortfall_line(kind@, quality@, entry)),
            desired == desired_sum(counts.take(i as int)),
            available == healthy_sum(counts.take(i as int)),
            degraded == degraded_count(counts.take(i as int)),
            text::texts(short@) == shortfalls(counts.take(i as int)),
            text::texts(lines@) == text::texts(short@).map_values(line),
    {
        let tally = &tallies[i];
        proof {
            let at = i as int;
            lemma_sums_step(counts, at);
            lemma_count_step(counts, at, |count: Count| count.2 < count.1);
            lemma_labels_step(
                counts,
                at,
                |count: Count| count.2 < count.1,
                |count: Count|
                    count.0 + " "@ + text::decimal_signed(count.2) + "/"@ + text::decimal_signed(
                        count.1,
                    ),
            );
            assert(countable(desired_sum(counts.take(at + 1))));
        }
        desired = desired + tally.desired;
        available = available + tally.healthy;
        if tally.healthy < tally.desired {
            degraded = degraded + 1;
            let mut entry = tally.name.clone();
            entry.append(" ");
            entry.append(signed(tally.healthy).as_str());
            entry.append("/");
            entry.append(signed(tally.desired).as_str());
            proof {
                let before = text::texts(short@);
                assert(before.push(entry@).map_values(line) == before.map_values(line).push(
                    line(entry@),
                ));
            }
            push_name(&mut lines, short_line(kind, quality, entry.as_str()));
            push_name(&mut short, entry);
        }
    }
    proof {
        lemma_take_all(counts);
        let all = shortfalls(counts);
        assert(text::texts(lines@) == Seq::new(
            all.len(),
            |i: int| shortfall_line(kind@, quality@, all[i]),
        ));
        assert(text::texts(short@).len() == short@.len());
    }
    let mut observations: Vec<Observation> = Vec::new();
    note_problems(&mut observations, &lines);
    note_further(&mut observations, short.len(), kinds);
    note_truncation(&mut observations, truncated, tallies.len(), kinds);
    let stats = ReplicaStats { total: tallies.len(), desired, available, degraded, truncated };
    (stats, observations)
}

/// An optional replica count, or a fallback.
pub open spec fn replicas_or(replicas: Option<i32>, fallback: int) -> int {
    match replicas {
        Some(n) => n as int,
        None => fallback,
    }
}

fn count_or(replicas: Option<i32>, fallback: i32) -> (r: i32)
    ensures
        r == replicas_or(replicas, fallback as int),
{
    match replicas {
        Some(n) => n,
        None => fallback,
    }
}

/// Desired and available replicas of Deployments.
pub open spec fn deployment_counts(deployments: Seq<Deployment>) -> Seq<Count> {
    Seq::new(
        deployments.len(),
        |i: int|
            (
                name_of(deployments[i].name),
                replicas_or(deployments[i].replicas, 1),
                replicas_or(deployments[i].available_replicas, 0),
            ),
    )
}

fn tally_deployments(deployments: &[Deployment]) -> (r: Vec<Tally>)
    ensures
        tallied(r@) == deployment_counts(deployments@),
{
    let mut tallies: Vec<Tally> = Vec::new();
    for i in 0..deployments.len()
        invariant
            tallies@.len() == i,
            forall|k: int|
                0 <= k < i ==> tallied(tallies@)[k] == #[trigger] deployment_counts(
                    deployments@,
                )[k],
    {
        let deployment = &deployments[i];
        let ghost before = tallies@;
        tallies.push(
            Tally {
                name: object_name(&deployment.name),
                desired: count_or(deployment.replicas, 1),
                healthy: count_or(deployment.available_replicas, 0),
            },
        );
        proof {
            assert forall|k: int| 0 <= k < i + 1 implies tallied(tallies@)[k]
                == #[trigger] deployment_counts(deployments@)[k] by {
                if k < i {
                    assert(tallied(tallies@)[k] == tallied(before)[k]);
                }
            }
        }
    }
    tallies
}

/// Whether the replicas of Deployments can be added up.
pub fn deployments_fit(deployments: &[Deployment]) -> (r: bool)
    ensures
        r == sums_fit(deployment_counts(deployments@)),
{
    tallies_fit(&tally_deployments(deployments))
}

/// Whether `r` holds the counts of Deployments and everything said about them.
pub open spec fn deployments_summarised(
    deployments: Seq<Deployment>,
    truncated: bool,
    r: (ReplicaStats, Vec<Observation>),
) -> bool {
    &&& r.0.total == deployments.len()
    &&& r.0.desired == desired_sum(deployment_counts(deployments))
    &&& r.0.available == healthy_sum(deployment_counts(deployments))
    &&& r.0.degraded == degraded_count(deployment_counts(deployments))
    &&& r.0.truncated == truncated
    &&& said(r.1@) == replicas_said(
        "deployment"@,
        "Deployments"@,
        "available"@,
        deployment_counts(deployments),
        truncated,
    )
}

/// Summarise Deployments; report any with fewer available replicas than desired.
pub fn observe_deployments(deployments: &[Deployment], truncated: bool) -> (r: (
    ReplicaStats,
    Vec<Observation>,
))
    requires
        sums_fit(deployment_counts(deployments@)),
    ensures
        deployments_summarised(deployments@, truncated, r),
{
    let tallies = tally_deployments(deployments);
    proof {
        assert(tallied(tallies@).len() == tallies@.len());
    }
    replica_observations("deployment", "Deployments", "available", &tallies, truncated)
}

/// Desired and ready replicas of StatefulSets.
pub open spec fn statefulset_counts(statefulsets: Seq<StatefulSet>) -> Seq<Count> {
    Seq::new(
        statefulsets.len(),
        |i: int|
            (
                name_of(statefulsets[i].name),
                replicas_or(statefulsets[i].replicas, 1),
                replicas_or(statefulsets[i].ready_replicas, 0),
            ),
    )
}

fn tally_statefulsets(statefulsets: &[StatefulSet]) -> (r: Vec<Tally>)
    ensures
        tallied(r@) == statefulset_counts(statefulsets@),
{
    let mut tallies: Vec<Tally> = Vec::new();
    for i in 0..statefulsets.len()
        invariant
            tallies@.len() == i,
            forall|k: int|
                0 <= k < i ==> tallied(tallies@)[k] == #[trigger] statefulset_counts(
                    statefulsets@,
                )[k],
    {
        let statefulset = &statefulsets[i];
        let ghost before = tallies@;
        tallies.push(
            Tally {
                name: object_name(&statefulset.name),
                desired: count_or(statefulset.replicas, 1),
                healthy: count_or(statefulset.ready_replicas, 0),
            },
        );
        proof {
            assert forall|k: int| 0 <= k < i + 1 implies tallied(tallies@)[k]
                == #[trigger] statefulset_counts(statefulsets@)[k] by {
                if k < i {
                    assert(tallied(tallies@)[k] == tallied(before)[k]);
                }
            }
        }
    }
    tallies
}

/// Whether the replicas of StatefulSets can be added up.
pub fn statefulsets_fit(statefulsets: &[StatefulSet]) -> (r: bool)
    ensures
        r == sums_fit(statefulset_counts(statefulsets@)),
{
    tallies_fit(&tally_statefulsets(statefulsets))
}

/// Whether `r` holds the counts of StatefulSets and everything said about them.
pub open spec fn statefulsets_summarised(
    statefulsets: Seq<StatefulSet>,
    truncated: bool,
    r: (ReplicaStats, Vec<Observation>),
) -> bool {
    &&& r.0.total == statefulsets.len()
    &&& r.0.desired == desired_sum(statefulset_counts(statefulsets))
    &&& r.0.available == healthy_sum(statefulset_counts(statefulsets))
    &&& r.0.degraded == degraded_count(statefulset_counts(statefulsets))
    &&& r.0.truncated == truncated
    &&& said(r.1@) == replicas_said(
        "statefulset"@,
        "StatefulSets"@,
        "ready"@,
        statefulset_counts(statefulsets),
        truncated,
    )
}

/// Summarise StatefulSets; report any with fewer ready replicas than desired.
pub fn observe_statefulsets(statefulsets: &[StatefulSet], truncated: bool) -> (r: (
    ReplicaStats,
    Vec<Observation>,
))
    requires
        sums_fit(statefulset_counts(statefulsets@)),
    ensures
        statefulsets_summarised(statefulsets@, truncated, r),
{
    let tallies = tally_statefulsets(statefulsets);
    proof {
        assert(tallied(tallies@).len() == tallies@.len());
    }
    replica_observations("statefulset", "StatefulSets", "ready", &tallies, truncated)
}

// ---------------------------------------------------------------------------------------------
// DaemonSets
// ---------------------------------------------------------------------------------------------
/// DaemonSet scheduling counts.
#[derive(Debug, Default, Clone, Copy, PartialEq, Eq, Structural)]
pub struct DaemonSetStats {
    /// Objects returned by the API.
    pub total: usize,
    /// Sum of desired scheduled pods.
    pub desired: i32,
    /// Sum of ready pods.
    pub ready: i32,
    /// Objects with unavailable or misscheduled pods.
    pub degraded: usize,
    /// True when more objects exist than were listed.
    pub truncated: bool,
}

/// Desired and ready pods of DaemonSets; none where no status is reported.
pub open spec fn daemonset_counts(daemonsets: Seq<DaemonSet>) -> Seq<Count> {
    Seq::new(
        daemonsets.len(),
        |i: int|
            match daemonsets[i].status {
                Some(status) => (
                    name_of(daemonsets[i].name),
                    status.desired_number_scheduled as int,
                    status.number_ready as int,
                ),
                None => (name_of(daemonsets[i].name), 0, 0),
            },
    )
}

/// Whether a DaemonSet has unavailable or misscheduled pods.
pub open spec fn daemonset_degraded(daemonset: DaemonSet) -> bool {
    match daemonset.status {
        Some(status) => status.number_ready < status.desired_number_scheduled
            || status.number_misscheduled > 0,
        None => false,
    }
}

/// Whether a DaemonSet has misscheduled pods.
pub open spec fn misscheduled(daemonset: DaemonSet) -> bool {
    daemonset.status is Some && daemonset.status->0.number_misscheduled > 0
}

/// The statements about misscheduled pods.
pub open spec fn misscheduled_lines(daemonsets: Seq<DaemonSet>) -> Seq<Seq<char>> {
    labels_of(
        daemonsets,
        |daemonset: DaemonSet| misscheduled(daemonset),
        |daemonset: DaemonSet|
            "daemonset "@ + name_of(daemonset.name) + " has "@ + text::decimal_signed(
                daemonset.status->0.number_misscheduled as int,
            ) + " misscheduled Pod(s)"@,
    )
}

/// The statements about pods that are not ready.
pub open spec fn unready_lines(counts: Seq<Count>) -> Seq<Seq<char>> {
    labels_of(
        counts,
        |count: Count| count.2 < count.1,
        |count: Count|
            "daemonset "@ + count.0 + " has "@ + text::decimal_signed(count.2) + "/"@
                + text::decimal_signed(count.1) + " Pods ready"@,
    )
}

/// Statements, each a warning.
pub open spec fn warning_lines(lines: Seq<Seq<char>>) -> Seq<(Severity, Seq<char>)> {
    Seq::new(lines.len(), |i: int| (Severity::Warning, lines[i]))
}

/// Everything said about DaemonSets.
pub open spec fn daemonsets_said(daemonsets: Seq<DaemonSet>, truncated: bool) -> Seq<
    (Severity, Seq<char>),
> {
    let unready = unready_lines(daemonset_counts(daemonsets));
    warning_lines(misscheduled_lines(daemonsets)) + problem_lines(unready) + further_said(
        unready.len(),
        "DaemonSets"@,
    ) + truncation_said(truncated, daemonsets.len(), "DaemonSets"@)
}

fn tally_daemonsets(daemonsets: &[DaemonSet]) -> (r: Vec<Tally>)
    ensures
        tallied(r@) == daemonset_counts(daemonsets@),
{
    let mut tallies: Vec<Tally> = Vec::new();
    for i in 0..daemonsets.len()
        invariant
            tallies@.len() == i,
            forall|k: int|
                0 <= k < i ==> tallied(tallies@)[k] == #[trigger] daemonset_counts(daemonsets@)[k],
    {
        let daemonset = &daemonsets[i];
        let ghost before = tallies@;
        let (desired, ready): (i32, i32) = match daemonset.status {
            Some(status) => (status.desired_number_scheduled, status.number_ready),
            None => (0, 0),
        };
        tallies.push(Tally { name: object_name(&daemonset.name), desired, healthy: ready });
        proof {
            assert forall|k: int| 0 <= k < i + 1 implies tallied(tallies@)[k]
                == #[trigger] daemonset_counts(daemonsets@)[k] by {
                if k < i {
                    assert(tallied(tallies@)[k] == tallied(before)[k]);
                }
            }
        }
    }
    tallies
}

/// Whether the pods of DaemonSets can be added up.
pub fn daemonsets_fit(daemonsets: &[DaemonSet]) -> (r: bool)
    ensures
        r == sums_fit(daemonset_counts(daemonsets@)),
{
    tallies_fit(&tally_daemonsets(daemonsets))
}

/// Whether `r` holds the counts of DaemonSets and everything said about them.
pub open spec fn daemonsets_summarised(
    daemonsets: Seq<DaemonSet>,
    truncated: bool,
    r: (DaemonSetStats, Vec<Observation>),
) -> bool {
    &&& r.0.total == daemonsets.len()
    &&& r.0.desired == desired_sum(daemonset_counts(daemonsets))
    &&& r.0.ready == healthy_sum(daemonset_counts(daemonsets))
    &&& r.0.degraded == count_of(
        daemonsets,
        |daemonset: DaemonSet| daemonset_degraded(daemonset),
    )
    &&& r.0.truncated == truncated
    &&& said(r.1@) == daemonsets_said(daemonsets, truncated)
}

/// Summarise DaemonSets; report unavailable or misscheduled pods.
pub fn observe_daemonsets(daemonsets: &[DaemonSet], truncated: bool) -> (r: (
    DaemonSetStats,
    Vec<Observation>,
))
    requires
        sums_fit(daemonset_counts(daemonsets@)),
    ensures
        daemonsets_summarised(daemonsets@, truncated, r),
{
    let tallies = tally_daemonsets(daemonsets);
    let ghost counts = daemonset_counts(daemonsets@);
    let mut desired: i32 = 0;
    let mut ready: i32 = 0;
    let mut degraded: usize = 0;
    let mut lines: Vec<String> = Vec::new();
    let mut observations: Vec<Observation> = Vec::new();
    proof {
        assert(tallied(tallies@).len() == tallies@.len());
        assert(text::texts(lines@) == unready_lines(counts.take(0)));
        assert(said(observations@) == warning_lines(misscheduled_lines(daemonsets@.take(0))));
    }
    for i in 0..daemonsets.len()
        invariant
            counts == daemonset_counts(daemonsets@),
            tallied(tallies@) == counts,
            tallies@.len() == daemonsets@.len(),
            sums_fit(counts),
            desired == desired_sum(counts.take(i as int)),
            ready == healthy_sum(counts.take(i as int)),
            degraded == count_of(
                daemonsets@.take(i as int),
                |daemonset: DaemonSet| daemonset_degraded(daemonset),
            ),
            text::texts(lines@) == unready_lines(counts.take(i as int)),
            said(observations@) == warning_lines(
                misscheduled_lines(daemonsets@.take(i as int)),
            ),
    {
        let tally = &tallies[i];
        proof {
            let at = i as int;
            assert(tallied(tallies@)[at] == counts[at]);
            lemma_sums_step(counts, at);
            assert(countable(desired_sum(counts.take(at + 1))));
            lemma_count_step(
                daemonsets@,
                at,
                |daemonset: DaemonSet| daemonset_degraded(daemonset),
            );
            lemma_labels_step(
                counts,
                at,
                |count: Count| count.2 < count.1,
                |count: Count|
                    "daemonset "@ + count.0 + " has "@ + text::decimal_signed(count.2) + "/"@
                        + text::decimal_signed(count.1) + " Pods ready"@,
            );
            lemma_labels_step(
                daemonsets@,
                at,
                |daemonset: DaemonSet| misscheduled(daemonset),
                |daemonset: DaemonSet|
                    "daemonset "@ + name_of(daemonset.name) + " has "@ + text::decimal_signed(
                        daemonset.status->0.number_misscheduled as int,
                    ) + " misscheduled Pod(s)"@,
            );
        }
        desired = desired + tally.desired;
        ready = ready + tally.healthy;
        let stray: i32 = match daemonsets[i].status {
            Some(status) => status.number_misscheduled,
            None => 0,
        };
        if tally.healthy < tally.desired || stray > 0 {
            degraded = degraded + 1;
        }
        if tally.healthy < tally.desired {
            let mut line = "daemonset ".to_owned();
            line.append(tally.name.as_str());
            line.append(" has ");
            line.append(signed(tally.healthy).as_str());
            line.append("/");
            line.append(signed(tally.desired).as_str());
            line.append(" Pods ready");
            push_name(&mut lines, line);
        }
        let mut line = "daemonset ".to_owned();
        line.append(tally.name.as_str());
        line.append(" has ");
        line.append(signed(stray).as_str());
        line.append(" misscheduled Pod(s)");
        proof {
            let before = misscheduled_lines(daemonsets@.take(i as int));
            assert(warning_lines(before.push(line@)) == warning_lines(before) + seq![
                (Severity::Warning, line@),
            ]);
        }
        note_if(&mut observations, stray > 0, Observation::warning(line));
    }
    proof {
        lemma_take_all(counts);
        lemma_take_all(daemonsets@);
        assert(text::texts(lines@).len() == lines@.len());
    }
    note_problems(&mut observations, &lines);
    note_further(&mut observations, lines.len(), "DaemonSets");
    note_truncation(&mut observations, truncated, daemonsets.len(), "DaemonSets");
    let stats = DaemonSetStats { total: daemonsets.len(), desired, ready, degraded, truncated };
    (stats, observations)
}

// ---------------------------------------------------------------------------------------------
// Jobs
// ---------------------------------------------------------------------------------------------
/// Job outcome counts.
#[derive(Debug, Default, Clone, Copy, PartialEq, Eq, Structural)]
pub struct JobStats {
    /// Objects returned by the API.
    pub total: usize,
    /// Jobs with running pods.
    pub active: usize,
    /// Jobs with at least one failed pod, or that are marked as failed.
    pub failed: usize,
    /// Jobs with at least one pod that succeeded, or that reached `Complete`.
    pub complete: usize,
    /// True when more objects exist than were listed.
    pub truncated: bool,
}

/// Whether a count is set and positive.
pub open spec fn some_positive(count: Option<i32>) -> bool {
    count is Some && count->0 > 0
}

/// Whether a Job has running pods.
pub open spec fn job_active(job: Job) -> bool {
    job.status is Some && some_positive(job.status->0.active)
}

/// Whether a Job succeeded.
pub open spec fn job_complete(job: Job) -> bool {
    job.status is Some && (some_positive(job.status->0.succeeded) || condition_holds(
        job.status->0.conditions@,
        "Complete"@,
        "True"@,
    ))
}

/// Whether a Job failed.
pub open spec fn job_failed(job: Job) -> bool {
    job.status is Some && (some_positive(job.status->0.failed) || condition_holds(
        job.status->0.conditions@,
        "Failed"@,
        "True"@,
    ))
}

/// The names of the Jobs that failed.
pub open spec fn failed_jobs(jobs: Seq<Job>) -> Seq<Seq<char>> {
    labels_of(jobs, |job: Job| job_failed(job), |job: Job| name_of(job.name))
}

/// Everything said about Jobs.
pub open spec fn jobs_said(jobs: Seq<Job>, truncated: bool) -> Seq<(Severity, Seq<char>)> {
    let failed = failed_jobs(jobs);
    when(
        failed.len() > 0,
        Severity::Problem,
        text::decimal(failed.len()) + " Job"@ + plural_of(failed.len()) + " failed ("@
            + names_shown(failed) + ")"@,
    ) + truncation_said(truncated, jobs.len(), "Jobs"@)
}

fn is_positive(count: Option<i32>) -> (r: bool)
    ensures
        r == some_positive(count),
{
    match count {
        Some(n) => n > 0,
        None => false,
    }
}

/// Whether `r` holds the counts of Jobs and everything said about them.
pub open spec fn jobs_summarised(
    jobs: Seq<Job>,
    truncated: bool,
    r: (JobStats, Vec<Observation>),
) -> bool {
    &&& r.0.total == jobs.len()
    &&& r.0.active == count_of(jobs, |job: Job| job_active(job))
    &&& r.0.failed == count_of(jobs, |job: Job| job_failed(job))
    &&& r.0.complete == count_of(jobs, |job: Job| job_complete(job))
    &&& r.0.truncated == truncated
    &&& said(r.1@) == jobs_said(jobs, truncated)
}

/// Summarise Jobs; report failures.
pub fn observe_jobs(jobs: &[Job], truncated: bool) -> (r: (JobStats, Vec<Observation>))
    ensures
        jobs_summarised(jobs@, truncated, r),
{
    let mut active: usize = 0;
    let mut failed: usize = 0;
    let mut complete: usize = 0;
    let mut names: Vec<String> = Vec::new();
    proof {
        assert(text::texts(names@) == failed_jobs(jobs@.take(0)));
    }
    for i in 0..jobs.len()
        invariant
            active == count_of(jobs@.take(i as int), |job: Job| job_active(job)),
            failed == count_of(jobs@.take(i as int), |job: Job| job_failed(job)),
            complete == count_of(jobs@.take(i as int), |job: Job| job_complete(job)),
            text::texts(names@) == failed_jobs(jobs@.take(i as int)),
    {
        let job = &jobs[i];
        proof {
            let at = i as int;
            lemma_count_step(jobs@, at, |job: Job| job_active(job));
            lemma_count_step(jobs@, at, |job: Job| job_failed(job));
            lemma_count_step(jobs@, at, |job: Job| job_complete(job));
            lemma_labels_step(jobs@, at, |job: Job| job_failed(job), |job: Job| name_of(job.name));
        }
        if let Some(status) = &job.status {
            if is_positive(status.active) {
                active = active + 1;
            }
            if is_positive(status.succeeded) || condition_is(
                &status.conditions,
                "Complete",
                "True",
            ) {
                complete = complete + 1;
            }
            if is_positive(status.failed) || condition_is(&status.conditions, "Failed", "True") {
                failed = failed + 1;
                push_name(&mut names, object_name(&job.name));
            }
        }
    }
    proof {
        lemma_take_all(jobs@);
    }
    let mut observations: Vec<Observation> = Vec::new();
    let mut out = number(names.len());
    out.append(" Job");
    out.append(plural(names.len()));
    out.append(" failed (");
    out.append(join_names(&names).as_str());
    out.append(")");
    note_if(&mut observations, names.len() > 0, Observation::problem(out));
    note_truncation(&mut observations, truncated, jobs.len(), "Jobs");
    (JobStats { total: jobs.len(), active, failed, complete, truncated }, observations)
}

// ---------------------------------------------------------------------------------------------
// CronJobs
// ---------------------------------------------------------------------------------------------
/// CronJob counts.
#[derive(Debug, Default, Clone, Copy, PartialEq, Eq, Structural)]
pub struct CronJobStats {
    /// Objects returned by the API.
    pub total: usize,
    /// CronJobs with `spec.suspend: true`.
    pub suspended: usize,
    /// CronJobs that have never run.
    pub never_scheduled: usize,
    /// True when more objects exist than were listed.
    pub truncated: bool,
}

/// Whether a CronJob is suspended.
pub open spec fn cronjob_suspended(cronjob: CronJob) -> bool {
    cronjob.suspend == Some(true)
}

/// The names of the suspended CronJobs.
pub open spec fn suspended_cronjobs(cronjobs: Seq<CronJob>) -> Seq<Seq<char>> {
    labels_of(
        cronjobs,
        |cronjob: CronJob| cronjob_suspended(cronjob),
        |cronjob: CronJob| name_of(cronjob.name),
    )
}

/// Everything said about CronJobs.
pub open spec fn cronjobs_said(cronjobs: Seq<CronJob>, truncated: bool) -> Seq<
    (Severity, Seq<char>),
> {
    let suspended = suspended_cronjobs(cronjobs);
    when(
        suspended.len() > 0,
        Severity::Info,
        text::decimal(suspended.len()) + " CronJob"@ + (if suspended.len() == 1 {
            " is"@
        } else {
            "s are"@
        }) + " suspended ("@ + names_shown(suspended) + ")"@,
    ) + truncation_said(truncated, cronjobs.len(), "CronJobs"@)
}

/// Whether `r` holds the counts of CronJobs and everything said about them.
pub open spec fn cronjobs_summarised(
    cronjobs: Seq<CronJob>,
    truncated: bool,
    r: (CronJobStats, Vec<Observation>),
) -> bool {
    &&& r.0.total == cronjobs.len()
    &&& r.0.suspended == count_of(cronjobs, |cronjob: CronJob| cronjob_suspended(cronjob))
    &&& r.0.never_scheduled == count_of(cronjobs, |cronjob: CronJob| !cronjob.has_run)
    &&& r.0.truncated == truncated
    &&& said(r.1@) == cronjobs_said(cronjobs, truncated)
}

/// Summarise CronJobs; report suspended schedules.
pub fn observe_cronjobs(cronjobs: &[CronJob], truncated: bool) -> (r: (
    CronJobStats,
    Vec<Observation>,
))
    ensures
        cronjobs_summarised(cronjobs@, truncated, r),
{
    let mut suspended: usize = 0;
    let mut never: usize = 0;
    let mut names: Vec<String> = Vec::new();
    proof {
        assert(text::texts(names@) == suspended_cronjobs(cronjobs@.take(0)));
    }
    for i in 0..cronjobs.len()
        invariant
            suspended == count_of(
                cronjobs@.take(i as int),
                |cronjob: CronJob| cronjob_suspended(cronjob),
            ),
            never == count_of(cronjobs@.take(i as int), |cronjob: CronJob| !cronjob.has_run),
            text::texts(names@) == suspended_cronjobs(cronjobs@.take(i as int)),
    {
        let cronjob = &cronjobs[i];
        proof {
            let at = i as int;
            lemma_count_step(cronjobs@, at, |cronjob: CronJob| cronjob_suspended(cronjob));
            lemma_count_step(cronjobs@, at, |cronjob: CronJob| !cronjob.has_run);
            lemma_labels_step(
                cronjobs@,
                at,
                |cronjob: CronJob| cronjob_suspended(cronjob),
                |cronjob: CronJob| name_of(cronjob.name),
            );
        }
        let stopped: bool = match cronjob.suspend {
            Some(suspend) => suspend,
            None => false,
        };
        if stopped {
            suspended = suspended + 1;
            push_name(&mut names, object_name(&cronjob.name));
        }
        if !cronjob.has_run {
            never = never + 1;
        }
    }
    proof {
        lemma_take_all(cronjobs@);
    }
    let mut observations: Vec<Observation> = Vec::new();
    let mut out = number(names.len());
    out.append(" CronJob");
    if names.len() == 1 {
        out.append(" is");
    } else {
        out.append("s are");
    }
    out.append(" suspended (");
    out.append(join_names(&names).as_str());
    out.append(")");
    note_if(&mut observations, names.len() > 0, Observation::info(out));
    note_truncation(&mut observations, truncated, cronjobs.len(), "CronJobs");
    (
        CronJobStats { total: cronjobs.len(), suspended, never_scheduled: never, truncated },
        observations,
    )
}

// ---------------------------------------------------------------------------------------------
// What observations promise
// ---------------------------------------------------------------------------------------------
proof fn lemma_labels_match_count<T>(
    items: Seq<T>,
    wanted: spec_fn(T) -> bool,
    label: spec_fn(T) -> Seq<char>,
)
    ensures
        labels_of(items, wanted, label).len() == count_of(items, wanted),
    decreases items.len(),
{
    if items.len() > 0 {
        lemma_labels_match_count(items.drop_last(), wanted, label);
    }
}

proof fn lemma_count_complement<T>(
    items: Seq<T>,
    wanted: spec_fn(T) -> bool,
    unwanted: spec_fn(T) -> bool,
)
    requires
        forall|item: T| #[trigger] wanted(item) != unwanted(item),
    ensures
        count_of(items, wanted) + count_of(items, unwanted) == items.len(),
    decreases items.len(),
{
    if items.len() > 0 {
        lemma_count_complement(items.drop_last(), wanted, unwanted);
        assert(wanted(items.last()) != unwanted(items.last()));
    }
}

proof fn lemma_none_wanted<T>(items: Seq<T>, wanted: spec_fn(T) -> bool)
    requires
        forall|i: int| 0 <= i < items.len() ==> !#[trigger] wanted(items[i]),
    ensures
        count_of(items, wanted) == 0,
    decreases items.len(),
{
    if items.len() > 0 {
        assert(!wanted(items[items.len() - 1]));
        assert forall|i: int| 0 <= i < items.drop_last().len() implies !#[trigger] wanted(
            items.drop_last()[i],
        ) by {
            assert(!wanted(items[i]));
        }
        lemma_none_wanted(items.drop_last(), wanted);
    }
}

/// The statement about a list of so many objects that was cut short.
pub open spec fn cut_short(total: nat, kinds: Seq<char>) -> (Severity, Seq<char>) {
    (Severity::Info, "only the first "@ + text::decimal(total) + " "@ + kinds + " were inspected"@)
}

/// A truncated count is never presented as complete: whatever else is said about a list that was
/// cut short, the last statement says so.
pub proof fn lemma_truncation_is_said(
    nodes: Seq<Node>,
    pods: Seq<Pod>,
    counts: Seq<Count>,
    kind: Seq<char>,
    kinds: Seq<char>,
    quality: Seq<char>,
    daemonsets: Seq<DaemonSet>,
    jobs: Seq<Job>,
    cronjobs: Seq<CronJob>,
)
    ensures
        nodes_said(nodes, true).last() == cut_short(nodes.len(), "Nodes"@),
        pods_said(pods, true).last() == cut_short(pods.len(), "Pods"@),
        replicas_said(kind, kinds, quality, counts, true).last() == cut_short(counts.len(), kinds),
        daemonsets_said(daemonsets, true).last() == cut_short(daemonsets.len(), "DaemonSets"@),
        jobs_said(jobs, true).last() == cut_short(jobs.len(), "Jobs"@),
        cronjobs_said(cronjobs, true).last() == cut_short(cronjobs.len(), "CronJobs"@),
{
}

/// Taking an item out of a list takes it out of the count.
proof fn lemma_count_without<T>(items: Seq<T>, k: int, wanted: spec_fn(T) -> bool)
    requires
        0 <= k < items.len(),
    ensures
        count_of(items, wanted) == count_of(items.remove(k), wanted) + (if wanted(items[k]) {
            1nat
        } else {
            0nat
        }),
    decreases items.len(),
{
    if k == items.len() - 1 {
        assert(items.remove(k) == items.drop_last());
    } else {
        lemma_count_without(items.drop_last(), k, wanted);
        assert(items.remove(k).drop_last() == items.drop_last().remove(k));
        assert(items.remove(k).last() == items.last());
    }
}

/// A count does not depend on the order of what is counted.
proof fn lemma_count_reordered<T>(a: Seq<T>, b: Seq<T>, wanted: spec_fn(T) -> bool)
    requires
        a.to_multiset() == b.to_multiset(),
    ensures
        a.len() == b.len(),
        count_of(a, wanted) == count_of(b, wanted),
    decreases a.len(),
{
    a.to_multiset_ensures();
    b.to_multiset_ensures();
    if a.len() > 0 {
        let last = a.len() - 1;
        assert(a.contains(a[last]));
        assert(b.to_multiset().count(a[last]) > 0);
        assert(b.contains(a[last]));
        let k = choose|k: int| 0 <= k < b.len() && b[k] == a[last];
        assert(a.remove(last).to_multiset() == b.remove(k).to_multiset());
        lemma_count_reordered(a.remove(last), b.remove(k), wanted);
        lemma_count_without(a, last, wanted);
        lemma_count_without(b, k, wanted);
    }
}

/// What the labels of a list are: those of its wanted items.
proof fn lemma_labels_contain<T>(
    items: Seq<T>,
    wanted: spec_fn(T) -> bool,
    label: spec_fn(T) -> Seq<char>,
    t: Seq<char>,
)
    ensures
        labels_of(items, wanted, label).contains(t) <==> exists|item: T|
            #[trigger] items.contains(item) && wanted(item) && label(item) == t,
    decreases items.len(),
{
    if items.len() > 0 {
        let fewer = items.drop_last();
        let before = labels_of(fewer, wanted, label);
        let after = labels_of(items, wanted, label);
        lemma_labels_contain(fewer, wanted, label, t);
        assert forall|item: T| #[trigger]
            items.contains(item) <==> fewer.contains(item) || item == items.last() by {
            if items.contains(item) {
                let i = choose|i: int| 0 <= i < items.len() && items[i] == item;
                if i < fewer.len() {
                    assert(fewer[i] == item);
                }
            }
            if fewer.contains(item) {
                let i = choose|i: int| 0 <= i < fewer.len() && fewer[i] == item;
                assert(items[i] == item);
            }
            assert(items[items.len() - 1] == items.last());
        }
        if wanted(items.last()) {
            assert(after == before.push(label(items.last())));
            assert(after[before.len() as int] == label(items.last()));
            assert forall|u: Seq<char>| #[trigger]
                after.contains(u) <==> before.contains(u) || u == label(items.last()) by {
                if before.contains(u) {
                    let i = choose|i: int| 0 <= i < before.len() && before[i] == u;
                    assert(after[i] == u);
                }
                if after.contains(u) {
                    let i = choose|i: int| 0 <= i < after.len() && after[i] == u;
                    if i < before.len() {
                        assert(before[i] == u);
                    }
                }
            }
        }
        if exists|item: T| #[trigger] fewer.contains(item) && wanted(item) && label(item) == t {
            let item = choose|item: T| #[trigger]
                fewer.contains(item) && wanted(item) && label(item) == t;
            assert(items.contains(item));
        }
        assert(items.contains(items.last()));
    }
}

/// Which labels a list has does not depend on its order.
proof fn lemma_labels_reordered<T>(
    a: Seq<T>,
    b: Seq<T>,
    wanted: spec_fn(T) -> bool,
    label: spec_fn(T) -> Seq<char>,
)
    requires
        a.to_multiset() == b.to_multiset(),
    ensures
        text::distinct_ordered(labels_of(a, wanted, label)) == text::distinct_ordered(
            labels_of(b, wanted, label),
        ),
{
    a.to_multiset_ensures();
    b.to_multiset_ensures();
    assert forall|item: T| #[trigger] a.contains(item) <==> b.contains(item) by {
        assert(a.contains(item) <==> a.to_multiset().count(item) > 0);
        assert(b.contains(item) <==> b.to_multiset().count(item) > 0);
    }
    let x = labels_of(a, wanted, label);
    let y = labels_of(b, wanted, label);
    assert forall|t: Seq<char>| #[trigger] x.contains(t) <==> y.contains(t) by {
        lemma_labels_contain(a, wanted, label, t);
        lemma_labels_contain(b, wanted, label, t);
        if x.contains(t) {
            let item = choose|item: T| #[trigger]
                a.contains(item) && wanted(item) && label(item) == t;
            assert(b.contains(item));
        }
        if y.contains(t) {
            let item = choose|item: T| #[trigger]
                b.contains(item) && wanted(item) && label(item) == t;
            assert(a.contains(item));
        }
    }
    text::lemma_distinct_ordered_is_unique(x, y);
}

/// Whether two summaries of nodes say the same.
pub open spec fn same_summary(a: NodeSummary, b: NodeSummary) -> bool {
    &&& a.total == b.total
    &&& a.ready == b.ready
    &&& a.control_plane == b.control_plane
    &&& text::texts(a.versions@) == text::texts(b.versions@)
    &&& text::texts(a.platforms@) == text::texts(b.platforms@)
    &&& a.truncated == b.truncated
}

/// The summary of nodes does not depend on the order in which they are listed.
pub proof fn lemma_node_order_does_not_matter(
    nodes: Seq<Node>,
    reordered: Seq<Node>,
    truncated: bool,
    a: (NodeSummary, Vec<Observation>),
    b: (NodeSummary, Vec<Observation>),
)
    requires
        nodes.to_multiset() == reordered.to_multiset(),
        nodes_summarised(nodes, truncated, a),
        nodes_summarised(reordered, truncated, b),
    ensures
        same_summary(a.0, b.0),
{
    lemma_count_reordered(nodes, reordered, |node: Node| node_ready(node));
    lemma_count_reordered(nodes, reordered, |node: Node| control_plane(node));
    lemma_labels_reordered(
        nodes,
        reordered,
        |node: Node| node.info is Some,
        |node: Node| node.info->0.kubelet_version@,
    );
    lemma_labels_reordered(
        nodes,
        reordered,
        |node: Node| node.info is Some,
        |node: Node| node.info->0.operating_system@ + "/"@ + node.info->0.architecture@,
    );
}

/// The versions and the platforms of a summary are in order and distinct, and they are exactly
/// those that nodes report.
pub proof fn lemma_versions_and_platforms(
    nodes: Seq<Node>,
    truncated: bool,
    r: (NodeSummary, Vec<Observation>),
    t: Seq<char>,
)
    requires
        nodes_summarised(nodes, truncated, r),
    ensures
        text::ascending(text::texts(r.0.versions@)),
        text::ascending(text::texts(r.0.platforms@)),
        text::texts(r.0.versions@).contains(t) <==> exists|node: Node| #[trigger]
            nodes.contains(node) && node.info is Some && node.info->0.kubelet_version@ == t,
        text::texts(r.0.platforms@).contains(t) <==> exists|node: Node| #[trigger]
            nodes.contains(node) && node.info is Some && node.info->0.operating_system@ + "/"@
                + node.info->0.architecture@ == t,
{
    text::lemma_distinct_ordered(reported_versions(nodes));
    text::lemma_distinct_ordered(reported_platforms(nodes));
    let reports = |node: Node| node.info is Some;
    let version = |node: Node| node.info->0.kubelet_version@;
    let platform = |node: Node|
        node.info->0.operating_system@ + "/"@ + node.info->0.architecture@;
    lemma_labels_contain(nodes, reports, version, t);
    lemma_labels_contain(nodes, reports, platform, t);
    assert(reported_versions(nodes).contains(t) <==> exists|node: Node| #[trigger]
        nodes.contains(node) && reports(node) && version(node) == t);
    assert(reported_platforms(nodes).contains(t) <==> exists|node: Node| #[trigger]
        nodes.contains(node) && reports(node) && platform(node) == t);
}

/// Every node is either counted as ready or named as not ready.
pub proof fn lemma_nodes_add_up(nodes: Seq<Node>)
    ensures
        ready_nodes(nodes) + unready_nodes(nodes).len() == nodes.len(),
{
    let ready = |node: Node| node_ready(node);
    let unready = |node: Node| !node_ready(node);
    lemma_count_complement(nodes, ready, unready);
    lemma_labels_match_count(nodes, unready, |node: Node| name_of(node.name));
}

/// Every replica-shaped object counted as degraded is reported, by name or as a further one.
pub proof fn lemma_degraded_are_reported(counts: Seq<Count>)
    ensures
        shortfalls(counts).len() == degraded_count(counts),
{
    lemma_labels_match_count(
        counts,
        |count: Count| count.2 < count.1,
        |count: Count|
            count.0 + " "@ + text::decimal_signed(count.2) + "/"@ + text::decimal_signed(count.1),
    );
}

/// However many objects are degraded, at most [`NAME_LIMIT`] are named: the report on replicas
/// never has more than two further lines.
pub proof fn lemma_reports_are_bounded(
    kind: Seq<char>,
    kinds: Seq<char>,
    quality: Seq<char>,
    counts: Seq<Count>,
    truncated: bool,
)
    ensures
        replicas_said(kind, kinds, quality, counts, truncated).len() <= NAME_LIMIT + 2,
{
}

/// Healthy nodes are silent: with every node ready, none under pressure, a single kubelet version
/// and a complete list, nothing is said.
pub proof fn lemma_healthy_nodes_are_silent(nodes: Seq<Node>)
    requires
        forall|i: int|
            0 <= i < nodes.len() ==> {
                &&& node_ready(#[trigger] nodes[i])
                &&& !condition_holds(nodes[i].conditions@, "DiskPressure"@, "True"@)
                &&& !condition_holds(nodes[i].conditions@, "MemoryPressure"@, "True"@)
                &&& !condition_holds(nodes[i].conditions@, "NetworkUnavailable"@, "True"@)
                &&& !condition_holds(nodes[i].conditions@, "PIDPressure"@, "True"@)
            },
        text::distinct_ordered(reported_versions(nodes)).len() <= 1,
    ensures
        nodes_said(nodes, false).len() == 0,
{
    let unready = |node: Node| !node_ready(node);
    let name = |node: Node| name_of(node.name);
    lemma_none_wanted(nodes, unready);
    lemma_labels_match_count(nodes, unready, name);
    lemma_no_pressure(nodes, "DiskPressure"@);
    lemma_no_pressure(nodes, "MemoryPressure"@);
    lemma_no_pressure(nodes, "NetworkUnavailable"@);
    lemma_no_pressure(nodes, "PIDPressure"@);
}

proof fn lemma_no_pressure(nodes: Seq<Node>, kind: Seq<char>)
    requires
        forall|i: int|
            0 <= i < nodes.len() ==> !condition_holds(
                (#[trigger] nodes[i]).conditions@,
                kind,
                "True"@,
            ),
    ensures
        pressured_nodes(nodes, kind).len() == 0,
{
    let pressured = |node: Node| condition_holds(node.conditions@, kind, "True"@);
    lemma_none_wanted(nodes, pressured);
    lemma_labels_match_count(nodes, pressured, |node: Node| name_of(node.name));
}

/// Healthy replicas are silent: with no object short of replicas and a complete list, nothing is
/// said.
pub proof fn lemma_healthy_replicas_are_silent(
    kind: Seq<char>,
    kinds: Seq<char>,
    quality: Seq<char>,
    counts: Seq<Count>,
)
    requires
        forall|i: int| 0 <= i < counts.len() ==> (#[trigger] counts[i]).2 >= counts[i].1,
    ensures
        replicas_said(kind, kinds, quality, counts, false).len() == 0,
{
    let short = |count: Count| count.2 < count.1;
    assert forall|i: int| 0 <= i < counts.len() implies !#[trigger] short(counts[i]) by {
        assert(counts[i].2 >= counts[i].1);
    }
    lemma_none_wanted(counts, short);
    lemma_degraded_are_reported(counts);
}

/// The line about an object names it in full wherever its name holds no space, as the names of
/// Kubernetes objects never do.
pub proof fn lemma_shortfall_names_object(
    kind: Seq<char>,
    quality: Seq<char>,
    name: Seq<char>,
    ratio: Seq<char>,
)
    requires
        !name.contains(' '),
    ensures
        shortfall_line(kind, quality, name + " "@ + ratio) == kind + " "@ + name + " has "@ + ratio
            + " "@ + quality + " replicas"@,
{
    reveal_strlit(" ");
    let entry = name + " "@ + ratio;
    let k = name.len() as int;
    text::lemma_next_occurrence(entry, " "@, 0);
    assert(entry.subrange(k, k + 1) == " "@);
    assert(text::occurs_at(entry, " "@, k));
    match text::first_occurrence(entry, " "@) {
        Some(found) => {
            assert(entry.subrange(found, found + 1)[0] == ' ');
            if found < k {
                assert(name[found] == ' ');
            }
            assert(found == k);
            assert(entry.take(k) == name);
            assert(entry.skip(k + 1) == ratio);
        },
        None => {},
    }
}

} // verus!
