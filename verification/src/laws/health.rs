//! What holds of the health that is read off nodes, namespaces and pods.

use vstd::prelude::*;

use crate::kubernetes::health;
use crate::kubernetes::health::{
    Condition, ContainerStatus, Namespace, NamespaceSummary, Node, NodeSummary, Observation, Pod,
    PodStats, Severity,
};
use crate::text;

verus! {

// ---------------------------------------------------------------------------------------------
// Counting and naming
// ---------------------------------------------------------------------------------------------
/// Counting is the length of the list of what is wanted, and naming is a name for each item of
/// that list, in order.
pub proof fn lemma_counting<T>(
    items: Seq<T>,
    wanted: spec_fn(T) -> bool,
    label: spec_fn(T) -> Seq<char>,
)
    ensures
        health::count_of(items, wanted) == items.filter(wanted).len(),
        health::labels_of(items, wanted, label) == items.filter(wanted).map_values(label),
    decreases items.len(),
{
    reveal(Seq::filter);
    if items.len() > 0 {
        lemma_counting(items.drop_last(), wanted, label);
        let before = items.drop_last().filter(wanted);
        if wanted(items.last()) {
            assert(before.push(items.last()).map_values(label) == before.map_values(label).push(
                label(items.last()),
            ));
        }
    } else {
        assert(items.filter(wanted).map_values(label).len() == 0);
    }
}

pub(crate) proof fn same_filter<T>(items: Seq<T>, a: spec_fn(T) -> bool, b: spec_fn(T) -> bool)
    requires
        forall|item: T| #[trigger] a(item) == b(item),
    ensures
        items.filter(a) == items.filter(b),
    decreases items.len(),
{
    reveal(Seq::filter);
    if items.len() > 0 {
        same_filter(items.drop_last(), a, b);
        assert(a(items.last()) == b(items.last()));
    }
}

pub(crate) proof fn counted<T>(items: Seq<T>, a: spec_fn(T) -> bool, b: spec_fn(T) -> bool)
    requires
        forall|item: T| #[trigger] a(item) == b(item),
    ensures
        health::count_of(items, a) == items.filter(b).len(),
{
    lemma_counting(items, a, |item: T| Seq::empty());
    same_filter(items, a, b);
}

pub(crate) proof fn labelled<T>(
    items: Seq<T>,
    a: spec_fn(T) -> bool,
    b: spec_fn(T) -> bool,
    label: spec_fn(T) -> Seq<char>,
    other: spec_fn(T) -> Seq<char>,
)
    requires
        forall|item: T| #[trigger] a(item) == b(item),
        forall|item: T| #[trigger] b(item) ==> label(item) == other(item),
    ensures
        health::labels_of(items, a, label) == items.filter(b).map_values(other),
{
    lemma_counting(items, a, label);
    same_filter(items, a, b);
    filtered_holds(items, b);
    assert(items.filter(b).map_values(label) == items.filter(b).map_values(other));
}

pub(crate) proof fn filtered_holds<T>(items: Seq<T>, wanted: spec_fn(T) -> bool)
    ensures
        forall|i: int|
            0 <= i < items.filter(wanted).len() ==> wanted(#[trigger] items.filter(wanted)[i]),
    decreases items.len(),
{
    reveal(Seq::filter);
    if items.len() > 0 {
        filtered_holds(items.drop_last(), wanted);
    }
}

/// The name of an object, or `<unnamed>`.
pub open spec fn called(name: Option<String>) -> Seq<char> {
    match name {
        Some(name) => name@,
        None => "<unnamed>"@,
    }
}

/// Up to three names are shown in full; of more, the first three and how many more there are.
pub proof fn lemma_names_are_cut_short(names: Seq<Seq<char>>)
    ensures
        names.len() == 1 ==> health::names_shown(names) == names[0],
        names.len() == 2 ==> health::names_shown(names) == names[0] + ", "@ + names[1],
        names.len() == 3 ==> health::names_shown(names) == names[0] + ", "@ + names[1] + ", "@
            + names[2],
        names.len() > 3 ==> health::names_shown(names) == names[0] + ", "@ + names[1] + ", "@
            + names[2] + ", +"@ + text::decimal((names.len() - 3) as nat) + " more"@,
{
    reveal_with_fuel(text::joined, 4);
    let three = names.take(3);
    if names.len() >= 3 {
        assert(three.drop_last() == names.take(2));
        assert(names.take(2).drop_last() == names.take(1));
        assert(names.len() == 3 ==> three == names);
    }
    if names.len() == 2 {
        assert(names.drop_last() == names.take(1));
    }
}

/// Whether something is said with a given severity.
pub open spec fn notes(
    observations: Seq<Observation>,
    severity: Severity,
    statement: Seq<char>,
) -> bool {
    exists|i: int|
        0 <= i < observations.len() && (#[trigger] observations[i]).severity == severity
            && observations[i].text@ == statement
}

/// One where a condition holds, else nothing.
pub open spec fn one(condition: bool) -> int {
    if condition {
        1
    } else {
        0
    }
}

/// The ending of a noun for a number of things.
pub open spec fn ending(count: nat) -> Seq<char> {
    if count == 1 {
        ""@
    } else {
        "s"@
    }
}

pub(crate) proof fn noted(observations: Seq<Observation>, severity: Severity, statement: Seq<char>)
    requires
        health::said(observations).contains((severity, statement)),
    ensures
        notes(observations, severity, statement),
{
    let i = choose|i: int|
        0 <= i < health::said(observations).len() && health::said(observations)[i] == (
            severity,
            statement,
        );
    assert(observations[i].severity == severity && observations[i].text@ == statement);
}

pub(crate) proof fn when_said(condition: bool, severity: Severity, statement: Seq<char>)
    ensures
        health::when(condition, severity, statement).len() == one(condition),
        condition ==> health::when(condition, severity, statement).contains((severity, statement)),
{
    if condition {
        assert(health::when(condition, severity, statement)[0] == (severity, statement));
    }
}

/// Whether a condition of a kind is reported as true.
pub open spec fn reports(conditions: Seq<Condition>, kind: Seq<char>) -> bool {
    exists|i: int|
        0 <= i < conditions.len() && (#[trigger] conditions[i]).kind@ == kind
            && conditions[i].status@ == "True"@
}

// ---------------------------------------------------------------------------------------------
// Nodes
// ---------------------------------------------------------------------------------------------
/// Whether a node has a label of the control plane.
pub open spec fn leads(node: Node) -> bool {
    exists|i: int|
        0 <= i < node.labels@.len() && ((#[trigger] node.labels@[i])@
            == "node-role.kubernetes.io/control-plane"@ || node.labels@[i]@
            == "node-role.kubernetes.io/master"@)
}

/// Nodes are counted by their `Ready` condition and by their role, and their versions and
/// platforms are those that any of them reports.
pub proof fn lemma_nodes_counted(
    nodes: &[Node],
    truncated: bool,
    r: (NodeSummary, Vec<Observation>),
)
    requires
        call_ensures(health::observe_nodes, (nodes, truncated), r),
    ensures
        r.0.total == nodes@.len(),
        r.0.ready == nodes@.filter(|node: Node| reports(node.conditions@, "Ready"@)).len(),
        r.0.control_plane == nodes@.filter(|node: Node| leads(node)).len(),
        text::texts(r.0.versions@) == text::distinct_ordered(
            nodes@.filter(|node: Node| node.info is Some).map_values(
                |node: Node| node.info->0.kubelet_version@,
            ),
        ),
        text::texts(r.0.platforms@) == text::distinct_ordered(
            nodes@.filter(|node: Node| node.info is Some).map_values(
                |node: Node|
                    node.info->0.operating_system@ + "/"@ + node.info->0.architecture@,
            ),
        ),
        r.0.truncated == truncated,
{
    counted(
        nodes@,
        |node: Node| health::node_ready(node),
        |node: Node| reports(node.conditions@, "Ready"@),
    );
    assert forall|node: Node| #[trigger] health::control_plane(node) == leads(node) by {
        let labels = text::texts(node.labels@);
        if labels.contains("node-role.kubernetes.io/control-plane"@) {
            let i = choose|i: int|
                0 <= i < labels.len() && labels[i] == "node-role.kubernetes.io/control-plane"@;
            assert(node.labels@[i]@ == labels[i]);
        }
        if labels.contains("node-role.kubernetes.io/master"@) {
            let i = choose|i: int|
                0 <= i < labels.len() && labels[i] == "node-role.kubernetes.io/master"@;
            assert(node.labels@[i]@ == labels[i]);
        }
        if leads(node) {
            let i = choose|i: int|
                0 <= i < node.labels@.len() && ((#[trigger] node.labels@[i])@
                    == "node-role.kubernetes.io/control-plane"@ || node.labels@[i]@
                    == "node-role.kubernetes.io/master"@);
            assert(labels[i] == node.labels@[i]@);
        }
    }
    counted(nodes@, |node: Node| health::control_plane(node), |node: Node| leads(node));
    lemma_counting(
        nodes@,
        |node: Node| node.info is Some,
        |node: Node| node.info->0.kubelet_version@,
    );
    lemma_counting(
        nodes@,
        |node: Node| node.info is Some,
        |node: Node| node.info->0.operating_system@ + "/"@ + node.info->0.architecture@,
    );
}

/// The names of the nodes that report a condition.
pub open spec fn reporting(nodes: Seq<Node>, kind: Seq<char>) -> Seq<Seq<char>> {
    nodes.filter(|node: Node| reports(node.conditions@, kind)).map_values(
        |node: Node| called(node.name),
    )
}

/// The names of the nodes that are not ready.
pub open spec fn unready_named_nodes(nodes: Seq<Node>) -> Seq<Seq<char>> {
    nodes.filter(|node: Node| !reports(node.conditions@, "Ready"@)).map_values(
        |node: Node| called(node.name),
    )
}

proof fn nodes_named(nodes: Seq<Node>)
    ensures
        unready_named_nodes(nodes) == health::unready_nodes(nodes),
{
    labelled(
        nodes,
        |node: Node| !health::node_ready(node),
        |node: Node| !reports(node.conditions@, "Ready"@),
        |node: Node| health::name_of(node.name),
        |node: Node| called(node.name),
    );
}

/// Of nodes it is said which are not ready, that they run different versions, and that the list
/// was cut short.
pub proof fn lemma_nodes_said(nodes: &[Node], truncated: bool, r: (NodeSummary, Vec<Observation>))
    requires
        call_ensures(health::observe_nodes, (nodes, truncated), r),
    ensures
        ({
            let unready = unready_named_nodes(nodes@);
            let versions = text::texts(r.0.versions@);
            &&& unready.len() > 0 ==> notes(
                r.1@,
                Severity::Problem,
                text::decimal(unready.len()) + " of "@ + text::decimal(nodes@.len())
                    + " Nodes not Ready ("@ + health::names_shown(unready) + ")"@,
            )
            &&& versions.len() > 1 ==> notes(
                r.1@,
                Severity::Info,
                "Nodes run "@ + text::decimal(versions.len()) + " different kubelet versions: "@
                    + text::joined(versions, ", "@),
            )
            &&& truncated ==> notes(
                r.1@,
                Severity::Info,
                "only the first "@ + text::decimal(nodes@.len()) + " "@ + "Nodes"@
                    + " were inspected"@,
            )
        }),
{
    broadcast use vstd::seq_lib::lemma_seq_concat_contains_all_elements;

    nodes_named(nodes@);
    let unready = health::unready_nodes(nodes@);
    let versions = text::texts(r.0.versions@);
    let said = health::said(r.1@);
    let unready_text = text::decimal(unready.len()) + " of "@ + text::decimal(nodes@.len())
        + " Nodes not Ready ("@ + health::names_shown(unready) + ")"@;
    when_said(unready.len() > 0, Severity::Problem, unready_text);
    if unready.len() > 0 {
        assert(said.contains((Severity::Problem, unready_text)));
        noted(r.1@, Severity::Problem, unready_text);
    }
    let versions_text = "Nodes run "@ + text::decimal(versions.len())
        + " different kubelet versions: "@ + text::joined(versions, ", "@);
    when_said(versions.len() > 1, Severity::Info, versions_text);
    if versions.len() > 1 {
        assert(said.contains((Severity::Info, versions_text)));
        noted(r.1@, Severity::Info, versions_text);
    }
    let cut_text = "only the first "@ + text::decimal(nodes@.len()) + " "@ + "Nodes"@
        + " were inspected"@;
    when_said(truncated, Severity::Info, cut_text);
    if truncated {
        assert(said.contains((Severity::Info, cut_text)));
        noted(r.1@, Severity::Info, cut_text);
    }
}

/// Of nodes it is said which report pressure on disk, memory, network or process numbers.
pub proof fn lemma_pressure_said(
    nodes: &[Node],
    truncated: bool,
    r: (NodeSummary, Vec<Observation>),
    kind: Seq<char>,
)
    requires
        call_ensures(health::observe_nodes, (nodes, truncated), r),
        kind == "DiskPressure"@ || kind == "MemoryPressure"@ || kind == "NetworkUnavailable"@
            || kind == "PIDPressure"@,
        reporting(nodes@, kind).len() > 0,
    ensures
        notes(
            r.1@,
            Severity::Warning,
            text::decimal(reporting(nodes@, kind).len()) + " Node(s) report "@ + kind + " ("@
                + health::names_shown(reporting(nodes@, kind)) + ")"@,
        ),
{
    broadcast use vstd::seq_lib::lemma_seq_concat_contains_all_elements;

    pressure(nodes@, kind);
    let line = text::decimal(reporting(nodes@, kind).len()) + " Node(s) report "@ + kind + " ("@
        + health::names_shown(reporting(nodes@, kind)) + ")"@;
    assert(health::said(r.1@).contains((Severity::Warning, line)));
    noted(r.1@, Severity::Warning, line);
}

/// Of nodes nothing is said but which are not ready, which report pressure, that they run different
/// versions, and that the list was cut short.
pub proof fn lemma_nothing_else_is_said_of_nodes(
    nodes: &[Node],
    truncated: bool,
    r: (NodeSummary, Vec<Observation>),
)
    requires
        call_ensures(health::observe_nodes, (nodes, truncated), r),
    ensures
        r.1@.len() == one(unready_named_nodes(nodes@).len() > 0) + one(
            reporting(nodes@, "DiskPressure"@).len() > 0,
        ) + one(reporting(nodes@, "MemoryPressure"@).len() > 0) + one(
            reporting(nodes@, "NetworkUnavailable"@).len() > 0,
        ) + one(reporting(nodes@, "PIDPressure"@).len() > 0) + one(r.0.versions@.len() > 1) + one(
            truncated,
        ),
{
    nodes_named(nodes@);
    pressure(nodes@, "DiskPressure"@);
    pressure(nodes@, "MemoryPressure"@);
    pressure(nodes@, "NetworkUnavailable"@);
    pressure(nodes@, "PIDPressure"@);
    assert(text::texts(r.0.versions@).len() == r.0.versions@.len());
    assert(health::said(r.1@).len() == r.1@.len());
}

proof fn pressure(nodes: Seq<Node>, kind: Seq<char>)
    ensures
        health::pressure_said(nodes, kind).len() == one(reporting(nodes, kind).len() > 0),
        reporting(nodes, kind).len() > 0 ==> health::pressure_said(nodes, kind).contains(
            (
                Severity::Warning,
                text::decimal(reporting(nodes, kind).len()) + " Node(s) report "@ + kind + " ("@
                    + health::names_shown(reporting(nodes, kind)) + ")"@,
            ),
        ),
{
    labelled(
        nodes,
        |node: Node| health::condition_holds(node.conditions@, kind, "True"@),
        |node: Node| reports(node.conditions@, kind),
        |node: Node| health::name_of(node.name),
        |node: Node| called(node.name),
    );
    assert(reporting(nodes, kind) == health::pressured_nodes(nodes, kind));
    when_said(
        reporting(nodes, kind).len() > 0,
        Severity::Warning,
        text::decimal(reporting(nodes, kind).len()) + " Node(s) report "@ + kind + " ("@
            + health::names_shown(reporting(nodes, kind)) + ")"@,
    );
}

/// A namespace is reported by its name and phase, and something is said of it exactly if its phase
/// is known and not `Active`.
pub proof fn lemma_namespace_said(namespace: &Namespace, r: (NamespaceSummary, Vec<Observation>))
    requires
        call_ensures(health::observe_namespace, (namespace,), r),
    ensures
        r.0.name@ == called(namespace.name),
        r.0.phase == namespace.phase,
        namespace.phase is None || namespace.phase->0@ == "Active"@ ==> r.1@.len() == 0,
        namespace.phase is Some && namespace.phase->0@ != "Active"@ ==> {
            &&& r.1@.len() == 1
            &&& notes(
                r.1@,
                Severity::Warning,
                "Namespace "@ + called(namespace.name) + " is "@ + namespace.phase->0@,
            )
        },
{
    let said = health::said(r.1@);
    assert(said.len() == r.1@.len());
    if namespace.phase is Some && namespace.phase->0@ != "Active"@ {
        let line = "Namespace "@ + called(namespace.name) + " is "@ + namespace.phase->0@;
        when_said(true, Severity::Warning, line);
        noted(r.1@, Severity::Warning, line);
    }
}

// ---------------------------------------------------------------------------------------------
// Pods
// ---------------------------------------------------------------------------------------------
/// The restart count of a pod is the highest among its containers and init containers, and is that
/// of one of them.
pub proof fn lemma_most_restarts(pod: Pod)
    ensures
        ({
            let most = health::most_restarts(health::statuses_of(pod));
            &&& forall|i: int|
                0 <= i < pod.containers@.len() ==> (#[trigger] pod.containers@[i]).restart_count
                    <= most
            &&& forall|i: int|
                0 <= i < pod.init_containers@.len() ==> (
                #[trigger] pod.init_containers@[i]).restart_count <= most
            &&& pod.containers@.len() + pod.init_containers@.len() > 0 ==> {
                ||| exists|i: int|
                    0 <= i < pod.containers@.len() && (
                    #[trigger] pod.containers@[i]).restart_count == most
                ||| exists|i: int|
                    0 <= i < pod.init_containers@.len() && (
                    #[trigger] pod.init_containers@[i]).restart_count == most
            }
            &&& pod.containers@.len() + pod.init_containers@.len() == 0 ==> most == 0
        }),
{
    let all = health::statuses_of(pod);
    let most = health::most_restarts(all);
    highest(all);
    let split = pod.containers@.len() as int;
    assert forall|i: int| 0 <= i < pod.containers@.len() implies (
    #[trigger] pod.containers@[i]).restart_count <= most by {
        assert(all[i] == pod.containers@[i]);
    }
    assert forall|i: int| 0 <= i < pod.init_containers@.len() implies (
    #[trigger] pod.init_containers@[i]).restart_count <= most by {
        assert(all[split + i] == pod.init_containers@[i]);
    }
    if all.len() > 0 {
        let i = choose|i: int| 0 <= i < all.len() && (#[trigger] all[i]).restart_count == most;
        if i < split {
            assert(all[i] == pod.containers@[i]);
        } else {
            assert(all[i] == pod.init_containers@[i - split]);
        }
    }
}

proof fn highest(statuses: Seq<ContainerStatus>)
    ensures
        forall|i: int|
            0 <= i < statuses.len() ==> (#[trigger] statuses[i]).restart_count
                <= health::most_restarts(statuses),
        statuses.len() > 0 ==> exists|i: int|
            0 <= i < statuses.len() && (#[trigger] statuses[i]).restart_count
                == health::most_restarts(statuses),
        statuses.len() == 0 ==> health::most_restarts(statuses) == 0,
    decreases statuses.len(),
{
    if statuses.len() == 1 {
        assert(statuses[0].restart_count == health::most_restarts(statuses));
    } else if statuses.len() > 1 {
        let before = statuses.drop_last();
        highest(before);
        assert forall|i: int| 0 <= i < statuses.len() implies (
        #[trigger] statuses[i]).restart_count <= health::most_restarts(statuses) by {
            if i < before.len() {
                assert(before[i] == statuses[i]);
            }
        }
        let i = choose|i: int|
            0 <= i < before.len() && (#[trigger] before[i]).restart_count == health::most_restarts(
                before,
            );
        assert(statuses[i] == before[i]);
        let last = statuses.len() - 1;
        assert(statuses[last] == statuses.last());
    }
}

/// Whether some container or init container of a pod was restarted more than a number of times.
pub open spec fn restarted_over(pod: Pod, times: int) -> bool {
    ||| exists|i: int|
        0 <= i < pod.containers@.len() && (#[trigger] pod.containers@[i]).restart_count > times
    ||| exists|i: int|
        0 <= i < pod.init_containers@.len() && (#[trigger] pod.init_containers@[i]).restart_count
            > times
}

/// Whether a number is the highest count of restarts among the containers of pods.
pub open spec fn most_often(pods: Seq<Pod>, count: int) -> bool {
    &&& forall|i: int| 0 <= i < pods.len() ==> !restarted_over(#[trigger] pods[i], count)
    &&& exists|i: int| 0 <= i < pods.len() && restarted_over(#[trigger] pods[i], count - 1)
}

/// A pod counts as restarting exactly if one of its containers was restarted more than five times;
/// the highest count that is reported is reached by one of these pods and exceeded by none.
pub proof fn lemma_restarting_pods(pods: Seq<Pod>)
    ensures
        health::restarting_pods(pods) == pods.filter(|pod: Pod| restarted_over(pod, 5)).len(),
        forall|i: int|
            0 <= i < pods.len() ==> !restarted_over(
                #[trigger] pods[i],
                if health::worst_restarts(pods) > 5 {
                    health::worst_restarts(pods)
                } else {
                    5
                },
            ),
        health::restarting_pods(pods) > 0 ==> health::worst_restarts(pods) > 5 && exists|i: int|
            0 <= i < pods.len() && restarted_over(
                #[trigger] pods[i],
                health::worst_restarts(pods) - 1,
            ),
{
    assert forall|pod: Pod|
        (#[trigger] health::most_restarts(health::statuses_of(pod)) > health::RESTART_THRESHOLD)
            == restarted_over(pod, 5) by {
        most_over(pod, 5);
    }
    counted(
        pods,
        |pod: Pod| health::most_restarts(health::statuses_of(pod)) > health::RESTART_THRESHOLD,
        |pod: Pod| restarted_over(pod, 5),
    );
    worst(pods);
    let highest = health::worst_restarts(pods);
    let limit = if highest > 5 {
        highest
    } else {
        5
    };
    assert forall|i: int| 0 <= i < pods.len() implies !restarted_over(#[trigger] pods[i], limit) by {
        most_over(pods[i], limit);
    }
    if health::restarting_pods(pods) > 0 {
        let i = choose|i: int|
            0 <= i < pods.len() && health::most_restarts(
                health::statuses_of(#[trigger] pods[i]),
            ) == highest;
        most_over(pods[i], highest - 1);
    }
}

proof fn most_over(pod: Pod, times: int)
    requires
        times >= 0,
    ensures
        health::most_restarts(health::statuses_of(pod)) > times <==> restarted_over(pod, times),
{
    lemma_most_restarts(pod);
}

proof fn worst(pods: Seq<Pod>)
    ensures
        health::worst_restarts(pods) == 0 || health::worst_restarts(pods) > 5,
        health::restarting_pods(pods) > 0 ==> health::worst_restarts(pods) > 5,
        forall|i: int|
            0 <= i < pods.len() && health::most_restarts(health::statuses_of(#[trigger] pods[i]))
                > 5 ==> health::most_restarts(health::statuses_of(pods[i]))
                <= health::worst_restarts(pods),
        health::worst_restarts(pods) > 5 ==> exists|i: int|
            0 <= i < pods.len() && health::most_restarts(health::statuses_of(#[trigger] pods[i]))
                == health::worst_restarts(pods),
    decreases pods.len(),
{
    if pods.len() > 0 {
        let before = pods.drop_last();
        let last = pods.len() - 1;
        worst(before);
        assert(pods[last] == pods.last());
        assert forall|i: int|
            0 <= i < pods.len() && health::most_restarts(health::statuses_of(#[trigger] pods[i]))
                > 5 implies health::most_restarts(health::statuses_of(pods[i]))
            <= health::worst_restarts(pods) by {
            if i < last {
                assert(before[i] == pods[i]);
            }
        }
        if health::worst_restarts(before) > 5 {
            let i = choose|i: int|
                0 <= i < before.len() && health::most_restarts(
                    health::statuses_of(#[trigger] before[i]),
                ) == health::worst_restarts(before);
            assert(pods[i] == before[i]);
        }
        let often = |pod: Pod|
            health::most_restarts(health::statuses_of(pod)) > health::RESTART_THRESHOLD;
        assert(health::restarting_pods(pods) == health::restarting_pods(before) + (if often(
            pods.last(),
        ) {
            1nat
        } else {
            0
        }));
    }
}

/// Whether a pod reports a phase.
pub open spec fn in_phase(pod: Pod, phase: Seq<char>) -> bool {
    pod.phase matches Some(reported) && reported@ == phase
}

proof fn phase_counted(pods: Seq<Pod>, phase: Seq<char>)
    requires
        phase.len() > 0,
    ensures
        health::pods_in_phase(pods, phase) == pods.filter(|pod: Pod| in_phase(pod, phase)).len(),
{
    reveal_strlit("");
    counted(
        pods,
        |pod: Pod| health::phase_of(pod) == phase,
        |pod: Pod| in_phase(pod, phase),
    );
}

/// Pods are counted by their `Ready` condition and by the phase that they report.
pub proof fn lemma_pods_counted(pods: &[Pod], truncated: bool, r: (PodStats, Vec<Observation>))
    requires
        call_ensures(health::observe_pods, (pods, truncated), r),
    ensures
        r.0.total == pods@.len(),
        r.0.ready == pods@.filter(|pod: Pod| reports(pod.conditions@, "Ready"@)).len(),
        r.0.running == pods@.filter(|pod: Pod| in_phase(pod, "Running"@)).len(),
        r.0.pending == pods@.filter(|pod: Pod| in_phase(pod, "Pending"@)).len(),
        r.0.succeeded == pods@.filter(|pod: Pod| in_phase(pod, "Succeeded"@)).len(),
        r.0.failed == pods@.filter(|pod: Pod| in_phase(pod, "Failed"@)).len(),
        r.0.truncated == truncated,
{
    reveal_strlit("Running");
    reveal_strlit("Pending");
    reveal_strlit("Succeeded");
    reveal_strlit("Failed");
    counted(
        pods@,
        |pod: Pod| health::pod_ready(pod),
        |pod: Pod| reports(pod.conditions@, "Ready"@),
    );
    phase_counted(pods@, "Running"@);
    phase_counted(pods@, "Pending"@);
    phase_counted(pods@, "Succeeded"@);
    phase_counted(pods@, "Failed"@);
}

/// Whether a container or init container of a pod waits for a reason.
pub open spec fn waits(pod: Pod, reason: Seq<char>) -> bool {
    ||| exists|i: int|
        0 <= i < pod.containers@.len() && ((
        #[trigger] pod.containers@[i]).waiting_reason matches Some(given) && given@ == reason)
    ||| exists|i: int|
        0 <= i < pod.init_containers@.len() && ((
        #[trigger] pod.init_containers@[i]).waiting_reason matches Some(given) && given@ == reason)
}

/// The names of the pods that wait for a reason, without repetitions.
pub open spec fn waiting(pods: Seq<Pod>, reason: Seq<char>) -> Seq<Seq<char>> {
    text::squeezed(
        pods.filter(|pod: Pod| waits(pod, reason)).map_values(|pod: Pod| called(pod.name)),
    )
}

/// The reasons to wait that tell of a fault.
pub open spec fn faulty(reason: Seq<char>) -> bool {
    ||| reason == "CrashLoopBackOff"@
    ||| reason == "CreateContainerConfigError"@
    ||| reason == "CreateContainerError"@
    ||| reason == "ErrImagePull"@
    ||| reason == "ImagePullBackOff"@
    ||| reason == "InvalidImageName"@
    ||| reason == "RunContainerError"@
}

proof fn waiting_noted(pods: Seq<Pod>, reason: Seq<char>)
    ensures
        health::waiting_said(pods, reason).len() == one(waiting(pods, reason).len() > 0),
        waiting(pods, reason).len() > 0 ==> health::waiting_said(pods, reason).contains(
            (
                Severity::Problem,
                text::decimal(waiting(pods, reason).len()) + " Pod"@ + ending(
                    waiting(pods, reason).len(),
                ) + " in "@ + reason + " ("@ + health::names_shown(waiting(pods, reason)) + ")"@,
            ),
        ),
{
    assert forall|pod: Pod| #[trigger]
        health::waits_for(health::statuses_of(pod), reason) == waits(pod, reason) by {
        let all = health::statuses_of(pod);
        let split = pod.containers@.len() as int;
        if health::waits_for(all, reason) {
            let i = choose|i: int|
                0 <= i < all.len() && text::optional((#[trigger] all[i]).waiting_reason) == Some(
                    reason,
                );
            if i < split {
                assert(pod.containers@[i] == all[i]);
            } else {
                assert(pod.init_containers@[i - split] == all[i]);
            }
        }
        if exists|i: int|
            0 <= i < pod.containers@.len() && ((
            #[trigger] pod.containers@[i]).waiting_reason matches Some(given) && given@
                == reason) {
            let i = choose|i: int|
                0 <= i < pod.containers@.len() && ((
                #[trigger] pod.containers@[i]).waiting_reason matches Some(given) && given@
                    == reason);
            assert(pod.containers@[i] == all[i]);
        }
        if exists|i: int|
            0 <= i < pod.init_containers@.len() && ((
            #[trigger] pod.init_containers@[i]).waiting_reason matches Some(given) && given@
                == reason) {
            let i = choose|i: int|
                0 <= i < pod.init_containers@.len() && ((
                #[trigger] pod.init_containers@[i]).waiting_reason matches Some(given) && given@
                    == reason);
            assert(pod.init_containers@[i] == all[split + i]);
        }
    }
    labelled(
        pods,
        |pod: Pod| health::waits_for(health::statuses_of(pod), reason),
        |pod: Pod| waits(pod, reason),
        |pod: Pod| health::name_of(pod.name),
        |pod: Pod| called(pod.name),
    );
    let names = waiting(pods, reason);
    assert(names == text::squeezed(health::waiting_pods(pods, reason)));
    when_said(
        names.len() > 0,
        Severity::Problem,
        text::decimal(names.len()) + " Pod"@ + ending(names.len()) + " in "@ + reason + " ("@
            + health::names_shown(names) + ")"@,
    );
}

/// The names of the pods that are neither ready nor done.
pub open spec fn unready(pods: Seq<Pod>) -> Seq<Seq<char>> {
    pods.filter(
        |pod: Pod| !reports(pod.conditions@, "Ready"@) && !in_phase(pod, "Succeeded"@),
    ).map_values(|pod: Pod| called(pod.name))
}

proof fn unready_named(pods: Seq<Pod>)
    ensures
        unready(pods) == health::unready_pods(pods),
{
    reveal_strlit("");
    reveal_strlit("Succeeded");
    assert(""@.len() == 0 && "Succeeded"@.len() == 9);
    assert forall|pod: Pod| (#[trigger] health::phase_of(pod) == "Succeeded"@) == in_phase(
        pod,
        "Succeeded"@,
    ) by {}
    labelled(
        pods,
        |pod: Pod| !health::pod_ready(pod) && health::phase_of(pod) != "Succeeded"@,
        |pod: Pod| !reports(pod.conditions@, "Ready"@) && !in_phase(pod, "Succeeded"@),
        |pod: Pod| health::name_of(pod.name),
        |pod: Pod| called(pod.name),
    );
}

/// Of pods it is said which are neither ready nor done, and how many are pending or failed.
pub proof fn lemma_unready_pods_said(
    pods: &[Pod],
    truncated: bool,
    r: (PodStats, Vec<Observation>),
)
    requires
        call_ensures(health::observe_pods, (pods, truncated), r),
    ensures
        ({
            let unready = unready(pods@);
            let pending = pods@.filter(|pod: Pod| in_phase(pod, "Pending"@)).len();
            let failed = pods@.filter(|pod: Pod| in_phase(pod, "Failed"@)).len();
            &&& unready.len() > 0 ==> notes(
                r.1@,
                Severity::Problem,
                text::decimal(unready.len()) + " Pod"@ + ending(unready.len()) + " not Ready ("@
                    + health::names_shown(unready) + ")"@,
            )
            &&& pending > 0 ==> notes(
                r.1@,
                Severity::Warning,
                text::decimal(pending) + " Pod"@ + ending(pending) + " Pending"@,
            )
            &&& failed > 0 ==> notes(
                r.1@,
                Severity::Problem,
                text::decimal(failed) + " Pod"@ + ending(failed) + " Failed"@,
            )
        }),
{
    broadcast use vstd::seq_lib::lemma_seq_concat_contains_all_elements;

    reveal_strlit("Pending");
    reveal_strlit("Failed");
    phase_counted(pods@, "Pending"@);
    phase_counted(pods@, "Failed"@);
    unready_named(pods@);
    let unready = health::unready_pods(pods@);
    let pending = health::pods_in_phase(pods@, "Pending"@);
    let failed = health::pods_in_phase(pods@, "Failed"@);
    let said = health::said(r.1@);
    let unready_text = text::decimal(unready.len()) + " Pod"@ + ending(unready.len())
        + " not Ready ("@ + health::names_shown(unready) + ")"@;
    when_said(unready.len() > 0, Severity::Problem, unready_text);
    if unready.len() > 0 {
        assert(said.contains((Severity::Problem, unready_text)));
        noted(r.1@, Severity::Problem, unready_text);
    }
    let pending_text = text::decimal(pending) + " Pod"@ + ending(pending) + " Pending"@;
    when_said(pending > 0, Severity::Warning, pending_text);
    if pending > 0 {
        assert(said.contains((Severity::Warning, pending_text)));
        noted(r.1@, Severity::Warning, pending_text);
    }
    let failed_text = text::decimal(failed) + " Pod"@ + ending(failed) + " Failed"@;
    when_said(failed > 0, Severity::Problem, failed_text);
    if failed > 0 {
        assert(said.contains((Severity::Problem, failed_text)));
        noted(r.1@, Severity::Problem, failed_text);
    }
}

/// Of pods it is said which wait for a reason that tells of a fault.
pub proof fn lemma_waiting_pods_said(
    pods: &[Pod],
    truncated: bool,
    r: (PodStats, Vec<Observation>),
    reason: Seq<char>,
)
    requires
        call_ensures(health::observe_pods, (pods, truncated), r),
        faulty(reason),
        waiting(pods@, reason).len() > 0,
    ensures
        notes(
            r.1@,
            Severity::Problem,
            text::decimal(waiting(pods@, reason).len()) + " Pod"@ + ending(
                waiting(pods@, reason).len(),
            ) + " in "@ + reason + " ("@ + health::names_shown(waiting(pods@, reason)) + ")"@,
        ),
{
    broadcast use vstd::seq_lib::lemma_seq_concat_contains_all_elements;

    let line = text::decimal(waiting(pods@, reason).len()) + " Pod"@ + ending(
        waiting(pods@, reason).len(),
    ) + " in "@ + reason + " ("@ + health::names_shown(waiting(pods@, reason)) + ")"@;
    waiting_noted(pods@, reason);
    assert(health::said(r.1@).contains((Severity::Problem, line)));
    noted(r.1@, Severity::Problem, line);
}

/// Of pods it is said how many have a container restarted more than five times, and how often at
/// most, and that the list was cut short.
pub proof fn lemma_restarting_pods_said(
    pods: &[Pod],
    truncated: bool,
    r: (PodStats, Vec<Observation>),
)
    requires
        call_ensures(health::observe_pods, (pods, truncated), r),
    ensures
        ({
            let restarting = pods@.filter(|pod: Pod| restarted_over(pod, 5)).len();
            &&& restarting > 0 ==> exists|highest: int| #[trigger]
                most_often(pods@, highest) && notes(
                    r.1@,
                    Severity::Warning,
                    text::decimal(restarting) + " Pod"@ + ending(restarting) + " with more than "@
                        + text::decimal_signed(5) + " container restarts (highest "@
                        + text::decimal_signed(highest) + ")"@,
                )
            &&& truncated ==> notes(
                r.1@,
                Severity::Info,
                "only the first "@ + text::decimal(pods@.len()) + " "@ + "Pods"@
                    + " were inspected"@,
            )
        }),
{
    broadcast use vstd::seq_lib::lemma_seq_concat_contains_all_elements;

    lemma_restarting_pods(pods@);
    let restarting = health::restarting_pods(pods@);
    let said = health::said(r.1@);
    let restarting_text = text::decimal(restarting) + " Pod"@ + ending(restarting)
        + " with more than "@ + text::decimal_signed(5) + " container restarts (highest "@
        + text::decimal_signed(health::worst_restarts(pods@)) + ")"@;
    when_said(restarting > 0, Severity::Warning, restarting_text);
    if restarting > 0 {
        assert(most_often(pods@, health::worst_restarts(pods@)));
        assert(said.contains((Severity::Warning, restarting_text)));
        noted(r.1@, Severity::Warning, restarting_text);
    }
    let cut_text = "only the first "@ + text::decimal(pods@.len()) + " "@ + "Pods"@
        + " were inspected"@;
    when_said(truncated, Severity::Info, cut_text);
    if truncated {
        assert(said.contains((Severity::Info, cut_text)));
        noted(r.1@, Severity::Info, cut_text);
    }
}

/// Of pods nothing is said but which are neither ready nor done, how many are pending, failed or
/// restart often, which wait for a reason that tells of a fault, and that the list was cut short.
pub proof fn lemma_nothing_else_is_said_of_pods(
    pods: &[Pod],
    truncated: bool,
    r: (PodStats, Vec<Observation>),
)
    requires
        call_ensures(health::observe_pods, (pods, truncated), r),
    ensures
        r.1@.len() == one(unready(pods@).len() > 0) + one(
            pods@.filter(|pod: Pod| in_phase(pod, "Pending"@)).len() > 0,
        ) + one(waiting(pods@, "CrashLoopBackOff"@).len() > 0) + one(
            waiting(pods@, "CreateContainerConfigError"@).len() > 0,
        ) + one(waiting(pods@, "CreateContainerError"@).len() > 0) + one(
            waiting(pods@, "ErrImagePull"@).len() > 0,
        ) + one(waiting(pods@, "ImagePullBackOff"@).len() > 0) + one(
            waiting(pods@, "InvalidImageName"@).len() > 0,
        ) + one(waiting(pods@, "RunContainerError"@).len() > 0) + one(
            pods@.filter(|pod: Pod| in_phase(pod, "Failed"@)).len() > 0,
        ) + one(pods@.filter(|pod: Pod| restarted_over(pod, 5)).len() > 0) + one(truncated),
{
    reveal_strlit("Pending");
    reveal_strlit("Failed");
    phase_counted(pods@, "Pending"@);
    phase_counted(pods@, "Failed"@);
    unready_named(pods@);
    lemma_restarting_pods(pods@);
    waiting_noted(pods@, "CrashLoopBackOff"@);
    waiting_noted(pods@, "CreateContainerConfigError"@);
    waiting_noted(pods@, "CreateContainerError"@);
    waiting_noted(pods@, "ErrImagePull"@);
    waiting_noted(pods@, "ImagePullBackOff"@);
    waiting_noted(pods@, "InvalidImageName"@);
    waiting_noted(pods@, "RunContainerError"@);
    assert(health::said(r.1@).len() == r.1@.len());
}

// ---------------------------------------------------------------------------------------------
// Small words
// ---------------------------------------------------------------------------------------------
/// A condition holds exactly if one of its kind is reported with the status; a node leads exactly
/// if it has a label of the control plane.
pub proof fn lemma_conditions(
    conditions: &Vec<Condition>,
    kind: &str,
    status: &str,
    holds: bool,
    node: &Node,
    leading: bool,
)
    requires
        call_ensures(health::condition_is, (conditions, kind, status), holds),
        call_ensures(health::is_control_plane, (node,), leading),
    ensures
        holds <==> exists|i: int|
            0 <= i < conditions@.len() && (#[trigger] conditions@[i]).kind@ == kind@
                && conditions@[i].status@ == status@,
        leading <==> leads(*node),
{
    let labels = text::texts(node.labels@);
    assert forall|i: int| 0 <= i < labels.len() implies #[trigger] labels[i]
        == node.labels@[i]@ by {}
    if labels.contains("node-role.kubernetes.io/control-plane"@) {
        let i = choose|i: int|
            0 <= i < labels.len() && labels[i] == "node-role.kubernetes.io/control-plane"@;
        assert(node.labels@[i]@ == labels[i]);
    }
    if labels.contains("node-role.kubernetes.io/master"@) {
        let i = choose|i: int|
            0 <= i < labels.len() && labels[i] == "node-role.kubernetes.io/master"@;
        assert(node.labels@[i]@ == labels[i]);
    }
    if leads(*node) {
        let i = choose|i: int|
            0 <= i < node.labels@.len() && ((#[trigger] node.labels@[i])@
                == "node-role.kubernetes.io/control-plane"@ || node.labels@[i]@
                == "node-role.kubernetes.io/master"@);
        assert(labels[i] == node.labels@[i]@);
    }
}

/// Names and endings in words, and the severity of what is said.
pub proof fn lemma_words(
    count: usize,
    end: &str,
    name: &Option<String>,
    shown: String,
    names: &Vec<String>,
    joined: String,
    said: String,
    info: Observation,
    warning: Observation,
    problem: Observation,
)
    requires
        call_ensures(health::plural, (count,), end),
        call_ensures(health::object_name, (name,), shown),
        call_ensures(health::join_names, (names,), joined),
        call_ensures(Observation::info, (said,), info),
        call_ensures(Observation::warning, (said,), warning),
        call_ensures(Observation::problem, (said,), problem),
    ensures
        end@ == ending(count as nat),
        shown@ == called(*name),
        names@.len() <= 3 ==> joined@ == text::joined(text::texts(names@), ", "@),
        names@.len() > 3 ==> joined@ == text::joined(text::texts(names@).take(3), ", "@) + ", +"@
            + text::decimal((names@.len() - 3) as nat) + " more"@,
        info.severity is Info && info.text@ == said@,
        warning.severity is Warning && warning.text@ == said@,
        problem.severity is Problem && problem.text@ == said@,
{
}

/// The versions listed are those that nodes report, each once and in order.
pub proof fn lemma_versions_listed(
    nodes: &[Node],
    truncated: bool,
    r: (NodeSummary, Vec<Observation>),
    version: Seq<char>,
)
    requires
        call_ensures(health::observe_nodes, (nodes, truncated), r),
    ensures
        text::texts(r.0.versions@).contains(version) <==> exists|i: int|
            0 <= i < nodes@.len() && ((#[trigger] nodes@[i]).info matches Some(info)
                && info.kubelet_version@ == version),
        forall|i: int, j: int|
            0 <= i < j < r.0.versions@.len() ==> text::before(
                (#[trigger] r.0.versions@[i])@,
                (#[trigger] r.0.versions@[j])@,
            ),
{
    let list = health::reported_versions(nodes@);
    text::lemma_distinct_ordered(list);
    let all = text::texts(r.0.versions@);
    assert forall|i: int, j: int| 0 <= i < j < r.0.versions@.len() implies text::before(
        (#[trigger] r.0.versions@[i])@,
        (#[trigger] r.0.versions@[j])@,
    ) by {
        assert(all[i] == r.0.versions@[i]@ && all[j] == r.0.versions@[j]@);
    }
    version_reported(nodes@, version);
}

proof fn version_reported(nodes: Seq<Node>, version: Seq<char>)
    ensures
        health::reported_versions(nodes).contains(version) <==> exists|i: int|
            0 <= i < nodes.len() && ((#[trigger] nodes[i]).info matches Some(info)
                && info.kubelet_version@ == version),
    decreases nodes.len(),
{
    let all = health::reported_versions(nodes);
    if nodes.len() > 0 {
        let before = nodes.drop_last();
        let last = nodes.len() - 1;
        let front = health::reported_versions(before);
        version_reported(before, version);
        assert(nodes[last] == nodes.last());
        if nodes.last().info is Some {
            assert(all == front.push(nodes.last().info->0.kubelet_version@));
            vstd::seq_lib::lemma_seq_contains_after_push(
                front,
                nodes.last().info->0.kubelet_version@,
                version,
            );
        } else {
            assert(all == front);
        }
        if front.contains(version) {
            let i = choose|i: int|
                0 <= i < before.len() && ((#[trigger] before[i]).info matches Some(info)
                    && info.kubelet_version@ == version);
            assert(nodes[i] == before[i]);
        }
        if exists|i: int|
            0 <= i < nodes.len() && ((#[trigger] nodes[i]).info matches Some(info)
                && info.kubelet_version@ == version) {
            let i = choose|i: int|
                0 <= i < nodes.len() && ((#[trigger] nodes[i]).info matches Some(info)
                    && info.kubelet_version@ == version);
            if i < last {
                assert(before[i] == nodes[i]);
            }
        }
    }
}

} // verus!
