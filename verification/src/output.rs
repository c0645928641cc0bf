//! Machine-readable and human-readable renderers for the CLI.
//!
//! Everything produced here goes to stdout and is therefore part of kctx's contract with shell
//! scripts. The TUI and all diagnostics use stderr instead.

use vstd::prelude::*;

use crate::kubeconfig::{AuthMethod, ContextCatalog, ContextEntry};
use crate::kubernetes::health;
use crate::kubernetes::health::{NodeSummary, Observation, PodStats, ReplicaStats};
use crate::kubernetes::inspection::{Availability, Inspection};
use crate::kubernetes::ConnectionState;
use crate::paths;
use crate::paths::join_path;
use crate::text;
use crate::text::{join, number, pad, signed, str_or, wide_number};
use crate::time::Duration;

verus! {

/// Marker used for "not configured" in tabular output. `-` is not a legal Kubernetes name,
/// so it can never be confused with real data.
pub open spec fn unset() -> Seq<char> {
    "-"@
}

// ---------------------------------------------------------------------------------------------
// Contexts
// ---------------------------------------------------------------------------------------------
/// A context as exposed by `--json`. Deliberately contains no credential-derived field.
#[derive(Debug)]
pub struct ContextJson<'a> {
    /// Context name.
    pub name: &'a str,
    /// Cluster name referenced by the context.
    pub cluster: &'a str,
    /// User name referenced by the context, if any.
    pub user: Option<&'a str>,
    /// Namespace configured on the context, if any.
    pub namespace: Option<&'a str>,
    /// API server URL, if the cluster is defined.
    pub server: Option<&'a str>,
    /// Absolute path of the kubeconfig file defining the context.
    pub source: String,
    /// Whether this is the effective context.
    pub active: bool,
    /// Whether the defining file marks it as its own `current-context`.
    pub current_in_source: bool,
    /// Whether the name is defined by more than one discovered file.
    pub ambiguous: bool,
    /// Authentication method descriptor.
    pub auth: &'a AuthMethod,
}

/// The text of an optional borrowed string.
pub open spec fn borrowed(value: Option<&str>) -> Option<Seq<char>> {
    match value {
        Some(value) => Some(value@),
        None => None,
    }
}

fn borrow(value: &Option<String>) -> (r: Option<&str>)
    ensures
        borrowed(r) == text::optional(*value),
{
    match value {
        Some(value) => Some(value.as_str()),
        None => None,
    }
}

impl<'a> ContextJson<'a> {
    /// A context as exposed by `--json`, where relative paths are relative to `directory`.
    pub fn new(entry: &'a ContextEntry, directory: &str) -> (r: Self)
        ensures
            r.name@ == entry.name@,
            r.cluster@ == entry.cluster@,
            borrowed(r.user) == text::optional(entry.user),
            borrowed(r.namespace) == text::optional(entry.namespace),
            borrowed(r.server) == text::optional(entry.server),
            r.source@ == paths::joined_path(directory@, entry.source@),
            r.active == entry.active,
            r.current_in_source == entry.current_in_source,
            r.ambiguous == entry.ambiguous,
            *r.auth == entry.auth_method,
    {
        ContextJson {
            name: entry.name.as_str(),
            cluster: entry.cluster.as_str(),
            user: borrow(&entry.user),
            namespace: borrow(&entry.namespace),
            server: borrow(&entry.server),
            source: join_path(directory, entry.source.as_str()),
            active: entry.active,
            current_in_source: entry.current_in_source,
            ambiguous: entry.ambiguous,
            auth: &entry.auth_method,
        }
    }
}

/// The path exposed for a context is absolute, wherever the directory it is relative to is.
pub proof fn lemma_exposed_path_is_absolute(directory: Seq<char>, source: Seq<char>)
    requires
        paths::absolute(directory),
    ensures
        paths::absolute(paths::joined_path(directory, source)),
{
}

/// The tab-separated fields of a context: name, cluster, namespace, source and whether it is
/// active.
pub open spec fn columns(entry: ContextEntry) -> Seq<Seq<char>> {
    seq![
        entry.name@,
        entry.cluster@,
        text::text_or(entry.namespace, unset()),
        entry.source@,
        if entry.active {
            "*"@
        } else {
            unset()
        },
    ]
}

/// The record of a context: its fields between tabs, and a line feed.
pub open spec fn record(entry: ContextEntry) -> Seq<char> {
    text::joined(columns(entry), "\t"@) + "\n"@
}

/// The records of contexts, in order.
pub open spec fn records(entries: Seq<ContextEntry>) -> Seq<char>
    decreases entries.len(),
{
    if entries.len() == 0 {
        Seq::empty()
    } else {
        records(entries.drop_last()) + record(entries.last())
    }
}

/// Columns are stable: wherever no field holds a tab, cutting a record at its tabs gives the five
/// fields, the name first.
pub proof fn lemma_records_have_columns(entry: ContextEntry)
    requires
        forall|i: int| 0 <= i < 5 ==> !(#[trigger] columns(entry)[i]).contains('\t'),
    ensures
        record(entry).last() == '\n',
        text::pieces(record(entry).drop_last(), '\t') == columns(entry),
        text::pieces(record(entry).drop_last(), '\t').len() == 5,
{
    reveal_strlit("\t");
    reveal_strlit("\n");
    assert("\t"@ == seq!['\t']);
    let fields = text::joined(columns(entry), "\t"@);
    assert(record(entry).drop_last() == fields);
    text::lemma_split_undoes_join(columns(entry), '\t');
}

/// `kctx list` default output: one tab-separated record per context.
///
/// Columns are `name`, `cluster`, `namespace`, `source`, `active` — stable, unpadded and free of
/// headers so `cut -f1` and `awk -F'\t'` work directly.
pub fn list_tsv(catalog: &ContextCatalog) -> (r: String)
    ensures
        r@ == records(catalog.entries@),
{
    let mut out = String::new();
    proof {
        assert(out@ == records(catalog.entries@.take(0)));
    }
    for i in 0..catalog.entries.len()
        invariant
            out@ == records(catalog.entries@.take(i as int)),
    {
        let entry = &catalog.entries[i];
        proof {
            assert(catalog.entries@.take(i + 1).drop_last() == catalog.entries@.take(i as int));
        }
        out.append(tsv_record(entry).as_str());
    }
    proof {
        assert(catalog.entries@.take(catalog.entries@.len() as int) == catalog.entries@);
    }
    out
}

fn tsv_record(entry: &ContextEntry) -> (r: String)
    ensures
        r@ == record(*entry),
{
    let mut parts: Vec<String> = Vec::new();
    parts.push(entry.name.clone());
    parts.push(entry.cluster.clone());
    parts.push(str_or(&entry.namespace, "-").to_owned());
    parts.push(entry.source.clone());
    let flag = if entry.active {
        "*".to_owned()
    } else {
        "-".to_owned()
    };
    parts.push(flag);
    proof {
        assert(text::texts(parts@) == columns(*entry));
    }
    let mut out = join(&parts, "\t");
    out.append("\n");
    out
}

// ---------------------------------------------------------------------------------------------
// Snapshots
// ---------------------------------------------------------------------------------------------
/// Width of the label column.
pub const LABEL_WIDTH: usize = 13;

/// `  label   value`, with the label padded to a fixed width.
pub open spec fn row_shown(label: Seq<char>, value: Seq<char>) -> Seq<char> {
    "  "@ + text::padded(label, LABEL_WIDTH as nat) + value + "\n"@
}

/// An indented line with no label column.
pub open spec fn note_shown(note: Seq<char>) -> Seq<char> {
    "  "@ + note + "\n"@
}

fn row(out: &mut String, label: &str, value: &str)
    ensures
        final(out)@ == old(out)@ + row_shown(label@, value@),
{
    let ghost given = out@;
    let padded = pad(label, LABEL_WIDTH);
    out.append("  ");
    out.append(padded.as_str());
    out.append(value);
    out.append("\n");
    proof {
        assert(given + "  "@ + padded@ + value@ + "\n"@ == given + ("  "@ + padded@ + value@
            + "\n"@));
    }
}

fn note(out: &mut String, text: &str)
    ensures
        final(out)@ == old(out)@ + note_shown(text@),
{
    let ghost given = out@;
    out.append("  ");
    out.append(text);
    out.append("\n");
    proof {
        assert(given + "  "@ + text@ + "\n"@ == given + ("  "@ + text@ + "\n"@));
    }
}

/// Connection state plus its detail, if any.
pub open spec fn status_shown(snapshot: Inspection) -> Seq<char> {
    match snapshot.message {
        Some(message) => snapshot.state.shown() + " ("@ + message@ + ")"@,
        None => snapshot.state.shown(),
    }
}

/// Connection state plus its detail, if any.
pub fn status_line(snapshot: &Inspection) -> (r: String)
    ensures
        r@ == status_shown(*snapshot),
{
    let mut out = snapshot.state.to_string();
    if let Some(message) = &snapshot.message {
        out.append(" (");
        out.append(message.as_str());
        out.append(")");
    }
    out
}

/// The server version of a snapshot, or why it is missing.
pub open spec fn version_shown(snapshot: Inspection) -> Seq<char> {
    match snapshot.version {
        Availability::Read(version) => version.git_version@ + " ("@ + version.platform@ + ")"@,
        _ => snapshot.version.described(),
    }
}

/// The server version of a snapshot, or why it is missing.
pub fn version_text(snapshot: &Inspection) -> (r: String)
    ensures
        r@ == version_shown(*snapshot),
{
    match &snapshot.version {
        Availability::Read(version) => {
            let mut out = version.git_version.clone();
            out.append(" (");
            out.append(version.platform.as_str());
            out.append(")");
            out
        },
        _ => snapshot.version.describe(),
    }
}

/// A latency in whole milliseconds.
pub open spec fn latency_shown(latency: Duration) -> Seq<char> {
    text::decimal(latency@ / 1_000_000) + " ms"@
}

/// A latency in whole milliseconds.
pub fn latency_text(latency: Duration) -> (r: String)
    ensures
        r@ == latency_shown(latency),
{
    let mut out = wide_number(latency.as_millis());
    out.append(" ms");
    out
}

/// The `Context` section.
pub open spec fn context_section(snapshot: Inspection) -> Seq<char> {
    "Context\n"@ + row_shown("Cluster"@, snapshot.cluster@) + row_shown(
        "Server"@,
        text::text_or(snapshot.server, "unknown"@),
    ) + row_shown("Namespace"@, snapshot.namespace@) + row_shown(
        "Auth"@,
        snapshot.identity.shown(),
    ) + row_shown("Status"@, status_shown(snapshot)) + row_shown(
        "Kubernetes"@,
        version_shown(snapshot),
    ) + (match snapshot.latency {
        Some(latency) => row_shown("Latency"@, latency_shown(latency)),
        None => Seq::empty(),
    })
}

fn context_text(snapshot: &Inspection) -> (r: String)
    ensures
        r@ == context_section(*snapshot),
{
    let mut out = "Context\n".to_owned();
    row(&mut out, "Cluster", snapshot.cluster.as_str());
    row(&mut out, "Server", str_or(&snapshot.server, "unknown"));
    row(&mut out, "Namespace", snapshot.namespace.as_str());
    // The authentication *method*, never the credential.
    row(&mut out, "Auth", snapshot.identity.to_string().as_str());
    row(&mut out, "Status", status_line(snapshot).as_str());
    row(&mut out, "Kubernetes", version_text(snapshot).as_str());
    let ghost before = out@;
    match snapshot.latency {
        Some(latency) => {
            row(&mut out, "Latency", latency_text(latency).as_str());
        },
        None => {
            proof {
                assert(before + Seq::<char>::empty() == before);
            }
        },
    }
    out
}

/// A row of a list, where the list is not empty.
pub open spec fn list_row(label: Seq<char>, items: Seq<Seq<char>>) -> Seq<char> {
    if items.len() == 0 {
        Seq::empty()
    } else {
        row_shown(label, text::joined(items, ", "@))
    }
}

fn row_of_list(out: &mut String, label: &str, items: &Vec<String>)
    ensures
        final(out)@ == old(out)@ + list_row(label@, text::texts(items@)),
{
    let ghost given = out@;
    if items.len() > 0 {
        row(out, label, join(items, ", ").as_str());
    } else {
        proof {
            assert(given + Seq::<char>::empty() == given);
        }
    }
}

/// The `Nodes` section.
pub open spec fn nodes_section(snapshot: Inspection) -> Seq<char> {
    "\nNodes\n"@ + (match snapshot.nodes {
        Availability::Read(nodes) => row_shown(
            "Count"@,
            text::decimal(nodes.total as nat) + " total, "@ + text::decimal(nodes.ready as nat)
                + " Ready, "@ + text::decimal(nodes.control_plane as nat) + " control plane"@,
        ) + list_row("Versions"@, text::texts(nodes.versions@)) + list_row(
            "Platforms"@,
            text::texts(nodes.platforms@),
        ),
        _ => note_shown(snapshot.nodes.described()),
    })
}

fn node_rows(nodes: &NodeSummary) -> (r: String)
    ensures
        r@ == row_shown(
            "Count"@,
            text::decimal(nodes.total as nat) + " total, "@ + text::decimal(nodes.ready as nat)
                + " Ready, "@ + text::decimal(nodes.control_plane as nat) + " control plane"@,
        ) + list_row("Versions"@, text::texts(nodes.versions@)) + list_row(
            "Platforms"@,
            text::texts(nodes.platforms@),
        ),
{
    let mut count = number(nodes.total);
    count.append(" total, ");
    count.append(number(nodes.ready).as_str());
    count.append(" Ready, ");
    count.append(number(nodes.control_plane).as_str());
    count.append(" control plane");
    let mut out = String::new();
    row(&mut out, "Count", count.as_str());
    proof {
        let shown = row_shown("Count"@, count@);
        assert(Seq::<char>::empty() + shown == shown);
    }
    row_of_list(&mut out, "Versions", &nodes.versions);
    row_of_list(&mut out, "Platforms", &nodes.platforms);
    out
}

fn nodes_text(snapshot: &Inspection) -> (r: String)
    ensures
        r@ == nodes_section(*snapshot),
{
    let mut out = "\nNodes\n".to_owned();
    match &snapshot.nodes {
        Availability::Read(nodes) => out.append(node_rows(nodes).as_str()),
        _ => note(&mut out, snapshot.nodes.describe().as_str()),
    }
    out
}

/// `n total, a/d available replicas` for the replica-shaped controllers.
pub open spec fn replicas_shown(section: Availability<ReplicaStats>, quality: Seq<char>) -> Seq<
    char,
> {
    match section {
        Availability::Read(stats) => text::decimal(stats.total as nat) + " total, "@
            + text::decimal_signed(stats.available as int) + "/"@ + text::decimal_signed(
            stats.desired as int,
        ) + " "@ + quality + " replicas"@,
        _ => section.described(),
    }
}

/// `n total, a/d available replicas` for the replica-shaped controllers.
pub fn replicas(section: &Availability<ReplicaStats>, quality: &str) -> (r: String)
    ensures
        r@ == replicas_shown(*section, quality@),
{
    match section {
        Availability::Read(stats) => {
            let mut out = number(stats.total);
            out.append(" total, ");
            out.append(signed(stats.available).as_str());
            out.append("/");
            out.append(signed(stats.desired).as_str());
            out.append(" ");
            out.append(quality);
            out.append(" replicas");
            out
        },
        _ => section.describe(),
    }
}

/// The counts of pods; those pending or failed only where there are any.
pub open spec fn pods_shown(section: Availability<PodStats>) -> Seq<char> {
    match section {
        Availability::Read(pods) => text::decimal(pods.total as nat) + " total, "@ + text::decimal(
            pods.ready as nat,
        ) + " Ready"@ + (if pods.pending > 0 {
            ", "@ + text::decimal(pods.pending as nat) + " Pending"@
        } else {
            Seq::empty()
        }) + (if pods.failed > 0 {
            ", "@ + text::decimal(pods.failed as nat) + " Failed"@
        } else {
            Seq::empty()
        }),
        _ => section.described(),
    }
}

fn append_count(out: &mut String, count: usize, label: &str)
    ensures
        final(out)@ == old(out)@ + (if count > 0 {
            ", "@ + text::decimal(count as nat) + label@
        } else {
            Seq::empty()
        }),
{
    let ghost given = out@;
    if count > 0 {
        let shown = number(count);
        out.append(", ");
        out.append(shown.as_str());
        out.append(label);
        proof {
            assert(given + ", "@ + shown@ + label@ == given + (", "@ + shown@ + label@));
        }
    } else {
        proof {
            assert(given + Seq::<char>::empty() == given);
        }
    }
}

fn pods_text(section: &Availability<PodStats>) -> (r: String)
    ensures
        r@ == pods_shown(*section),
{
    match section {
        Availability::Read(pods) => {
            let mut out = number(pods.total);
            out.append(" total, ");
            out.append(number(pods.ready).as_str());
            out.append(" Ready");
            append_count(&mut out, pods.pending, " Pending");
            append_count(&mut out, pods.failed, " Failed");
            out
        },
        _ => section.describe(),
    }
}

/// The counts of DaemonSets.
pub open spec fn daemonsets_shown(section: Availability<health::DaemonSetStats>) -> Seq<char> {
    match section {
        Availability::Read(stats) => text::decimal(stats.total as nat) + " total, "@
            + text::decimal_signed(stats.ready as int) + "/"@ + text::decimal_signed(
            stats.desired as int,
        ) + " Pods ready"@,
        _ => section.described(),
    }
}

fn daemonsets_text(section: &Availability<health::DaemonSetStats>) -> (r: String)
    ensures
        r@ == daemonsets_shown(*section),
{
    match section {
        Availability::Read(stats) => {
            let mut out = number(stats.total);
            out.append(" total, ");
            out.append(signed(stats.ready).as_str());
            out.append("/");
            out.append(signed(stats.desired).as_str());
            out.append(" Pods ready");
            out
        },
        _ => section.describe(),
    }
}

/// The counts of Jobs.
pub open spec fn jobs_shown(section: Availability<health::JobStats>) -> Seq<char> {
    match section {
        Availability::Read(stats) => text::decimal(stats.total as nat) + " total, "@
            + text::decimal(stats.active as nat) + " active, "@ + text::decimal(
            stats.complete as nat,
        ) + " complete, "@ + text::decimal(stats.failed as nat) + " failed"@,
        _ => section.described(),
    }
}

fn jobs_text(section: &Availability<health::JobStats>) -> (r: String)
    ensures
        r@ == jobs_shown(*section),
{
    match section {
        Availability::Read(stats) => {
            let mut out = number(stats.total);
            out.append(" total, ");
            out.append(number(stats.active).as_str());
            out.append(" active, ");
            out.append(number(stats.complete).as_str());
            out.append(" complete, ");
            out.append(number(stats.failed).as_str());
            out.append(" failed");
            out
        },
        _ => section.describe(),
    }
}

/// The counts of CronJobs.
pub open spec fn cronjobs_shown(section: Availability<health::CronJobStats>) -> Seq<char> {
    match section {
        Availability::Read(stats) => text::decimal(stats.total as nat) + " total, "@
            + text::decimal(stats.suspended as nat) + " suspended"@,
        _ => section.described(),
    }
}

/// The counts of CronJobs.
pub fn cronjobs_text(section: &Availability<health::CronJobStats>) -> (r: String)
    ensures
        r@ == cronjobs_shown(*section),
{
    match section {
        Availability::Read(stats) => {
            let mut out = number(stats.total);
            out.append(" total, ");
            out.append(number(stats.suspended).as_str());
            out.append(" suspended");
            out
        },
        _ => section.describe(),
    }
}

/// One `Kind  summary` line per workload kind, including the unavailable ones.
pub open spec fn workloads_shown(snapshot: Inspection) -> Seq<char> {
    row_shown("Pods"@, pods_shown(snapshot.workloads.pods)) + row_shown(
        "Deployments"@,
        replicas_shown(snapshot.workloads.deployments, "available"@),
    ) + row_shown(
        "StatefulSets"@,
        replicas_shown(snapshot.workloads.statefulsets, "ready"@),
    ) + row_shown("DaemonSets"@, daemonsets_shown(snapshot.workloads.daemonsets)) + row_shown(
        "Jobs"@,
        jobs_shown(snapshot.workloads.jobs),
    ) + row_shown("CronJobs"@, cronjobs_shown(snapshot.workloads.cronjobs))
}

/// One `Kind  summary` line per workload kind, including the unavailable ones.
pub fn workload_rows(snapshot: &Inspection) -> (r: String)
    ensures
        r@ == workloads_shown(*snapshot),
{
    let workloads = &snapshot.workloads;
    let mut out = String::new();
    let pods = pods_text(&workloads.pods);
    row(&mut out, "Pods", pods.as_str());
    proof {
        let shown = row_shown("Pods"@, pods@);
        assert(Seq::<char>::empty() + shown == shown);
    }
    row(&mut out, "Deployments", replicas(&workloads.deployments, "available").as_str());
    row(&mut out, "StatefulSets", replicas(&workloads.statefulsets, "ready").as_str());
    row(&mut out, "DaemonSets", daemonsets_text(&workloads.daemonsets).as_str());
    row(&mut out, "Jobs", jobs_text(&workloads.jobs).as_str());
    row(&mut out, "CronJobs", cronjobs_text(&workloads.cronjobs).as_str());
    out
}

/// The phase of the inspected namespace, or why it is missing.
pub open spec fn phase_shown(snapshot: Inspection) -> Seq<char> {
    match snapshot.namespace_status {
        Availability::Read(namespace) => text::text_or(namespace.phase, unset()),
        _ => snapshot.namespace_status.described(),
    }
}

/// The phase of the inspected namespace, or why it is missing.
pub fn phase_text(snapshot: &Inspection) -> (r: String)
    ensures
        r@ == phase_shown(*snapshot),
{
    match &snapshot.namespace_status {
        Availability::Read(namespace) => str_or(&namespace.phase, "-").to_owned(),
        _ => snapshot.namespace_status.describe(),
    }
}

/// The section on the inspected namespace.
pub open spec fn namespace_section(snapshot: Inspection) -> Seq<char> {
    "\nNamespace "@ + snapshot.namespace@ + "\n"@ + row_shown("Phase"@, phase_shown(snapshot))
        + workloads_shown(snapshot)
}

fn namespace_text(snapshot: &Inspection) -> (r: String)
    ensures
        r@ == namespace_section(*snapshot),
{
    let mut out = "\nNamespace ".to_owned();
    out.append(snapshot.namespace.as_str());
    out.append("\n");
    row(&mut out, "Phase", phase_text(snapshot).as_str());
    out.append(workload_rows(snapshot).as_str());
    out
}

/// What is said when there are no observations.
pub open spec fn placeholder(state: ConnectionState) -> Seq<char> {
    if state == ConnectionState::Connected {
        "none observed"@
    } else {
        "not determined: nothing could be read"@
    }
}

/// What to say when there are no observations.
///
/// "none observed" would be a lie for a cluster that was never read — the absence of problems is
/// only meaningful when something actually answered.
pub fn problems_placeholder(snapshot: &Inspection) -> (r: &'static str)
    ensures
        r@ == placeholder(snapshot.state),
{
    if snapshot.state == ConnectionState::Connected {
        "none observed"
    } else {
        "not determined: nothing could be read"
    }
}

/// Observations, one indented line each.
pub open spec fn observation_lines(observations: Seq<Observation>) -> Seq<char>
    decreases observations.len(),
{
    if observations.len() == 0 {
        Seq::empty()
    } else {
        observation_lines(observations.drop_last()) + note_shown(observations.last().text@)
    }
}

/// The `Problems` section.
pub open spec fn problems_section(snapshot: Inspection) -> Seq<char> {
    "\nProblems\n"@ + (if snapshot.observations@.len() == 0 {
        note_shown(placeholder(snapshot.state))
    } else {
        observation_lines(snapshot.observations@)
    })
}

fn problems_text(snapshot: &Inspection) -> (r: String)
    ensures
        r@ == problems_section(*snapshot),
{
    let mut out = "\nProblems\n".to_owned();
    if snapshot.observations.len() == 0 {
        note(&mut out, problems_placeholder(snapshot));
        return out;
    }
    let ghost given = out@;
    proof {
        assert(given + observation_lines(snapshot.observations@.take(0)) == given);
    }
    for i in 0..snapshot.observations.len()
        invariant
            given == "\nProblems\n"@,
            out@ == given + observation_lines(snapshot.observations@.take(i as int)),
    {
        let observation = &snapshot.observations[i];
        proof {
            let all = snapshot.observations@;
            assert(all.take(i + 1).drop_last() == all.take(i as int));
            let earlier = observation_lines(all.take(i as int));
            let line = note_shown(observation.text@);
            assert(given + earlier + line == given + (earlier + line));
        }
        note(&mut out, observation.text.as_str());
    }
    proof {
        assert(snapshot.observations@.take(snapshot.observations@.len() as int)
            == snapshot.observations@);
    }
    out
}

/// A snapshot as indented plain text.
pub open spec fn snapshot_shown(snapshot: Inspection) -> Seq<char> {
    snapshot.context@ + "\n\n"@ + context_section(snapshot) + nodes_section(snapshot)
        + namespace_section(snapshot) + problems_section(snapshot)
}

/// Render a snapshot as indented plain text.
///
/// Deliberately free of ANSI colour: this goes to stdout, where it may be piped into a file or
/// another program. The TUI does its own styling.
pub fn inspection_text(snapshot: &Inspection) -> (r: String)
    ensures
        r@ == snapshot_shown(*snapshot),
{
    let mut out = snapshot.context.clone();
    out.append("\n\n");
    out.append(context_text(snapshot).as_str());
    out.append(nodes_text(snapshot).as_str());
    out.append(namespace_text(snapshot).as_str());
    out.append(problems_text(snapshot).as_str());
    out
}

// ---------------------------------------------------------------------------------------------
// Plain text stays plain
// ---------------------------------------------------------------------------------------------
/// Whether a text is free of the escape character that starts ANSI sequences.
#[verifier::opaque]
pub open spec fn escape_free(s: Seq<char>) -> bool {
    forall|i: int| 0 <= i < s.len() ==> #[trigger] s[i] != '\x1b'
}

/// Whether an optional text is free of escapes.
pub open spec fn optional_escape_free(value: Option<String>) -> bool {
    value is Some ==> escape_free(value->0@)
}

/// Whether every text of a list is free of escapes.
pub open spec fn all_escape_free(list: Seq<Seq<char>>) -> bool {
    forall|i: int| 0 <= i < list.len() ==> escape_free(#[trigger] list[i])
}

/// Whether the message of an unavailable section is free of escapes.
pub open spec fn section_escape_free<T>(section: Availability<T>) -> bool {
    section matches Availability::Unavailable(message) ==> escape_free(message@)
}

/// Whether every text a snapshot holds is free of escapes.
pub open spec fn snapshot_escape_free(snapshot: Inspection) -> bool {
    &&& escape_free(snapshot.context@)
    &&& escape_free(snapshot.cluster@)
    &&& optional_escape_free(snapshot.server)
    &&& escape_free(snapshot.namespace@)
    &&& match snapshot.identity {
        AuthMethod::AuthProvider(name) => escape_free(name@),
        AuthMethod::Exec(command) => escape_free(command@),
        _ => true,
    }
    &&& optional_escape_free(snapshot.message)
    &&& section_escape_free(snapshot.version)
    &&& (snapshot.version matches Availability::Read(version) ==> escape_free(
        version.git_version@,
    ) && escape_free(version.platform@))
    &&& section_escape_free(snapshot.nodes)
    &&& (snapshot.nodes matches Availability::Read(nodes) ==> all_escape_free(
        text::texts(nodes.versions@),
    ) && all_escape_free(text::texts(nodes.platforms@)))
    &&& section_escape_free(snapshot.namespace_status)
    &&& (snapshot.namespace_status matches Availability::Read(namespace) ==> optional_escape_free(
        namespace.phase,
    ))
    &&& section_escape_free(snapshot.workloads.pods)
    &&& section_escape_free(snapshot.workloads.deployments)
    &&& section_escape_free(snapshot.workloads.statefulsets)
    &&& section_escape_free(snapshot.workloads.daemonsets)
    &&& section_escape_free(snapshot.workloads.jobs)
    &&& section_escape_free(snapshot.workloads.cronjobs)
    &&& forall|i: int|
        0 <= i < snapshot.observations@.len() ==> escape_free(
            (#[trigger] snapshot.observations@[i]).text@,
        )
}

broadcast proof fn lemma_escape_free_concat(a: Seq<char>, b: Seq<char>)
    requires
        escape_free(a),
        escape_free(b),
    ensures
        #[trigger] escape_free(a + b),
{
    reveal(escape_free);
}

broadcast proof fn lemma_escape_free_decimal(n: nat)
    ensures
        #[trigger] escape_free(text::decimal(n)),
    decreases n,
{
    reveal(escape_free);
    if n >= 10 {
        lemma_escape_free_decimal(n / 10);
        assert(text::decimal(n) == text::decimal(n / 10).push(text::digit(n % 10)));
    }
}

broadcast proof fn lemma_escape_free_signed(n: int)
    ensures
        #[trigger] escape_free(text::decimal_signed(n)),
{
    reveal(escape_free);
    if n < 0 {
        lemma_escape_free_decimal((-n) as nat);
    } else {
        lemma_escape_free_decimal(n as nat);
    }
}

broadcast proof fn lemma_escape_free_padded(label: Seq<char>, width: nat)
    requires
        escape_free(label),
    ensures
        #[trigger] escape_free(text::padded(label, width)),
{
    reveal(escape_free);
}

proof fn lemma_escape_free_joined(parts: Seq<Seq<char>>, separator: Seq<char>)
    requires
        all_escape_free(parts),
        escape_free(separator),
    ensures
        escape_free(text::joined(parts, separator)),
    decreases parts.len(),
{
    reveal(escape_free);
    if parts.len() == 1 {
        assert(escape_free(parts[0]));
    } else if parts.len() > 1 {
        assert forall|i: int| 0 <= i < parts.drop_last().len() implies escape_free(
            #[trigger] parts.drop_last()[i],
        ) by {
            assert(escape_free(parts[i]));
        }
        lemma_escape_free_joined(parts.drop_last(), separator);
        assert(escape_free(parts[parts.len() - 1]));
    }
}

broadcast proof fn lemma_escape_free_empty()
    ensures
        #[trigger] escape_free(Seq::<char>::empty()),
{
    reveal(escape_free);
}

proof fn lemma_escape_free_labels()
    ensures
        escape_free("  "@),
        escape_free("\n"@),
        escape_free("\n\n"@),
        escape_free("Context\n"@),
        escape_free("\nNodes\n"@),
        escape_free("\nNamespace "@),
        escape_free("\nProblems\n"@),
        escape_free("Cluster"@),
        escape_free("Server"@),
        escape_free("Namespace"@),
        escape_free("Auth"@),
        escape_free("Status"@),
        escape_free("Kubernetes"@),
        escape_free("Latency"@),
        escape_free("Count"@),
        escape_free("Versions"@),
        escape_free("Platforms"@),
        escape_free("Phase"@),
        escape_free("Pods"@),
        escape_free("Deployments"@),
        escape_free("StatefulSets"@),
        escape_free("DaemonSets"@),
        escape_free("Jobs"@),
        escape_free("CronJobs"@),
{
    reveal(escape_free);
    reveal_strlit("  ");
    reveal_strlit("\n");
    reveal_strlit("\n\n");
    reveal_strlit("Context\n");
    reveal_strlit("\nNodes\n");
    reveal_strlit("\nNamespace ");
    reveal_strlit("\nProblems\n");
    reveal_strlit("Cluster");
    reveal_strlit("Server");
    reveal_strlit("Namespace");
    reveal_strlit("Auth");
    reveal_strlit("Status");
    reveal_strlit("Kubernetes");
    reveal_strlit("Latency");
    reveal_strlit("Count");
    reveal_strlit("Versions");
    reveal_strlit("Platforms");
    reveal_strlit("Phase");
    reveal_strlit("Pods");
    reveal_strlit("Deployments");
    reveal_strlit("StatefulSets");
    reveal_strlit("DaemonSets");
    reveal_strlit("Jobs");
    reveal_strlit("CronJobs");
}

proof fn lemma_escape_free_values()
    ensures
        escape_free(" "@),
        escape_free(" ("@),
        escape_free(")"@),
        escape_free(", "@),
        escape_free("/"@),
        escape_free("-"@),
        escape_free("unknown"@),
        escape_free(" ms"@),
        escape_free(" total, "@),
        escape_free(" Ready"@),
        escape_free(" Ready, "@),
        escape_free(" control plane"@),
        escape_free(" Pending"@),
        escape_free(" Failed"@),
        escape_free(" replicas"@),
        escape_free("available"@),
        escape_free("ready"@),
        escape_free(" Pods ready"@),
        escape_free(" active, "@),
        escape_free(" complete, "@),
        escape_free(" failed"@),
        escape_free(" suspended"@),
        escape_free("none observed"@),
        escape_free("not determined: nothing could be read"@),
        escape_free("unavailable (permission denied)"@),
        escape_free("unavailable ("@),
        escape_free("not checked"@),
{
    reveal(escape_free);
    reveal_strlit(" ");
    reveal_strlit(" (");
    reveal_strlit(")");
    reveal_strlit(", ");
    reveal_strlit("/");
    reveal_strlit("-");
    reveal_strlit("unknown");
    reveal_strlit(" ms");
    reveal_strlit(" total, ");
    reveal_strlit(" Ready");
    reveal_strlit(" Ready, ");
    reveal_strlit(" control plane");
    reveal_strlit(" Pending");
    reveal_strlit(" Failed");
    reveal_strlit(" replicas");
    reveal_strlit("available");
    reveal_strlit("ready");
    reveal_strlit(" Pods ready");
    reveal_strlit(" active, ");
    reveal_strlit(" complete, ");
    reveal_strlit(" failed");
    reveal_strlit(" suspended");
    reveal_strlit("none observed");
    reveal_strlit("not determined: nothing could be read");
    reveal_strlit("unavailable (permission denied)");
    reveal_strlit("unavailable (");
    reveal_strlit("not checked");
}

proof fn lemma_escape_free_states()
    ensures
        escape_free("Connecting..."@),
        escape_free("Connected"@),
        escape_free("Unavailable"@),
        escape_free("Authentication failed"@),
        escape_free("Permission denied"@),
        escape_free("Timed out"@),
        escape_free("TLS error"@),
        escape_free("API error"@),
        escape_free("none"@),
        escape_free("token"@),
        escape_free("token file"@),
        escape_free("client certificate"@),
        escape_free("basic auth"@),
        escape_free("auth provider ("@),
        escape_free("exec plugin ("@),
        escape_free(")"@),
{
    reveal(escape_free);
    reveal_strlit("Connecting...");
    reveal_strlit("Connected");
    reveal_strlit("Unavailable");
    reveal_strlit("Authentication failed");
    reveal_strlit("Permission denied");
    reveal_strlit("Timed out");
    reveal_strlit("TLS error");
    reveal_strlit("API error");
    reveal_strlit("none");
    reveal_strlit("token");
    reveal_strlit("token file");
    reveal_strlit("client certificate");
    reveal_strlit("basic auth");
    reveal_strlit("auth provider (");
    reveal_strlit("exec plugin (");
    reveal_strlit(")");
}

proof fn lemma_escape_free_row(label: Seq<char>, value: Seq<char>)
    requires
        escape_free(label),
        escape_free(value),
    ensures
        escape_free(row_shown(label, value)),
        escape_free(note_shown(value)),
{
    broadcast use lemma_escape_free_concat, lemma_escape_free_padded;

    lemma_escape_free_labels();
}

proof fn lemma_escape_free_context(snapshot: Inspection)
    requires
        snapshot_escape_free(snapshot),
    ensures
        escape_free(context_section(snapshot)),
{
    broadcast use
        lemma_escape_free_concat,
        lemma_escape_free_decimal,
        lemma_escape_free_empty,
    ;

    lemma_escape_free_labels();
    lemma_escape_free_values();
    lemma_escape_free_states();
    assert(escape_free(snapshot.state.shown()));
    assert(escape_free(snapshot.identity.shown()));
    assert(escape_free(status_shown(snapshot)));
    assert(escape_free(version_shown(snapshot)));
    lemma_escape_free_row("Cluster"@, snapshot.cluster@);
    lemma_escape_free_row("Server"@, text::text_or(snapshot.server, "unknown"@));
    lemma_escape_free_row("Namespace"@, snapshot.namespace@);
    lemma_escape_free_row("Auth"@, snapshot.identity.shown());
    lemma_escape_free_row("Status"@, status_shown(snapshot));
    lemma_escape_free_row("Kubernetes"@, version_shown(snapshot));
    if let Some(latency) = snapshot.latency {
        assert(escape_free(latency_shown(latency)));
        lemma_escape_free_row("Latency"@, latency_shown(latency));
    }
}

proof fn lemma_escape_free_list(label: Seq<char>, items: Seq<Seq<char>>)
    requires
        escape_free(label),
        all_escape_free(items),
    ensures
        escape_free(list_row(label, items)),
{
    broadcast use lemma_escape_free_empty;

    lemma_escape_free_values();
    lemma_escape_free_joined(items, ", "@);
    lemma_escape_free_row(label, text::joined(items, ", "@));
}

proof fn lemma_escape_free_nodes(snapshot: Inspection)
    requires
        snapshot_escape_free(snapshot),
    ensures
        escape_free(nodes_section(snapshot)),
{
    broadcast use lemma_escape_free_concat, lemma_escape_free_decimal;

    lemma_escape_free_labels();
    lemma_escape_free_values();
    match snapshot.nodes {
        Availability::Read(nodes) => {
            let count = text::decimal(nodes.total as nat) + " total, "@ + text::decimal(
                nodes.ready as nat,
            ) + " Ready, "@ + text::decimal(nodes.control_plane as nat) + " control plane"@;
            assert(escape_free(count));
            lemma_escape_free_row("Count"@, count);
            lemma_escape_free_list("Versions"@, text::texts(nodes.versions@));
            lemma_escape_free_list("Platforms"@, text::texts(nodes.platforms@));
        },
        _ => {
            lemma_escape_free_row("Count"@, snapshot.nodes.described());
        },
    }
}

proof fn lemma_escape_free_namespace(snapshot: Inspection)
    requires
        snapshot_escape_free(snapshot),
    ensures
        escape_free(namespace_section(snapshot)),
{
    broadcast use
        lemma_escape_free_concat,
        lemma_escape_free_decimal,
        lemma_escape_free_signed,
        lemma_escape_free_empty,
    ;

    lemma_escape_free_labels();
    lemma_escape_free_values();
    let workloads = snapshot.workloads;
    lemma_escape_free_row("Phase"@, phase_shown(snapshot));
    assert(escape_free(pods_shown(workloads.pods)));
    lemma_escape_free_row("Pods"@, pods_shown(workloads.pods));
    assert(escape_free(replicas_shown(workloads.deployments, "available"@)));
    lemma_escape_free_row("Deployments"@, replicas_shown(workloads.deployments, "available"@));
    assert(escape_free(replicas_shown(workloads.statefulsets, "ready"@)));
    lemma_escape_free_row("StatefulSets"@, replicas_shown(workloads.statefulsets, "ready"@));
    assert(escape_free(daemonsets_shown(workloads.daemonsets)));
    lemma_escape_free_row("DaemonSets"@, daemonsets_shown(workloads.daemonsets));
    assert(escape_free(jobs_shown(workloads.jobs)));
    lemma_escape_free_row("Jobs"@, jobs_shown(workloads.jobs));
    assert(escape_free(cronjobs_shown(workloads.cronjobs)));
    lemma_escape_free_row("CronJobs"@, cronjobs_shown(workloads.cronjobs));
}

proof fn lemma_escape_free_observations(observations: Seq<Observation>)
    requires
        forall|i: int|
            0 <= i < observations.len() ==> escape_free((#[trigger] observations[i]).text@),
    ensures
        escape_free(observation_lines(observations)),
    decreases observations.len(),
{
    broadcast use lemma_escape_free_concat, lemma_escape_free_empty;

    if observations.len() > 0 {
        lemma_escape_free_labels();
        assert forall|i: int| 0 <= i < observations.drop_last().len() implies escape_free(
            (#[trigger] observations.drop_last()[i]).text@,
        ) by {
            assert(escape_free(observations[i].text@));
        }
        lemma_escape_free_observations(observations.drop_last());
        assert(escape_free(observations[observations.len() - 1].text@));
        lemma_escape_free_row("  "@, observations.last().text@);
    }
}

/// Plain text output carries no ANSI escapes of its own: a snapshot whose texts hold none is
/// rendered without any, so the output stays pipe-friendly.
pub proof fn lemma_text_carries_no_escapes(snapshot: Inspection)
    requires
        snapshot_escape_free(snapshot),
    ensures
        escape_free(snapshot_shown(snapshot)),
{
    broadcast use lemma_escape_free_concat;

    lemma_escape_free_labels();
    lemma_escape_free_values();
    lemma_escape_free_context(snapshot);
    lemma_escape_free_nodes(snapshot);
    lemma_escape_free_namespace(snapshot);
    lemma_escape_free_observations(snapshot.observations@);
    lemma_escape_free_row("  "@, placeholder(snapshot.state));
}

} // verus!
