//! What holds of what is printed.

use vstd::prelude::*;

use crate::kubeconfig;
use crate::kubeconfig::{ContextCatalog, ContextEntry};
use crate::kubernetes::health::{CronJobStats, Observation, ReplicaStats};
use crate::kubernetes::inspection::{Availability, Inspection};
use crate::laws::kubeconfig as kubeconfig_laws;
use crate::output;
use crate::output::ContextJson;
use crate::paths;
use crate::text;
use crate::time::Duration;

verus! {

/// The record of a context has five fields: its name, its cluster, its namespace or a dash, its
/// source, and a star if it is active, else a dash.
pub proof fn lemma_fields_of_a_record(entry: ContextEntry)
    requires
        !entry.name@.contains('\t'),
        !entry.cluster@.contains('\t'),
        entry.namespace matches Some(namespace) ==> !namespace@.contains('\t'),
        !entry.source@.contains('\t'),
    ensures
        ({
            let fields = text::pieces(output::record(entry).drop_last(), '\t');
            &&& output::record(entry).last() == '\n'
            &&& fields.len() == 5
            &&& fields[0] == entry.name@
            &&& fields[1] == entry.cluster@
            &&& entry.namespace matches Some(namespace) ==> fields[2] == namespace@
            &&& entry.namespace is None ==> fields[2] == seq!['-']
            &&& fields[3] == entry.source@
            &&& fields[4] == seq!['*'] <==> entry.active
            &&& fields[4] == seq!['-'] <==> !entry.active
        }),
{
    reveal_strlit("-");
    reveal_strlit("*");
    assert("-"@ == seq!['-']);
    assert("*"@ == seq!['*']);
    assert(seq!['*'][0] != seq!['-'][0]);
    let columns = output::columns(entry);
    assert forall|i: int| 0 <= i < 5 implies !(#[trigger] columns[i]).contains('\t') by {
        if i == 2 && entry.namespace is None {
            assert(columns[2] == seq!['-']);
        }
        if i == 4 {
            assert(columns[4] == seq!['-'] || columns[4] == seq!['*']);
        }
    }
    output::lemma_records_have_columns(entry);
}

/// The record of a context, whatever its names hold, ends in a tab, a star and a line end if it is
/// active and in a tab, a dash and a line end if it is not.
pub proof fn lemma_record_tells_the_active(entry: ContextEntry)
    ensures
        output::record(entry).len() >= 3,
        output::record(entry).skip(output::record(entry).len() - 3) == seq!['\t', '*', '\n']
            <==> entry.active,
        output::record(entry).skip(output::record(entry).len() - 3) == seq!['\t', '-', '\n']
            <==> !entry.active,
{
    reveal_strlit("-");
    reveal_strlit("*");
    reveal_strlit("\t");
    reveal_strlit("\n");
    let columns = output::columns(entry);
    let front = text::joined(columns.drop_last(), "\t"@);
    let all = output::record(entry);
    assert(all == front + "\t"@ + columns.last() + "\n"@);
    let end = all.skip(all.len() - 3);
    assert(end == "\t"@ + columns.last() + "\n"@);
    assert(end[1] == columns.last()[0]);
    if entry.active {
        assert(end == seq!['\t', '*', '\n']);
    } else {
        assert(end == seq!['\t', '-', '\n']);
    }
    assert(seq!['\t', '*', '\n'][1] != seq!['\t', '-', '\n'][1]);
}

/// The list of a catalog marks at most one context, and that is the effective one: the first with
/// the name of the current context.
pub proof fn lemma_one_record_is_marked(
    fresh: Seq<ContextEntry>,
    current: Option<String>,
    entries: Seq<ContextEntry>,
    i: int,
    j: int,
)
    requires
        entries.len() == fresh.len(),
        forall|k: int| 0 <= k < fresh.len() ==> !(#[trigger] fresh[k]).active,
        forall|k: int|
            0 <= k < entries.len() ==> #[trigger] entries[k] == kubeconfig::marked(
                fresh,
                current,
                k,
            ),
        0 <= i < entries.len(),
        0 <= j < entries.len(),
    ensures
        output::record(entries[i]).skip(output::record(entries[i]).len() - 3)
            == seq!['\t', '*', '\n'] <==> kubeconfig_laws::effective(fresh, current, i),
        output::record(entries[i]).skip(output::record(entries[i]).len() - 3)
            == seq!['\t', '*', '\n'] && output::record(entries[j]).skip(
            output::record(entries[j]).len() - 3,
        ) == seq!['\t', '*', '\n'] ==> i == j,
{
    lemma_record_tells_the_active(entries[i]);
    lemma_record_tells_the_active(entries[j]);
    kubeconfig_laws::lemma_marks(fresh, current, i);
    kubeconfig_laws::lemma_marks(fresh, current, j);
}

/// What is listed of a catalog is one record for each of its contexts, in order, as
/// [`lemma_records_add_up`] says.
pub proof fn lemma_list(catalog: &ContextCatalog, r: String)
    requires
        call_ensures(output::list_tsv, (catalog,), r),
    ensures
        r@ == output::records(catalog.entries@),
        catalog.entries@.len() > 0 ==> r@ == output::records(catalog.entries@.drop_last())
            + output::record(catalog.entries@.last()),
{
}

/// The structured form of a context holds what the context does, with its file as an absolute path
/// where the directory is one.
pub proof fn lemma_structured(entry: &ContextEntry, directory: &str, r: ContextJson)
    requires
        call_ensures(ContextJson::new, (entry, directory), r),
    ensures
        r.name@ == entry.name@,
        r.cluster@ == entry.cluster@,
        entry.user is Some <==> r.user is Some,
        entry.user is Some ==> r.user->0@ == entry.user->0@,
        entry.namespace is Some <==> r.namespace is Some,
        entry.namespace is Some ==> r.namespace->0@ == entry.namespace->0@,
        entry.server is Some <==> r.server is Some,
        entry.server is Some ==> r.server->0@ == entry.server->0@,
        paths::absolute(entry.source@) ==> r.source@ == entry.source@,
        !paths::absolute(entry.source@) ==> r.source@ == paths::joined_path(
            directory@,
            entry.source@,
        ),
        r.active == entry.active,
        r.current_in_source == entry.current_in_source,
        r.ambiguous == entry.ambiguous,
        *r.auth == entry.auth_method,
{
}

/// The list of two parts of a catalog is that of the first and then that of the second, one record
/// for each context.
pub proof fn lemma_records_add_up(a: Seq<ContextEntry>, b: Seq<ContextEntry>)
    ensures
        output::records(a + b) == output::records(a) + output::records(b),
        a.len() == 0 ==> output::records(a).len() == 0,
        a.len() == 1 ==> output::records(a) == output::record(a[0]),
    decreases b.len(),
{
    if b.len() > 0 {
        lemma_records_add_up(a, b.drop_last());
        assert((a + b).drop_last() == a + b.drop_last());
        assert(output::records(a) + (output::records(b.drop_last()) + output::record(b.last()))
            == output::records(a) + output::records(b.drop_last()) + output::record(b.last()));
    } else {
        assert(a + b == a);
        assert(output::records(a) + output::records(b) == output::records(a));
    }
    if a.len() == 1 {
        reveal_with_fuel(output::records, 2);
        assert(a.drop_last().len() == 0);
        assert(output::records(a) == output::record(a[0]));
    }
}

// ---------------------------------------------------------------------------------------------
// An inspection in words
// ---------------------------------------------------------------------------------------------
/// What is said of the state is its name, with the message in brackets where there is one; of the
/// version its number and platform, or why it is not known; of the latency its milliseconds; of
/// the phase the namespace's own, or a dash, or why it is not known.
pub proof fn lemma_inspection_words(
    snapshot: &Inspection,
    status: String,
    version: String,
    span: Duration,
    latency: String,
    phase: String,
    nothing: &str,
)
    requires
        call_ensures(output::status_line, (snapshot,), status),
        call_ensures(output::version_text, (snapshot,), version),
        call_ensures(output::latency_text, (span,), latency),
        call_ensures(output::phase_text, (snapshot,), phase),
        call_ensures(output::problems_placeholder, (snapshot,), nothing),
    ensures
        snapshot.message is None ==> status@ == snapshot.state.shown(),
        snapshot.message matches Some(message) ==> status@ == snapshot.state.shown() + " ("@
            + message@ + ")"@,
        snapshot.version matches Availability::Read(found) ==> version@ == found.git_version@ + " ("@
            + found.platform@ + ")"@,
        !(snapshot.version is Read) ==> version@ == snapshot.version.described(),
        latency@ == text::decimal(span@ / 1_000_000) + " ms"@,
        snapshot.namespace_status matches Availability::Read(found) ==> (found.phase is Some
            ==> phase@ == found.phase->0@) && (found.phase is None ==> phase@ == "-"@),
        !(snapshot.namespace_status is Read) ==> phase@ == snapshot.namespace_status.described(),
        snapshot.state is Connected ==> nothing@ == "none observed"@,
        !(snapshot.state is Connected) ==> nothing@ == "not determined: nothing could be read"@,
{
}

/// A row starts with two blanks and a label, and its value stands from the sixteenth column on.
pub open spec fn row(label: Seq<char>, value: Seq<char>) -> Seq<char> {
    "  "@ + text::padded(label, 13) + value + "\n"@
}

/// The rows on workloads give, where they were read, the figures of each kind.
pub proof fn lemma_workload_rows(snapshot: &Inspection, r: String)
    requires
        call_ensures(output::workload_rows, (snapshot,), r),
        snapshot.workloads.pods is Read,
        snapshot.workloads.deployments is Read,
        snapshot.workloads.statefulsets is Read,
        snapshot.workloads.daemonsets is Read,
        snapshot.workloads.jobs is Read,
        snapshot.workloads.cronjobs is Read,
    ensures
        ({
            let pods = snapshot.workloads.pods->Read_0;
            let deployments = snapshot.workloads.deployments->Read_0;
            let statefulsets = snapshot.workloads.statefulsets->Read_0;
            let daemonsets = snapshot.workloads.daemonsets->Read_0;
            let jobs = snapshot.workloads.jobs->Read_0;
            let cronjobs = snapshot.workloads.cronjobs->Read_0;
            r@ == row(
                "Pods"@,
                text::decimal(pods.total as nat) + " total, "@ + text::decimal(pods.ready as nat)
                    + " Ready"@ + (if pods.pending > 0 {
                    ", "@ + text::decimal(pods.pending as nat) + " Pending"@
                } else {
                    Seq::empty()
                }) + (if pods.failed > 0 {
                    ", "@ + text::decimal(pods.failed as nat) + " Failed"@
                } else {
                    Seq::empty()
                }),
            ) + row(
                "Deployments"@,
                text::decimal(deployments.total as nat) + " total, "@ + text::decimal_signed(
                    deployments.available as int,
                ) + "/"@ + text::decimal_signed(deployments.desired as int) + " "@ + "available"@
                    + " replicas"@,
            ) + row(
                "StatefulSets"@,
                text::decimal(statefulsets.total as nat) + " total, "@ + text::decimal_signed(
                    statefulsets.available as int,
                ) + "/"@ + text::decimal_signed(statefulsets.desired as int) + " "@ + "ready"@
                    + " replicas"@,
            ) + row(
                "DaemonSets"@,
                text::decimal(daemonsets.total as nat) + " total, "@ + text::decimal_signed(
                    daemonsets.ready as int,
                ) + "/"@ + text::decimal_signed(daemonsets.desired as int) + " Pods ready"@,
            ) + row(
                "Jobs"@,
                text::decimal(jobs.total as nat) + " total, "@ + text::decimal(jobs.active as nat)
                    + " active, "@ + text::decimal(jobs.complete as nat) + " complete, "@
                    + text::decimal(jobs.failed as nat) + " failed"@,
            ) + row(
                "CronJobs"@,
                text::decimal(cronjobs.total as nat) + " total, "@ + text::decimal(
                    cronjobs.suspended as nat,
                ) + " suspended"@,
            )
        }),
{
}

/// A section that was not read is described in its row instead.
pub proof fn lemma_unread_rows(
    replicas: &Availability<ReplicaStats>,
    quality: &str,
    replicas_r: String,
    cronjobs: &Availability<CronJobStats>,
    cronjobs_r: String,
)
    requires
        call_ensures(output::replicas, (replicas, quality), replicas_r),
        call_ensures(output::cronjobs_text, (cronjobs,), cronjobs_r),
    ensures
        !(replicas is Read) ==> replicas_r@ == replicas.described(),
        !(cronjobs is Read) ==> cronjobs_r@ == cronjobs.described(),
        cronjobs matches Availability::Read(stats) ==> cronjobs_r@ == text::decimal(
            stats.total as nat,
        ) + " total, "@ + text::decimal(stats.suspended as nat) + " suspended"@,
{
}

/// The text of an inspection starts with the context's name, then gives what is known of it, of
/// the nodes, of the namespace with its workloads, and at the end what was found, a line each in
/// order.
pub proof fn lemma_inspection_text(
    snapshot: &Inspection,
    r: String,
    status: String,
    version: String,
    phase: String,
    workloads: String,
) -> (nodes: Seq<char>)
    requires
        call_ensures(output::inspection_text, (snapshot,), r),
        call_ensures(output::status_line, (snapshot,), status),
        call_ensures(output::version_text, (snapshot,), version),
        call_ensures(output::phase_text, (snapshot,), phase),
        call_ensures(output::workload_rows, (snapshot,), workloads),
    ensures
        r@ == snapshot.context@ + "\n\n"@ + ("Context\n"@ + row("Cluster"@, snapshot.cluster@) + row(
            "Server"@,
            match snapshot.server {
                Some(server) => server@,
                None => "unknown"@,
            },
        ) + row("Namespace"@, snapshot.namespace@) + row("Auth"@, snapshot.identity.shown()) + row(
            "Status"@,
            status@,
        ) + row("Kubernetes"@, version@) + (match snapshot.latency {
            Some(latency) => row("Latency"@, text::decimal(latency@ / 1_000_000) + " ms"@),
            None => Seq::empty(),
        })) + ("\nNodes\n"@ + nodes) + ("\nNamespace "@ + snapshot.namespace@ + "\n"@ + row(
            "Phase"@,
            phase@,
        ) + workloads@) + ("\nProblems\n"@ + (if snapshot.observations@.len() == 0 {
            "  "@ + output::placeholder(snapshot.state) + "\n"@
        } else {
            output::observation_lines(snapshot.observations@)
        })),
        snapshot.nodes matches Availability::Read(summary) ==> nodes == row(
            "Count"@,
            text::decimal(summary.total as nat) + " total, "@ + text::decimal(summary.ready as nat)
                + " Ready, "@ + text::decimal(summary.control_plane as nat) + " control plane"@,
        ) + (if summary.versions@.len() > 0 {
            row("Versions"@, text::joined(text::texts(summary.versions@), ", "@))
        } else {
            Seq::empty()
        }) + (if summary.platforms@.len() > 0 {
            row("Platforms"@, text::joined(text::texts(summary.platforms@), ", "@))
        } else {
            Seq::empty()
        }),
        !(snapshot.nodes is Read) ==> nodes == "  "@ + snapshot.nodes.described() + "\n"@,
{
    match snapshot.nodes {
        Availability::Read(nodes) => {
            let counted = row(
                "Count"@,
                text::decimal(nodes.total as nat) + " total, "@ + text::decimal(nodes.ready as nat)
                    + " Ready, "@ + text::decimal(nodes.control_plane as nat) + " control plane"@,
            );
            counted + output::list_row("Versions"@, text::texts(nodes.versions@))
                + output::list_row("Platforms"@, text::texts(nodes.platforms@))
        },
        _ => output::note_shown(snapshot.nodes.described()),
    }
}

/// What was found is given a line each, in order, behind two blanks.
pub proof fn lemma_observation_lines(a: Seq<Observation>, b: Seq<Observation>)
    ensures
        output::observation_lines(a + b) == output::observation_lines(a)
            + output::observation_lines(b),
        a.len() == 0 ==> output::observation_lines(a).len() == 0,
        a.len() == 1 ==> output::observation_lines(a) == "  "@ + a[0].text@ + "\n"@,
    decreases b.len(),
{
    if b.len() > 0 {
        lemma_observation_lines(a, b.drop_last());
        assert((a + b).drop_last() == a + b.drop_last());
        let line = output::note_shown(b.last().text@);
        assert(output::observation_lines(a) + (output::observation_lines(b.drop_last()) + line)
            == output::observation_lines(a) + output::observation_lines(b.drop_last()) + line);
    } else {
        assert(a + b == a);
        assert(output::observation_lines(a) + output::observation_lines(b)
            == output::observation_lines(a));
    }
    if a.len() == 1 {
        reveal_with_fuel(output::observation_lines, 2);
        assert(a.drop_last().len() == 0);
        assert(output::observation_lines(a) == "  "@ + a[0].text@ + "\n"@);
    }
}

/// Where no workloads were read, each row says why.
pub proof fn lemma_unread_workload_rows(snapshot: &Inspection, r: String)
    requires
        call_ensures(output::workload_rows, (snapshot,), r),
        !(snapshot.workloads.pods is Read),
        !(snapshot.workloads.deployments is Read),
        !(snapshot.workloads.statefulsets is Read),
        !(snapshot.workloads.daemonsets is Read),
        !(snapshot.workloads.jobs is Read),
        !(snapshot.workloads.cronjobs is Read),
    ensures
        r@ == row("Pods"@, snapshot.workloads.pods.described()) + row(
            "Deployments"@,
            snapshot.workloads.deployments.described(),
        ) + row("StatefulSets"@, snapshot.workloads.statefulsets.described()) + row(
            "DaemonSets"@,
            snapshot.workloads.daemonsets.described(),
        ) + row("Jobs"@, snapshot.workloads.jobs.described()) + row(
            "CronJobs"@,
            snapshot.workloads.cronjobs.described(),
        ),
{
}

} // verus!
