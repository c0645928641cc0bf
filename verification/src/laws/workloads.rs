//! What holds of the health that is read off controllers and jobs.

use vstd::prelude::*;

use crate::kubernetes::health;
use crate::kubernetes::health::{
    Count, CronJob, CronJobStats, DaemonSet, DaemonSetStats, Deployment, Job, JobStats, Observation,
    ReplicaStats, Severity, StatefulSet,
};
use crate::laws::health as health_laws;
use crate::laws::health::{counted, filtered_holds, labelled, noted, same_filter, when_said};
use crate::text;

verus! {

proof fn filter_of_map<A, B>(items: Seq<A>, f: spec_fn(A) -> B, wanted: spec_fn(B) -> bool)
    ensures
        items.map_values(f).filter(wanted) == items.filter(|item: A| wanted(f(item))).map_values(f),
    decreases items.len(),
{
    reveal(Seq::filter);
    let inner = |item: A| wanted(f(item));
    if items.len() > 0 {
        filter_of_map(items.drop_last(), f, wanted);
        assert(items.map_values(f).drop_last() == items.drop_last().map_values(f));
        let before = items.drop_last().filter(inner);
        assert(before.push(items.last()).map_values(f) == before.map_values(f).push(
            f(items.last()),
        ));
    } else {
        assert(items.filter(inner).map_values(f).len() == 0);
        assert(items.map_values(f).filter(wanted) == items.filter(inner).map_values(f));
    }
}

/// The sum of numbers.
pub open spec fn sum(numbers: Seq<int>) -> int {
    numbers.fold_left(0, |a: int, b: int| a + b)
}

/// What is desired and what is healthy is summed over all objects.
pub proof fn lemma_sums(counts: Seq<Count>)
    ensures
        health::desired_sum(counts) == sum(counts.map_values(|count: Count| count.1)),
        health::healthy_sum(counts) == sum(counts.map_values(|count: Count| count.2)),
    decreases counts.len(),
{
    if counts.len() > 0 {
        lemma_sums(counts.drop_last());
        assert(counts.map_values(|count: Count| count.1).drop_last()
            == counts.drop_last().map_values(|count: Count| count.1));
        assert(counts.map_values(|count: Count| count.2).drop_last()
            == counts.drop_last().map_values(|count: Count| count.2));
    }
}

/// How many of a number of lines are written out.
pub open spec fn shown(count: nat) -> int {
    if count < 3 {
        count as int
    } else {
        3
    }
}

/// Of controllers with fewer healthy replicas than desired, the first three are named with both
/// numbers, the others are counted; then it is said whether the list was cut short. Nothing else
/// is said, and nothing of the others.
pub proof fn lemma_shortfalls_said(
    kind: Seq<char>,
    kinds: Seq<char>,
    quality: Seq<char>,
    counts: Seq<Count>,
    truncated: bool,
)
    ensures
        ({
            let said = health::replicas_said(kind, kinds, quality, counts, truncated);
            let short = counts.filter(|count: Count| count.2 < count.1);
            &&& said.len() == shown(short.len()) + health_laws::one(short.len() > 3)
                + health_laws::one(truncated)
            &&& forall|i: int|
                0 <= i < shown(short.len()) && !(#[trigger] short[i]).0.contains(' ') ==> said[i]
                    == (
                    Severity::Problem,
                    kind + " "@ + short[i].0 + " has "@ + (text::decimal_signed(short[i].2) + "/"@
                        + text::decimal_signed(short[i].1)) + " "@ + quality + " replicas"@,
                )
            &&& forall|i: int| 0 <= i < shown(short.len()) ==> (#[trigger] said[i]).0 is Problem
            &&& short.len() > 3 ==> said[3] == (
                Severity::Problem,
                text::decimal((short.len() - 3) as nat) + " further "@ + kinds + " are degraded"@,
            )
            &&& truncated ==> said.last() == (
                Severity::Info,
                "only the first "@ + text::decimal(counts.len()) + " "@ + kinds
                    + " were inspected"@,
            )
        }),
{
    let said = health::replicas_said(kind, kinds, quality, counts, truncated);
    let short = counts.filter(|count: Count| count.2 < count.1);
    let label = |count: Count|
        count.0 + " "@ + text::decimal_signed(count.2) + "/"@ + text::decimal_signed(count.1);
    health_laws::lemma_counting(counts, |count: Count| count.2 < count.1, label);
    let entries = health::shortfalls(counts);
    assert(entries == short.map_values(label));
    assert forall|i: int|
        0 <= i < shown(short.len()) && !(#[trigger] short[i]).0.contains(' ') implies said[i] == (
        Severity::Problem,
        kind + " "@ + short[i].0 + " has "@ + (text::decimal_signed(short[i].2) + "/"@
            + text::decimal_signed(short[i].1)) + " "@ + quality + " replicas"@,
    ) by {
        let ratio = text::decimal_signed(short[i].2) + "/"@ + text::decimal_signed(short[i].1);
        health::lemma_shortfall_names_object(kind, quality, short[i].0, ratio);
        assert(entries[i] == short[i].0 + " "@ + ratio);
    }
}

/// Desired replicas: as set, or one.
pub open spec fn deployment_desired(deployment: Deployment) -> int {
    match deployment.replicas {
        Some(replicas) => replicas as int,
        None => 1,
    }
}

/// Available replicas: as reported, or none.
pub open spec fn deployment_available(deployment: Deployment) -> int {
    match deployment.available_replicas {
        Some(replicas) => replicas as int,
        None => 0,
    }
}

/// A deployment's name with its desired and available replicas.
pub open spec fn deployment_figures(deployment: Deployment) -> Count {
    (
        health_laws::called(deployment.name),
        deployment_desired(deployment),
        deployment_available(deployment),
    )
}

/// Deployments are measured by available against desired replicas, where one replica is desired
/// unless set otherwise and none is available unless reported.
pub proof fn lemma_deployments(
    deployments: &[Deployment],
    truncated: bool,
    r: (ReplicaStats, Vec<Observation>),
)
    requires
        call_ensures(health::observe_deployments, (deployments, truncated), r),
    ensures
        r.0.total == deployments@.len(),
        r.0.desired == sum(deployments@.map_values(|d: Deployment| deployment_desired(d))),
        r.0.available == sum(deployments@.map_values(|d: Deployment| deployment_available(d))),
        r.0.degraded == deployments@.filter(
            |d: Deployment| deployment_available(d) < deployment_desired(d),
        ).len(),
        r.0.truncated == truncated,
        health::said(r.1@) == health::replicas_said(
            "deployment"@,
            "Deployments"@,
            "available"@,
            deployments@.map_values(|d: Deployment| deployment_figures(d)),
            truncated,
        ),
{
    let counts = health::deployment_counts(deployments@);
    let figures = |d: Deployment| deployment_figures(d);
    assert(counts == deployments@.map_values(figures));
    lemma_sums(counts);
    assert(counts.map_values(|count: Count| count.1) == deployments@.map_values(
        |d: Deployment| deployment_desired(d),
    ));
    assert(counts.map_values(|count: Count| count.2) == deployments@.map_values(
        |d: Deployment| deployment_available(d),
    ));
    let short = |count: Count| count.2 < count.1;
    counted(counts, short, short);
    filter_of_map(deployments@, figures, short);
    same_filter(
        deployments@,
        |d: Deployment| short(figures(d)),
        |d: Deployment| deployment_available(d) < deployment_desired(d),
    );
}

/// Desired replicas: as set, or one.
pub open spec fn statefulset_desired(statefulset: StatefulSet) -> int {
    match statefulset.replicas {
        Some(replicas) => replicas as int,
        None => 1,
    }
}

/// Ready replicas: as reported, or none.
pub open spec fn statefulset_ready(statefulset: StatefulSet) -> int {
    match statefulset.ready_replicas {
        Some(replicas) => replicas as int,
        None => 0,
    }
}

/// A StatefulSet's name with its desired and ready replicas.
pub open spec fn statefulset_figures(statefulset: StatefulSet) -> Count {
    (
        health_laws::called(statefulset.name),
        statefulset_desired(statefulset),
        statefulset_ready(statefulset),
    )
}

/// StatefulSets are measured by ready against desired replicas, where one replica is desired
/// unless set otherwise and none is ready unless reported.
pub proof fn lemma_statefulsets(
    statefulsets: &[StatefulSet],
    truncated: bool,
    r: (ReplicaStats, Vec<Observation>),
)
    requires
        call_ensures(health::observe_statefulsets, (statefulsets, truncated), r),
    ensures
        r.0.total == statefulsets@.len(),
        r.0.desired == sum(statefulsets@.map_values(|s: StatefulSet| statefulset_desired(s))),
        r.0.available == sum(statefulsets@.map_values(|s: StatefulSet| statefulset_ready(s))),
        r.0.degraded == statefulsets@.filter(
            |s: StatefulSet| statefulset_ready(s) < statefulset_desired(s),
        ).len(),
        r.0.truncated == truncated,
        health::said(r.1@) == health::replicas_said(
            "statefulset"@,
            "StatefulSets"@,
            "ready"@,
            statefulsets@.map_values(|s: StatefulSet| statefulset_figures(s)),
            truncated,
        ),
{
    let counts = health::statefulset_counts(statefulsets@);
    let figures = |s: StatefulSet| statefulset_figures(s);
    assert(counts == statefulsets@.map_values(figures));
    lemma_sums(counts);
    assert(counts.map_values(|count: Count| count.1) == statefulsets@.map_values(
        |s: StatefulSet| statefulset_desired(s),
    ));
    assert(counts.map_values(|count: Count| count.2) == statefulsets@.map_values(
        |s: StatefulSet| statefulset_ready(s),
    ));
    let short = |count: Count| count.2 < count.1;
    counted(counts, short, short);
    filter_of_map(statefulsets@, figures, short);
    same_filter(
        statefulsets@,
        |s: StatefulSet| short(figures(s)),
        |s: StatefulSet| statefulset_ready(s) < statefulset_desired(s),
    );
}

/// Whether a DaemonSet reports fewer ready pods than desired.
pub open spec fn lacks_pods(daemonset: DaemonSet) -> bool {
    daemonset.status matches Some(status) && status.number_ready < status.desired_number_scheduled
}

/// Whether a DaemonSet reports pods where none should run.
pub open spec fn misplaced(daemonset: DaemonSet) -> bool {
    daemonset.status matches Some(status) && status.number_misscheduled > 0
}

/// What is said of a DaemonSet that lacks pods.
pub open spec fn lacking_line(daemonset: DaemonSet) -> Seq<char> {
    "daemonset "@ + health_laws::called(daemonset.name) + " has "@ + text::decimal_signed(
        daemonset.status->0.number_ready as int,
    ) + "/"@ + text::decimal_signed(daemonset.status->0.desired_number_scheduled as int)
        + " Pods ready"@
}

/// What is said of a DaemonSet with misplaced pods.
pub open spec fn misplaced_line(daemonset: DaemonSet) -> Seq<char> {
    "daemonset "@ + health_laws::called(daemonset.name) + " has "@ + text::decimal_signed(
        daemonset.status->0.number_misscheduled as int,
    ) + " misscheduled Pod(s)"@
}

/// DaemonSets are counted by the pods that they report; one without a status adds nothing. Those
/// that lack pods or have misplaced ones are degraded.
pub proof fn lemma_daemonsets(
    daemonsets: &[DaemonSet],
    truncated: bool,
    r: (DaemonSetStats, Vec<Observation>),
)
    requires
        call_ensures(health::observe_daemonsets, (daemonsets, truncated), r),
    ensures
        r.0.total == daemonsets@.len(),
        r.0.desired == sum(
            daemonsets@.map_values(
                |d: DaemonSet|
                    match d.status {
                        Some(status) => status.desired_number_scheduled as int,
                        None => 0,
                    },
            ),
        ),
        r.0.ready == sum(
            daemonsets@.map_values(
                |d: DaemonSet|
                    match d.status {
                        Some(status) => status.number_ready as int,
                        None => 0,
                    },
            ),
        ),
        r.0.degraded == daemonsets@.filter(|d: DaemonSet| lacks_pods(d) || misplaced(d)).len(),
        r.0.truncated == truncated,
{
    let counts = health::daemonset_counts(daemonsets@);
    lemma_sums(counts);
    assert(counts.map_values(|count: Count| count.1) == daemonsets@.map_values(
        |d: DaemonSet|
            match d.status {
                Some(status) => status.desired_number_scheduled as int,
                None => 0,
            },
    ));
    assert(counts.map_values(|count: Count| count.2) == daemonsets@.map_values(
        |d: DaemonSet|
            match d.status {
                Some(status) => status.number_ready as int,
                None => 0,
            },
    ));
    counted(
        daemonsets@,
        |d: DaemonSet| health::daemonset_degraded(d),
        |d: DaemonSet| lacks_pods(d) || misplaced(d),
    );
}

/// Of DaemonSets it is said first which have misplaced pods, then of up to three which lack pods
/// and how many others do, and then whether the list was cut short; nothing else is said.
pub proof fn lemma_daemonsets_said(
    daemonsets: &[DaemonSet],
    truncated: bool,
    r: (DaemonSetStats, Vec<Observation>),
)
    requires
        call_ensures(health::observe_daemonsets, (daemonsets, truncated), r),
    ensures
        ({
            let said = health::said(r.1@);
            let astray = daemonsets@.filter(|d: DaemonSet| misplaced(d));
            let lacking = daemonsets@.filter(|d: DaemonSet| lacks_pods(d));
            let front = astray.len() as int;
            &&& said.len() == front + shown(lacking.len()) + health_laws::one(lacking.len() > 3)
                + health_laws::one(truncated)
            &&& forall|i: int|
                0 <= i < front ==> said[i] == (
                    Severity::Warning,
                    misplaced_line(#[trigger] astray[i]),
                )
            &&& forall|i: int|
                0 <= i < shown(lacking.len()) ==> said[front + i] == (
                    Severity::Problem,
                    lacking_line(#[trigger] lacking[i]),
                )
            &&& lacking.len() > 3 ==> said[front + 3] == (
                Severity::Problem,
                text::decimal((lacking.len() - 3) as nat) + " further "@ + "DaemonSets"@
                    + " are degraded"@,
            )
            &&& truncated ==> said.last() == (
                Severity::Info,
                "only the first "@ + text::decimal(daemonsets@.len()) + " "@ + "DaemonSets"@
                    + " were inspected"@,
            )
        }),
{
    let astray = daemonsets@.filter(|d: DaemonSet| misplaced(d));
    let lacking = daemonsets@.filter(|d: DaemonSet| lacks_pods(d));
    labelled(
        daemonsets@,
        |d: DaemonSet| health::misscheduled(d),
        |d: DaemonSet| misplaced(d),
        |d: DaemonSet|
            "daemonset "@ + health::name_of(d.name) + " has "@ + text::decimal_signed(
                d.status->0.number_misscheduled as int,
            ) + " misscheduled Pod(s)"@,
        |d: DaemonSet| misplaced_line(d),
    );
    let counts = health::daemonset_counts(daemonsets@);
    let figures = |d: DaemonSet|
        match d.status {
            Some(status) => (
                health::name_of(d.name),
                status.desired_number_scheduled as int,
                status.number_ready as int,
            ),
            None => (health::name_of(d.name), 0int, 0int),
        };
    assert(counts == daemonsets@.map_values(figures));
    let short = |count: Count| count.2 < count.1;
    let line = |count: Count|
        "daemonset "@ + count.0 + " has "@ + text::decimal_signed(count.2) + "/"@
            + text::decimal_signed(count.1) + " Pods ready"@;
    health_laws::lemma_counting(counts, short, line);
    filter_of_map(daemonsets@, figures, short);
    same_filter(daemonsets@, |d: DaemonSet| short(figures(d)), |d: DaemonSet| lacks_pods(d));
    filtered_holds(daemonsets@, |d: DaemonSet| lacks_pods(d));
    let lines = health::unready_lines(counts);
    assert(lines == lacking.map_values(figures).map_values(line));
    assert forall|i: int| 0 <= i < lacking.len() implies lines[i] == lacking_line(
        #[trigger] lacking[i],
    ) by {
        assert(lacks_pods(lacking[i]));
    }
}

/// Whether a count is reported and positive.
pub open spec fn some(count: Option<i32>) -> bool {
    count matches Some(n) && n > 0
}

/// Whether a job failed: it reports failed pods or the condition `Failed`.
pub open spec fn job_fails(job: Job) -> bool {
    job.status matches Some(status) && (some(status.failed) || health_laws::reports(
        status.conditions@,
        "Failed"@,
    ))
}

/// Whether a job is complete: it reports pods that succeeded or the condition `Complete`.
pub open spec fn job_completes(job: Job) -> bool {
    job.status matches Some(status) && (some(status.succeeded) || health_laws::reports(
        status.conditions@,
        "Complete"@,
    ))
}

/// Jobs are counted as active, failed and complete by what they report, and the failed ones are
/// named; nothing else is said but that the list was cut short.
pub proof fn lemma_jobs(jobs: &[Job], truncated: bool, r: (JobStats, Vec<Observation>))
    requires
        call_ensures(health::observe_jobs, (jobs, truncated), r),
    ensures
        r.0.total == jobs@.len(),
        r.0.active == jobs@.filter(
            |job: Job| job.status matches Some(status) && some(status.active),
        ).len(),
        r.0.failed == jobs@.filter(|job: Job| job_fails(job)).len(),
        r.0.complete == jobs@.filter(|job: Job| job_completes(job)).len(),
        r.0.truncated == truncated,
        ({
            let failed = jobs@.filter(|job: Job| job_fails(job)).map_values(
                |job: Job| health_laws::called(job.name),
            );
            &&& r.1@.len() == health_laws::one(failed.len() > 0) + health_laws::one(truncated)
            &&& failed.len() > 0 ==> health_laws::notes(
                r.1@,
                Severity::Problem,
                text::decimal(failed.len()) + " Job"@ + health_laws::ending(failed.len())
                    + " failed ("@ + health::names_shown(failed) + ")"@,
            )
            &&& truncated ==> health_laws::notes(
                r.1@,
                Severity::Info,
                "only the first "@ + text::decimal(jobs@.len()) + " "@ + "Jobs"@
                    + " were inspected"@,
            )
        }),
{
    broadcast use vstd::seq_lib::lemma_seq_concat_contains_all_elements;

    counted(
        jobs@,
        |job: Job| health::job_active(job),
        |job: Job| job.status matches Some(status) && some(status.active),
    );
    counted(jobs@, |job: Job| health::job_failed(job), |job: Job| job_fails(job));
    counted(jobs@, |job: Job| health::job_complete(job), |job: Job| job_completes(job));
    labelled(
        jobs@,
        |job: Job| health::job_failed(job),
        |job: Job| job_fails(job),
        |job: Job| health::name_of(job.name),
        |job: Job| health_laws::called(job.name),
    );
    let failed = health::failed_jobs(jobs@);
    let said = health::said(r.1@);
    let failed_text = text::decimal(failed.len()) + " Job"@ + health_laws::ending(failed.len())
        + " failed ("@ + health::names_shown(failed) + ")"@;
    when_said(failed.len() > 0, Severity::Problem, failed_text);
    if failed.len() > 0 {
        assert(said.contains((Severity::Problem, failed_text)));
        noted(r.1@, Severity::Problem, failed_text);
    }
    let cut_text = "only the first "@ + text::decimal(jobs@.len()) + " "@ + "Jobs"@
        + " were inspected"@;
    when_said(truncated, Severity::Info, cut_text);
    if truncated {
        assert(said.contains((Severity::Info, cut_text)));
        noted(r.1@, Severity::Info, cut_text);
    }
    assert(said.len() == r.1@.len());
}

/// CronJobs are counted as suspended where that is set and as never scheduled where no run is
/// reported, and the suspended ones are named; nothing else is said but that the list was cut
/// short.
pub proof fn lemma_cronjobs(
    cronjobs: &[CronJob],
    truncated: bool,
    r: (CronJobStats, Vec<Observation>),
)
    requires
        call_ensures(health::observe_cronjobs, (cronjobs, truncated), r),
    ensures
        r.0.total == cronjobs@.len(),
        r.0.suspended == cronjobs@.filter(
            |c: CronJob| c.suspend matches Some(suspended) && suspended,
        ).len(),
        r.0.never_scheduled == cronjobs@.filter(|c: CronJob| !c.has_run).len(),
        r.0.truncated == truncated,
        ({
            let suspended = cronjobs@.filter(
                |c: CronJob| c.suspend matches Some(suspended) && suspended,
            ).map_values(|c: CronJob| health_laws::called(c.name));
            &&& r.1@.len() == health_laws::one(suspended.len() > 0) + health_laws::one(truncated)
            &&& suspended.len() == 1 ==> health_laws::notes(
                r.1@,
                Severity::Info,
                text::decimal(1) + " CronJob"@ + " is"@ + " suspended ("@ + suspended[0] + ")"@,
            )
            &&& suspended.len() > 1 ==> health_laws::notes(
                r.1@,
                Severity::Info,
                text::decimal(suspended.len()) + " CronJob"@ + "s are"@ + " suspended ("@
                    + health::names_shown(suspended) + ")"@,
            )
            &&& truncated ==> health_laws::notes(
                r.1@,
                Severity::Info,
                "only the first "@ + text::decimal(cronjobs@.len()) + " "@ + "CronJobs"@
                    + " were inspected"@,
            )
        }),
{
    broadcast use vstd::seq_lib::lemma_seq_concat_contains_all_elements;

    let stopped = |c: CronJob| c.suspend matches Some(suspended) && suspended;
    counted(cronjobs@, |c: CronJob| health::cronjob_suspended(c), stopped);
    counted(cronjobs@, |c: CronJob| !c.has_run, |c: CronJob| !c.has_run);
    labelled(
        cronjobs@,
        |c: CronJob| health::cronjob_suspended(c),
        stopped,
        |c: CronJob| health::name_of(c.name),
        |c: CronJob| health_laws::called(c.name),
    );
    let suspended = health::suspended_cronjobs(cronjobs@);
    health_laws::lemma_names_are_cut_short(suspended);
    let said = health::said(r.1@);
    let line = text::decimal(suspended.len()) + " CronJob"@ + (if suspended.len() == 1 {
        " is"@
    } else {
        "s are"@
    }) + " suspended ("@ + health::names_shown(suspended) + ")"@;
    when_said(suspended.len() > 0, Severity::Info, line);
    if suspended.len() > 0 {
        assert(said.contains((Severity::Info, line)));
        noted(r.1@, Severity::Info, line);
    }
    let cut_text = "only the first "@ + text::decimal(cronjobs@.len()) + " "@ + "CronJobs"@
        + " were inspected"@;
    when_said(truncated, Severity::Info, cut_text);
    if truncated {
        assert(said.contains((Severity::Info, cut_text)));
        noted(r.1@, Severity::Info, cut_text);
    }
    assert(said.len() == r.1@.len());
}

} // verus!
