//! The details pane: local kubeconfig facts, plus live cluster information once it arrives.
//!
//! This module words whatever [`InspectionView`] it is handed and nothing more — no requests,
//! no analysis, no knowledge of the client.

use vstd::prelude::*;

use crate::app::InspectionView;
use crate::kubeconfig::ContextEntry;
use crate::kubernetes::health::{
    CronJobStats, DaemonSetStats, JobStats, NodeSummary, Observation, PodStats, ReplicaStats,
    Severity,
};
use crate::kubernetes::inspection::{Availability, Inspection};
use crate::kubernetes::ConnectionState;
use crate::output;
use crate::output::{
    cronjobs_text, latency_text, phase_text, problems_placeholder, version_text,
};
use crate::paths;
use crate::paths::shorten_home;
use crate::text;
use crate::text::{join, number, pad, quoted, signed, str_or};
use crate::ui;
use crate::ui::{add_line, add_lines, Color, Line, Piece, Span, Style};

verus! {

/// Width of the label column inside the pane. Wide enough for `StatefulSets` plus a gap.
pub const LABEL_WIDTH: usize = 14;

// ---------------------------------------------------------------------------------------------
// Lines
// ---------------------------------------------------------------------------------------------
/// `label   value`, label dimmed.
pub open spec fn field_shown(label: Seq<char>, value: Seq<char>) -> Seq<Piece> {
    seq![
        (text::padded(label, LABEL_WIDTH as nat), ui::dim_style()),
        (value, ui::plain_style()),
    ]
}

/// A line of one piece.
pub open spec fn single(said: Seq<char>, style: Style) -> Seq<Piece> {
    seq![(said, style)]
}

/// `label   value`, label dimmed.
pub fn field(label: &str, value: &str) -> (r: Line)
    ensures
        r.content() == field_shown(label@, value@),
{
    let mut line = Line::of(Span::new(pad(label, LABEL_WIDTH).as_str(), Style::dim()));
    line.add(Span::new(value, Style::plain()));
    line
}

/// A section heading.
pub fn heading(text: &str) -> (r: Line)
    ensures
        r.content() == single(text@, ui::bold_style()),
{
    Line::of(Span::new(text, Style::bold()))
}

/// Dimmed free text.
pub fn dimmed(text: &str) -> (r: Line)
    ensures
        r.content() == single(text@, ui::dim_style()),
{
    Line::of(Span::new(text, Style::dim()))
}

/// A yellow caution line.
pub fn warn(text: &str) -> (r: Line)
    ensures
        r.content() == single(text@, ui::color_style(Color::Yellow)),
{
    Line::of(Span::new(text, Style::colored(Color::Yellow)))
}

/// The colour of a connection state.
pub open spec fn state_color(state: ConnectionState) -> Color {
    match state {
        ConnectionState::Connected => Color::Green,
        ConnectionState::Connecting => Color::Cyan,
        ConnectionState::PermissionDenied => Color::Yellow,
        ConnectionState::TimedOut => Color::Yellow,
        _ => Color::Red,
    }
}

/// `Status  Connected` with a colour that matches the outcome, and the detail where there is one.
pub open spec fn status_shown(state: ConnectionState, message: Option<String>) -> Seq<Piece> {
    let start = seq![
        (text::padded("Status"@, LABEL_WIDTH as nat), ui::dim_style()),
        (state.shown(), ui::color_style(state_color(state))),
    ];
    match message {
        Some(message) => start.push((" ("@ + message@ + ")"@, ui::dim_style())),
        None => start,
    }
}

/// `Status  Connected` with a colour that matches the outcome.
pub fn status_line(state: ConnectionState, message: &Option<String>) -> (r: Line)
    ensures
        r.content() == status_shown(state, *message),
{
    let color = match state {
        ConnectionState::Connected => Color::Green,
        ConnectionState::Connecting => Color::Cyan,
        ConnectionState::PermissionDenied => Color::Yellow,
        ConnectionState::TimedOut => Color::Yellow,
        _ => Color::Red,
    };
    let mut line = Line::of(Span::new(pad("Status", LABEL_WIDTH).as_str(), Style::dim()));
    line.add(Span::new(state.to_string().as_str(), Style::colored(color)));
    if let Some(message) = message {
        let mut detail = " (".to_owned();
        detail.append(message.as_str());
        detail.append(")");
        line.add(Span::new(detail.as_str(), Style::dim()));
    }
    line
}

/// The colour of a severity.
pub open spec fn severity_color(severity: Severity) -> Color {
    match severity {
        Severity::Problem => Color::Red,
        Severity::Warning => Color::Yellow,
        Severity::Info => Color::Blue,
    }
}

/// An observation, coloured by severity.
pub open spec fn observation_shown(observation: Observation) -> Seq<Piece> {
    seq![
        ("  "@, ui::plain_style()),
        (observation.text@, ui::color_style(severity_color(observation.severity))),
    ]
}

/// An observation, coloured by severity.
pub fn observation_line(observation: &Observation) -> (r: Line)
    ensures
        r.content() == observation_shown(*observation),
{
    let color = match observation.severity {
        Severity::Problem => Color::Red,
        Severity::Warning => Color::Yellow,
        Severity::Info => Color::Blue,
    };
    let mut line = Line::of(Span::new("  ", Style::plain()));
    line.add(Span::new(observation.text.as_str(), Style::colored(color)));
    line
}

// ---------------------------------------------------------------------------------------------
// Local facts
// ---------------------------------------------------------------------------------------------
/// The caution about a cluster that is not defined, given its quoted name.
pub open spec fn undefined_cluster(quoted: Seq<char>) -> Seq<char> {
    "cluster "@ + quoted + " is not defined in this file"@
}

/// The caution about a cluster that is not defined, given its quoted name.
pub fn undefined_cluster_text(quoted: &str) -> (r: String)
    ensures
        r@ == undefined_cluster(quoted@),
{
    let mut out = "cluster ".to_owned();
    out.append(quoted);
    out.append(" is not defined in this file");
    out
}

/// A line where a condition holds, none where it does not.
pub open spec fn line_if(condition: bool, line: Seq<Piece>) -> Seq<Seq<Piece>> {
    if condition {
        seq![line]
    } else {
        Seq::empty()
    }
}

/// Everything known of a context without touching the network.
pub open spec fn local_shown(entry: ContextEntry, home: Option<String>) -> Seq<Seq<Piece>> {
    seq![
        field_shown("Cluster"@, entry.cluster@),
        field_shown("Server"@, text::text_or(entry.server, "unknown"@)),
        field_shown("Namespace"@, text::text_or(entry.namespace, "-"@)),
        field_shown("User"@, text::text_or(entry.user, "-"@)),
        field_shown("Auth"@, entry.auth_method.shown()),
        field_shown("Source"@, paths::shortened(entry.source@, home)),
    ] + line_if(
        entry.cluster_missing,
        single(
            undefined_cluster(text::between_quotes(entry.cluster@)),
            ui::color_style(Color::Yellow),
        ),
    ) + line_if(
        entry.ambiguous,
        single(
            "another kubeconfig defines this context name too"@,
            ui::color_style(Color::Yellow),
        ),
    )
}

fn add_if(lines: &mut Vec<Line>, condition: bool, line: Line)
    ensures
        ui::contents(final(lines)@) == ui::contents(old(lines)@) + line_if(
            condition,
            line.content(),
        ),
{
    let ghost given = ui::contents(lines@);
    if condition {
        add_line(lines, line);
    } else {
        proof {
            assert(given + Seq::<Seq<Piece>>::empty() == given);
        }
    }
}

/// Everything known without touching the network.
pub fn local_facts(entry: &ContextEntry, home: &Option<String>) -> (r: Vec<Line>)
    ensures
        ui::contents(r@) == local_shown(*entry, *home),
{
    let mut lines: Vec<Line> = Vec::new();
    add_line(&mut lines, field("Cluster", entry.cluster.as_str()));
    add_line(&mut lines, field("Server", str_or(&entry.server, "unknown")));
    add_line(&mut lines, field("Namespace", str_or(&entry.namespace, "-")));
    add_line(&mut lines, field("User", str_or(&entry.user, "-")));
    // The authentication *method* only: kctx never shows credentials.
    add_line(&mut lines, field("Auth", entry.auth_method.to_string().as_str()));
    add_line(&mut lines, field("Source", shorten_home(entry.source.as_str(), home).as_str()));
    let missing = undefined_cluster_text(quoted(entry.cluster.as_str()).as_str());
    add_if(&mut lines, entry.cluster_missing, warn(missing.as_str()));
    add_if(
        &mut lines,
        entry.ambiguous,
        warn("another kubeconfig defines this context name too"),
    );
    lines
}

// ---------------------------------------------------------------------------------------------
// Live facts
// ---------------------------------------------------------------------------------------------
/// The lines about nodes.
pub open spec fn nodes_shown(section: Availability<NodeSummary>) -> Seq<Seq<Piece>> {
    match section {
        Availability::Read(nodes) => seq![
            field_shown(
                "Ready"@,
                text::decimal(nodes.ready as nat) + "/"@ + text::decimal(nodes.total as nat)
                    + " ("@ + text::decimal(nodes.control_plane as nat) + " control plane)"@,
            ),
        ] + line_if(
            nodes.versions@.len() > 0,
            field_shown("Versions"@, text::joined(text::texts(nodes.versions@), ", "@)),
        ) + line_if(
            nodes.platforms@.len() > 0,
            field_shown("Platforms"@, text::joined(text::texts(nodes.platforms@), ", "@)),
        ),
        _ => seq![single(section.described(), ui::dim_style())],
    }
}

fn node_lines(section: &Availability<NodeSummary>) -> (r: Vec<Line>)
    ensures
        ui::contents(r@) == nodes_shown(*section),
{
    let mut lines: Vec<Line> = Vec::new();
    match section {
        Availability::Read(nodes) => {
            let mut ready = number(nodes.ready);
            ready.append("/");
            ready.append(number(nodes.total).as_str());
            ready.append(" (");
            ready.append(number(nodes.control_plane).as_str());
            ready.append(" control plane)");
            add_line(&mut lines, field("Ready", ready.as_str()));
            let versions = join(&nodes.versions, ", ");
            add_if(&mut lines, nodes.versions.len() > 0, field("Versions", versions.as_str()));
            let platforms = join(&nodes.platforms, ", ");
            add_if(&mut lines, nodes.platforms.len() > 0, field("Platforms", platforms.as_str()));
        },
        _ => {
            add_line(&mut lines, dimmed(section.describe().as_str()));
        },
    }
    lines
}

/// The summary of pods.
pub open spec fn pods_shown(section: Availability<PodStats>) -> Seq<char> {
    match section {
        Availability::Read(pods) => text::decimal(pods.total as nat) + " total, "@ + text::decimal(
            pods.ready as nat,
        ) + " Ready"@,
        _ => section.described(),
    }
}

/// `n total, h/d quality`.
pub open spec fn ratio_shown(total: usize, healthy: i32, desired: i32, quality: Seq<char>) -> Seq<
    char,
> {
    text::decimal(total as nat) + " total, "@ + text::decimal_signed(healthy as int) + "/"@
        + text::decimal_signed(desired as int) + " "@ + quality
}

/// The summary of replica-shaped controllers.
pub open spec fn replicas_shown(section: Availability<ReplicaStats>, quality: Seq<char>) -> Seq<
    char,
> {
    match section {
        Availability::Read(stats) => ratio_shown(
            stats.total,
            stats.available,
            stats.desired,
            quality,
        ),
        _ => section.described(),
    }
}

/// The summary of DaemonSets.
pub open spec fn daemonsets_shown(section: Availability<DaemonSetStats>) -> Seq<char> {
    match section {
        Availability::Read(stats) => ratio_shown(stats.total, stats.ready, stats.desired, "ready"@),
        _ => section.described(),
    }
}

/// The summary of Jobs.
pub open spec fn jobs_shown(section: Availability<JobStats>) -> Seq<char> {
    match section {
        Availability::Read(stats) => text::decimal(stats.total as nat) + " total, "@
            + text::decimal(stats.failed as nat) + " failed"@,
        _ => section.described(),
    }
}

fn ratio_text(total: usize, healthy: i32, desired: i32, quality: &str) -> (r: String)
    ensures
        r@ == ratio_shown(total, healthy, desired, quality@),
{
    let mut out = number(total);
    out.append(" total, ");
    out.append(signed(healthy).as_str());
    out.append("/");
    out.append(signed(desired).as_str());
    out.append(" ");
    out.append(quality);
    out
}

fn pods_text(section: &Availability<PodStats>) -> (r: String)
    ensures
        r@ == pods_shown(*section),
{
    match section {
        Availability::Read(pods) => {
            let mut out = number(pods.total);
            out.append(" total, ");
            out.append(number(pods.ready).as_str());
            out.append(" Ready");
            out
        },
        _ => section.describe(),
    }
}

fn replicas_text(section: &Availability<ReplicaStats>, quality: &str) -> (r: String)
    ensures
        r@ == replicas_shown(*section, quality@),
{
    match section {
        Availability::Read(stats) => ratio_text(
            stats.total,
            stats.available,
            stats.desired,
            quality,
        ),
        _ => section.describe(),
    }
}

fn daemonsets_text(section: &Availability<DaemonSetStats>) -> (r: String)
    ensures
        r@ == daemonsets_shown(*section),
{
    match section {
        Availability::Read(stats) => ratio_text(stats.total, stats.ready, stats.desired, "ready"),
        _ => section.describe(),
    }
}

fn jobs_text(section: &Availability<JobStats>) -> (r: String)
    ensures
        r@ == jobs_shown(*section),
{
    match section {
        Availability::Read(stats) => {
            let mut out = number(stats.total);
            out.append(" total, ");
            out.append(number(stats.failed).as_str());
            out.append(" failed");
            out
        },
        _ => section.describe(),
    }
}

/// One line per workload kind, including the ones that could not be read.
pub open spec fn workloads_shown(snapshot: Inspection) -> Seq<Seq<Piece>> {
    let workloads = snapshot.workloads;
    seq![
        field_shown("Pods"@, pods_shown(workloads.pods)),
        field_shown("Deployments"@, replicas_shown(workloads.deployments, "available"@)),
        field_shown("StatefulSets"@, replicas_shown(workloads.statefulsets, "ready"@)),
        field_shown("DaemonSets"@, daemonsets_shown(workloads.daemonsets)),
        field_shown("Jobs"@, jobs_shown(workloads.jobs)),
        field_shown("CronJobs"@, output::cronjobs_shown(workloads.cronjobs)),
    ]
}

/// One line per workload kind, including the ones that could not be read.
pub fn workload_lines(snapshot: &Inspection) -> (r: Vec<Line>)
    ensures
        ui::contents(r@) == workloads_shown(*snapshot),
{
    let workloads = &snapshot.workloads;
    let mut lines: Vec<Line> = Vec::new();
    add_line(&mut lines, field("Pods", pods_text(&workloads.pods).as_str()));
    add_line(
        &mut lines,
        field("Deployments", replicas_text(&workloads.deployments, "available").as_str()),
    );
    add_line(
        &mut lines,
        field("StatefulSets", replicas_text(&workloads.statefulsets, "ready").as_str()),
    );
    add_line(&mut lines, field("DaemonSets", daemonsets_text(&workloads.daemonsets).as_str()));
    add_line(&mut lines, field("Jobs", jobs_text(&workloads.jobs).as_str()));
    add_line(&mut lines, field("CronJobs", cronjobs_text(&workloads.cronjobs).as_str()));
    lines
}

/// The lines about problems.
pub open spec fn problems_shown(snapshot: Inspection) -> Seq<Seq<Piece>> {
    if snapshot.observations@.len() == 0 {
        seq![single(output::placeholder(snapshot.state), ui::dim_style())]
    } else {
        Seq::new(
            snapshot.observations@.len(),
            |i: int| observation_shown(snapshot.observations@[i]),
        )
    }
}

fn problem_lines(snapshot: &Inspection) -> (r: Vec<Line>)
    ensures
        ui::contents(r@) == problems_shown(*snapshot),
{
    let mut lines: Vec<Line> = Vec::new();
    if snapshot.observations.len() == 0 {
        add_line(&mut lines, dimmed(problems_placeholder(snapshot)));
        return lines;
    }
    let ghost all = problems_shown(*snapshot);
    proof {
        assert(ui::contents(lines@) == all.take(0));
    }
    for i in 0..snapshot.observations.len()
        invariant
            snapshot.observations@.len() > 0,
            all == problems_shown(*snapshot),
            ui::contents(lines@) == all.take(i as int),
    {
        proof {
            assert(all.take(i + 1) == all.take(i as int) + seq![
                observation_shown(snapshot.observations@[i as int]),
            ]);
        }
        add_line(&mut lines, observation_line(&snapshot.observations[i]));
    }
    proof {
        assert(all.take(all.len() as int) == all);
    }
    lines
}

/// An empty line.
pub open spec fn blank() -> Seq<Piece> {
    Seq::empty()
}

/// Everything read from the cluster.
pub open spec fn live_shown(snapshot: Inspection) -> Seq<Seq<Piece>> {
    seq![
        status_shown(snapshot.state, snapshot.message),
        field_shown("Kubernetes"@, output::version_shown(snapshot)),
    ] + (match snapshot.latency {
        Some(latency) => seq![field_shown("Latency"@, output::latency_shown(latency))],
        None => Seq::empty(),
    }) + seq![blank(), single("Nodes"@, ui::bold_style())] + nodes_shown(snapshot.nodes) + seq![
        blank(),
        single("Namespace "@ + snapshot.namespace@, ui::bold_style()),
        field_shown("Phase"@, output::phase_shown(snapshot)),
    ] + workloads_shown(snapshot) + seq![blank(), single("Problems"@, ui::bold_style())]
        + problems_shown(snapshot)
}

fn add_latency(lines: &mut Vec<Line>, snapshot: &Inspection)
    ensures
        ui::contents(final(lines)@) == ui::contents(old(lines)@) + (match snapshot.latency {
            Some(latency) => seq![field_shown("Latency"@, output::latency_shown(latency))],
            None => Seq::empty(),
        }),
{
    let ghost given = ui::contents(lines@);
    match snapshot.latency {
        Some(latency) => {
            add_line(lines, field("Latency", latency_text(latency).as_str()));
        },
        None => {
            proof {
                assert(given + Seq::<Seq<Piece>>::empty() == given);
            }
        },
    }
}

/// Everything read from the cluster.
pub fn live_facts(snapshot: &Inspection) -> (r: Vec<Line>)
    ensures
        ui::contents(r@) == live_shown(*snapshot),
{
    let mut lines: Vec<Line> = Vec::new();
    add_line(&mut lines, status_line(snapshot.state, &snapshot.message));
    add_line(&mut lines, field("Kubernetes", version_text(snapshot).as_str()));
    add_latency(&mut lines, snapshot);
    add_line(&mut lines, Line::empty());
    add_line(&mut lines, heading("Nodes"));
    add_lines(&mut lines, node_lines(&snapshot.nodes));
    add_line(&mut lines, Line::empty());
    let mut title = "Namespace ".to_owned();
    title.append(snapshot.namespace.as_str());
    add_line(&mut lines, heading(title.as_str()));
    add_line(&mut lines, field("Phase", phase_text(snapshot).as_str()));
    add_lines(&mut lines, workload_lines(snapshot));
    add_line(&mut lines, Line::empty());
    add_line(&mut lines, heading("Problems"));
    add_lines(&mut lines, problem_lines(snapshot));
    lines
}

// ---------------------------------------------------------------------------------------------
// The pane
// ---------------------------------------------------------------------------------------------
/// What the details pane says: its title, its lines, the first line to show and the largest
/// useful one.
#[derive(Debug)]
pub struct Pane {
    /// Title in the border.
    pub title: String,
    /// All lines, shown or not.
    pub lines: Vec<Line>,
    /// First line to show.
    pub offset: u16,
    /// The largest offset that still shows content.
    pub overflow: u16,
}

/// The lines of the pane for a context.
pub open spec fn pane_shown(entry: ContextEntry, view: InspectionView, home: Option<String>) -> Seq<
    Seq<Piece>,
> {
    seq![single(entry.name@, ui::bold_style()), blank()] + local_shown(entry, home) + seq![blank()]
        + (match view {
        InspectionView::Idle => seq![single("press i to inspect the cluster"@, ui::dim_style())],
        InspectionView::Connecting => seq![status_shown(ConnectionState::Connecting, None)],
        InspectionView::Ready(snapshot) => live_shown(*snapshot),
    })
}

/// The largest offset at which a pane of a height, borders included, still shows content.
///
/// Wrapped lines count as one here, so the estimate errs towards allowing one screen too little.
pub open spec fn overflow_of(count: nat, height: u16) -> int {
    let visible = if height > 2 {
        height - 2
    } else {
        0
    };
    let counted = if count > u16::MAX {
        u16::MAX as int
    } else {
        count as int
    };
    if counted > visible {
        counted - visible
    } else {
        0
    }
}

/// The title of the pane, which says how far it is and can be scrolled.
pub open spec fn title_of(offset: int, overflow: int) -> Seq<char> {
    if overflow > 0 {
        " Details  "@ + text::decimal((offset + 1) as nat) + "/"@ + text::decimal(
            (overflow + 1) as nat,
        ) + " "@
    } else {
        " Details "@
    }
}

/// The lines of the pane for a context.
fn pane_lines(entry: &ContextEntry, view: InspectionView<'_>, home: &Option<String>) -> (r: Vec<Line>)
    ensures
        ui::contents(r@) == pane_shown(*entry, view, *home),
{
    let mut lines: Vec<Line> = Vec::new();
    add_line(&mut lines, heading(entry.name.as_str()));
    add_line(&mut lines, Line::empty());
    add_lines(&mut lines, local_facts(entry, home));
    add_line(&mut lines, Line::empty());
    match view {
        InspectionView::Idle => {
            add_line(&mut lines, dimmed("press i to inspect the cluster"));
        },
        InspectionView::Connecting => {
            add_line(&mut lines, status_line(ConnectionState::Connecting, &None));
        },
        InspectionView::Ready(snapshot) => {
            add_lines(&mut lines, live_facts(snapshot));
        },
    }
    lines
}

/// Word the details pane for `entry`, enriched with whatever `view` provides.
///
/// `scroll` is the first line asked for and `height` the height of the pane with its borders;
/// the overflow lets the caller clamp its scrolling without duplicating the layout maths.
pub fn pane(
    entry: Option<&ContextEntry>,
    view: InspectionView<'_>,
    scroll: u16,
    height: u16,
    home: &Option<String>,
) -> (r: Pane)
    ensures
        match entry {
            None => {
                &&& r.title@ == " Details "@
                &&& ui::contents(r.lines@) == seq![single("nothing selected"@, ui::dim_style())]
                &&& r.offset == 0
                &&& r.overflow == 0
            },
            Some(entry) => {
                let lines = pane_shown(*entry, view, *home);
                &&& ui::contents(r.lines@) == lines
                &&& r.overflow == overflow_of(lines.len(), height)
                &&& r.offset == (if scroll < r.overflow {
                    scroll
                } else {
                    r.overflow
                })
                &&& r.title@ == title_of(r.offset as int, r.overflow as int)
            },
        },
{
    let entry = match entry {
        Some(entry) => entry,
        None => {
            let mut lines: Vec<Line> = Vec::new();
            add_line(&mut lines, dimmed("nothing selected"));
            return Pane { title: " Details ".to_owned(), lines, offset: 0, overflow: 0 };
        },
    };
    let lines = pane_lines(entry, view, home);
    proof {
        assert(ui::contents(lines@).len() == lines@.len());
    }
    // Long snapshots (many problems) do not fit; report how far they can be scrolled.
    let visible: u16 = if height > 2 {
        height - 2
    } else {
        0
    };
    let count: usize = lines.len();
    let counted: u16 = if count > 0xffff {
        0xffff
    } else {
        count as u16
    };
    let overflow: u16 = if counted > visible {
        counted - visible
    } else {
        0
    };
    let offset: u16 = if scroll < overflow {
        scroll
    } else {
        overflow
    };
    let title: String = if overflow > 0 {
        let mut title = " Details  ".to_owned();
        title.append(number(offset as usize + 1).as_str());
        title.append("/");
        title.append(number(overflow as usize + 1).as_str());
        title.append(" ");
        title
    } else {
        " Details ".to_owned()
    };
    Pane { title, lines, offset, overflow }
}

/// Over-scrolling is clamped to the last screenful: a pane tall enough for one line never shows
/// none of its lines, however far it is scrolled.
pub proof fn lemma_scrolled_pane_is_not_empty(count: nat, height: u16, offset: int)
    requires
        0 < count <= u16::MAX,
        height > 2,
        0 <= offset <= overflow_of(count, height),
    ensures
        offset < count,
        overflow_of(count, height) > 0 ==> count - overflow_of(count, height) == height - 2,
{
}

} // verus!
