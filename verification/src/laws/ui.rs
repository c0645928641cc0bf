//! What holds of keys and of what is drawn.

use vstd::prelude::*;

use crate::app;
use crate::app::{AppState, InspectionView};
use crate::kubeconfig::ContextEntry;
use crate::kubernetes::health::Observation;
use crate::kubernetes::inspection::{Availability, Inspection};
use crate::kubernetes::ConnectionState;
use crate::laws::app as app_laws;
use crate::output;
use crate::paths;
use crate::text;
use crate::ui;
use crate::ui::contexts;
use crate::ui::contexts::ContextsView;
use crate::ui::inspection;
use crate::ui::inspection::Pane;
use crate::ui::{Action, Color, KeyCode, KeyEvent, Line, Piece, Span, Style};

verus! {

// ---------------------------------------------------------------------------------------------
// Keys
// ---------------------------------------------------------------------------------------------
/// Whether a state is another with the cursor moved by some lines, as far as the list goes.
pub open spec fn moves(before: AppState, by: int, after: AppState) -> bool {
    &&& after == (AppState { cursor: after.cursor, ..before })
    &&& before.visible@.len() == 0 ==> after.cursor == 0
    &&& before.visible@.len() > 0 ==> {
        &&& before.cursor + by < 0 ==> after.cursor == 0
        &&& 0 <= before.cursor + by < before.visible@.len() ==> after.cursor == before.cursor + by
        &&& before.cursor + by >= before.visible@.len() ==> after.cursor == before.visible@.len()
            - 1
    }
}

/// Arrows, `j` and `k` and Control with `n` and `p` move by one line, the page keys by ten, and
/// Home, End, `g` and `G` to the ends; none of them does anything else.
pub proof fn lemma_moving_keys(state: &mut AppState, key: KeyEvent, r: Action)
    requires
        old(state).wf(),
        call_ensures(ui::handle_key, (state, key), r),
    ensures
        ({
            let plain = !key.control;
            let command = plain && old(state).mode is Normal;
            let end = old(state).visible@.len() as int;
            &&& plain && key.code is Down ==> r is Continue && moves(*old(state), 1, *final(state))
            &&& plain && key.code is Up ==> r is Continue && moves(*old(state), -1, *final(state))
            &&& plain && key.code is PageDown ==> r is Continue && moves(
                *old(state),
                10,
                *final(state),
            )
            &&& plain && key.code is PageUp ==> r is Continue && moves(
                *old(state),
                -10,
                *final(state),
            )
            &&& plain && key.code is Home ==> r is Continue && moves(
                *old(state),
                -end,
                *final(state),
            )
            &&& plain && key.code is End ==> r is Continue && moves(
                *old(state),
                end,
                *final(state),
            )
            &&& command && key.code == KeyCode::Char('j') ==> r is Continue && moves(
                *old(state),
                1,
                *final(state),
            )
            &&& command && key.code == KeyCode::Char('k') ==> r is Continue && moves(
                *old(state),
                -1,
                *final(state),
            )
            &&& command && key.code == KeyCode::Char('g') ==> r is Continue && moves(
                *old(state),
                -end,
                *final(state),
            )
            &&& command && key.code == KeyCode::Char('G') ==> r is Continue && moves(
                *old(state),
                end,
                *final(state),
            )
            &&& key.control && key.code == KeyCode::Char('n') ==> r is Continue && moves(
                *old(state),
                1,
                *final(state),
            )
            &&& key.control && key.code == KeyCode::Char('p') ==> r is Continue && moves(
                *old(state),
                -1,
                *final(state),
            )
        }),
{
}

/// Enter selects. `q` and Control with `c` leave. Control with `d` and `u` scrolls the details by
/// five lines. None of them changes the state.
pub proof fn lemma_acting_keys(state: &mut AppState, key: KeyEvent, r: Action)
    requires
        old(state).wf(),
        call_ensures(ui::handle_key, (state, key), r),
    ensures
        !key.control && key.code is Enter ==> r is Select && *final(state) == *old(state),
        !key.control && key.code == KeyCode::Char('q') && old(state).mode is Normal ==> r is Cancel
            && *final(state) == *old(state),
        key.control && key.code == KeyCode::Char('c') ==> r is Cancel && *final(state)
            == *old(state),
        key.control && key.code == KeyCode::Char('d') ==> r == Action::ScrollDetails(5)
            && *final(state) == *old(state),
        key.control && key.code == KeyCode::Char('u') ==> r == Action::ScrollDetails(-5i32)
            && *final(state) == *old(state),
        key.code is Other ==> r is Continue && *final(state) == *old(state),
        r is Select ==> key.code is Enter,
        r is Cancel ==> key.code is Esc || key.code == KeyCode::Char('q') || key.code
            == KeyCode::Char('c'),
        r is ScrollDetails ==> key.control,
{
}

/// `i` opens and closes the details, `r` refreshes the selected context and `/` starts a search.
pub proof fn lemma_command_keys(state: &mut AppState, key: KeyEvent, r: Action)
    requires
        old(state).wf(),
        old(state).mode is Normal,
        !key.control,
        call_ensures(ui::handle_key, (state, key), r),
    ensures
        key.code == KeyCode::Char('i') ==> {
            &&& r is Continue
            &&& final(state).details_open == !old(state).details_open
            &&& *final(state) == (AppState {
                details_open: final(state).details_open,
                ..*old(state)
            })
        },
        key.code == KeyCode::Char('/') ==> {
            &&& r is Continue
            &&& final(state).mode is Search
            &&& *final(state) == (AppState { mode: final(state).mode, ..*old(state) })
        },
        key.code == KeyCode::Char('r') ==> {
            &&& r is Continue
            &&& *final(state) == (AppState {
                inspections: final(state).inspections,
                ..*old(state)
            })
            &&& old(state).selection() matches Some(entry) ==> app::dropped(
                old(state).inspections@,
                app::id_of(entry),
                final(state).inspections@,
            )
            &&& old(state).selection() is None ==> *final(state) == *old(state)
        },
{
}

/// Whether a key is a character that no command is bound to.
pub open spec fn unbound(code: KeyCode) -> bool {
    code matches KeyCode::Char(c) && c != 'q' && c != 'j' && c != 'k' && c != 'g' && c != 'G' && c
        != 'i' && c != 'r' && c != '/'
}

/// While searching, every character is searched for. Otherwise one that no command is bound to
/// starts a search with it. Backspace takes the last character back, and leaves the search when
/// nothing is left of it. Escape drops the search, and leaves where there is none.
pub proof fn lemma_searching_keys(state: &mut AppState, key: KeyEvent, r: Action)
    requires
        old(state).wf(),
        !key.control,
        call_ensures(ui::handle_key, (state, key), r),
    ensures
        ({
            let query = old(state).query@;
            let moded = AppState { mode: old(state).mode, ..*final(state) };
            &&& key.code is Char && (old(state).mode is Search || unbound(key.code)) ==> {
                &&& r is Continue
                &&& final(state).mode is Search
                &&& final(state).query@ == query.push(key.code->Char_0)
                &&& app_laws::searches(*old(state), query.push(key.code->Char_0), moded)
            }
            &&& key.code is Backspace && query.len() > 1 ==> {
                &&& r is Continue
                &&& final(state).mode == old(state).mode
                &&& app_laws::searches(*old(state), query.drop_last(), moded)
            }
            &&& key.code is Backspace && query.len() <= 1 ==> {
                &&& r is Continue
                &&& final(state).mode is Normal
                &&& app_laws::searches(*old(state), Seq::empty(), moded)
            }
            &&& key.code is Esc && query.len() > 0 ==> {
                &&& r is Continue
                &&& final(state).mode is Normal
                &&& app_laws::searches(*old(state), Seq::empty(), moded)
            }
            &&& key.code is Esc && query.len() == 0 ==> r is Cancel && *final(state) == *old(state)
        }),
{
    if key.code is Backspace && old(state).query@.len() <= 1 {
        if old(state).query@.len() == 0 {
            assert(old(state).query@ == Seq::<char>::empty());
        } else {
            assert(old(state).query@.drop_last() == Seq::<char>::empty());
        }
    }
}

// ---------------------------------------------------------------------------------------------
// The list of contexts
// ---------------------------------------------------------------------------------------------
/// Plain, bold, dim and coloured text.
pub proof fn lemma_styles(
    plain: Style,
    bold: Style,
    dim: Style,
    color: Color,
    colored: Style,
    bold_colored: Style,
)
    requires
        call_ensures(Style::plain, (), plain),
        call_ensures(Style::bold, (), bold),
        call_ensures(Style::dim, (), dim),
        call_ensures(Style::colored, (color,), colored),
        call_ensures(Style::bold_colored, (color,), bold_colored),
    ensures
        plain == (Style { color: None, bold: false, dim: false }),
        bold == (Style { color: None, bold: true, dim: false }),
        dim == (Style { color: None, bold: false, dim: true }),
        colored == (Style { color: Some(color), bold: false, dim: false }),
        bold_colored == (Style { color: Some(color), bold: true, dim: false }),
{
}

/// The text of a line is that of its pieces, one after the other.
pub proof fn lemma_line_text(a: Seq<Piece>, b: Seq<Piece>)
    ensures
        ui::line_text(a + b) == ui::line_text(a) + ui::line_text(b),
        a.len() == 1 ==> ui::line_text(a) == a[0].0,
        a.len() == 0 ==> ui::line_text(a).len() == 0,
    decreases b.len(),
{
    if b.len() > 0 {
        lemma_line_text(a, b.drop_last());
        assert((a + b).drop_last() == a + b.drop_last());
        assert(ui::line_text(a) + (ui::line_text(b.drop_last()) + b.last().0) == ui::line_text(a)
            + ui::line_text(b.drop_last()) + b.last().0);
    } else {
        assert(a + b == a);
        assert(ui::line_text(a) + ui::line_text(b) == ui::line_text(a));
    }
    if a.len() == 1 {
        reveal_with_fuel(ui::line_text, 2);
        assert(a.drop_last().len() == 0);
        assert(ui::line_text(a) == a[0].0);
    }
}

/// Whether a line is a single piece of text.
pub open spec fn says(line: Line, said: Seq<char>) -> bool {
    line.spans@.len() == 1 && line.spans@[0].text@ == said
}

/// The row of a context shows a star if it is active and an exclamation mark if it is flagged,
/// then its name, its cluster, its namespace or a dash, and its file below the home directory.
pub proof fn lemma_row(entry: &ContextEntry, flagged: bool, home: &Option<String>, r: Vec<Line>)
    requires
        call_ensures(contexts::row, (entry, flagged, home), r),
    ensures
        r@.len() == 5,
        r@[0].spans@.len() == 2,
        entry.active ==> r@[0].spans@[0].text@ == "*"@,
        !entry.active ==> r@[0].spans@[0].text@ == " "@,
        flagged ==> r@[0].spans@[1].text@ == "!"@,
        !flagged ==> r@[0].spans@[1].text@ == " "@,
        says(r@[1], entry.name@),
        says(r@[2], entry.cluster@),
        entry.namespace matches Some(namespace) ==> says(r@[3], namespace@),
        entry.namespace is None ==> says(r@[3], "-"@),
        says(r@[4], paths::shortened(entry.source@, *home)),
        r@[1].spans@[0].style.color == (if entry.active {
            Some(Color::Green)
        } else {
            None
        }),
        entry.active ==> r@[0].spans@[0].style.color == Some(Color::Green),
        flagged ==> r@[0].spans@[1].style.color == Some(Color::Red),
        r@[4].spans@[0].style.dim,
{
    let cells = contexts::cells(*entry, flagged, *home);
    let lines = ui::contents(r@);
    assert(lines.len() == cells.len());
    assert(lines[0] == r@[0].content() && lines[1] == r@[1].content() && lines[2]
        == r@[2].content() && lines[3] == r@[3].content() && lines[4] == r@[4].content());
    content_is(r@[0], cells[0]);
    content_is(r@[1], cells[1]);
    content_is(r@[2], cells[2]);
    content_is(r@[3], cells[3]);
    content_is(r@[4], cells[4]);
}

proof fn content_is(line: Line, pieces: Seq<Piece>)
    requires
        line.content() == pieces,
    ensures
        line.spans@.len() == pieces.len(),
        forall|i: int|
            0 <= i < pieces.len() ==> (#[trigger] line.spans@[i]).text@ == pieces[i].0
                && line.spans@[i].style == pieces[i].1,
{
    assert(line.content().len() == line.spans@.len());
    assert forall|i: int| 0 <= i < pieces.len() implies (#[trigger] line.spans@[i]).text@
        == pieces[i].0 && line.spans@[i].style == pieces[i].1 by {
        assert(line.content()[i] == line.spans@[i].content());
    }
}

/// The header counts the contexts listed, and all of them where some are left out.
pub proof fn lemma_header(state: &AppState, r: Line)
    requires
        call_ensures(contexts::header, (state,), r),
    ensures
        r.spans@.len() == 2,
        r.spans@[0].text@ == " Kubernetes Contexts "@,
        r.spans@[0].style.bold,
        r.spans@[1].style.dim,
        state.visible@.len() == state.catalog.entries@.len() ==> r.spans@[1].text@ == "("@
            + text::decimal(state.catalog.entries@.len()) + ") "@,
        state.visible@.len() != state.catalog.entries@.len() ==> r.spans@[1].text@ == "("@ + (
        text::decimal(state.visible@.len()) + "/"@ + text::decimal(state.catalog.entries@.len()))
            + ") "@,
{
    let shown = contexts::header_shown(*state);
    assert(r.content() == shown);
    assert(r.content()[0] == r.spans@[0].content() && r.content()[1] == r.spans@[1].content());
}

/// The search line shows the search while one is typed or in effect, else nothing.
pub proof fn lemma_search_line(state: &AppState, r: Line)
    requires
        call_ensures(contexts::search, (state,), r),
    ensures
        state.mode is Search ==> r.spans@.len() == 3 && r.spans@[0].text@ == " / "@
            && r.spans@[1].text@ == state.query@ && r.spans@[2].text@ == "▏"@,
        state.mode is Normal && state.query@.len() > 0 ==> r.spans@.len() == 2
            && r.spans@[0].text@ == " filter "@ && r.spans@[1].text@ == state.query@,
        state.mode is Normal && state.query@.len() == 0 ==> r.spans@.len() == 0,
{
    let shown = contexts::search_shown(*state);
    assert(r.content() == shown);
    assert(r.content().len() == r.spans@.len());
    if r.spans@.len() > 1 {
        assert(r.content()[0] == r.spans@[0].content());
        assert(r.content()[1] == r.spans@[1].content());
    }
    if r.spans@.len() > 2 {
        assert(r.content()[2] == r.spans@[2].content());
    }
}

/// A notice stands in for an empty list, and the cursor is drawn only in a list that is not.
pub proof fn lemma_empty_list(state: &AppState, notice: Option<Line>, cursor: Option<usize>)
    requires
        call_ensures(contexts::empty_notice, (state,), notice),
        call_ensures(contexts::highlighted, (state,), cursor),
    ensures
        notice is Some <==> state.visible@.len() == 0,
        notice matches Some(line) ==> says(line, "no context matches this search"@),
        cursor is None <==> state.visible@.len() == 0,
        cursor matches Some(at) ==> at == state.cursor,
{
    if let Some(line) = notice {
        assert(line.content().len() == line.spans@.len());
        assert(line.content()[0] == line.spans@[0].content());
    }
}

/// A context is flagged exactly if its inspection found a warning or a problem.
pub proof fn lemma_flags(snapshot: Option<&Inspection>, r: bool)
    requires
        call_ensures(contexts::flagged, (snapshot,), r),
    ensures
        snapshot is None ==> !r,
        snapshot matches Some(found) ==> (r <==> exists|i: int|
            0 <= i < found.observations@.len() && ((
            #[trigger] found.observations@[i]).severity is Warning
                || found.observations@[i].severity is Problem)),
{
}

/// Scrolling goes as far as asked for, within what does not fit; another context starts at the
/// top, and what does not fit is as it was last drawn.
pub proof fn lemma_scrolling(
    scrolled: &mut ContextsView,
    delta: i32,
    followed: &mut ContextsView,
    selected: Option<&ContextEntry>,
    drawn: &mut ContextsView,
    overflow: u16,
)
    requires
        call_ensures(ContextsView::scroll_details, (scrolled, delta), ()),
        call_ensures(ContextsView::follow, (followed, selected), ()),
        call_ensures(ContextsView::rendered, (drawn, overflow), ()),
    ensures
        ({
            let to = old(scrolled).details_scroll + delta;
            let limit = old(scrolled).details_overflow as int;
            &&& to < 0 ==> final(scrolled).details_scroll == 0
            &&& 0 <= to <= limit ==> final(scrolled).details_scroll == to
            &&& to > limit ==> final(scrolled).details_scroll == limit
            &&& final(scrolled).details_overflow == old(scrolled).details_overflow
            &&& final(scrolled).details_context == old(scrolled).details_context
        }),
        selected matches Some(entry) ==> final(followed).details_context@ == entry.name@,
        selected is None ==> final(followed).details_context@.len() == 0,
        final(followed).details_context@ == old(followed).details_context@ ==> final(followed).details_scroll == old(followed).details_scroll,
        final(followed).details_context@ != old(followed).details_context@ ==> final(followed).details_scroll == 0,
        final(followed).details_overflow == old(followed).details_overflow,
        final(drawn).details_overflow == overflow,
        final(drawn).details_scroll == old(drawn).details_scroll,
        final(drawn).details_context == old(drawn).details_context,
{
}

/// The columns of the list.
pub proof fn lemma_titles(r: Vec<String>)
    requires
        call_ensures(contexts::titles, (), r),
    ensures
        r@.len() == 5,
        r@[0]@ == ""@,
        r@[1]@ == "CONTEXT"@,
        r@[2]@ == "CLUSTER"@,
        r@[3]@ == "NAMESPACE"@,
        r@[4]@ == "KUBECONFIG"@,
{
    let titles = text::texts(r@);
    assert(titles.len() == r@.len());
    assert(titles[0] == r@[0]@ && titles[1] == r@[1]@ && titles[2] == r@[2]@ && titles[3]
        == r@[3]@ && titles[4] == r@[4]@);
}

// ---------------------------------------------------------------------------------------------
// The details
// ---------------------------------------------------------------------------------------------
/// Whether a line shows a value behind a label that is padded to fourteen characters.
pub open spec fn labels(line: Seq<Piece>, label: Seq<char>, value: Seq<char>) -> bool {
    &&& line.len() == 2
    &&& line[0] == (text::padded(label, 14), Style { color: None, bold: false, dim: true })
    &&& line[1] == (value, Style { color: None, bold: false, dim: false })
}

/// Whether a line is a single piece.
pub open spec fn is_alone(line: Seq<Piece>, said: Seq<char>) -> bool {
    line.len() == 1 && line[0].0 == said
}

/// Local facts are those of the context itself: cluster, server, namespace, user, method and file,
/// with a warning where its cluster is missing and one where another file has its name.
pub proof fn lemma_local_facts(entry: &ContextEntry, home: &Option<String>, r: Vec<Line>)
    requires
        call_ensures(inspection::local_facts, (entry, home), r),
    ensures
        ({
            let lines = ui::contents(r@);
            let warned: int = if entry.cluster_missing {
                1
            } else {
                0
            };
            let twice: int = if entry.ambiguous {
                1
            } else {
                0
            };
            &&& lines.len() == 6 + warned + twice
            &&& labels(lines[0], "Cluster"@, entry.cluster@)
            &&& entry.server matches Some(server) ==> labels(lines[1], "Server"@, server@)
            &&& entry.server is None ==> labels(lines[1], "Server"@, "unknown"@)
            &&& entry.namespace matches Some(namespace) ==> labels(
                lines[2],
                "Namespace"@,
                namespace@,
            )
            &&& entry.namespace is None ==> labels(lines[2], "Namespace"@, "-"@)
            &&& entry.user matches Some(user) ==> labels(lines[3], "User"@, user@)
            &&& entry.user is None ==> labels(lines[3], "User"@, "-"@)
            &&& labels(lines[4], "Auth"@, entry.auth_method.shown())
            &&& labels(lines[5], "Source"@, paths::shortened(entry.source@, *home))
            &&& entry.cluster_missing ==> is_alone(
                lines[6],
                "cluster "@ + text::between_quotes(entry.cluster@)
                    + " is not defined in this file"@,
            )
            &&& entry.ambiguous ==> is_alone(
                lines.last(),
                "another kubeconfig defines this context name too"@,
            )
        }),
{
}

/// Each connection state has its colour: green when connected, cyan while connecting, yellow when
/// refused or timed out, red otherwise; the message stands behind it in brackets.
pub proof fn lemma_status_line(state: ConnectionState, message: &Option<String>, r: Line)
    requires
        call_ensures(inspection::status_line, (state, message), r),
    ensures
        ({
            let line = r.content();
            &&& line.len() == (if message is Some {
                3int
            } else {
                2
            })
            &&& line[0].0 == text::padded("Status"@, 14)
            &&& line[1].0 == state.shown()
            &&& line[1].1.color == Some(Color::Green) <==> state is Connected
            &&& line[1].1.color == Some(Color::Cyan) <==> state is Connecting
            &&& line[1].1.color == Some(Color::Yellow) <==> state is PermissionDenied
                || state is TimedOut
            &&& line[1].1.color == Some(Color::Red) <==> state is Unavailable
                || state is AuthenticationFailed || state is TlsError || state is ApiError
            &&& message matches Some(message) ==> line[2].0 == " ("@ + message@ + ")"@
        }),
{
}

/// What was found is shown as it is said, problems in red, warnings in yellow, notes in blue.
pub proof fn lemma_observation_line(observation: &Observation, r: Line)
    requires
        call_ensures(inspection::observation_line, (observation,), r),
    ensures
        r.content().len() == 2,
        r.content()[0].0 == "  "@,
        r.content()[1].0 == observation.text@,
        r.content()[1].1.color == Some(Color::Red) <==> observation.severity is Problem,
        r.content()[1].1.color == Some(Color::Yellow) <==> observation.severity is Warning,
        r.content()[1].1.color == Some(Color::Blue) <==> observation.severity is Info,
{
}

/// The lines on workloads give, where they were read, the figures of pods, deployments,
/// StatefulSets, DaemonSets, jobs and CronJobs.
pub proof fn lemma_workload_lines(snapshot: &Inspection, r: Vec<Line>)
    requires
        call_ensures(inspection::workload_lines, (snapshot,), r),
    ensures
        ({
            let lines = ui::contents(r@);
            let w = snapshot.workloads;
            &&& lines.len() == 6
            &&& w.pods matches Availability::Read(s) ==> labels(
                lines[0],
                "Pods"@,
                text::decimal(s.total as nat) + " total, "@ + text::decimal(s.ready as nat)
                    + " Ready"@,
            )
            &&& w.deployments matches Availability::Read(s) ==> labels(
                lines[1],
                "Deployments"@,
                text::decimal(s.total as nat) + " total, "@ + text::decimal_signed(
                    s.available as int,
                ) + "/"@ + text::decimal_signed(s.desired as int) + " "@ + "available"@,
            )
            &&& w.statefulsets matches Availability::Read(s) ==> labels(
                lines[2],
                "StatefulSets"@,
                text::decimal(s.total as nat) + " total, "@ + text::decimal_signed(
                    s.available as int,
                ) + "/"@ + text::decimal_signed(s.desired as int) + " "@ + "ready"@,
            )
            &&& w.daemonsets matches Availability::Read(s) ==> labels(
                lines[3],
                "DaemonSets"@,
                text::decimal(s.total as nat) + " total, "@ + text::decimal_signed(s.ready as int)
                    + "/"@ + text::decimal_signed(s.desired as int) + " "@ + "ready"@,
            )
            &&& w.jobs matches Availability::Read(s) ==> labels(
                lines[4],
                "Jobs"@,
                text::decimal(s.total as nat) + " total, "@ + text::decimal(s.failed as nat)
                    + " failed"@,
            )
            &&& w.cronjobs matches Availability::Read(s) ==> labels(
                lines[5],
                "CronJobs"@,
                text::decimal(s.total as nat) + " total, "@ + text::decimal(s.suspended as nat)
                    + " suspended"@,
            )
            &&& !(w.pods is Read) ==> labels(lines[0], "Pods"@, w.pods.described())
            &&& !(w.deployments is Read) ==> labels(
                lines[1],
                "Deployments"@,
                w.deployments.described(),
            )
            &&& !(w.statefulsets is Read) ==> labels(
                lines[2],
                "StatefulSets"@,
                w.statefulsets.described(),
            )
            &&& !(w.daemonsets is Read) ==> labels(lines[3], "DaemonSets"@, w.daemonsets.described())
            &&& !(w.jobs is Read) ==> labels(lines[4], "Jobs"@, w.jobs.described())
            &&& !(w.cronjobs is Read) ==> labels(lines[5], "CronJobs"@, w.cronjobs.described())
        }),
{
}

/// The details of nothing say so. Those of a context are its name, its local facts and what is
/// known of its cluster; they are scrolled no further than until their last line shows.
pub proof fn lemma_pane(
    entry: Option<&ContextEntry>,
    view: InspectionView,
    scroll: u16,
    height: u16,
    home: &Option<String>,
    r: Pane,
)
    requires
        call_ensures(inspection::pane, (entry, view, scroll, height, home), r),
        height > 2,
    ensures
        entry is None ==> r.offset == 0 && r.overflow == 0 && r.lines@.len() == 1,
        entry is Some && r.lines@.len() <= u16::MAX ==> {
            &&& r.lines@.len() <= height - 2 ==> r.overflow == 0
            &&& r.lines@.len() > height - 2 ==> r.overflow == r.lines@.len() - (height - 2)
            &&& r.offset <= r.overflow && r.offset <= scroll
            &&& r.offset == r.overflow || r.offset == scroll
        },
        entry matches Some(entry) ==> is_alone(ui::contents(r.lines@)[0], entry.name@),
        r.overflow == 0 ==> r.title@ == " Details "@,
        r.overflow > 0 ==> r.title@ == " Details  "@ + text::decimal((r.offset + 1) as nat) + "/"@
            + text::decimal((r.overflow + 1) as nat) + " "@,
{
    assert(ui::contents(r.lines@).len() == r.lines@.len());
}

/// What the details show below the local facts depends on the view alone: an invitation, the state
/// of connecting, or the inspection.
pub proof fn lemma_pane_shows_the_view(
    entry: &ContextEntry,
    view: InspectionView,
    scroll: u16,
    height: u16,
    home: &Option<String>,
    r: Pane,
    local: Vec<Line>,
    snapshot: &Inspection,
    live: Vec<Line>,
)
    requires
        call_ensures(inspection::pane, (Some(entry), view, scroll, height, home), r),
        call_ensures(inspection::local_facts, (entry, home), local),
        call_ensures(inspection::live_facts, (snapshot,), live),
    ensures
        ({
            let lines = ui::contents(r.lines@);
            let front = local@.len() as int + 3;
            &&& lines.subrange(2, 2 + local@.len() as int) == ui::contents(local@)
            &&& view is Idle ==> lines.len() == front + 1 && is_alone(
                lines[front],
                "press i to inspect the cluster"@,
            )
            &&& view is Connecting ==> lines.len() == front + 1 && lines[front][1].0
                == "Connecting..."@
            &&& view == InspectionView::Ready(snapshot) ==> lines.skip(front) == ui::contents(live@)
        }),
{
    let lines = ui::contents(r.lines@);
    let here = inspection::local_shown(*entry, *home);
    assert(ui::contents(local@) == here);
    assert(here.len() == local@.len());
    assert(lines.subrange(2, 2 + local@.len() as int) == here);
    if view == InspectionView::Ready(snapshot) {
        assert(lines.skip(local@.len() as int + 3) == inspection::live_shown(*snapshot));
    }
}

/// An inspection is shown with its state first, the version next, and the latency where it was
/// measured; at the end come the problems, each on a line, or a line that there is none.
pub proof fn lemma_live_facts(snapshot: &Inspection, r: Vec<Line>, workloads: Vec<Line>)
    requires
        call_ensures(inspection::live_facts, (snapshot,), r),
        call_ensures(inspection::workload_lines, (snapshot,), workloads),
    ensures
        ({
            let lines = ui::contents(r@);
            let found = snapshot.observations@.len() as int;
            let last: int = if found == 0 {
                1
            } else {
                found
            };
            &&& lines.len() > last
            &&& lines[0][1].0 == snapshot.state.shown()
            &&& labels(lines[1], "Kubernetes"@, output::version_shown(*snapshot))
            &&& snapshot.latency matches Some(latency) ==> labels(
                lines[2],
                "Latency"@,
                text::decimal(latency@ / 1_000_000) + " ms"@,
            )
            &&& forall|i: int|
                0 <= i < found ==> lines[lines.len() - found + i][1].0 == (
                #[trigger] snapshot.observations@[i]).text@
            &&& found == 0 && snapshot.state is Connected ==> is_alone(
                lines.last(),
                "none observed"@,
            )
            &&& found == 0 && !(snapshot.state is Connected) ==> is_alone(
                lines.last(),
                "not determined: nothing could be read"@,
            )
            &&& lines.subrange(lines.len() - last - 2 - 6, lines.len() - last - 2) == ui::contents(
                workloads@,
            )
            &&& labels(lines[lines.len() - last - 9], "Phase"@, output::phase_shown(*snapshot))
            &&& is_alone(lines[lines.len() - last - 10], "Namespace "@ + snapshot.namespace@)
        }),
{
    let lines = ui::contents(r@);
    let problems = inspection::problems_shown(*snapshot);
    let found = snapshot.observations@.len() as int;
    let back = problems.len() as int;
    assert(lines == inspection::live_shown(*snapshot));
    assert(lines.skip(lines.len() - back) == problems);
    assert forall|i: int| 0 <= i < found implies lines[lines.len() - found + i][1].0 == (
    #[trigger] snapshot.observations@[i]).text@ by {
        assert(lines.skip(lines.len() - back)[i] == problems[i]);
    }
    assert(lines.last() == problems.last());
    let shown = inspection::workloads_shown(*snapshot);
    assert(ui::contents(workloads@) == shown);
    assert(lines.subrange(lines.len() - back - 2 - 6, lines.len() - back - 2) == shown);
}

/// A field is a label and a value; headings are bold, remarks dim, warnings yellow.
pub proof fn lemma_small_lines(
    label: &str,
    value: &str,
    field: Line,
    heading: Line,
    dimmed: Line,
    warning: Line,
)
    requires
        call_ensures(inspection::field, (label, value), field),
        call_ensures(inspection::heading, (value,), heading),
        call_ensures(inspection::dimmed, (value,), dimmed),
        call_ensures(inspection::warn, (value,), warning),
    ensures
        labels(field.content(), label@, value@),
        is_alone(heading.content(), value@) && heading.content()[0].1.bold,
        is_alone(dimmed.content(), value@) && dimmed.content()[0].1.dim,
        is_alone(warning.content(), value@) && warning.content()[0].1.color == Some(Color::Yellow),
{
}

/// Lines are put together of pieces, in order, and their text is that of the pieces.
pub proof fn lemma_building_lines(
    said: &str,
    style: Style,
    span: Span,
    none: Line,
    one: Line,
    grown: &mut Line,
    line: &Line,
    shown: String,
)
    requires
        call_ensures(Span::new, (said, style), span),
        call_ensures(Line::empty, (), none),
        call_ensures(Line::of, (span,), one),
        call_ensures(Line::add, (grown, span), ()),
        call_ensures(Line::text, (line,), shown),
    ensures
        span.text@ == said@,
        span.style == style,
        none.spans@.len() == 0,
        is_alone(one.content(), said@),
        final(grown).content() == old(grown).content().push((said@, style)),
        shown@ == ui::line_text(line.content()),
{
    assert(span.content() == (said@, style));
    assert(none.content().len() == none.spans@.len());
}

/// The hints name the keys of the mode, and in the details those for them.
pub proof fn lemma_hints(state: &AppState, r: Line)
    requires
        call_ensures(contexts::hints, (state,), r),
    ensures
        state.mode is Search ==> is_alone(
            r.content(),
            " type to filter   ↑/↓ move   Enter select   Esc clear   Ctrl-C quit "@,
        ),
        state.mode is Normal && state.details_open ==> is_alone(
            r.content(),
            " ↑/↓ jk move   / search   Enter select   i close   r refresh   ^D/^U scroll   q quit "@,
        ),
        state.mode is Normal && !state.details_open ==> is_alone(
            r.content(),
            " ↑/↓ jk move   / search   Enter select   i inspect   q quit "@,
        ),
{
}

/// The nodes of an inspection are shown under their heading: how many are ready, of how many, and
/// how many lead, then the versions and platforms where there are any, or why they were not read.
pub proof fn lemma_live_nodes(snapshot: &Inspection, r: Vec<Line>)
    requires
        call_ensures(inspection::live_facts, (snapshot,), r),
    ensures
        ({
            let lines = ui::contents(r@);
            let at: int = if snapshot.latency is Some {
                3
            } else {
                2
            };
            &&& lines[at].len() == 0
            &&& is_alone(lines[at + 1], "Nodes"@)
            &&& !(snapshot.nodes is Read) ==> is_alone(lines[at + 2], snapshot.nodes.described())
            &&& snapshot.nodes matches Availability::Read(nodes) ==> {
                &&& labels(
                    lines[at + 2],
                    "Ready"@,
                    text::decimal(nodes.ready as nat) + "/"@ + text::decimal(nodes.total as nat)
                        + " ("@ + text::decimal(nodes.control_plane as nat) + " control plane)"@,
                )
                &&& nodes.versions@.len() > 0 ==> labels(
                    lines[at + 3],
                    "Versions"@,
                    text::joined(text::texts(nodes.versions@), ", "@),
                )
                &&& nodes.versions@.len() > 0 && nodes.platforms@.len() > 0 ==> labels(
                    lines[at + 4],
                    "Platforms"@,
                    text::joined(text::texts(nodes.platforms@), ", "@),
                )
                &&& nodes.versions@.len() == 0 && nodes.platforms@.len() > 0 ==> labels(
                    lines[at + 3],
                    "Platforms"@,
                    text::joined(text::texts(nodes.platforms@), ", "@),
                )
            }
        }),
{
    let lines = ui::contents(r@);
    let nodes = inspection::nodes_shown(snapshot.nodes);
    let at: int = if snapshot.latency is Some {
        3
    } else {
        2
    };
    assert(lines == inspection::live_shown(*snapshot));
    assert(lines.subrange(at + 2, at + 2 + nodes.len()) == nodes);
    assert forall|i: int| 0 <= i < nodes.len() implies lines[at + 2 + i] == #[trigger] nodes[i] by {
        assert(lines.subrange(at + 2, at + 2 + nodes.len())[i] == nodes[i]);
    }
    assert(lines[at + 2 + 0] == nodes[0]);
    if nodes.len() > 1 {
        assert(lines[at + 2 + 1] == nodes[1]);
    }
    if nodes.len() > 2 {
        assert(lines[at + 2 + 2] == nodes[2]);
    }
}

} // verus!
