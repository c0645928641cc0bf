//! The context list: what its header, rows, search line and hints say, and how far the details
//! pane is scrolled.

use vstd::prelude::*;

use crate::app::{AppState, InputMode};
use crate::kubeconfig::ContextEntry;
use crate::kubernetes::health::Severity;
use crate::kubernetes::inspection::Inspection;
use crate::paths;
use crate::paths::shorten_home;
use crate::text;
use crate::text::{number, same_text, str_or};
use crate::ui;
use crate::ui::{Color, Line, Piece, Span, Style};

verus! {

// ---------------------------------------------------------------------------------------------
// Scrolling
// ---------------------------------------------------------------------------------------------
/// Persistent view state: scroll offsets belong to the view, not to [`AppState`].
#[derive(Debug)]
pub struct ContextsView {
    /// First visible line of the details pane.
    pub details_scroll: u16,
    /// Largest useful scroll offset, as reported by the last render.
    pub details_overflow: u16,
    /// Context the pane last rendered, so scrolling resets when the selection moves.
    pub details_context: String,
}

impl Default for ContextsView {
    fn default() -> (r: Self)
        ensures
            r.details_scroll == 0,
            r.details_overflow == 0,
            r.details_context@.len() == 0,
    {
        ContextsView { details_scroll: 0, details_overflow: 0, details_context: String::new() }
    }
}

impl ContextsView {
    /// Note which context the pane is about to render: scrolling starts over when it is another
    /// one than last time.
    pub fn follow(&mut self, selected: Option<&ContextEntry>)
        ensures
            final(self).details_context@ == selected_name(selected),
            final(self).details_overflow == old(self).details_overflow,
            final(self).details_scroll == (if selected_name(selected)
                == old(self).details_context@ {
                old(self).details_scroll
            } else {
                0
            }),
    {
        let name = match selected {
            Some(entry) => entry.name.clone(),
            None => String::new(),
        };
        proof {
            assert(name@ == selected_name(selected));
        }
        if !same_text(name.as_str(), self.details_context.as_str()) {
            self.details_context = name;
            self.details_scroll = 0;
        }
    }

    /// Note how far the last render said the pane can be scrolled.
    pub fn rendered(&mut self, overflow: u16)
        ensures
            *final(self) == (ContextsView { details_overflow: overflow, ..*old(self) }),
    {
        self.details_overflow = overflow;
    }

    /// Scroll the details pane, clamped to what the last render said was useful.
    pub fn scroll_details(&mut self, delta: i32)
        ensures
            *final(self) == (ContextsView {
                details_scroll: final(self).details_scroll,
                ..*old(self)
            }),
            final(self).details_scroll == within(
                old(self).details_scroll + delta,
                old(self).details_overflow as int,
            ),
    {
        let target: i64 = self.details_scroll as i64 + delta as i64;
        self.details_scroll = if target < 0 {
            0
        } else if target > self.details_overflow as i64 {
            self.details_overflow
        } else {
            target as u16
        };
    }
}

/// The name of the selected context; empty where none is.
pub open spec fn selected_name(selected: Option<&ContextEntry>) -> Seq<char> {
    match selected {
        Some(entry) => entry.name@,
        None => Seq::empty(),
    }
}

/// A number brought between zero and a limit.
pub open spec fn within(n: int, limit: int) -> int {
    if n < 0 {
        0
    } else if n > limit {
        limit
    } else {
        n
    }
}

// ---------------------------------------------------------------------------------------------
// Header, search line and hints
// ---------------------------------------------------------------------------------------------
/// How many contexts are shown, of how many where some are not.
pub open spec fn counter(shown: nat, total: nat) -> Seq<char> {
    if shown == total {
        text::decimal(total)
    } else {
        text::decimal(shown) + "/"@ + text::decimal(total)
    }
}

/// The title line.
pub open spec fn header_shown(state: AppState) -> Seq<Piece> {
    seq![
        (" Kubernetes Contexts "@, ui::bold_style()),
        (
            "("@ + counter(state.visible@.len(), state.catalog.entries@.len()) + ") "@,
            ui::dim_style(),
        ),
    ]
}

/// Title line with the match count.
pub fn header(state: &AppState) -> (r: Line)
    ensures
        r.content() == header_shown(*state),
{
    let total: usize = state.catalog.entries.len();
    let shown: usize = state.visible_len();
    let mut count = number(shown);
    if shown != total {
        count.append("/");
        count.append(number(total).as_str());
    }
    let mut label = "(".to_owned();
    label.append(count.as_str());
    label.append(") ");
    let mut line = Line::of(Span::new(" Kubernetes Contexts ", Style::bold()));
    line.add(Span::new(label.as_str(), Style::dim()));
    line
}

/// The search line.
pub open spec fn search_shown(state: AppState) -> Seq<Piece> {
    match state.mode {
        InputMode::Search => seq![
            (" / "@, ui::bold_color_style(Color::Cyan)),
            (state.query@, ui::plain_style()),
            ("▏"@, ui::color_style(Color::Cyan)),
        ],
        InputMode::Normal => if state.query@.len() > 0 {
            seq![(" filter "@, ui::dim_style()), (state.query@, ui::plain_style())]
        } else {
            Seq::empty()
        },
    }
}

/// Search line, shown as a prompt while typing.
pub fn search(state: &AppState) -> (r: Line)
    ensures
        r.content() == search_shown(*state),
{
    match state.mode() {
        InputMode::Search => {
            let mut line = Line::of(Span::new(" / ", Style::bold_colored(Color::Cyan)));
            line.add(Span::new(state.query(), Style::plain()));
            line.add(Span::new("▏", Style::colored(Color::Cyan)));
            line
        },
        InputMode::Normal => {
            if state.query().is_empty() {
                return Line::empty();
            }
            let mut line = Line::of(Span::new(" filter ", Style::dim()));
            line.add(Span::new(state.query(), Style::plain()));
            line
        },
    }
}

/// The key hints for a mode.
pub open spec fn hints_shown(mode: InputMode, details_open: bool) -> Seq<char> {
    match (mode, details_open) {
        (InputMode::Search, _) =>
            " type to filter   ↑/↓ move   Enter select   Esc clear   Ctrl-C quit "@,
        (InputMode::Normal, true) =>
            " ↑/↓ jk move   / search   Enter select   i close   r refresh   ^D/^U scroll   q quit "@,
        (InputMode::Normal, false) =>
            " ↑/↓ jk move   / search   Enter select   i inspect   q quit "@,
    }
}

/// Key hints, adapted to the current mode.
pub fn hints(state: &AppState) -> (r: Line)
    ensures
        r.content() == seq![(hints_shown(state.mode, state.details_open), ui::dim_style())],
{
    let hint: &str = match (state.mode(), state.details_open) {
        (InputMode::Search, _) =>
            " type to filter   ↑/↓ move   Enter select   Esc clear   Ctrl-C quit ",
        (InputMode::Normal, true) =>
            " ↑/↓ jk move   / search   Enter select   i close   r refresh   ^D/^U scroll   q quit ",
        (InputMode::Normal, false) =>
            " ↑/↓ jk move   / search   Enter select   i inspect   q quit ",
    };
    Line::of(Span::new(hint, Style::dim()))
}

// ---------------------------------------------------------------------------------------------
// Rows
// ---------------------------------------------------------------------------------------------
/// The titles of the columns; the marker column has none.
pub fn titles() -> (r: Vec<String>)
    ensures
        text::texts(r@) == seq![""@, "CONTEXT"@, "CLUSTER"@, "NAMESPACE"@, "KUBECONFIG"@],
{
    let mut titles: Vec<String> = Vec::new();
    titles.push("".to_owned());
    titles.push("CONTEXT".to_owned());
    titles.push("CLUSTER".to_owned());
    titles.push("NAMESPACE".to_owned());
    titles.push("KUBECONFIG".to_owned());
    titles
}

/// What is said in place of rows where no context is visible.
pub fn empty_notice(state: &AppState) -> (r: Option<Line>)
    ensures
        match r {
            Some(line) => state.visible@.len() == 0 && line.content() == seq![
                ("no context matches this search"@, ui::dim_style()),
            ],
            None => state.visible@.len() > 0,
        },
{
    if state.visible_len() == 0 {
        Some(Line::of(Span::new("no context matches this search", Style::dim())))
    } else {
        None
    }
}

/// The row to highlight: the one under the cursor, where there are any rows.
pub fn highlighted(state: &AppState) -> (r: Option<usize>)
    ensures
        r == (if state.visible@.len() == 0 {
            None
        } else {
            Some(state.cursor)
        }),
{
    if state.visible_len() == 0 {
        None
    } else {
        Some(state.cursor())
    }
}

/// Whether a context is marked as troubled: once it has been inspected, trouble surfaces in the
/// list itself.
pub fn flagged(snapshot: Option<&Inspection>) -> (r: bool)
    ensures
        r == (snapshot is Some && exists|i: int|
            0 <= i < snapshot->0.observations@.len() && (
            #[trigger] snapshot->0.observations@[i]).severity != Severity::Info),
{
    match snapshot {
        Some(snapshot) => snapshot.has_problems(),
        None => false,
    }
}

/// The cells of a row: marker, name, cluster, namespace and kubeconfig.
///
/// The marker column is two characters wide: `*` for the effective context and `!` when the
/// last inspection of it observed a warning or a problem.
pub open spec fn cells(entry: ContextEntry, flagged: bool, home: Option<String>) -> Seq<
    Seq<Piece>,
> {
    seq![
        seq![
            if entry.active {
                ("*"@, ui::bold_color_style(Color::Green))
            } else {
                (" "@, ui::plain_style())
            },
            if flagged {
                ("!"@, ui::bold_color_style(Color::Red))
            } else {
                (" "@, ui::plain_style())
            },
        ],
        seq![
            (
                entry.name@,
                if entry.active {
                    ui::color_style(Color::Green)
                } else {
                    ui::plain_style()
                },
            ),
        ],
        seq![(entry.cluster@, ui::plain_style())],
        seq![(text::text_or(entry.namespace, "-"@), ui::plain_style())],
        seq![(paths::shortened(entry.source@, home), ui::dim_style())],
    ]
}

/// One table row for a context.
pub fn row(entry: &ContextEntry, flagged: bool, home: &Option<String>) -> (r: Vec<Line>)
    ensures
        ui::contents(r@) == cells(*entry, flagged, *home),
{
    let mut marker = if entry.active {
        Line::of(Span::new("*", Style::bold_colored(Color::Green)))
    } else {
        Line::of(Span::new(" ", Style::plain()))
    };
    marker.add(
        if flagged {
            Span::new("!", Style::bold_colored(Color::Red))
        } else {
            Span::new(" ", Style::plain())
        },
    );
    let name_style = if entry.active {
        Style::colored(Color::Green)
    } else {
        Style::plain()
    };
    let name = Line::of(Span::new(entry.name.as_str(), name_style));
    let cluster = Line::of(Span::new(entry.cluster.as_str(), Style::plain()));
    let namespace = Line::of(Span::new(str_or(&entry.namespace, "-"), Style::plain()));
    let source = Line::of(
        Span::new(shorten_home(entry.source.as_str(), home).as_str(), Style::dim()),
    );
    proof {
        let expected = cells(*entry, flagged, *home);
        assert(marker.content() == expected[0]);
        assert(name.content() == expected[1]);
        assert(cluster.content() == expected[2]);
        assert(namespace.content() == expected[3]);
        assert(source.content() == expected[4]);
    }
    let mut row: Vec<Line> = Vec::new();
    row.push(marker);
    row.push(name);
    row.push(cluster);
    row.push(namespace);
    row.push(source);
    row
}

/// However far the pane is scrolled, the offset stays within the useful range.
pub proof fn lemma_scroll_stays_useful(scroll: u16, overflow: u16, delta: i32)
    ensures
        0 <= within(scroll + delta, overflow as int) <= overflow,
{
}

} // verus!
