//! Terminal user interface: what the keys do and what the screen says.
//!
//! Two rules shape this module:
//!
//! * **The TUI renders to stderr.** stdout is the machine-readable channel a shell wrapper
//!   captures, so drawing there would corrupt the result.
//! * **No Kubernetes logic lives here.** The UI reads [`AppState`] and says what to draw; anything
//!   that talks to a cluster happens elsewhere and arrives as plain data.

pub mod contexts;
pub mod inspection;

use vstd::prelude::*;

use crate::app;
use crate::app::{AppState, InputMode};

verus! {

// ---------------------------------------------------------------------------------------------
// Styled text
// ---------------------------------------------------------------------------------------------
/// A foreground colour.
#[derive(Debug, Clone, Copy, PartialEq, Eq, Structural)]
pub enum Color {
    /// Good.
    Green,
    /// Under way.
    Cyan,
    /// Careful.
    Yellow,
    /// Bad.
    Red,
    /// Worth knowing.
    Blue,
}

/// How a piece of text is drawn.
#[derive(Debug, Clone, Copy, PartialEq, Eq, Structural)]
pub struct Style {
    /// Foreground colour, where it differs from the terminal's own.
    pub color: Option<Color>,
    /// Drawn in bold.
    pub bold: bool,
    /// Drawn dimmed.
    pub dim: bool,
}

impl Style {
    /// Text as the terminal draws it.
    pub fn plain() -> (r: Self)
        ensures
            r == plain_style(),
    {
        Style { color: None, bold: false, dim: false }
    }

    /// Bold text.
    pub fn bold() -> (r: Self)
        ensures
            r == bold_style(),
    {
        Style { color: None, bold: true, dim: false }
    }

    /// Dimmed text.
    pub fn dim() -> (r: Self)
        ensures
            r == dim_style(),
    {
        Style { color: None, bold: false, dim: true }
    }

    /// Coloured text.
    pub fn colored(color: Color) -> (r: Self)
        ensures
            r == color_style(color),
    {
        Style { color: Some(color), bold: false, dim: false }
    }

    /// Coloured bold text.
    pub fn bold_colored(color: Color) -> (r: Self)
        ensures
            r == bold_color_style(color),
    {
        Style { color: Some(color), bold: true, dim: false }
    }
}

/// Text as the terminal draws it.
pub open spec fn plain_style() -> Style {
    Style { color: None, bold: false, dim: false }
}

/// Bold text.
pub open spec fn bold_style() -> Style {
    Style { color: None, bold: true, dim: false }
}

/// Dimmed text.
pub open spec fn dim_style() -> Style {
    Style { color: None, bold: false, dim: true }
}

/// Coloured text.
pub open spec fn color_style(color: Color) -> Style {
    Style { color: Some(color), bold: false, dim: false }
}

/// Coloured bold text.
pub open spec fn bold_color_style(color: Color) -> Style {
    Style { color: Some(color), bold: true, dim: false }
}

/// A piece of text with its style.
#[derive(Debug)]
pub struct Span {
    /// The text.
    pub text: String,
    /// How it is drawn.
    pub style: Style,
}

/// What a piece of text says and how it is drawn.
pub type Piece = (Seq<char>, Style);

impl Span {
    /// What the piece says and how it is drawn.
    pub open spec fn content(self) -> Piece {
        (self.text@, self.style)
    }

    /// A piece of text with its style.
    pub fn new(text: &str, style: Style) -> (r: Self)
        ensures
            r.content() == (text@, style),
    {
        Span { text: text.to_owned(), style }
    }
}

/// A line of styled text.
#[derive(Debug)]
pub struct Line {
    /// Its pieces, from left to right.
    pub spans: Vec<Span>,
}

impl Line {
    /// What the line says and how it is drawn.
    pub open spec fn content(self) -> Seq<Piece> {
        Seq::new(self.spans@.len(), |i: int| self.spans@[i].content())
    }

    /// A line without text.
    pub fn empty() -> (r: Self)
        ensures
            r.content() == Seq::<Piece>::empty(),
    {
        Line { spans: Vec::new() }
    }

    /// A line of one piece.
    pub fn of(span: Span) -> (r: Self)
        ensures
            r.content() == seq![span.content()],
    {
        let mut spans: Vec<Span> = Vec::new();
        spans.push(span);
        Line { spans }
    }

    /// Add a piece at the end.
    pub fn add(&mut self, span: Span)
        ensures
            final(self).content() == old(self).content().push(span.content()),
    {
        let ghost given = self.content();
        self.spans.push(span);
        proof {
            assert(self.content() == given.push(span.content()));
        }
    }

    /// The text of the line, without its styles.
    pub fn text(&self) -> (r: String)
        ensures
            r@ == line_text(self.content()),
    {
        let mut out = String::new();
        let ghost all = self.content();
        proof {
            assert(out@ == line_text(all.take(0)));
        }
        for i in 0..self.spans.len()
            invariant
                all == self.content(),
                out@ == line_text(all.take(i as int)),
        {
            proof {
                assert(all.take(i + 1).drop_last() == all.take(i as int));
                assert(all.take(i + 1).last() == self.spans@[i as int].content());
            }
            out.append(self.spans[i].text.as_str());
        }
        proof {
            assert(all.take(all.len() as int) == all);
        }
        out
    }
}

/// The text of a line, without its styles.
pub open spec fn line_text(pieces: Seq<Piece>) -> Seq<char>
    decreases pieces.len(),
{
    if pieces.len() == 0 {
        Seq::empty()
    } else {
        line_text(pieces.drop_last()) + pieces.last().0
    }
}

/// What lines say and how they are drawn.
pub open spec fn contents(lines: Seq<Line>) -> Seq<Seq<Piece>> {
    Seq::new(lines.len(), |i: int| lines[i].content())
}

/// Add a line at the end.
pub(crate) fn add_line(lines: &mut Vec<Line>, line: Line)
    ensures
        contents(final(lines)@) == contents(old(lines)@) + seq![line.content()],
{
    let ghost given = lines@;
    lines.push(line);
    proof {
        assert(contents(given.push(line)) == contents(given) + seq![line.content()]);
    }
}

/// Add lines at the end.
pub(crate) fn add_lines(lines: &mut Vec<Line>, more: Vec<Line>)
    ensures
        contents(final(lines)@) == contents(old(lines)@) + contents(more@),
{
    let ghost given = lines@;
    let mut more = more;
    let ghost added = more@;
    lines.append(&mut more);
    proof {
        assert(contents(given + added) == contents(given) + contents(added));
    }
}

// ---------------------------------------------------------------------------------------------
// Keys
// ---------------------------------------------------------------------------------------------
/// A key.
#[derive(Debug, Clone, Copy, PartialEq, Eq, Structural)]
pub enum KeyCode {
    /// A printable character.
    Char(char),
    /// Return.
    Enter,
    /// Escape.
    Esc,
    /// Backspace.
    Backspace,
    /// Cursor up.
    Up,
    /// Cursor down.
    Down,
    /// Page up.
    PageUp,
    /// Page down.
    PageDown,
    /// Home.
    Home,
    /// End.
    End,
    /// Any other key.
    Other,
}

/// A key press.
#[derive(Debug, Clone, Copy, PartialEq, Eq, Structural)]
pub struct KeyEvent {
    /// Which key.
    pub code: KeyCode,
    /// Whether the control key was held.
    pub control: bool,
}

/// What a key press asks the application to do.
#[derive(Debug, Clone, Copy, PartialEq, Eq, Structural)]
pub enum Action {
    /// Keep going.
    Continue,
    /// Scroll the details pane by this many lines.
    ScrollDetails(i32),
    /// Take the context under the cursor.
    Select,
    /// Leave without selecting anything.
    Cancel,
}

/// Whether `after` is `before` with the cursor moved, within the list.
pub open spec fn moved(before: AppState, delta: int, after: AppState) -> bool {
    &&& after == (AppState { cursor: after.cursor, ..before })
    &&& after.cursor == app::clamped(before.cursor + delta, before.visible@.len())
}

/// Whether `after` is `before` with the cursor at the end of the list.
pub open spec fn at_end(before: AppState, after: AppState) -> bool {
    moved(before, before.visible@.len() as int, after)
}

/// Whether `after` is `before` with another query and input mode.
pub open spec fn searched(
    before: AppState,
    query: Seq<char>,
    mode: InputMode,
    after: AppState,
) -> bool {
    after.mode == mode && (AppState { mode: before.mode, ..after }).searches(before, query)
}

/// What a printable character does in normal mode.
pub open spec fn commanded(
    before: AppState,
    character: char,
    after: AppState,
    action: Action,
) -> bool {
    if character == 'q' {
        action == Action::Cancel && after == before
    } else {
        &&& action == Action::Continue
        &&& if character == 'j' {
            moved(before, 1, after)
        } else if character == 'k' {
            moved(before, -1, after)
        } else if character == 'g' {
            after == (AppState { cursor: 0, ..before })
        } else if character == 'G' {
            at_end(before, after)
        } else if character == 'i' {
            after == (AppState { details_open: !before.details_open, ..before })
        } else if character == 'r' {
            after.refreshes(before)
        } else if character == '/' {
            after == (AppState { mode: InputMode::Search, ..before })
        } else {
            searched(before, before.query@.push(character), InputMode::Search, after)
        }
    }
}

/// What a key press with the control key does.
pub open spec fn controlled(
    before: AppState,
    code: KeyCode,
    after: AppState,
    action: Action,
) -> bool {
    match code {
        KeyCode::Char(character) => if character == 'n' {
            action == Action::Continue && moved(before, 1, after)
        } else if character == 'p' {
            action == Action::Continue && moved(before, -1, after)
        } else {
            &&& after == before
            &&& action == (if character == 'c' {
                Action::Cancel
            } else if character == 'd' {
                Action::ScrollDetails(5)
            } else if character == 'u' {
                Action::ScrollDetails(-5i32)
            } else {
                Action::Continue
            })
        },
        _ => action == Action::Continue && after == before,
    }
}

/// What a key press does.
///
/// Two modes keep single-letter commands and free-text search from fighting over the keyboard:
/// in `Normal` mode `j`/`k` navigate and any other printable character starts a search; in
/// `Search` mode every printable character is literal text.
pub open spec fn pressed(before: AppState, key: KeyEvent, after: AppState, action: Action) -> bool {
    if key.control {
        controlled(before, key.code, after, action)
    } else {
        match key.code {
            KeyCode::Enter => action == Action::Select && after == before,
            KeyCode::Up => action == Action::Continue && moved(before, -1, after),
            KeyCode::Down => action == Action::Continue && moved(before, 1, after),
            KeyCode::PageUp => action == Action::Continue && moved(before, -10, after),
            KeyCode::PageDown => action == Action::Continue && moved(before, 10, after),
            KeyCode::Home => action == Action::Continue && after == (AppState {
                cursor: 0,
                ..before
            }),
            KeyCode::End => action == Action::Continue && at_end(before, after),
            KeyCode::Esc => if before.query@.len() > 0 {
                // First Esc drops the filter, a second one leaves.
                action == Action::Continue && searched(
                    before,
                    Seq::empty(),
                    InputMode::Normal,
                    after,
                )
            } else {
                action == Action::Cancel && after == before
            },
            KeyCode::Backspace => {
                let query = if before.query@.len() == 0 {
                    before.query@
                } else {
                    before.query@.drop_last()
                };
                action == Action::Continue && searched(
                    before,
                    query,
                    if query.len() == 0 {
                        InputMode::Normal
                    } else {
                        before.mode
                    },
                    after,
                )
            },
            KeyCode::Char(character) => match before.mode {
                InputMode::Search => action == Action::Continue && searched(
                    before,
                    before.query@.push(character),
                    before.mode,
                    after,
                ),
                InputMode::Normal => commanded(before, character, after, action),
            },
            KeyCode::Other => action == Action::Continue && after == before,
        }
    }
}

/// Move the cursor and keep going.
fn nav(state: &mut AppState, delta: isize) -> (r: Action)
    requires
        old(state).wf(),
    ensures
        final(state).wf(),
        moved(*old(state), delta as int, *final(state)),
        r == Action::Continue,
{
    state.move_cursor(delta);
    Action::Continue
}

/// Handle a printable character in normal mode.
fn normal_mode_char(state: &mut AppState, character: char) -> (r: Action)
    requires
        old(state).wf(),
    ensures
        final(state).wf(),
        commanded(*old(state), character, *final(state), r),
{
    if character == 'q' {
        Action::Cancel
    } else if character == 'j' {
        nav(state, 1)
    } else if character == 'k' {
        nav(state, -1)
    } else if character == 'g' {
        state.cursor_to_start();
        Action::Continue
    } else if character == 'G' {
        state.cursor_to_end();
        Action::Continue
    } else if character == 'i' {
        state.details_open = !state.details_open;
        Action::Continue
    } else if character == 'r' {
        // Only meaningful with the pane open, where the next loop iteration refetches.
        state.invalidate_selected();
        Action::Continue
    } else if character == '/' {
        state.set_mode(InputMode::Search);
        Action::Continue
    } else {
        // Anything else starts a search with that character, so users can just type.
        state.set_mode(InputMode::Search);
        state.push_query_char(character);
        Action::Continue
    }
}

/// Translate a key press into an [`Action`], mutating the state as needed.
pub fn handle_key(state: &mut AppState, key: KeyEvent) -> (r: Action)
    requires
        old(state).wf(),
    ensures
        final(state).wf(),
        pressed(*old(state), key, *final(state), r),
{
    if key.control {
        return match key.code {
            KeyCode::Char(character) => if character == 'c' {
                Action::Cancel
            } else if character == 'n' {
                nav(state, 1)
            } else if character == 'p' {
                nav(state, -1)
            } else if character == 'd' {
                // Scrolling the details pane, which can be taller than the screen.
                Action::ScrollDetails(5)
            } else if character == 'u' {
                Action::ScrollDetails(-5)
            } else {
                Action::Continue
            },
            _ => Action::Continue,
        };
    }
    match key.code {
        KeyCode::Enter => Action::Select,
        KeyCode::Up => nav(state, -1),
        KeyCode::Down => nav(state, 1),
        KeyCode::PageUp => nav(state, -10),
        KeyCode::PageDown => nav(state, 10),
        KeyCode::Home => {
            state.cursor_to_start();
            Action::Continue
        },
        KeyCode::End => {
            state.cursor_to_end();
            Action::Continue
        },
        KeyCode::Esc => {
            // First Esc drops the filter, a second one leaves.
            if state.clear_query() {
                state.set_mode(InputMode::Normal);
                Action::Continue
            } else {
                Action::Cancel
            }
        },
        KeyCode::Backspace => {
            state.pop_query_char();
            if state.query().is_empty() {
                state.set_mode(InputMode::Normal);
            }
            Action::Continue
        },
        KeyCode::Char(character) => match state.mode() {
            InputMode::Search => {
                state.push_query_char(character);
                Action::Continue
            },
            InputMode::Normal => normal_mode_char(state, character),
        },
        KeyCode::Other => Action::Continue,
    }
}

/// Escape clears the filter, and a second Escape leaves.
pub proof fn lemma_two_escapes_leave(
    before: AppState,
    between: AppState,
    after: AppState,
    first: Action,
    second: Action,
)
    requires
        pressed(before, (KeyEvent { code: KeyCode::Esc, control: false }), between, first),
        pressed(between, (KeyEvent { code: KeyCode::Esc, control: false }), after, second),
    ensures
        between.query@.len() == 0,
        second == Action::Cancel,
        first == (if before.query@.len() == 0 {
            Action::Cancel
        } else {
            Action::Continue
        }),
{
}

/// In search mode every printable character is text: it never leaves, and it is the
/// last character of the new query.
pub proof fn lemma_search_mode_takes_text(
    before: AppState,
    character: char,
    after: AppState,
    action: Action,
)
    requires
        before.mode == InputMode::Search,
        pressed(before, (KeyEvent { code: KeyCode::Char(character), control: false }), after, action),
    ensures
        action == Action::Continue,
        after.query@ == before.query@.push(character),
        after.mode == InputMode::Search,
{
}

/// No key changes what was discovered or what is in flight.
pub proof fn lemma_keys_keep_the_catalog(
    before: AppState,
    key: KeyEvent,
    after: AppState,
    action: Action,
)
    requires
        pressed(before, key, after, action),
    ensures
        after.catalog == before.catalog,
        after.in_flight == before.in_flight,
{
}

/// A key press stores and requests no snapshot; all it can do to one is drop that of the selected
/// context.
pub proof fn lemma_keys_are_steps(
    before: AppState,
    key: KeyEvent,
    after: AppState,
    action: Action,
)
    requires
        pressed(before, key, after, action),
    ensures
        app::leads(before, app::Step::Other, after) || (before.selection() is Some && app::leads(
            before,
            app::Step::Dropped(before.selection()->0),
            after,
        )),
{
}

/// Only `Enter` takes a context.
pub proof fn lemma_only_enter_selects(
    before: AppState,
    key: KeyEvent,
    after: AppState,
    action: Action,
)
    requires
        pressed(before, key, after, action),
    ensures
        action == Action::Select <==> key.code == KeyCode::Enter && !key.control,
{
}

} // verus!
