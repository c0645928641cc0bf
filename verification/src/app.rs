//! Application state shared by the TUI and the non-interactive commands.
//!
//! This module owns *what the user is looking at*: the catalog, the current query, the visible
//! selection. It deliberately depends on neither the terminal nor the Kubernetes client, so both
//! layers stay replaceable and testable.

use vstd::prelude::*;

use crate::filter;
use crate::filter::Match;
use crate::kubeconfig::{ContextCatalog, ContextEntry};
use crate::kubernetes::inspection::Inspection;
use crate::paths;
use crate::paths::same_path;
use crate::text;
use crate::text::same_text;

verus! {

/// How long a snapshot stays usable before it is fetched again, in nanoseconds: thirty seconds.
///
/// Long enough that moving up and down the list does not hammer an API server, short enough
/// that what is on screen is still recognisably current.
pub const CACHE_TTL: u128 = 30_000_000_000;

// ---------------------------------------------------------------------------------------------
// Trusted: the clock
// ---------------------------------------------------------------------------------------------
// Times are counted in nanoseconds from the instant at which the state was made, so that
// everything that depends on them works on plain numbers.
/// Trusted: a point in time on a monotonic clock, `std::time::Instant`. Nothing is known of it.
#[verifier::external_type_specification]
#[verifier::external_body]
pub struct ExInstant(std::time::Instant);

/// Trusted: `std::time::Instant::now`. Nothing is claimed of the time it returns.
#[verifier::external_body]
fn now() -> (r: std::time::Instant) {
    std::time::Instant::now()
}

/// Trusted: `std::time::Instant::elapsed`, in nanoseconds. Nothing is claimed of how much time
/// has passed.
#[verifier::external_body]
fn nanos_since(instant: &std::time::Instant) -> (r: u128) {
    instant.elapsed().as_nanos()
}

// ---------------------------------------------------------------------------------------------
// Keys
// ---------------------------------------------------------------------------------------------
/// Identifies the snapshot of one context: the same name in two kubeconfigs, or the same
/// context viewed with a different namespace, are different things.
#[derive(Debug)]
pub struct InspectionKey {
    /// Context name.
    pub context: String,
    /// Defining kubeconfig.
    pub source: String,
    /// Namespace the snapshot covers.
    pub namespace: String,
}

/// Context name, defining kubeconfig and namespace of a snapshot.
pub type Id = (Seq<char>, Seq<char>, Seq<char>);

/// Whether two snapshots are of the same thing: same context, same file, same namespace.
pub open spec fn alike(a: Id, b: Id) -> bool {
    a.0 == b.0 && paths::same_location(a.1, b.1) && a.2 == b.2
}

/// What a context inspected with its own namespace is known by.
pub open spec fn id_of(entry: ContextEntry) -> Id {
    (entry.name@, entry.source@, entry.namespace_text())
}

impl InspectionKey {
    /// What the key stands for.
    pub open spec fn id(self) -> Id {
        (self.context@, self.source@, self.namespace@)
    }

    /// The key for a context inspected with its own namespace.
    pub fn of(entry: &ContextEntry) -> (r: Self)
        ensures
            r.id() == id_of(*entry),
    {
        InspectionKey {
            context: entry.name.clone(),
            source: entry.source.clone(),
            namespace: entry.effective_namespace().to_owned(),
        }
    }
}

impl PartialEq for InspectionKey {
    fn eq(&self, other: &Self) -> (r: bool) {
        same_text(self.context.as_str(), other.context.as_str()) && same_path(
            self.source.as_str(),
            other.source.as_str(),
        ) && same_text(self.namespace.as_str(), other.namespace.as_str())
    }
}

impl vstd::std_specs::cmp::PartialEqSpecImpl for InspectionKey {
    open spec fn obeys_eq_spec() -> bool {
        true
    }

    open spec fn eq_spec(&self, other: &Self) -> bool {
        alike(self.id(), other.id())
    }
}

impl Eq for InspectionKey {

}

impl Clone for InspectionKey {
    fn clone(&self) -> (r: Self)
        ensures
            r == *self,
    {
        InspectionKey {
            context: self.context.clone(),
            source: self.source.clone(),
            namespace: self.namespace.clone(),
        }
    }
}

/// What the details pane should show for the current selection.
#[derive(Debug, Clone, Copy, PartialEq, Eq)]
pub enum InspectionView<'a> {
    /// Nothing requested yet: only local kubeconfig facts are known.
    Idle,
    /// A request is in flight.
    Connecting,
    /// A snapshot is available.
    Ready(&'a Inspection),
}

/// How long after something was stored a time is, in nanoseconds; zero where it is earlier.
pub open spec fn age_at(fetched: u128, now: u128) -> int {
    if fetched <= now {
        now - fetched
    } else {
        0
    }
}

/// Whether a snapshot stored at one time is recent enough to show at another.
pub open spec fn is_fresh(fetched: u128, now: u128) -> bool {
    age_at(fetched, now) < CACHE_TTL
}

/// A cached snapshot and when it was taken.
#[derive(Debug)]
pub struct CacheEntry {
    /// What the snapshot is of.
    pub key: InspectionKey,
    /// When it was stored, in nanoseconds on the clock of the state.
    pub fetched: u128,
    /// The snapshot.
    pub snapshot: Inspection,
}

impl CacheEntry {
    /// The snapshot, where it is recent enough at a time to still show.
    pub fn if_fresh(&self, now: u128) -> (r: Option<&Inspection>)
        ensures
            r == (if is_fresh(self.fetched, now) {
                Some(&self.snapshot)
            } else {
                None
            }),
    {
        let age: u128 = if self.fetched <= now {
            now - self.fetched
        } else {
            0
        };
        if age < CACHE_TTL {
            Some(&self.snapshot)
        } else {
            None
        }
    }
}

/// Whether a position holds the snapshot of something.
pub open spec fn holds(cache: Seq<CacheEntry>, id: Id, at: int) -> bool {
    0 <= at < cache.len() && alike(cache[at].key.id(), id)
}

/// The entry held for something, if there is one.
pub open spec fn held(cache: Seq<CacheEntry>, id: Id) -> Option<CacheEntry> {
    if exists|at: int| holds(cache, id, at) {
        Some(cache[choose|at: int| holds(cache, id, at)])
    } else {
        None
    }
}

/// Whether a cache is another with an entry put in, in place of any for the same thing.
pub open spec fn put(before: Seq<CacheEntry>, entry: CacheEntry, after: Seq<CacheEntry>) -> bool {
    forall|id: Id|
        #[trigger] held(after, id) == (if alike(entry.key.id(), id) {
            Some(entry)
        } else {
            held(before, id)
        })
}

/// Whether a cache is another without the entry for something.
pub open spec fn dropped(before: Seq<CacheEntry>, gone: Id, after: Seq<CacheEntry>) -> bool {
    forall|id: Id|
        #[trigger] held(after, id) == (if alike(gone, id) {
            None
        } else {
            held(before, id)
        })
}

/// Whether no two snapshots are of the same thing.
pub open spec fn distinct(cache: Seq<CacheEntry>) -> bool {
    forall|i: int, j: int|
        0 <= i < j < cache.len() ==> !alike(
            (#[trigger] cache[i]).key.id(),
            (#[trigger] cache[j]).key.id(),
        )
}

/// Whether something is being requested.
pub open spec fn requested(keys: Seq<InspectionKey>, id: Id) -> bool {
    exists|at: int| 0 <= at < keys.len() && alike((#[trigger] keys[at]).id(), id)
}

/// Whether nothing is being requested twice at once.
pub open spec fn distinct_keys(keys: Seq<InspectionKey>) -> bool {
    forall|i: int, j: int|
        0 <= i < j < keys.len() ==> !alike((#[trigger] keys[i]).id(), (#[trigger] keys[j]).id())
}

proof fn lemma_held_at(cache: Seq<CacheEntry>, id: Id, at: int)
    requires
        distinct(cache),
        holds(cache, id, at),
    ensures
        held(cache, id) == Some(cache[at]),
{
    let other = choose|k: int| holds(cache, id, k);
    if other < at {
        assert(!alike(cache[other].key.id(), cache[at].key.id()));
    } else if at < other {
        assert(!alike(cache[at].key.id(), cache[other].key.id()));
    }
}

/// Where the snapshot of something is held.
fn position(cache: &Vec<CacheEntry>, key: &InspectionKey) -> (r: Option<usize>)
    ensures
        match r {
            Some(at) => holds(cache@, key.id(), at as int),
            None => forall|at: int| !holds(cache@, key.id(), at),
        },
{
    for i in 0..cache.len()
        invariant
            forall|k: int| 0 <= k < i ==> !#[trigger] holds(cache@, key.id(), k),
    {
        if cache[i].key == *key {
            return Some(i);
        }
    }
    None
}

/// Drop the snapshot of something, if one is held.
fn forget(cache: &mut Vec<CacheEntry>, key: &InspectionKey)
    requires
        distinct(old(cache)@),
    ensures
        distinct(final(cache)@),
        dropped(old(cache)@, key.id(), final(cache)@),
        forall|at: int| !#[trigger] holds(final(cache)@, key.id(), at),
{
    let ghost before = cache@;
    match position(cache, key) {
        Some(at) => {
            cache.remove(at);
            proof {
                lemma_forgotten(before, key.id(), at as int);
            }
        },
        None => {
            proof {
                assert forall|id: Id| #[trigger] held(cache@, id) == (if alike(key.id(), id) {
                    None
                } else {
                    held(before, id)
                }) by {
                    if alike(key.id(), id) && exists|at: int| holds(before, id, at) {
                        let at = choose|at: int| holds(before, id, at);
                        assert(holds(before, key.id(), at));
                    }
                }
            }
        },
    }
}

proof fn lemma_forgotten(before: Seq<CacheEntry>, key: Id, at: int)
    requires
        distinct(before),
        holds(before, key, at),
    ensures
        distinct(before.remove(at)),
        forall|k: int| !#[trigger] holds(before.remove(at), key, k),
        dropped(before, key, before.remove(at)),
{
    let after = before.remove(at);
    assert forall|i: int, j: int| 0 <= i < j < after.len() implies !alike(
        (#[trigger] after[i]).key.id(),
        (#[trigger] after[j]).key.id(),
    ) by {
        let x = if i < at {
            i
        } else {
            i + 1
        };
        let y = if j < at {
            j
        } else {
            j + 1
        };
        assert(after[i] == before[x] && after[j] == before[y]);
        assert(!alike(before[x].key.id(), before[y].key.id()));
    }
    assert forall|k: int| !#[trigger] holds(after, key, k) by {
        if holds(after, key, k) {
            let x = if k < at {
                k
            } else {
                k + 1
            };
            assert(after[k] == before[x]);
            if x < at {
                assert(!alike(before[x].key.id(), before[at].key.id()));
            } else {
                assert(!alike(before[at].key.id(), before[x].key.id()));
            }
        }
    }
    assert forall|id: Id| #[trigger] held(after, id) == (if alike(key, id) {
        None
    } else {
        held(before, id)
    }) by {
        if alike(key, id) {
            if exists|k: int| holds(after, id, k) {
                let k = choose|k: int| holds(after, id, k);
                assert(holds(after, key, k));
            }
        } else {
            if exists|k: int| holds(before, id, k) {
                let k = choose|k: int| holds(before, id, k);
                let x = if k < at {
                    k
                } else {
                    k - 1
                };
                assert(k != at);
                assert(after[x] == before[k]);
                assert(holds(after, id, x));
                lemma_held_at(after, id, x);
                lemma_held_at(before, id, k);
            } else if exists|k: int| holds(after, id, k) {
                let k = choose|k: int| holds(after, id, k);
                let x = if k < at {
                    k
                } else {
                    k + 1
                };
                assert(after[k] == before[x]);
                assert(holds(before, id, x));
            }
        }
    }
}

proof fn lemma_added(before: Seq<CacheEntry>, added: CacheEntry)
    requires
        distinct(before),
        forall|at: int| !#[trigger] holds(before, added.key.id(), at),
    ensures
        distinct(before.push(added)),
        put(before, added, before.push(added)),
{
    let after = before.push(added);
    assert forall|i: int, j: int| 0 <= i < j < after.len() implies !alike(
        (#[trigger] after[i]).key.id(),
        (#[trigger] after[j]).key.id(),
    ) by {
        assert(after[i] == before[i]);
        if j < before.len() {
            assert(after[j] == before[j]);
        } else {
            assert(!holds(before, added.key.id(), i));
        }
    }
    assert forall|id: Id| #[trigger] held(after, id) == (if alike(added.key.id(), id) {
        Some(added)
    } else {
        held(before, id)
    }) by {
        let last = before.len() as int;
        assert(after[last] == added);
        if alike(added.key.id(), id) {
            assert(holds(after, id, last));
            lemma_held_at(after, id, last);
        } else if exists|k: int| holds(before, id, k) {
            let k = choose|k: int| holds(before, id, k);
            assert(after[k] == before[k]);
            assert(holds(after, id, k));
            lemma_held_at(after, id, k);
            lemma_held_at(before, id, k);
        } else if exists|k: int| holds(after, id, k) {
            let k = choose|k: int| holds(after, id, k);
            assert(k != last);
            assert(after[k] == before[k]);
            assert(holds(before, id, k));
        }
    }
}

// ---------------------------------------------------------------------------------------------
// State
// ---------------------------------------------------------------------------------------------
/// Whether keystrokes navigate the list or extend the search query.
#[derive(Debug, Clone, Copy, PartialEq, Eq, Default, Structural)]
pub enum InputMode {
    /// Single-letter commands: `j`/`k` move, `q` quits, any other letter starts a search.
    #[default]
    Normal,
    /// Printable characters are appended to the query.
    Search,
}

/// Interactive state over a loaded [`ContextCatalog`].
#[derive(Debug)]
pub struct AppState {
    /// Everything discovered locally.
    pub catalog: ContextCatalog,
    /// Current search query.
    pub query: String,
    /// Indices into `catalog.entries`, best match first.
    pub visible: Vec<usize>,
    /// Cursor position within `visible`.
    pub cursor: usize,
    /// Whether keystrokes are search text or commands.
    pub mode: InputMode,
    /// Whether the details pane is shown.
    pub details_open: bool,
    /// Recently fetched snapshots, each of another context.
    pub inspections: Vec<CacheEntry>,
    /// Requests currently in flight, so the same context is not fetched twice at once.
    pub in_flight: Vec<InspectionKey>,
    /// The instant that times are counted from.
    pub epoch: std::time::Instant,
}

/// The positions of matches.
pub open spec fn indices(matches: Seq<Match>) -> Seq<usize> {
    Seq::new(matches.len(), |i: int| matches[i].index)
}

/// Whether a list holds exactly what a query finds, best match first.
pub open spec fn shows(entries: Seq<ContextEntry>, query: Seq<char>, visible: Seq<usize>) -> bool {
    exists|matches: Seq<Match>|
        #[trigger] filter::finds(entries, query, matches) && visible == indices(matches)
}

/// What the list shows depends on the contexts and the query alone.
pub proof fn lemma_list_follows_query(
    entries: Seq<ContextEntry>,
    query: Seq<char>,
    a: Seq<usize>,
    b: Seq<usize>,
)
    requires
        shows(entries, query, a),
        shows(entries, query, b),
    ensures
        a == b,
{
    let x = choose|matches: Seq<Match>|
        #[trigger] filter::finds(entries, query, matches) && a == indices(matches);
    let y = choose|matches: Seq<Match>|
        #[trigger] filter::finds(entries, query, matches) && b == indices(matches);
    filter::lemma_finds_is_unique(entries, query, x, y);
}

/// What the list shows exists, and nothing is shown twice.
proof fn lemma_shown(entries: Seq<ContextEntry>, query: Seq<char>, visible: Seq<usize>)
    requires
        shows(entries, query, visible),
        entries.len() <= usize::MAX,
    ensures
        forall|i: int| 0 <= i < visible.len() ==> #[trigger] visible[i] < entries.len(),
        forall|i: int, j: int|
            0 <= i < j < visible.len() ==> #[trigger] visible[i] != #[trigger] visible[j],
{
    let matches = choose|matches: Seq<Match>|
        #[trigger] filter::finds(entries, query, matches) && visible == indices(matches);
    filter::lemma_finds_distinct(entries, query, matches);
    assert forall|i: int| 0 <= i < visible.len() implies #[trigger] visible[i] < entries.len() by {
        assert(visible[i] == matches[i].index);
    }
    assert forall|i: int, j: int| 0 <= i < j < visible.len() implies #[trigger] visible[i]
        != #[trigger] visible[j] by {
        assert(visible[i] == matches[i].index && visible[j] == matches[j].index);
    }
}

impl AppState {
    /// The list shows what the query finds, the cursor is on the list, and no context is cached
    /// or requested twice.
    pub open spec fn wf(self) -> bool {
        &&& shows(self.catalog.entries@, self.query@, self.visible@)
        &&& self.cursor < self.visible@.len() || (self.visible@.len() == 0 && self.cursor == 0)
        &&& distinct(self.inspections@)
        &&& distinct_keys(self.in_flight@)
    }

    /// The position in the catalog of the context under the cursor.
    pub open spec fn selected_index(self) -> Option<usize> {
        if self.cursor < self.visible@.len() {
            Some(self.visible@[self.cursor as int])
        } else {
            None
        }
    }

    /// The context under the cursor.
    pub open spec fn selection(self) -> Option<ContextEntry> {
        match self.selected_index() {
            Some(index) => Some(self.catalog.entries@[index as int]),
            None => None,
        }
    }

    /// Start with every context visible and the cursor on the active one.
    pub fn new(catalog: ContextCatalog) -> (r: Self)
        ensures
            r.wf(),
            r.catalog == catalog,
            r.query@.len() == 0,
            r.visible@ == Seq::new(catalog.entries@.len(), |i: int| i as usize),
            r.cursor == (match catalog.active_index {
                Some(index) if index < catalog.entries@.len() => index,
                _ => 0,
            }),
            r.mode == InputMode::Normal,
            !r.details_open,
            r.inspections@.len() == 0,
            r.in_flight@.len() == 0,
    {
        let visible = find(&catalog, "");
        let ghost all = Seq::new(catalog.entries@.len(), |i: int| i as usize);
        proof {
            reveal_strlit("");
            assert(text::trimmed(""@).len() == 0) by {
                assert(text::trimmed_start(""@) == ""@);
            }
            let matches = choose|matches: Seq<Match>|
                #[trigger] filter::finds(catalog.entries@, ""@, matches) && visible@ == indices(
                    matches,
                );
            assert(visible@ == all);
        }
        let cursor: usize = match catalog.active_index {
            Some(index) if index < catalog.entries.len() => index,
            _ => 0,
        };
        let query = String::new();
        proof {
            reveal_strlit("");
            assert(query@ == ""@);
        }
        AppState {
            catalog,
            query,
            visible,
            cursor,
            mode: InputMode::Normal,
            details_open: false,
            inspections: Vec::new(),
            in_flight: Vec::new(),
            epoch: now(),
        }
    }

    /// The current query.
    pub fn query(&self) -> (r: &str)
        ensures
            r@ == self.query@,
    {
        self.query.as_str()
    }

    /// Whether keystrokes are currently search text or commands.
    pub fn mode(&self) -> (r: InputMode)
        ensures
            r == self.mode,
    {
        self.mode
    }

    /// Switch between command and search input.
    pub fn set_mode(&mut self, mode: InputMode)
        ensures
            *final(self) == (AppState { mode, ..*old(self) }),
    {
        self.mode = mode;
    }

    /// Contexts currently passing the filter, best match first.
    pub fn visible(&self) -> (r: Vec<&ContextEntry>)
        requires
            self.wf(),
        ensures
            r@.len() == self.visible@.len(),
            forall|i: int|
                0 <= i < r@.len() ==> *#[trigger] r@[i]
                    == self.catalog.entries@[self.visible@[i] as int],
    {
        let mut entries: Vec<&ContextEntry> = Vec::new();
        let count: usize = self.catalog.entries.len();
        proof {
            lemma_shown(self.catalog.entries@, self.query@, self.visible@);
        }
        for i in 0..self.visible.len()
            invariant
                count == self.catalog.entries@.len(),
                entries@.len() == i,
                forall|k: int| 0 <= k < self.visible@.len() ==> #[trigger] self.visible@[k] < count,
                forall|k: int|
                    0 <= k < i ==> *#[trigger] entries@[k]
                        == self.catalog.entries@[self.visible@[k] as int],
        {
            entries.push(&self.catalog.entries[self.visible[i]]);
        }
        entries
    }

    /// How many contexts pass the filter.
    pub fn visible_len(&self) -> (r: usize)
        ensures
            r == self.visible@.len(),
    {
        self.visible.len()
    }

    /// Cursor position within the visible list.
    pub fn cursor(&self) -> (r: usize)
        ensures
            r == self.cursor,
    {
        self.cursor
    }

    /// The context under the cursor, if any context is visible.
    pub fn selected(&self) -> (r: Option<&ContextEntry>)
        requires
            self.wf(),
        ensures
            match self.selection() {
                Some(entry) => r == Some(&entry),
                None => r is None,
            },
    {
        let count: usize = self.catalog.entries.len();
        proof {
            lemma_shown(self.catalog.entries@, self.query@, self.visible@);
            assert(count == self.catalog.entries@.len());
        }
        if self.cursor < self.visible.len() {
            Some(&self.catalog.entries[self.visible[self.cursor]])
        } else {
            None
        }
    }

    /// Whether this is `before` with another query: the list shows what the query finds, and the
    /// cursor stays on the same context where that is still shown, else goes to the first.
    pub open spec fn searches(self, before: AppState, query: Seq<char>) -> bool {
        &&& self.query@ == query
        &&& shows(before.catalog.entries@, query, self.visible@)
        &&& match before.selected_index() {
            Some(index) => if self.visible@.contains(index) {
                self.cursor < self.visible@.len() && self.visible@[self.cursor as int] == index
            } else {
                self.cursor == 0
            },
            None => self.cursor == 0,
        }
        &&& self == (AppState {
            query: self.query,
            visible: self.visible,
            cursor: self.cursor,
            ..before
        })
    }

    /// Replace the query, keeping the cursor on the same context where possible.
    pub fn set_query(&mut self, query: &str)
        requires
            old(self).wf(),
        ensures
            final(self).wf(),
            final(self).searches(*old(self), query@),
    {
        let previous: Option<usize> = if self.cursor < self.visible.len() {
            Some(self.visible[self.cursor])
        } else {
            None
        };
        self.query = query.to_owned();
        self.visible = find(&self.catalog, query);
        self.cursor = 0;
        if let Some(index) = previous {
            self.select_entry(index);
        }
    }

    /// Append a character typed by the user.
    pub fn push_query_char(&mut self, character: char)
        requires
            old(self).wf(),
        ensures
            final(self).wf(),
            final(self).searches(*old(self), old(self).query@.push(character)),
    {
        let mut query = self.query.clone();
        query.push(character);
        self.set_query(query.as_str());
    }

    /// Delete the last character of the query.
    pub fn pop_query_char(&mut self)
        requires
            old(self).wf(),
        ensures
            final(self).wf(),
            final(self).searches(
                *old(self),
                if old(self).query@.len() == 0 {
                    old(self).query@
                } else {
                    old(self).query@.drop_last()
                },
            ),
    {
        let query = self.query.clone();
        let length: usize = query.as_str().unicode_len();
        if length == 0 {
            self.set_query(query.as_str());
        } else {
            proof {
                assert(query@.subrange(0, length - 1) == query@.drop_last());
            }
            self.set_query(query.as_str().substring_char(0, length - 1));
        }
    }

    /// Clear the query. Returns true if anything changed.
    pub fn clear_query(&mut self) -> (r: bool)
        requires
            old(self).wf(),
        ensures
            final(self).wf(),
            r == (old(self).query@.len() > 0),
            if r {
                final(self).searches(*old(self), Seq::empty())
            } else {
                *final(self) == *old(self)
            },
    {
        if self.query.as_str().is_empty() {
            return false;
        }
        proof {
            reveal_strlit("");
            assert(""@ == Seq::<char>::empty());
        }
        self.set_query("");
        true
    }

    /// Move the cursor by `delta`, clamped to the visible list.
    pub fn move_cursor(&mut self, delta: isize)
        requires
            old(self).wf(),
        ensures
            final(self).wf(),
            *final(self) == (AppState { cursor: final(self).cursor, ..*old(self) }),
            final(self).cursor == clamped(old(self).cursor + delta, old(self).visible@.len()),
    {
        let count: usize = self.visible.len();
        if count == 0 {
            self.cursor = 0;
            return;
        }
        let target: i128 = self.cursor as i128 + delta as i128;
        if target < 0 {
            self.cursor = 0;
        } else if target >= count as i128 {
            self.cursor = count - 1;
        } else {
            self.cursor = target as usize;
        }
    }

    /// Put the cursor on the first visible context.
    pub fn cursor_to_start(&mut self)
        requires
            old(self).wf(),
        ensures
            final(self).wf(),
            *final(self) == (AppState { cursor: 0, ..*old(self) }),
    {
        self.cursor = 0;
    }

    /// Put the cursor on the last visible context.
    pub fn cursor_to_end(&mut self)
        requires
            old(self).wf(),
        ensures
            final(self).wf(),
            *final(self) == (AppState { cursor: final(self).cursor, ..*old(self) }),
            final(self).cursor == (if old(self).visible@.len() == 0 {
                0
            } else {
                old(self).visible@.len() - 1
            }),
    {
        let count: usize = self.visible.len();
        self.cursor = if count == 0 {
            0
        } else {
            count - 1
        };
    }

    /// Move the cursor onto a specific catalog entry if it is visible.
    fn select_entry(&mut self, entry_index: usize)
        ensures
            *final(self) == (AppState { cursor: final(self).cursor, ..*old(self) }),
            if old(self).visible@.contains(entry_index) {
                final(self).cursor < old(self).visible@.len()
                    && old(self).visible@[final(self).cursor as int] == entry_index
            } else {
                final(self).cursor == old(self).cursor
            },
    {
        let count: usize = self.visible.len();
        for i in 0..count
            invariant
                *self == *old(self),
                count == self.visible@.len(),
                forall|k: int| 0 <= k < i ==> #[trigger] self.visible@[k] != entry_index,
        {
            if self.visible[i] == entry_index {
                self.cursor = i;
                return;
            }
        }
    }
}

/// A position brought within a list; zero where the list is empty.
pub open spec fn clamped(position: int, count: nat) -> int {
    if count == 0 || position < 0 {
        0
    } else if position >= count {
        count - 1
    } else {
        position
    }
}

/// What a query finds in a catalog.
fn find(catalog: &ContextCatalog, query: &str) -> (r: Vec<usize>)
    ensures
        shows(catalog.entries@, query@, r@),
{
    let matches = filter::filter(&catalog.entries, query);
    let mut visible: Vec<usize> = Vec::new();
    for i in 0..matches.len()
        invariant
            visible@ == indices(matches@.take(i as int)),
    {
        visible.push(matches[i].index);
        proof {
            assert(indices(matches@.take(i + 1)) == indices(matches@.take(i as int)).push(
                matches@[i as int].index,
            ));
        }
    }
    proof {
        assert(matches@.take(matches@.len() as int) == matches@);
    }
    visible
}

// ---------------------------------------------------------------------------------------------
// Snapshots
// ---------------------------------------------------------------------------------------------
/// Whether `shown` is what to show for a state at a time.
pub open spec fn is_view(state: AppState, now: u128, shown: InspectionView) -> bool {
    match state.selection() {
        None => shown is Idle,
        Some(entry) => match held(state.inspections@, id_of(entry)) {
            Some(found) if is_fresh(found.fetched, now) => shown == InspectionView::Ready(
                &found.snapshot,
            ),
            _ => if requested(state.in_flight@, id_of(entry)) {
                shown is Connecting
            } else {
                shown is Idle
            },
        },
    }
}

/// Whether `found` is the snapshot of a context that a cache has to show at a time.
pub open spec fn is_cached(
    cache: Seq<CacheEntry>,
    entry: ContextEntry,
    now: u128,
    found: Option<&Inspection>,
) -> bool {
    found == (match held(cache, id_of(entry)) {
        Some(kept) if is_fresh(kept.fetched, now) => Some(&kept.snapshot),
        _ => None,
    })
}

impl AppState {
    /// Whether this is `before` with a snapshot stored, and a request for it no longer in flight.
    pub open spec fn stores(self, before: AppState, entry: CacheEntry) -> bool {
        &&& put(before.inspections@, entry, self.inspections@)
        &&& forall|id: Id|
            #[trigger] requested(self.in_flight@, id) <==> requested(before.in_flight@, id)
                && !alike(entry.key.id(), id)
        &&& self == (AppState {
            inspections: self.inspections,
            in_flight: self.in_flight,
            ..before
        })
    }

    /// Whether this is `before` with a request for a context in flight.
    pub open spec fn requests(self, before: AppState, entry: ContextEntry) -> bool {
        &&& forall|id: Id|
            #[trigger] requested(self.in_flight@, id) <==> requested(before.in_flight@, id)
                || alike(id_of(entry), id)
        &&& self == (AppState { in_flight: self.in_flight, ..before })
    }

    /// Whether this is `before` without the snapshot of the selected context.
    pub open spec fn refreshes(self, before: AppState) -> bool {
        match before.selection() {
            Some(entry) => {
                &&& dropped(before.inspections@, id_of(entry), self.inspections@)
                &&& self == (AppState { inspections: self.inspections, ..before })
            },
            None => self == before,
        }
    }

    /// The entry of the cache for a context.
    fn cache_entry(&self, entry: &ContextEntry) -> (r: Option<&CacheEntry>)
        requires
            distinct(self.inspections@),
        ensures
            match r {
                Some(found) => held(self.inspections@, id_of(*entry)) == Some(*found),
                None => held(self.inspections@, id_of(*entry)) is None,
            },
    {
        match position(&self.inspections, &InspectionKey::of(entry)) {
            Some(at) => {
                proof {
                    lemma_held_at(self.inspections@, id_of(*entry), at as int);
                }
                Some(&self.inspections[at])
            },
            None => None,
        }
    }

    /// The cached snapshot for `entry`, if one was taken recently enough to still show at a time.
    pub fn cached_snapshot_at(&self, entry: &ContextEntry, now: u128) -> (r: Option<&Inspection>)
        requires
            self.wf(),
        ensures
            is_cached(self.inspections@, *entry, now, r),
    {
        match self.cache_entry(entry) {
            Some(found) => found.if_fresh(now),
            None => None,
        }
    }

    /// The cached snapshot for `entry`, if one was taken recently enough to still show.
    ///
    /// What time it is, the clock says; see [`AppState::cached_snapshot_at`].
    pub fn cached_snapshot(&self, entry: &ContextEntry) -> (r: Option<&Inspection>)
        requires
            self.wf(),
        ensures
            exists|now: u128| #[trigger] is_cached(self.inspections@, *entry, now, r),
    {
        let now: u128 = nanos_since(&self.epoch);
        self.cached_snapshot_at(entry, now)
    }

    /// Whether a request for `entry` is in flight.
    fn is_requested(&self, entry: &ContextEntry) -> (r: bool)
        ensures
            r == requested(self.in_flight@, id_of(*entry)),
    {
        key_position(&self.in_flight, &InspectionKey::of(entry)).is_some()
    }

    /// What the details pane should render for the context under the cursor at a time.
    pub fn inspection_view_at(&self, now: u128) -> (r: InspectionView<'_>)
        requires
            self.wf(),
        ensures
            is_view(*self, now, r),
    {
        let entry = match self.selected() {
            Some(entry) => entry,
            None => {
                return InspectionView::Idle;
            },
        };
        if let Some(snapshot) = self.cached_snapshot_at(entry, now) {
            return InspectionView::Ready(snapshot);
        }
        if self.is_requested(entry) {
            return InspectionView::Connecting;
        }
        InspectionView::Idle
    }

    /// What the details pane should render for the context under the cursor.
    ///
    /// What time it is, the clock says; see [`AppState::inspection_view_at`].
    pub fn inspection_view(&self) -> (r: InspectionView<'_>)
        requires
            self.wf(),
        ensures
            exists|now: u128| is_view(*self, now, r),
    {
        let now: u128 = nanos_since(&self.epoch);
        self.inspection_view_at(now)
    }

    /// The context that should be inspected next at a time, if any.
    pub fn inspection_due_at(&self, now: u128) -> (r: Option<&ContextEntry>)
        requires
            self.wf(),
        ensures
            is_due(*self, now, r),
    {
        if !self.details_open {
            return None;
        }
        match self.inspection_view_at(now) {
            InspectionView::Idle => self.selected(),
            _ => None,
        }
    }

    /// The context that should be inspected next, if any.
    ///
    /// Returns `None` when the pane is closed, nothing is selected, a fresh snapshot is already
    /// cached, or a request is already running — so callers can simply ask on every keystroke.
    /// What time it is, the clock says; see [`AppState::inspection_due_at`].
    pub fn inspection_due(&self) -> (r: Option<&ContextEntry>)
        requires
            self.wf(),
        ensures
            exists|now: u128| is_due(*self, now, r),
    {
        let now: u128 = nanos_since(&self.epoch);
        self.inspection_due_at(now)
    }

    /// Record that a request for `entry` has started.
    pub fn mark_in_flight(&mut self, entry: &ContextEntry)
        requires
            old(self).wf(),
        ensures
            final(self).wf(),
            final(self).requests(*old(self), *entry),
    {
        let key = InspectionKey::of(entry);
        let ghost before = self.in_flight@;
        if key_position(&self.in_flight, &key).is_none() {
            self.in_flight.push(key);
            proof {
                lemma_key_added(before, key);
            }
        } else {
            proof {
                let at = choose|at: int|
                    0 <= at < before.len() && alike((#[trigger] before[at]).id(), key.id());
                assert forall|id: Id| alike(key.id(), id) implies requested(before, id) by {
                    assert(alike(before[at].id(), id));
                }
            }
        }
    }

    /// Store a completed snapshot, replacing any older one.
    ///
    /// What time it is, the clock says; see [`AppState::store_inspection_at`].
    pub fn store_inspection(&mut self, snapshot: Inspection, key: InspectionKey)
        requires
            old(self).wf(),
        ensures
            final(self).wf(),
            exists|now: u128|
                final(self).stores(
                    *old(self),
                    #[trigger] stamped(key, now, snapshot),
                ),
    {
        let now: u128 = nanos_since(&self.epoch);
        proof {
            assert(stamped(key, now, snapshot) == (CacheEntry { key, fetched: now, snapshot }));
        }
        self.store_inspection_at(snapshot, key, now);
    }

    /// Store a snapshot that was completed at a time, replacing any older one.
    pub fn store_inspection_at(&mut self, snapshot: Inspection, key: InspectionKey, now: u128)
        requires
            old(self).wf(),
        ensures
            final(self).wf(),
            final(self).stores(*old(self), stamped(key, now, snapshot)),
    {
        let ghost keys = self.in_flight@;
        if let Some(at) = key_position(&self.in_flight, &key) {
            self.in_flight.remove(at);
            proof {
                lemma_key_removed(keys, key.id(), at as int);
            }
        } else {
            proof {
                assert forall|id: Id| alike(key.id(), id) implies !requested(keys, id) by {
                    if requested(keys, id) {
                        let at = choose|at: int|
                            0 <= at < keys.len() && alike((#[trigger] keys[at]).id(), id);
                        assert(alike(keys[at].id(), key.id()));
                    }
                }
            }
        }
        forget(&mut self.inspections, &key);
        let added = CacheEntry { key, fetched: now, snapshot };
        proof {
            lemma_added(self.inspections@, added);
        }
        self.inspections.push(added);
    }

    /// Drop the cached snapshot for the current selection so it is fetched again.
    pub fn invalidate_selected(&mut self)
        requires
            old(self).wf(),
        ensures
            final(self).wf(),
            final(self).refreshes(*old(self)),
    {
        let key = match self.selected() {
            Some(entry) => InspectionKey::of(entry),
            None => {
                return;
            },
        };
        forget(&mut self.inspections, &key);
    }
}

/// A snapshot with what it is of and when it was stored.
pub open spec fn stamped(key: InspectionKey, now: u128, snapshot: Inspection) -> CacheEntry {
    CacheEntry { key, fetched: now, snapshot }
}

/// Whether `due` is the context to inspect next at a time.
pub open spec fn is_due(state: AppState, now: u128, due: Option<&ContextEntry>) -> bool {
    if state.details_open && is_view(state, now, InspectionView::Idle) {
        match state.selection() {
            Some(entry) => due == Some(&entry),
            None => due is None,
        }
    } else {
        due is None
    }
}

/// Where a key stands in a list.
fn key_position(keys: &Vec<InspectionKey>, key: &InspectionKey) -> (r: Option<usize>)
    ensures
        match r {
            Some(at) => at < keys@.len() && alike(keys@[at as int].id(), key.id()),
            None => !requested(keys@, key.id()),
        },
{
    for i in 0..keys.len()
        invariant
            forall|k: int| 0 <= k < i ==> !alike((#[trigger] keys@[k]).id(), key.id()),
    {
        if keys[i] == *key {
            return Some(i);
        }
    }
    None
}

proof fn lemma_key_added(before: Seq<InspectionKey>, key: InspectionKey)
    requires
        distinct_keys(before),
        !requested(before, key.id()),
    ensures
        distinct_keys(before.push(key)),
        forall|id: Id|
            #[trigger] requested(before.push(key), id) <==> requested(before, id) || alike(
                key.id(),
                id,
            ),
{
    let after = before.push(key);
    let last = before.len() as int;
    assert(after[last] == key);
    assert forall|id: Id| #[trigger] requested(after, id) <==> requested(before, id) || alike(
        key.id(),
        id,
    ) by {
        if requested(before, id) {
            let at = choose|at: int|
                0 <= at < before.len() && alike((#[trigger] before[at]).id(), id);
            assert(after[at] == before[at]);
        }
        if requested(after, id) {
            let at = choose|at: int|
                0 <= at < after.len() && alike((#[trigger] after[at]).id(), id);
            if at < last {
                assert(after[at] == before[at]);
            }
        }
    }
    assert forall|i: int, j: int| 0 <= i < j < after.len() implies !alike(
        (#[trigger] after[i]).id(),
        (#[trigger] after[j]).id(),
    ) by {
        assert(after[i] == before[i]);
        if j < last {
            assert(after[j] == before[j]);
        }
    }
}

proof fn lemma_key_removed(before: Seq<InspectionKey>, key: Id, at: int)
    requires
        distinct_keys(before),
        0 <= at < before.len(),
        alike(before[at].id(), key),
    ensures
        distinct_keys(before.remove(at)),
        forall|id: Id|
            #[trigger] requested(before.remove(at), id) <==> requested(before, id) && !alike(
                key,
                id,
            ),
{
    let after = before.remove(at);
    assert forall|id: Id| #[trigger] requested(after, id) <==> requested(before, id) && !alike(
        key,
        id,
    ) by {
        if requested(after, id) {
            let k = choose|k: int| 0 <= k < after.len() && alike((#[trigger] after[k]).id(), id);
            let x = if k < at {
                k
            } else {
                k + 1
            };
            assert(after[k] == before[x]);
            if x < at {
                assert(!alike(before[x].id(), before[at].id()));
            } else {
                assert(!alike(before[at].id(), before[x].id()));
            }
        }
        if requested(before, id) && !alike(key, id) {
            let k = choose|k: int|
                0 <= k < before.len() && alike((#[trigger] before[k]).id(), id);
            assert(k != at);
            let x = if k < at {
                k
            } else {
                k - 1
            };
            assert(after[x] == before[k]);
        }
    }
    assert forall|i: int, j: int| 0 <= i < j < after.len() implies !alike(
        (#[trigger] after[i]).id(),
        (#[trigger] after[j]).id(),
    ) by {
        let x = if i < at {
            i
        } else {
            i + 1
        };
        let y = if j < at {
            j
        } else {
            j + 1
        };
        assert(after[i] == before[x] && after[j] == before[y]);
    }
}

// ---------------------------------------------------------------------------------------------
// What the state promises
// ---------------------------------------------------------------------------------------------
/// The same context is never fetched twice at once: once it is requested, it is not due, at no
/// time.
pub proof fn lemma_requested_is_not_due(state: AppState, now: u128, due: Option<&ContextEntry>)
    requires
        is_due(state, now, due),
        state.selection() is Some,
        requested(state.in_flight@, id_of(state.selection()->0)),
    ensures
        due is None,
{
}

/// A fresh snapshot is shown and not fetched again.
pub proof fn lemma_fresh_is_served(
    state: AppState,
    now: u128,
    shown: InspectionView,
    due: Option<&ContextEntry>,
    found: CacheEntry,
)
    requires
        is_view(state, now, shown),
        is_due(state, now, due),
        state.selection() is Some,
        held(state.inspections@, id_of(state.selection()->0)) == Some(found),
        is_fresh(found.fetched, now),
    ensures
        shown == InspectionView::Ready(&found.snapshot),
        due is None,
{
}

/// A snapshot too old to show is fetched again once the pane is open, unless that is under way.
pub proof fn lemma_stale_is_due(
    state: AppState,
    now: u128,
    due: Option<&ContextEntry>,
    found: CacheEntry,
)
    requires
        is_due(state, now, due),
        state.details_open,
        state.selection() is Some,
        held(state.inspections@, id_of(state.selection()->0)) == Some(found),
        !is_fresh(found.fetched, now),
        !requested(state.in_flight@, id_of(state.selection()->0)),
    ensures
        due == Some(&state.selection()->0),
{
}

/// A stored snapshot is shown until its lifetime has passed since it was stored, and no longer.
pub proof fn lemma_stored_is_shown_for_its_lifetime(
    before: AppState,
    entry: CacheEntry,
    after: AppState,
    now: u128,
    shown: InspectionView,
)
    requires
        after.stores(before, entry),
        after.selection() is Some,
        alike(entry.key.id(), id_of(after.selection()->0)),
        entry.fetched <= now,
        is_view(after, now, shown),
    ensures
        now - entry.fetched < CACHE_TTL ==> shown == InspectionView::Ready(&entry.snapshot),
        now - entry.fetched >= CACHE_TTL ==> shown is Idle,
{
}

/// What can become of the snapshots and requests of a state.
pub enum Step {
    /// A snapshot is stored.
    Stored(CacheEntry),
    /// A request for a context is started.
    Requested(ContextEntry),
    /// The snapshot of the selected context is dropped.
    Dropped(ContextEntry),
    /// Neither snapshots nor requests change.
    Other,
}

/// Whether a step leads from one state to another.
pub open spec fn leads(before: AppState, step: Step, after: AppState) -> bool {
    match step {
        Step::Stored(entry) => after.stores(before, entry),
        Step::Requested(entry) => after.requests(before, entry),
        Step::Dropped(entry) => before.selection() == Some(entry) && after.refreshes(before),
        Step::Other => after.inspections == before.inspections && after.in_flight
            == before.in_flight,
    }
}

/// Whether states follow one another by steps, from one without snapshots and requests.
pub open spec fn reached(states: Seq<AppState>, steps: Seq<Step>) -> bool {
    &&& states.len() == steps.len() + 1
    &&& states[0].inspections@.len() == 0
    &&& states[0].in_flight@.len() == 0
    &&& forall|i: int|
        0 <= i < steps.len() ==> leads(states[i], #[trigger] steps[i], states[i + 1])
}

/// The snapshot last stored for something, unless it was dropped since.
pub open spec fn last_stored(steps: Seq<Step>, id: Id) -> Option<CacheEntry>
    decreases steps.len(),
{
    if steps.len() == 0 {
        None
    } else {
        match steps.last() {
            Step::Stored(entry) if alike(entry.key.id(), id) => Some(entry),
            Step::Dropped(entry) if alike(id_of(entry), id) => None,
            _ => last_stored(steps.drop_last(), id),
        }
    }
}

/// Whether something was requested and no snapshot of it was stored since.
pub open spec fn awaited(steps: Seq<Step>, id: Id) -> bool
    decreases steps.len(),
{
    if steps.len() == 0 {
        false
    } else {
        match steps.last() {
            Step::Requested(entry) if alike(id_of(entry), id) => true,
            Step::Stored(entry) if alike(entry.key.id(), id) => false,
            _ => awaited(steps.drop_last(), id),
        }
    }
}

/// A state holds exactly what was last stored and not dropped, and waits for exactly what was
/// requested and not stored since.
pub proof fn lemma_state_follows_history(states: Seq<AppState>, steps: Seq<Step>, id: Id)
    requires
        reached(states, steps),
    ensures
        held(states.last().inspections@, id) == last_stored(steps, id),
        requested(states.last().in_flight@, id) == awaited(steps, id),
    decreases steps.len(),
{
    if steps.len() > 0 {
        let earlier = states.drop_last();
        let fewer = steps.drop_last();
        assert(leads(states[steps.len() - 1], steps[steps.len() - 1], states[steps.len() as int]));
        assert forall|i: int| 0 <= i < fewer.len() implies leads(
            earlier[i],
            #[trigger] fewer[i],
            earlier[i + 1],
        ) by {
            assert(leads(states[i], steps[i], states[i + 1]));
        }
        lemma_state_follows_history(earlier, fewer, id);
    }
}

/// Whatever led to a state, the pane shows the snapshot last stored for the selected context where
/// that was less than its lifetime ago and was not dropped since; else it says that the context is
/// being requested where it is; else it shows nothing live. Nothing else plays a part.
pub proof fn lemma_view_follows_history(
    states: Seq<AppState>,
    steps: Seq<Step>,
    now: u128,
    shown: InspectionView,
)
    requires
        reached(states, steps),
        is_view(states.last(), now, shown),
    ensures
        match states.last().selection() {
            None => shown is Idle,
            Some(entry) => match last_stored(steps, id_of(entry)) {
                Some(found) if age_at(found.fetched, now) < CACHE_TTL => shown
                    == InspectionView::Ready(&found.snapshot),
                _ => if awaited(steps, id_of(entry)) {
                    shown is Connecting
                } else {
                    shown is Idle
                },
            },
        },
{
    if let Some(entry) = states.last().selection() {
        lemma_state_follows_history(states, steps, id_of(entry));
    }
}

/// Nothing is inspected while the details pane is closed.
pub proof fn lemma_closed_pane_inspects_nothing(
    state: AppState,
    now: u128,
    due: Option<&ContextEntry>,
)
    requires
        is_due(state, now, due),
        !state.details_open,
    ensures
        due is None,
{
}

/// Typing a character and deleting it again leaves the list as it was.
pub proof fn lemma_typing_is_undone(
    before: AppState,
    typed: AppState,
    after: AppState,
    character: char,
)
    requires
        before.wf(),
        typed.searches(before, before.query@.push(character)),
        after.searches(typed, typed.query@.drop_last()),
    ensures
        after.query@ == before.query@,
        after.visible@ == before.visible@,
{
    assert(before.query@.push(character).drop_last() == before.query@);
    lemma_list_follows_query(
        before.catalog.entries@,
        before.query@,
        after.visible@,
        before.visible@,
    );
}

/// The same name in two kubeconfigs, or the same context in another namespace, is another thing.
pub proof fn lemma_identity(a: ContextEntry, b: ContextEntry)
    ensures
        alike(id_of(a), id_of(b)) ==> a.name@ == b.name@ && paths::same_location(
            a.source@,
            b.source@,
        ) && a.namespace_text() == b.namespace_text(),
        alike(id_of(a), id_of(a)),
{
}

} // verus!
