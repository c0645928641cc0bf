//! What holds of the state behind the list of contexts.

use vstd::prelude::*;

use crate::app;
use crate::app::{AppState, CacheEntry, InputMode, InspectionKey, InspectionView};
use crate::filter;
use crate::filter::Match;
use crate::kubeconfig::{ContextCatalog, ContextEntry};
use crate::kubernetes::inspection::Inspection;
use crate::paths;

verus! {

// ---------------------------------------------------------------------------------------------
// The list
// ---------------------------------------------------------------------------------------------
/// The list starts with every context in order, the cursor on the active one or on the first,
/// nothing searched for and nothing inspected.
pub proof fn lemma_new(catalog: ContextCatalog, r: AppState)
    requires
        call_ensures(AppState::new, (catalog,), r),
    ensures
        r.wf(),
        r.catalog == catalog,
        r.query@.len() == 0,
        r.visible@.len() == catalog.entries@.len(),
        forall|i: int| 0 <= i < r.visible@.len() ==> #[trigger] r.visible@[i] == i as usize,
        catalog.active_index is Some && catalog.active_index->0 < catalog.entries@.len()
            ==> r.cursor == catalog.active_index->0,
        catalog.active_index is None ==> r.cursor == 0,
        r.mode is Normal,
        !r.details_open,
        r.inspections@.len() == 0,
        r.in_flight@.len() == 0,
{
}

/// What is listed is what the search finds, in its order, and the cursor stands on it.
pub proof fn lemma_listed(state: AppState) -> (matches: Seq<Match>)
    requires
        state.wf(),
    ensures
        filter::finds(state.catalog.entries@, state.query@, matches),
        state.visible@.len() == matches.len(),
        forall|i: int|
            0 <= i < matches.len() ==> #[trigger] state.visible@[i] == matches[i].index,
        matches.len() > 0 ==> state.cursor < matches.len(),
        matches.len() == 0 ==> state.cursor == 0,
{
    let matches = choose|matches: Seq<Match>| #[trigger]
        filter::finds(state.catalog.entries@, state.query@, matches) && state.visible@
            == app::indices(matches);
    matches
}

/// The selected context is the one under the cursor, and there is none exactly if nothing is
/// listed.
pub proof fn lemma_selected(state: &AppState, r: Option<&ContextEntry>)
    requires
        state.wf(),
        call_ensures(AppState::selected, (state,), r),
    ensures
        r is None <==> state.visible@.len() == 0,
        r matches Some(entry) ==> *entry
            == state.catalog.entries@[state.visible@[state.cursor as int] as int],
{
}

/// Moving goes as far as asked for, but not past either end of the list, and changes nothing else.
pub proof fn lemma_move(state: &mut AppState, delta: isize)
    requires
        old(state).wf(),
        call_ensures(AppState::move_cursor, (state, delta), ()),
    ensures
        *final(state) == (AppState { cursor: final(state).cursor, ..*old(state) }),
        0 <= old(state).cursor + delta < old(state).visible@.len() ==> final(state).cursor
            == old(state).cursor + delta,
        old(state).cursor + delta < 0 ==> final(state).cursor == 0,
        old(state).cursor + delta >= old(state).visible@.len() > 0 ==> final(state).cursor
            == old(state).visible@.len() - 1,
        old(state).visible@.len() == 0 ==> final(state).cursor == 0,
{
}

/// The ends of the list are its first and its last context.
pub proof fn lemma_ends(first: &mut AppState, last: &mut AppState)
    requires
        call_ensures(AppState::cursor_to_start, (first,), ()),
        call_ensures(AppState::cursor_to_end, (last,), ()),
    ensures
        *final(first) == (AppState { cursor: 0, ..*old(first) }),
        *final(last) == (AppState { cursor: final(last).cursor, ..*old(last) }),
        old(last).visible@.len() > 0 ==> final(last).cursor == old(last).visible@.len() - 1,
        old(last).visible@.len() == 0 ==> final(last).cursor == 0,
{
}

/// Whether a state is another with a different search: the selection stays on its context while
/// that is listed, else it goes to the first, and nothing else changes.
pub open spec fn searches(before: AppState, query: Seq<char>, after: AppState) -> bool {
    &&& after.wf()
    &&& after.query@ == query
    &&& after.catalog == before.catalog
    &&& after.mode == before.mode
    &&& after.details_open == before.details_open
    &&& after.inspections == before.inspections
    &&& after.in_flight == before.in_flight
    &&& before.visible@.len() > 0 && after.visible@.contains(
        before.visible@[before.cursor as int],
    ) ==> after.visible@[after.cursor as int] == before.visible@[before.cursor as int]
    &&& before.visible@.len() == 0 || !after.visible@.contains(
        before.visible@[before.cursor as int],
    ) ==> after.cursor == 0
}

/// A search may be set, grown by a character, shortened by the last one or cleared.
pub proof fn lemma_searching(
    set: &mut AppState,
    query: &str,
    grown: &mut AppState,
    c: char,
    cut: &mut AppState,
    cleared: &mut AppState,
    was_set: bool,
)
    requires
        old(set).wf(),
        call_ensures(AppState::set_query, (set, query), ()),
        old(grown).wf(),
        call_ensures(AppState::push_query_char, (grown, c), ()),
        old(cut).wf(),
        call_ensures(AppState::pop_query_char, (cut,), ()),
        old(cleared).wf(),
        call_ensures(AppState::clear_query, (cleared,), was_set),
    ensures
        searches(*old(set), query@, *final(set)),
        searches(*old(grown), old(grown).query@.push(c), *final(grown)),
        old(cut).query@.len() > 0 ==> searches(
            *old(cut),
            old(cut).query@.drop_last(),
            *final(cut),
        ),
        old(cut).query@.len() == 0 ==> searches(*old(cut), Seq::empty(), *final(cut)),
        was_set <==> old(cleared).query@.len() > 0,
        was_set ==> searches(*old(cleared), Seq::empty(), *final(cleared)),
        !was_set ==> *final(cleared) == *old(cleared),
{
    if old(cut).query@.len() == 0 {
        assert(old(cut).query@ == Seq::<char>::empty());
    }
}

// ---------------------------------------------------------------------------------------------
// Inspections
// ---------------------------------------------------------------------------------------------
/// An inspection is known by the name of the context, its file and the namespace in effect.
pub proof fn lemma_key(entry: &ContextEntry, r: InspectionKey)
    requires
        call_ensures(InspectionKey::of, (entry,), r),
    ensures
        r.context@ == entry.name@,
        r.source@ == entry.source@,
        entry.namespace matches Some(namespace) ==> r.namespace@ == namespace@,
        entry.namespace is None ==> r.namespace@ == "default"@,
{
}

/// Whether a key stands for a context: same name, same file, same namespace in effect.
pub open spec fn stands_for(key: InspectionKey, entry: ContextEntry) -> bool {
    &&& key.context@ == entry.name@
    &&& paths::same_location(key.source@, entry.source@)
    &&& key.namespace@ == (match entry.namespace {
        Some(namespace) => namespace@,
        None => "default"@,
    })
}

/// A kept inspection is fresh for thirty seconds.
pub proof fn lemma_freshness(kept: &CacheEntry, now: u128, r: Option<&Inspection>)
    requires
        call_ensures(CacheEntry::if_fresh, (kept, now), r),
    ensures
        r is Some <==> now < kept.fetched + 30_000_000_000,
        r matches Some(snapshot) ==> *snapshot == kept.snapshot,
{
}

/// What was stored for a context is served for thirty seconds and no longer, and shown while the
/// context is selected; it is no longer awaited. Nothing else changes.
pub proof fn lemma_stored_is_served(
    state: &mut AppState,
    snapshot: Inspection,
    key: InspectionKey,
    stored: u128,
    entry: &ContextEntry,
    now: u128,
    served: Option<&Inspection>,
    shown: InspectionView,
)
    requires
        old(state).wf(),
        call_ensures(AppState::store_inspection_at, (state, snapshot, key, stored), ()),
        stands_for(key, *entry),
        call_ensures(AppState::cached_snapshot_at, (&*final(state), entry, now), served),
        call_ensures(AppState::inspection_view_at, (&*final(state), now), shown),
    ensures
        served is Some <==> now < stored + 30_000_000_000,
        served matches Some(found) ==> *found == snapshot,
        old(state).selection() == Some(*entry) ==> {
            &&& now < stored + 30_000_000_000 ==> shown == InspectionView::Ready(&snapshot)
            &&& now >= stored + 30_000_000_000 ==> shown is Idle
        },
        final(state).catalog == old(state).catalog,
        final(state).query == old(state).query,
        final(state).visible == old(state).visible,
        final(state).cursor == old(state).cursor,
        final(state).mode == old(state).mode,
        final(state).details_open == old(state).details_open,
{
    let id = app::id_of(*entry);
    assert(app::alike(key.id(), id));
    let kept = app::stamped(key, stored, snapshot);
    assert(app::held(final(state).inspections@, id) == Some(kept));
    assert(!app::requested(final(state).in_flight@, id));
}

/// What was stored for one context changes nothing for another.
pub proof fn lemma_stored_for_another(
    state: &mut AppState,
    snapshot: Inspection,
    key: InspectionKey,
    stored: u128,
    entry: &ContextEntry,
    now: u128,
    before: Option<&Inspection>,
    after: Option<&Inspection>,
)
    requires
        old(state).wf(),
        call_ensures(AppState::store_inspection_at, (state, snapshot, key, stored), ()),
        !stands_for(key, *entry),
        call_ensures(AppState::cached_snapshot_at, (&*old(state), entry, now), before),
        call_ensures(AppState::cached_snapshot_at, (&*final(state), entry, now), after),
    ensures
        before == after,
{
    let id = app::id_of(*entry);
    assert(!app::alike(key.id(), id));
    assert(app::held(final(state).inspections@, id) == app::held(old(state).inspections@, id));
}

/// A context whose inspection was asked for is shown as connecting while nothing fresh is kept for
/// it, and is not due again.
pub proof fn lemma_requested_is_awaited(
    state: &mut AppState,
    entry: &ContextEntry,
    now: u128,
    shown: InspectionView,
    due: Option<&ContextEntry>,
)
    requires
        old(state).wf(),
        call_ensures(AppState::mark_in_flight, (state, entry), ()),
        old(state).selection() == Some(*entry),
        call_ensures(AppState::inspection_view_at, (&*final(state), now), shown),
        call_ensures(AppState::inspection_due_at, (&*final(state), now), due),
    ensures
        shown is Ready || shown is Connecting,
        due is None,
        final(state).inspections == old(state).inspections,
        final(state).visible == old(state).visible,
        final(state).cursor == old(state).cursor,
{
    let id = app::id_of(*entry);
    assert(app::alike(id, id));
    assert(app::requested(final(state).in_flight@, id));
}

/// Refreshing drops what is kept for the selected context, whatever its age, so that it is
/// inspected again while its details are open; without a selection nothing changes.
pub proof fn lemma_refresh(
    state: &mut AppState,
    now: u128,
    shown: InspectionView,
    due: Option<&ContextEntry>,
)
    requires
        old(state).wf(),
        call_ensures(AppState::invalidate_selected, (state,), ()),
        call_ensures(AppState::inspection_view_at, (&*final(state), now), shown),
        call_ensures(AppState::inspection_due_at, (&*final(state), now), due),
    ensures
        !(shown is Ready),
        old(state).selection() matches Some(entry) ==> {
            &&& shown is Connecting <==> app::requested(old(state).in_flight@, app::id_of(entry))
            &&& due is Some <==> old(state).details_open && !(shown is Connecting)
            &&& due is Some ==> *due->0 == entry
        },
        old(state).selection() is None ==> *final(state) == *old(state) && due is None
            && shown is Idle,
        final(state).in_flight == old(state).in_flight,
        final(state).visible == old(state).visible,
        final(state).cursor == old(state).cursor,
{
    if let Some(entry) = old(state).selection() {
        let id = app::id_of(entry);
        assert(app::alike(id, id));
        assert(app::held(final(state).inspections@, id) is None);
    }
}

/// An inspection is due exactly if the details are open and a context is selected of which neither
/// a fresh inspection is kept nor one awaited.
pub proof fn lemma_due(
    state: &AppState,
    now: u128,
    shown: InspectionView,
    due: Option<&ContextEntry>,
)
    requires
        state.wf(),
        call_ensures(AppState::inspection_view_at, (state, now), shown),
        call_ensures(AppState::inspection_due_at, (state, now), due),
    ensures
        due is Some <==> state.details_open && state.visible@.len() > 0 && shown is Idle,
        due matches Some(entry) ==> *entry
            == state.catalog.entries@[state.visible@[state.cursor as int] as int],
{
}

/// Changing the mode changes nothing else.
pub proof fn lemma_set_mode(state: &mut AppState, mode: InputMode)
    requires
        call_ensures(AppState::set_mode, (state, mode), ()),
    ensures
        final(state).mode == mode,
        *final(state) == (AppState { mode: final(state).mode, ..*old(state) }),
{
}

/// What can be asked of a state is what it holds.
pub proof fn lemma_reading(
    state: &AppState,
    query: &str,
    mode: InputMode,
    count: usize,
    cursor: usize,
    visible: Vec<&ContextEntry>,
)
    requires
        state.wf(),
        call_ensures(AppState::query, (state,), query),
        call_ensures(AppState::mode, (state,), mode),
        call_ensures(AppState::visible_len, (state,), count),
        call_ensures(AppState::cursor, (state,), cursor),
        call_ensures(AppState::visible, (state,), visible),
    ensures
        query@ == state.query@,
        mode == state.mode,
        count == state.visible@.len(),
        cursor == state.cursor,
        visible@.len() == state.visible@.len(),
        forall|i: int|
            0 <= i < visible@.len() ==> *#[trigger] visible@[i]
                == state.catalog.entries@[state.visible@[i] as int],
{
}

/// What is kept for a context is an entry whose key stands for it, and nothing is kept exactly if
/// no key does; likewise for what is awaited.
pub proof fn lemma_kept_and_awaited(
    cache: Seq<CacheEntry>,
    keys: Seq<InspectionKey>,
    entry: ContextEntry,
)
    ensures
        app::held(cache, app::id_of(entry)) matches Some(kept) ==> exists|k: int|
            0 <= k < cache.len() && #[trigger] cache[k] == kept && stands_for(cache[k].key, entry),
        app::held(cache, app::id_of(entry)) is None ==> forall|k: int|
            0 <= k < cache.len() ==> !stands_for((#[trigger] cache[k]).key, entry),
        app::requested(keys, app::id_of(entry)) <==> exists|k: int|
            0 <= k < keys.len() && stands_for(#[trigger] keys[k], entry),
{
    let id = app::id_of(entry);
    match app::held(cache, id) {
        Some(kept) => {
            let at = choose|at: int| app::holds(cache, id, at);
            assert(cache[at] == kept);
            assert(stands_for(cache[at].key, entry));
        },
        None => {
            assert forall|k: int| 0 <= k < cache.len() implies !stands_for(
                (#[trigger] cache[k]).key,
                entry,
            ) by {
                assert(!app::holds(cache, id, k));
            }
        },
    }
    if exists|k: int| 0 <= k < keys.len() && stands_for(#[trigger] keys[k], entry) {
        let k = choose|k: int| 0 <= k < keys.len() && stands_for(#[trigger] keys[k], entry);
        assert(app::alike(keys[k].id(), id));
    }
}

/// Without a time given, what is kept, shown and due is as at some time, and what is stored is
/// stored as at some time.
pub proof fn lemma_at_some_time(
    state: &AppState,
    entry: &ContextEntry,
    kept: Option<&Inspection>,
    shown: InspectionView,
    due: Option<&ContextEntry>,
    stored: &mut AppState,
    snapshot: Inspection,
    key: InspectionKey,
)
    requires
        state.wf(),
        call_ensures(AppState::cached_snapshot, (state, entry), kept),
        call_ensures(AppState::inspection_view, (state,), shown),
        call_ensures(AppState::inspection_due, (state,), due),
        old(stored).wf(),
        call_ensures(AppState::store_inspection, (stored, snapshot, key), ()),
    ensures
        exists|now: u128| #[trigger] app::is_cached(state.inspections@, *entry, now, kept),
        exists|now: u128| #[trigger] app::is_view(*state, now, shown),
        exists|now: u128| #[trigger] app::is_due(*state, now, due),
        exists|now: u128| #[trigger]
            final(stored).stores(
                *old(stored),
                CacheEntry { key, fetched: now, snapshot },
            ),
        !state.details_open ==> due is None,
{
    let now = choose|now: u128|
        final(stored).stores(*old(stored), #[trigger] app::stamped(key, now, snapshot));
    assert(final(stored).stores(*old(stored), CacheEntry { key, fetched: now, snapshot }));
}

} // verus!
