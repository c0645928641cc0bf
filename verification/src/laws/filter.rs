//! What holds of searching contexts.

use vstd::prelude::*;

use crate::filter;
use crate::filter::Match;
use crate::kubeconfig::ContextEntry;
use crate::laws::paths as path_laws;
use crate::paths;
use crate::text;

verus! {

/// Of the source of a context, the final component is searched: what stands after the last slash.
/// It never holds a slash.
pub proof fn lemma_source_is_searched_by_file_name(
    entry: ContextEntry,
    dir: Seq<char>,
    name: Seq<char>,
)
    requires
        name.len() > 0,
        !name.contains('/'),
        name != seq!['.'],
        name != seq!['.', '.'],
    ensures
        !filter::source_name(entry).contains('/'),
        entry.source@ == dir + seq!['/'] + name || entry.source@ == name ==> filter::source_name(
            entry,
        ) == name,
{
    path_laws::lemma_file_name_is_plain(entry.source@);
    path_laws::lemma_file_name(dir, name);
}

/// Two contexts that differ only in the directory of their source have the same score, whatever
/// is searched for.
pub proof fn lemma_directories_do_not_matter(
    a: &ContextEntry,
    b: &ContextEntry,
    dir_a: Seq<char>,
    dir_b: Seq<char>,
    name: Seq<char>,
    needle: &str,
    score_a: Option<i32>,
    score_b: Option<i32>,
)
    requires
        call_ensures(filter::score_entry, (a, needle), score_a),
        call_ensures(filter::score_entry, (b, needle), score_b),
        *a == (ContextEntry { source: a.source, ..*b }),
        a.source@ == dir_a + seq!['/'] + name,
        b.source@ == dir_b + seq!['/'] + name,
        name.len() > 0,
        !name.contains('/'),
        name != seq!['.'],
        name != seq!['.', '.'],
    ensures
        score_a == score_b,
{
    path_laws::lemma_file_name(dir_a, name);
    path_laws::lemma_file_name(dir_b, name);
}

/// Whether a field has text and the characters of a needle stand in it in order, letter case
/// aside.
pub open spec fn reads(field: Seq<char>, needle: Seq<char>) -> bool {
    field.len() > 0 && exists|places: Seq<int>| #[trigger]
        filter::stands_in_order(text::lowered(field), needle, places)
}

/// A context is found exactly if the needle's characters stand in order in its name, its cluster,
/// its namespace or the final component of its source.
pub proof fn lemma_found_by_four_fields(
    entries: &[ContextEntry],
    query: &str,
    matches: Vec<Match>,
    i: int,
)
    requires
        call_ensures(filter::filter, (entries, query), matches),
        text::lowered(text::trimmed(query@)).len() > 0,
        0 <= i < entries@.len(),
    ensures
        (exists|k: int| 0 <= k < matches@.len() && (#[trigger] matches@[k]).index == i) <==> {
            let needle = text::lowered(text::trimmed(query@));
            ||| reads(entries@[i].name@, needle)
            ||| reads(entries@[i].cluster@, needle)
            ||| entries@[i].namespace matches Some(namespace) && reads(namespace@, needle)
            ||| paths::file_name_of(entries@[i].source@) matches Some(file) && reads(file, needle)
        },
{
    let needle = text::lowered(text::trimmed(query@));
    let entry = entries@[i];
    let scores = filter::entry_scores(entries@, needle);
    assert(scores[i] == filter::entry_quality(entry, needle));
    reveal_strlit("");
    scored_iff_read(entry.name@, needle);
    scored_iff_read(entry.cluster@, needle);
    scored_iff_read(text::text_or(entry.namespace, ""@), needle);
    scored_iff_read(filter::source_name(entry), needle);
    if scores[i] is Some {
        assert(exists|k: int| 0 <= k < matches@.len() && (#[trigger] matches@[k]).index == i);
    }
    if exists|k: int| 0 <= k < matches@.len() && (#[trigger] matches@[k]).index == i {
        let k = choose|k: int| 0 <= k < matches@.len() && (#[trigger] matches@[k]).index == i;
        assert(scores[matches@[k].index as int] == Some(matches@[k].score as int));
    }
}

proof fn scored_iff_read(field: Seq<char>, needle: Seq<char>)
    ensures
        filter::field_quality(field, needle) is Some <==> reads(field, needle),
{
    filter::lemma_scored_iff_in_order(text::lowered(field), needle);
    filter::lemma_greedy_is_complete(text::lowered(field), needle);
}

/// The score of a context is the best among its fields, each counted by its weight: the name by
/// four thousand, the cluster by three, the namespace by two, the final component of the source
/// by one.
pub proof fn lemma_score_is_the_best_field(entry: &ContextEntry, needle: &str, r: Option<i32>)
    requires
        call_ensures(filter::score_entry, (entry, needle), r),
    ensures
        ({
            let name = filter::field_quality(entry.name@, needle@);
            let cluster = filter::field_quality(entry.cluster@, needle@);
            let namespace = match entry.namespace {
                Some(namespace) => filter::field_quality(namespace@, needle@),
                None => None,
            };
            let source = match paths::file_name_of(entry.source@) {
                Some(file) => filter::field_quality(file, needle@),
                None => None,
            };
            match r {
                Some(score) => {
                    &&& name is Some ==> score >= 4000 + name->0
                    &&& cluster is Some ==> score >= 3000 + cluster->0
                    &&& namespace is Some ==> score >= 2000 + namespace->0
                    &&& source is Some ==> score >= 1000 + source->0
                    &&& {
                        ||| name is Some && score == 4000 + name->0
                        ||| cluster is Some && score == 3000 + cluster->0
                        ||| namespace is Some && score == 2000 + namespace->0
                        ||| source is Some && score == 1000 + source->0
                    }
                },
                None => name is None && cluster is None && namespace is None && source is None,
            }
        }),
{
    reveal_strlit("");
}

/// An empty field is never hit; any other field is scored by its text in lower case. A text that
/// is the needle scores 900 and one that starts with it 700; one that holds it further in scores
/// 500, less one for every byte before it up to a hundred.
pub proof fn lemma_substring_scores(front: Seq<char>, needle: Seq<char>, back: Seq<char>)
    requires
        needle.len() > 0,
    ensures
        filter::quality(needle, needle) == Some(900int),
        back.len() > 0 ==> filter::quality(needle + back, needle) == Some(700int),
        front.len() > 0 && text::first_occurrence(front + needle + back, needle) == Some(
            front.len() as int,
        ) ==> filter::quality(front + needle + back, needle) == Some(
            500 - (if text::byte_length(front) < 100 {
                text::byte_length(front) as int
            } else {
                100
            }),
        ),
        filter::field_quality(Seq::empty(), needle) is None,
{
    if back.len() > 0 {
        let whole = needle + back;
        assert(whole.subrange(0, needle.len() as int) == needle);
        text::lemma_next_occurrence(whole, needle, 0);
        assert(text::occurs_at(whole, needle, 0));
        assert(whole.len() > needle.len());
    }
    if front.len() > 0 {
        let whole = front + needle + back;
        assert(whole.take(front.len() as int) == front);
        assert(whole.len() > needle.len());
    }
}

/// What is scored for a field is the quality of the needle in it, as [`lemma_substring_scores`] and
/// [`lemma_scattered_scores`] say, in lower case for a field as it stands.
pub proof fn lemma_scores_of_fields(
    field: &str,
    needle: &str,
    scored: Option<i32>,
    lowered: Option<i32>,
    scattered: Option<i32>,
)
    requires
        call_ensures(filter::field_score, (field, needle), scored),
        call_ensures(filter::lowered_score, (field, needle), lowered),
        call_ensures(filter::subsequence_score, (field, needle), scattered),
    ensures
        field@.len() == 0 ==> scored is None,
        field@.len() > 0 ==> (scored is Some <==> filter::quality(
            text::lowered(field@),
            needle@,
        ) is Some) && (scored matches Some(score) ==> filter::quality(text::lowered(field@), needle@)
            == Some(score as int)),
        lowered is Some <==> filter::quality(field@, needle@) is Some,
        lowered matches Some(score) ==> filter::quality(field@, needle@) == Some(score as int),
        field@ != needle@ && !text::occurs(field@, needle@) ==> (lowered is Some
            <==> scattered is Some) && (lowered is Some ==> lowered->0 == 300 + scattered->0),
        scattered is Some <==> exists|places: Seq<int>| #[trigger]
            filter::stands_in_order(field@, needle@, places),
{
    text::lemma_next_occurrence(field@, needle@, 0);
    text::lemma_occurs(field@, needle@);
    filter::lemma_greedy_is_complete(field@, needle@);
}

/// A needle that stands scattered in a text is taken at its earliest places. It scores 300, less
/// one for each character skipped among them up to 150 and one for each before the first of them
/// up to 50.
pub proof fn lemma_scattered_scores(field: Seq<char>, needle: Seq<char>) -> (places: Seq<int>)
    requires
        needle.len() > 0,
        filter::quality(field, needle) is Some,
        !text::occurs(field, needle),
    ensures
        filter::stands_in_order(field, needle, places),
        forall|other: Seq<int>, i: int|
            filter::stands_in_order(field, needle, other) && 0 <= i < needle.len() ==> places[i]
                <= #[trigger] other[i],
        filter::quality(field, needle) == Some(
            300 - (if places.last() + 1 - needle.len() < 150 {
                places.last() + 1 - needle.len()
            } else {
                150
            }) - (if places[0] < 50 {
                places[0]
            } else {
                50
            }),
        ),
{
    text::lemma_next_occurrence(field, needle, 0);
    text::lemma_occurs(field, needle);
    if field == needle {
        assert(field.subrange(0, field.len() as int) == needle);
        assert(text::occurs_at(field, needle, 0));
    }
    earliest(field, needle)
}

proof fn earliest(field: Seq<char>, needle: Seq<char>) -> (places: Seq<int>)
    requires
        needle.len() > 0,
        filter::gaps(field, needle) is Some,
    ensures
        filter::stands_in_order(field, needle, places),
        forall|other: Seq<int>, i: int|
            filter::stands_in_order(field, needle, other) && 0 <= i < needle.len() ==> places[i]
                <= #[trigger] other[i],
        filter::gaps(field, needle) == Some(places.last() + 1 - needle.len()),
        filter::start(field, needle) == places[0],
    decreases needle.len(),
{
    filter::lemma_position(field, needle[0]);
    let k = filter::position(field, needle[0])->0;
    let shorter = needle.drop_first();
    let tail = field.skip(k + 1);
    if shorter.len() == 0 {
        let places = seq![k];
        assert forall|other: Seq<int>, i: int|
            filter::stands_in_order(field, needle, other) && 0 <= i < needle.len() implies places[i]
            <= #[trigger] other[i] by {
            assert(field[other[0]] == needle[0]);
        }
        places
    } else {
        let rest = earliest(tail, shorter);
        let places = seq![k] + rest.map_values(|p: int| p + k + 1);
        assert(places.len() == needle.len());
        assert forall|i: int| 0 <= i < places.len() implies 0 <= #[trigger] places[i] < field.len()
            && field[places[i]] == needle[i] by {
            if i > 0 {
                assert(0 <= rest[i - 1] < tail.len());
                assert(tail[rest[i - 1]] == shorter[i - 1]);
            }
        }
        assert forall|i: int, j: int| 0 <= i < j < places.len() implies #[trigger] places[i]
            < #[trigger] places[j] by {
            assert(0 <= rest[j - 1]);
            if i > 0 {
                assert(rest[i - 1] < rest[j - 1]);
            }
        }
        assert forall|other: Seq<int>, i: int|
            filter::stands_in_order(field, needle, other) && 0 <= i < needle.len() implies places[i]
            <= #[trigger] other[i] by {
            assert(field[other[0]] == needle[0]);
            assert(k <= other[0]);
            if i > 0 {
                let fewer = Seq::new(shorter.len(), |j: int| other[j + 1] - (k + 1));
                assert forall|j: int| 0 <= j < fewer.len() implies 0 <= #[trigger] fewer[j]
                    < tail.len() && tail[fewer[j]] == shorter[j] by {
                    assert(other[0] < other[j + 1]);
                    assert(field[other[j + 1]] == needle[j + 1]);
                }
                assert forall|j: int, l: int| 0 <= j < l < fewer.len() implies #[trigger] fewer[j]
                    < #[trigger] fewer[l] by {
                    assert(other[j + 1] < other[l + 1]);
                }
                assert(filter::stands_in_order(tail, shorter, fewer));
                assert(rest[i - 1] <= fewer[i - 1]);
            }
        }
        assert(places.last() == rest.last() + k + 1);
        places
    }
}

/// A ranking holds exactly what was scored, the better first and equal scores in their order.
pub proof fn lemma_ranking(scores: &Vec<Option<i32>>, r: Vec<Match>)
    requires
        call_ensures(filter::rank, (scores,), r),
    ensures
        forall|k: int|
            0 <= k < r@.len() ==> (#[trigger] r@[k]).index < scores@.len()
                && scores@[r@[k].index as int] == Some(r@[k].score),
        forall|i: int|
            0 <= i < scores@.len() && #[trigger] scores@[i] is Some ==> exists|k: int|
                0 <= k < r@.len() && (#[trigger] r@[k]).index == i,
        forall|j: int, k: int|
            0 <= j < k < r@.len() ==> (#[trigger] r@[j]).score > (#[trigger] r@[k]).score || (
            r@[j].score == r@[k].score && r@[j].index < r@[k].index),
{
    let all = Seq::new(scores@.len(), |i: int| filter::as_score(scores@[i]));
    assert forall|k: int| 0 <= k < r@.len() implies (#[trigger] r@[k]).index < scores@.len()
        && scores@[r@[k].index as int] == Some(r@[k].score) by {
        assert(all[r@[k].index as int] == filter::as_score(scores@[r@[k].index as int]));
    }
    assert forall|i: int| 0 <= i < scores@.len() && #[trigger] scores@[i] is Some implies exists|
        k: int,
    |
        0 <= k < r@.len() && (#[trigger] r@[k]).index == i by {
        assert(all[i] is Some);
    }
    assert forall|j: int, k: int| 0 <= j < k < r@.len() implies (#[trigger] r@[j]).score > (
    #[trigger] r@[k]).score || (r@[j].score == r@[k].score && r@[j].index < r@[k].index) by {
        assert(filter::ahead(r@[j], r@[k]));
    }
}

/// What is found is ordered by score, the better first, and where scores are equal by the order of
/// the list; the empty query keeps the order of the list.
pub proof fn lemma_order_of_matches(
    entries: &[ContextEntry],
    query: &str,
    matches: Vec<Match>,
    j: int,
    k: int,
)
    requires
        call_ensures(filter::filter, (entries, query), matches),
        0 <= j < k < matches@.len(),
        entries@.len() <= usize::MAX,
    ensures
        matches@[j].score >= matches@[k].score,
        matches@[j].score == matches@[k].score ==> matches@[j].index < matches@[k].index,
        text::trimmed(query@).len() > 0 && text::lowered(text::trimmed(query@)).len() > 0
            ==> filter::entry_quality(
            entries@[matches@[j].index as int],
            text::lowered(text::trimmed(query@)),
        ) == Some(matches@[j].score as int),
{
    let needle = text::lowered(text::trimmed(query@));
    if needle.len() > 0 {
        let scores = filter::entry_scores(entries@, needle);
        assert(filter::ahead(matches@[j], matches@[k]));
        assert(scores[matches@[j].index as int] == Some(matches@[j].score as int));
    }
}

} // verus!
