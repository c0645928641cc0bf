//! Search/filter scoring for the context list.
//!
//! Pure functions over the context model: no I/O, no terminal, no Kubernetes. The matcher is a
//! case-insensitive subsequence matcher with a small ranking scheme — plenty for the handful of
//! contexts a kubeconfig set contains, and cheap enough to re-run on every keystroke.

use vstd::prelude::*;
use vstd::utf8::*;

use crate::kubeconfig::ContextEntry;
use crate::paths;
use crate::text;
use crate::text::{capped_byte_length, chars_of, find, str_or, to_lowercase, trim};

verus! {

/// Fields are ranked before match quality, so a weak hit on the context name still beats a
/// perfect hit on a cluster or a file name.
pub const WEIGHT_NAME: i32 = 4000;

/// Weight of a hit on the cluster.
pub const WEIGHT_CLUSTER: i32 = 3000;

/// Weight of a hit on the namespace.
pub const WEIGHT_NAMESPACE: i32 = 2000;

/// Weight of a hit on the name of the source file.
pub const WEIGHT_SOURCE: i32 = 1000;

/// A context that matched, with its ranking score.
#[derive(Debug, Clone, Copy, PartialEq, Eq, Structural)]
pub struct Match {
    /// Index into the entry slice that was searched.
    pub index: usize,
    /// Higher is better.
    pub score: i32,
}

// ---------------------------------------------------------------------------------------------
// Subsequences
// ---------------------------------------------------------------------------------------------
/// Where a character first stands in a text.
pub open spec fn position(text: Seq<char>, c: char) -> Option<int>
    decreases text.len(),
{
    if text.len() == 0 {
        None
    } else if text[0] == c {
        Some(0)
    } else {
        match position(text.drop_first(), c) {
            Some(k) => Some(k + 1),
            None => None,
        }
    }
}

/// How many characters of a text are skipped when the characters of a needle are looked for one
/// after the other, each at its first place behind the one before.
pub open spec fn gaps(text: Seq<char>, needle: Seq<char>) -> Option<int>
    decreases needle.len(),
{
    if needle.len() == 0 {
        Some(0)
    } else {
        match position(text, needle[0]) {
            Some(k) => match gaps(text.skip(k + 1), needle.drop_first()) {
                Some(rest) => Some(k + rest),
                None => None,
            },
            None => None,
        }
    }
}

/// How many characters stand before the first character of a needle.
pub open spec fn start(text: Seq<char>, needle: Seq<char>) -> int {
    if needle.len() == 0 {
        0
    } else {
        match position(text, needle[0]) {
            Some(k) => k,
            None => 0,
        }
    }
}

/// The smaller of two numbers.
pub open spec fn least(a: int, b: int) -> int {
    if a < b {
        a
    } else {
        b
    }
}

/// The adjustment for how scattered a subsequence is and how late it starts.
pub open spec fn scatter(text: Seq<char>, needle: Seq<char>) -> Option<int> {
    match gaps(text, needle) {
        Some(skipped) => Some(-least(skipped, 150) - least(start(text, needle), 50)),
        None => None,
    }
}

/// The place that is found is the first one.
pub proof fn lemma_position(text: Seq<char>, c: char)
    ensures
        match position(text, c) {
            Some(k) => {
                &&& 0 <= k < text.len()
                &&& text[k] == c
                &&& forall|i: int| 0 <= i < k ==> #[trigger] text[i] != c
            },
            None => forall|i: int| 0 <= i < text.len() ==> #[trigger] text[i] != c,
        },
    decreases text.len(),
{
    if text.len() > 0 && text[0] != c {
        let rest = text.drop_first();
        lemma_position(rest, c);
        assert forall|i: int| 0 < i < text.len() implies text[i] == rest[i - 1] by {}
        match position(rest, c) {
            Some(k) => {
                assert forall|i: int| 0 <= i < k + 1 implies #[trigger] text[i] != c by {
                    if i > 0 {
                        assert(text[i] == rest[i - 1]);
                    }
                }
            },
            None => {
                assert forall|i: int| 0 <= i < text.len() implies #[trigger] text[i] != c by {
                    if i > 0 {
                        assert(text[i] == rest[i - 1]);
                    }
                }
            },
        }
    }
}

proof fn lemma_position_at(text: Seq<char>, c: char, k: int)
    requires
        0 <= k <= text.len(),
        forall|i: int| 0 <= i < k ==> #[trigger] text[i] != c,
        k < text.len() ==> text[k] == c,
    ensures
        position(text, c) == (if k < text.len() {
            Some(k)
        } else {
            None
        }),
{
    lemma_position(text, c);
}

/// The sum of two numbers, at most `cap`.
fn capped_sum(a: usize, b: usize, cap: usize) -> (r: usize)
    requires
        a <= cap,
    ensures
        r == least(a + b, cap as int),
{
    if b < cap - a {
        a + b
    } else {
        cap
    }
}

/// Greedy subsequence match: every needle character must appear in order.
///
/// Returns a small negative-or-zero adjustment reflecting how tightly packed the match is, so
/// `pr-eu` scores better against `prod-eu` than against `p-r-o-b-e-u`.
pub fn subsequence_score(field: &str, needle: &str) -> (r: Option<i32>)
    ensures
        match r {
            Some(score) => scatter(field@, needle@) == Some(score as int),
            None => scatter(field@, needle@) is None,
        },
{
    let field_chars = chars_of(field);
    let needle_chars = chars_of(needle);
    let ghost text = field@;
    let ghost wanted = needle@;
    let mut at: usize = 0;
    let mut skipped: usize = 0;
    let mut first: usize = 0;
    let ghost mut total: int = 0;
    proof {
        assert(text.skip(0) == text);
        assert(wanted.skip(0) == wanted);
    }
    for n in 0..needle_chars.len()
        invariant
            text == field@,
            wanted == needle@,
            field_chars@ == text,
            needle_chars@ == wanted,
            at <= field_chars.len(),
            total >= 0,
            skipped == least(total, 150),
            n > 0 ==> first == start(text, wanted),
            n == 0 ==> first == 0 && at == 0,
            gaps(text, wanted) == (match gaps(text.skip(at as int), wanted.skip(n as int)) {
                Some(rest) => Some(total + rest),
                None => None,
            }),
    {
        let c: char = needle_chars[n];
        let ghost rest = text.skip(at as int);
        let mut k: usize = 0;
        while at + k < field_chars.len() && field_chars[at + k] != c
            invariant
                field_chars@ == text,
                at + k <= field_chars.len(),
                rest == text.skip(at as int),
                forall|i: int| 0 <= i < k ==> #[trigger] rest[i] != c,
            decreases field_chars.len() - at - k,
        {
            k = k + 1;
        }
        proof {
            lemma_position_at(rest, c, k as int);
            assert(wanted.skip(n as int)[0] == c);
            assert(wanted.skip(n as int).drop_first() == wanted.skip(n + 1));
        }
        if at + k >= field_chars.len() {
            return None;
        }
        proof {
            assert(rest.skip(k + 1) == text.skip(at + k + 1));
            if n == 0 {
                assert(rest == text);
                assert(wanted[0] == c);
            }
            total = total + k;
        }
        if n == 0 {
            first = k;
        }
        skipped = capped_sum(skipped, k, 150);
        at = at + k + 1;
    }
    proof {
        assert(wanted.skip(wanted.len() as int).len() == 0);
    }
    let late: usize = if first < 50 {
        first
    } else {
        50
    };
    Some(-(skipped as i32) - (late as i32))
}

// ---------------------------------------------------------------------------------------------
// Fields and entries
// ---------------------------------------------------------------------------------------------
/// The score of a field in lower case.
///
/// Quality tiers: exact, prefix, contiguous substring, then subsequence — each penalised by how
/// late the match starts (in bytes) and, for subsequences, by how scattered it is.
pub open spec fn quality(field: Seq<char>, needle: Seq<char>) -> Option<int> {
    if field == needle {
        Some(900)
    } else {
        match text::first_occurrence(field, needle) {
            Some(k) => if k == 0 {
                Some(700)
            } else {
                Some(500 - least(text::byte_length(field.take(k)) as int, 100))
            },
            None => match scatter(field, needle) {
                Some(adjustment) => Some(300 + adjustment),
                None => None,
            },
        }
    }
}

/// The score of a field as it is written, which is none where the field is empty.
pub open spec fn field_quality(field: Seq<char>, needle: Seq<char>) -> Option<int> {
    if field.len() == 0 {
        None
    } else {
        quality(text::lowered(field), needle)
    }
}

/// Score a field that is in lower case already.
pub fn lowered_score(field: &str, needle: &str) -> (r: Option<i32>)
    ensures
        match r {
            Some(score) => quality(field@, needle@) == Some(score as int) && 100 <= score <= 900,
            None => quality(field@, needle@) is None,
        },
{
    let field_chars = chars_of(field);
    let needle_chars = chars_of(needle);
    if text::same_text(field, needle) {
        return Some(900);
    }
    if let Some(k) = find(&field_chars, &needle_chars) {
        if k == 0 {
            return Some(700);
        }
        proof {
            text::lemma_next_occurrence(field@, needle@, 0);
        }
        let penalty: usize = capped_byte_length(&field_chars, k, 100);
        return Some(500 - penalty as i32);
    }
    match subsequence_score(field, needle) {
        Some(adjustment) => {
            proof {
                lemma_scatter_bounds(field@, needle@);
            }
            Some(300 + adjustment)
        },
        None => None,
    }
}

/// Score a single field, or `None` when it does not match at all.
pub fn field_score(field: &str, needle: &str) -> (r: Option<i32>)
    ensures
        match r {
            Some(score) => field_quality(field@, needle@) == Some(score as int) && 100 <= score
                <= 900,
            None => field_quality(field@, needle@) is None,
        },
{
    if field.is_empty() {
        return None;
    }
    lowered_score(to_lowercase(field).as_str(), needle)
}

proof fn lemma_gaps_bounds(text: Seq<char>, needle: Seq<char>)
    ensures
        gaps(text, needle) is Some ==> 0 <= start(text, needle) <= gaps(text, needle)->0,
    decreases needle.len(),
{
    if needle.len() > 0 {
        lemma_position(text, needle[0]);
        if let Some(k) = position(text, needle[0]) {
            lemma_gaps_bounds(text.skip(k + 1), needle.drop_first());
        }
    }
}

proof fn lemma_scatter_bounds(text: Seq<char>, needle: Seq<char>)
    ensures
        scatter(text, needle) is Some ==> -200 <= scatter(text, needle)->0 <= 0,
{
    lemma_gaps_bounds(text, needle);
}

/// The better of two optional scores.
pub open spec fn best(a: Option<int>, b: Option<int>) -> Option<int> {
    match (a, b) {
        (Some(x), Some(y)) => Some(
            if x < y {
                y
            } else {
                x
            },
        ),
        (Some(x), None) => Some(x),
        (None, _) => b,
    }
}

/// A field score with the weight of the field.
pub open spec fn weighted(weight: i32, score: Option<int>) -> Option<int> {
    match score {
        Some(score) => Some(weight + score),
        None => None,
    }
}

/// The best weighted score among the four searchable fields.
pub open spec fn overall(
    name: Option<int>,
    cluster: Option<int>,
    namespace: Option<int>,
    source: Option<int>,
) -> Option<int> {
    best(
        weighted(WEIGHT_NAME, name),
        best(
            weighted(WEIGHT_CLUSTER, cluster),
            best(weighted(WEIGHT_NAMESPACE, namespace), weighted(WEIGHT_SOURCE, source)),
        ),
    )
}

/// The name of the file a context came from; empty where its path has none.
pub open spec fn source_name(entry: ContextEntry) -> Seq<char> {
    match paths::file_name_of(entry.source@) {
        Some(name) => name,
        None => Seq::empty(),
    }
}

/// The score of a context for a needle in lower case.
pub open spec fn entry_quality(entry: ContextEntry, needle: Seq<char>) -> Option<int> {
    overall(
        field_quality(entry.name@, needle),
        field_quality(entry.cluster@, needle),
        field_quality(text::text_or(entry.namespace, ""@), needle),
        field_quality(source_name(entry), needle),
    )
}

/// An optional score as a number.
pub open spec fn as_score(score: Option<i32>) -> Option<int> {
    match score {
        Some(score) => Some(score as int),
        None => None,
    }
}

fn better_of(a: Option<i32>, b: Option<i32>) -> (r: Option<i32>)
    ensures
        as_score(r) == best(as_score(a), as_score(b)),
        r == a || r == b,
{
    match (a, b) {
        (Some(x), Some(y)) => if x < y {
            Some(y)
        } else {
            Some(x)
        },
        (Some(x), None) => Some(x),
        (None, _) => b,
    }
}

fn add_weight(weight: i32, score: Option<i32>) -> (r: Option<i32>)
    requires
        0 <= weight <= 4000,
        score is Some ==> score->0 <= 900,
    ensures
        as_score(r) == weighted(weight, as_score(score)),
{
    match score {
        Some(score) => Some(weight + score),
        None => None,
    }
}

/// Combine the scores of the four searchable fields.
pub fn weigh(
    name: Option<i32>,
    cluster: Option<i32>,
    namespace: Option<i32>,
    source: Option<i32>,
) -> (r: Option<i32>)
    requires
        name is Some ==> name->0 <= 900,
        cluster is Some ==> cluster->0 <= 900,
        namespace is Some ==> namespace->0 <= 900,
        source is Some ==> source->0 <= 900,
    ensures
        as_score(r) == overall(
            as_score(name),
            as_score(cluster),
            as_score(namespace),
            as_score(source),
        ),
{
    better_of(
        add_weight(WEIGHT_NAME, name),
        better_of(
            add_weight(WEIGHT_CLUSTER, cluster),
            better_of(add_weight(WEIGHT_NAMESPACE, namespace), add_weight(WEIGHT_SOURCE, source)),
        ),
    )
}

/// Best score across the searchable fields of one context.
pub fn score_entry(entry: &ContextEntry, needle: &str) -> (r: Option<i32>)
    ensures
        as_score(r) == entry_quality(*entry, needle@),
{
    let source = match paths::file_name(entry.source.as_str()) {
        Some(name) => name,
        None => String::new(),
    };
    proof {
        assert(source@ == source_name(*entry));
    }
    weigh(
        field_score(entry.name.as_str(), needle),
        field_score(entry.cluster.as_str(), needle),
        field_score(str_or(&entry.namespace, ""), needle),
        field_score(source.as_str(), needle),
    )
}

// ---------------------------------------------------------------------------------------------
// Ranking
// ---------------------------------------------------------------------------------------------
/// Whether a match stands before another: by score, and among equal scores by position.
pub open spec fn ahead(a: Match, b: Match) -> bool {
    a.score > b.score || (a.score == b.score && a.index < b.index)
}

/// Whether `matches` ranks exactly the first `count` entries that have a score, best first and
/// ties in order.
pub open spec fn ranks(scores: Seq<Option<int>>, count: int, matches: Seq<Match>) -> bool {
    &&& forall|k: int|
        0 <= k < matches.len() ==> {
            &&& (#[trigger] matches[k]).index < count
            &&& scores[matches[k].index as int] == Some(matches[k].score as int)
        }
    &&& forall|i: int|
        0 <= i < count && #[trigger] scores[i] is Some ==> exists|k: int|
            0 <= k < matches.len() && (#[trigger] matches[k]).index == i
    &&& forall|j: int, k: int|
        0 <= j < k < matches.len() ==> ahead(#[trigger] matches[j], #[trigger] matches[k])
}

/// Whether `matches` is the ranking of a list of scores.
pub open spec fn is_ranking(scores: Seq<Option<int>>, matches: Seq<Match>) -> bool {
    ranks(scores, scores.len() as int, matches)
}

/// The scores of a list of contexts.
pub open spec fn entry_scores(entries: Seq<ContextEntry>, needle: Seq<char>) -> Seq<Option<int>> {
    Seq::new(entries.len(), |i: int| entry_quality(entries[i], needle))
}

/// Every position, in order, with the same score.
pub open spec fn unranked(count: nat) -> Seq<Match> {
    Seq::new(count, |i: int| Match { index: i as usize, score: 0 })
}

/// Whether `matches` is what a query finds, best first: every entry in order where the query is
/// empty but for white space, else the ranking of the entries for the query in lower case.
pub open spec fn finds(entries: Seq<ContextEntry>, query: Seq<char>, matches: Seq<Match>) -> bool {
    let needle = text::lowered(text::trimmed(query));
    if needle.len() == 0 {
        matches == unranked(entries.len())
    } else {
        is_ranking(entry_scores(entries, needle), matches)
    }
}

/// Put a match behind all that score at least as high.
fn place(matches: &mut Vec<Match>, entry: Match)
    requires
        forall|j: int, k: int|
            0 <= j < k < old(matches)@.len() ==> ahead(
                #[trigger] old(matches)@[j],
                #[trigger] old(matches)@[k],
            ),
    ensures
        exists|at: int|
            {
                &&& 0 <= at <= old(matches)@.len()
                &&& final(matches)@ == #[trigger] old(matches)@.insert(at, entry)
                &&& forall|k: int| 0 <= k < at ==> #[trigger] old(matches)@[k].score >= entry.score
                &&& forall|k: int|
                    at <= k < old(matches)@.len() ==> #[trigger] old(matches)@[k].score
                        < entry.score
            },
{
    let mut at: usize = 0;
    while at < matches.len() && matches[at].score >= entry.score
        invariant
            matches@ == old(matches)@,
            at <= matches.len(),
            forall|k: int| 0 <= k < at ==> #[trigger] matches@[k].score >= entry.score,
        decreases matches.len() - at,
    {
        at = at + 1;
    }
    proof {
        let all = old(matches)@;
        assert forall|k: int| at <= k < all.len() implies #[trigger] all[k].score
            < entry.score by {
            if k > at {
                assert(ahead(all[at as int], all[k]));
            }
        }
    }
    matches.insert(at, entry);
}

/// Rank the entries that have a score, best first; ties keep their order.
pub fn rank(scores: &Vec<Option<i32>>) -> (r: Vec<Match>)
    ensures
        is_ranking(Seq::new(scores@.len(), |i: int| as_score(scores@[i])), r@),
{
    let ghost all = Seq::new(scores@.len(), |i: int| as_score(scores@[i]));
    let mut matches: Vec<Match> = Vec::new();
    for i in 0..scores.len()
        invariant
            all == Seq::new(scores@.len(), |i: int| as_score(scores@[i])),
            ranks(all, i as int, matches@),
    {
        if let Some(score) = scores[i] {
            let entry = Match { index: i, score };
            let ghost before = matches@;
            place(&mut matches, entry);
            proof {
                let at = choose|at: int|
                    {
                        &&& 0 <= at <= before.len()
                        &&& matches@ == #[trigger] before.insert(at, entry)
                        &&& forall|k: int|
                            0 <= k < at ==> #[trigger] before[k].score >= entry.score
                        &&& forall|k: int|
                            at <= k < before.len() ==> #[trigger] before[k].score < entry.score
                    };
                lemma_insert_ranks(all, i as int, before, entry, at);
            }
        } else {
            proof {
                assert(all[i as int] is None);
                assert(ranks(all, i + 1, matches@));
            }
        }
    }
    matches
}

proof fn lemma_insert_ranks(
    scores: Seq<Option<int>>,
    count: int,
    before: Seq<Match>,
    entry: Match,
    at: int,
)
    requires
        ranks(scores, count, before),
        0 <= count < scores.len(),
        entry.index == count,
        scores[count] == Some(entry.score as int),
        0 <= at <= before.len(),
        forall|k: int| 0 <= k < at ==> #[trigger] before[k].score >= entry.score,
        forall|k: int| at <= k < before.len() ==> #[trigger] before[k].score < entry.score,
    ensures
        ranks(scores, count + 1, before.insert(at, entry)),
{
    let after = before.insert(at, entry);
    assert forall|k: int| 0 <= k < after.len() implies {
        &&& (#[trigger] after[k]).index < count + 1
        &&& scores[after[k].index as int] == Some(after[k].score as int)
    } by {
        if k < at {
            assert(after[k] == before[k]);
        } else if k > at {
            assert(after[k] == before[k - 1]);
        }
    }
    assert forall|i: int| 0 <= i < count + 1 && #[trigger] scores[i] is Some implies exists|k: int|
        0 <= k < after.len() && (#[trigger] after[k]).index == i by {
        if i == count {
            assert(after[at].index == i);
        } else {
            let k = choose|k: int| 0 <= k < before.len() && (#[trigger] before[k]).index == i;
            if k < at {
                assert(after[k] == before[k]);
            } else {
                assert(after[k + 1] == before[k]);
            }
        }
    }
    assert forall|j: int, k: int| 0 <= j < k < after.len() implies ahead(
        #[trigger] after[j],
        #[trigger] after[k],
    ) by {
        let x = if j < at {
            before[j]
        } else {
            before[j - 1]
        };
        let y = if k < at {
            before[k]
        } else {
            before[k - 1]
        };
        if j != at {
            assert(after[j] == x);
        }
        if k != at {
            assert(after[k] == y);
        }
    }
}

/// Rank `entries` against `query`, best first.
///
/// An empty query matches everything in the order given. Ties keep discovery order, which
/// means `$KUBECONFIG` entries stay ahead of scanned ones.
pub fn filter(entries: &[ContextEntry], query: &str) -> (r: Vec<Match>)
    ensures
        finds(entries@, query@, r@),
{
    let trimmed = trim(query);
    let needle = to_lowercase(trimmed.as_str());
    if needle.as_str().is_empty() {
        let mut all: Vec<Match> = Vec::new();
        for i in 0..entries.len()
            invariant
                all@ == unranked(i as nat),
        {
            all.push(Match { index: i, score: 0 });
        }
        return all;
    }
    let mut scores: Vec<Option<i32>> = Vec::new();
    for i in 0..entries.len()
        invariant
            scores@.len() == i,
            forall|k: int|
                0 <= k < i ==> as_score(#[trigger] scores@[k]) == entry_quality(
                    entries@[k],
                    needle@,
                ),
    {
        let score: Option<i32> = score_entry(&entries[i], needle.as_str());
        scores.push(score);
    }
    proof {
        assert(Seq::new(scores@.len(), |i: int| as_score(scores@[i])) == entry_scores(
            entries@,
            needle@,
        ));
    }
    rank(&scores)
}

// ---------------------------------------------------------------------------------------------
// What the ranking promises
// ---------------------------------------------------------------------------------------------
/// A list of scores has only one ranking.
pub proof fn lemma_ranking_is_unique(scores: Seq<Option<int>>, a: Seq<Match>, b: Seq<Match>)
    requires
        is_ranking(scores, a),
        is_ranking(scores, b),
    ensures
        a == b,
    decreases a.len(),
{
    if a.len() == 0 {
        if b.len() > 0 {
            assert(scores[b[0].index as int] is Some);
        }
        assert(a == b);
    } else {
        let i = a[0].index as int;
        assert(scores[i] is Some);
        let p = choose|k: int| 0 <= k < b.len() && (#[trigger] b[k]).index == i;
        let j = b[0].index as int;
        assert(scores[j] is Some);
        let q = choose|k: int| 0 <= k < a.len() && (#[trigger] a[k]).index == j;
        assert(p > 0 ==> ahead(b[0], b[p]));
        assert(q > 0 ==> ahead(a[0], a[q]));
        assert(a[0] == b[0]);
        let fewer = scores.update(i, None);
        lemma_drop_first_ranks(scores, a);
        lemma_drop_first_ranks(scores, b);
        lemma_ranking_is_unique(fewer, a.drop_first(), b.drop_first());
        assert(a == seq![a[0]] + a.drop_first());
        assert(b == seq![b[0]] + b.drop_first());
    }
}

/// A query finds the same contexts in the same order every time.
pub proof fn lemma_finds_is_unique(
    entries: Seq<ContextEntry>,
    query: Seq<char>,
    a: Seq<Match>,
    b: Seq<Match>,
)
    requires
        finds(entries, query, a),
        finds(entries, query, b),
    ensures
        a == b,
{
    let needle = text::lowered(text::trimmed(query));
    if needle.len() > 0 {
        lemma_ranking_is_unique(entry_scores(entries, needle), a, b);
    }
}

/// A query that is empty but for white space finds every context, in the order given.
pub proof fn lemma_empty_query_finds_everything(entries: Seq<ContextEntry>, query: Seq<char>)
    requires
        text::trimmed(query).len() == 0,
    ensures
        finds(entries, query, unranked(entries.len())),
{
}

/// Letter case does not matter: queries that differ only in the case of ASCII letters find the
/// same contexts in the same order.
pub proof fn lemma_case_is_ignored(
    entries: Seq<ContextEntry>,
    a: Seq<char>,
    b: Seq<char>,
    matches: Seq<Match>,
)
    requires
        is_ascii_chars(a),
        is_ascii_chars(b),
        text::ascii_lowercase(a) == text::ascii_lowercase(b),
        finds(entries, a, matches),
    ensures
        finds(entries, b, matches),
{
    text::lemma_trimmed_lowered(a);
    text::lemma_trimmed_lowered(b);
}

/// A field has a score exactly where the characters of the needle stand in it in order.
pub proof fn lemma_scored_iff_in_order(field: Seq<char>, needle: Seq<char>)
    ensures
        quality(field, needle) is Some <==> gaps(field, needle) is Some,
{
    text::lemma_next_occurrence(field, needle, 0);
    if field == needle {
        lemma_places_found(field, needle, Seq::new(needle.len(), |i: int| i));
    } else if let Some(k) = text::first_occurrence(field, needle) {
        let places = Seq::new(needle.len(), |i: int| k + i);
        assert forall|i: int| 0 <= i < places.len() implies 0 <= #[trigger] places[i] < field.len()
            && field[places[i]] == needle[i] by {
            assert(field.subrange(k, k + needle.len())[i] == field[k + i]);
        }
        lemma_places_found(field, needle, places);
    }
}

/// A field that has a score for a needle has one for every start of the needle.
proof fn lemma_scored_for_prefix(field: Seq<char>, shorter: Seq<char>, longer: Seq<char>)
    requires
        shorter.is_prefix_of(longer),
        field_quality(field, longer) is Some,
    ensures
        field_quality(field, shorter) is Some,
{
    let lowered = text::lowered(field);
    lemma_scored_iff_in_order(lowered, longer);
    let places = lemma_greedy_places(lowered, longer);
    lemma_places_found(lowered, shorter, places.take(shorter.len() as int));
    lemma_scored_iff_in_order(lowered, shorter);
}

/// Typing narrows the list: of an ASCII query with a character added, nothing is found that was
/// not found before.
pub proof fn lemma_typing_narrows(
    entries: Seq<ContextEntry>,
    query: Seq<char>,
    c: char,
    before: Seq<Match>,
    after: Seq<Match>,
    i: int,
)
    requires
        entries.len() <= usize::MAX,
        is_ascii_chars(query.push(c)),
        finds(entries, query, before),
        finds(entries, query.push(c), after),
        0 <= i < after.len(),
    ensures
        exists|j: int| 0 <= j < before.len() && (#[trigger] before[j]).index == after[i].index,
{
    let shorter = text::lowered(text::trimmed(query));
    let longer = text::lowered(text::trimmed(query.push(c)));
    assert forall|k: int| 0 <= k < query.len() implies '\0' <= #[trigger] query[k]
        <= '\u{7f}' by {
        assert(query.push(c)[k] == query[k]);
    }
    text::lemma_trimmed_lowered(query);
    text::lemma_trimmed_lowered(query.push(c));
    assert(text::ascii_lowercase(query.push(c)) == text::ascii_lowercase(query).push(
        text::ascii_lower(c),
    ));
    text::lemma_trimmed_grows(text::ascii_lowercase(query), text::ascii_lower(c));
    let index = after[i].index as int;
    if shorter.len() == 0 {
        lemma_finds_distinct(entries, query.push(c), after);
        assert(before[index].index == after[i].index);
    } else {
        let entry = entries[index];
        assert(entry_scores(entries, longer)[index] == entry_quality(entry, longer));
        let namespace = text::text_or(entry.namespace, ""@);
        if field_quality(entry.name@, longer) is Some {
            lemma_scored_for_prefix(entry.name@, shorter, longer);
        } else if field_quality(entry.cluster@, longer) is Some {
            lemma_scored_for_prefix(entry.cluster@, shorter, longer);
        } else if field_quality(namespace, longer) is Some {
            lemma_scored_for_prefix(namespace, shorter, longer);
        } else {
            lemma_scored_for_prefix(source_name(entry), shorter, longer);
        }
        assert(entry_scores(entries, shorter)[index] is Some);
    }
}

/// No context is found twice, and all that are found exist.
pub proof fn lemma_finds_distinct(entries: Seq<ContextEntry>, query: Seq<char>, matches: Seq<Match>)
    requires
        finds(entries, query, matches),
        entries.len() <= usize::MAX,
    ensures
        forall|i: int|
            0 <= i < matches.len() ==> (#[trigger] matches[i]).index < entries.len(),
        forall|i: int, j: int|
            0 <= i < j < matches.len() ==> (#[trigger] matches[i]).index != (
            #[trigger] matches[j]).index,
{
    let needle = text::lowered(text::trimmed(query));
    if needle.len() > 0 {
        let scores = entry_scores(entries, needle);
        assert forall|i: int, j: int| 0 <= i < j < matches.len() implies (
        #[trigger] matches[i]).index != (#[trigger] matches[j]).index by {
            assert(ahead(matches[i], matches[j]));
            assert(scores[matches[i].index as int] == Some(matches[i].score as int));
            assert(scores[matches[j].index as int] == Some(matches[j].score as int));
        }
    }
}

proof fn lemma_drop_first_ranks(scores: Seq<Option<int>>, matches: Seq<Match>)
    requires
        is_ranking(scores, matches),
        matches.len() > 0,
    ensures
        is_ranking(scores.update(matches[0].index as int, None), matches.drop_first()),
{
    let first = matches[0].index as int;
    let fewer = scores.update(first, None);
    let rest = matches.drop_first();
    assert forall|k: int| 0 <= k < rest.len() implies {
        &&& (#[trigger] rest[k]).index < fewer.len()
        &&& fewer[rest[k].index as int] == Some(rest[k].score as int)
    } by {
        assert(rest[k] == matches[k + 1]);
        assert(ahead(matches[0], matches[k + 1]));
        assert(scores[rest[k].index as int] == Some(rest[k].score as int));
        assert(scores[first] == Some(matches[0].score as int));
    }
    assert forall|i: int| 0 <= i < fewer.len() && #[trigger] fewer[i] is Some implies exists|
        k: int,
    | 0 <= k < rest.len() && (#[trigger] rest[k]).index == i by {
        assert(scores[i] is Some);
        let k = choose|k: int| 0 <= k < matches.len() && (#[trigger] matches[k]).index == i;
        assert(rest[k - 1] == matches[k]);
    }
    assert forall|j: int, k: int| 0 <= j < k < rest.len() implies ahead(
        #[trigger] rest[j],
        #[trigger] rest[k],
    ) by {
        assert(rest[j] == matches[j + 1] && rest[k] == matches[k + 1]);
    }
}

/// The quality tiers do not overlap: an exact match scores above every prefix match, a prefix
/// match above every other substring, and a substring above every mere subsequence.
pub proof fn lemma_tiers(field: Seq<char>, needle: Seq<char>)
    ensures
        match quality(field, needle) {
            Some(score) => if field == needle {
                score == 900
            } else if text::occurs_at(field, needle, 0) {
                score == 700
            } else if text::occurs(field, needle) {
                400 <= score < 500
            } else {
                100 <= score <= 300
            },
            None => !text::occurs(field, needle),
        },
{
    text::lemma_next_occurrence(field, needle, 0);
    text::lemma_occurs(field, needle);
    lemma_scatter_bounds(field, needle);
    if let Some(k) = text::first_occurrence(field, needle) {
        if k > 0 {
            text::lemma_byte_length_positive(field.take(k));
        }
    }
}

/// A weak hit on the context name still beats a perfect hit on any other field, so a context
/// whose name matches always stands before one whose name does not.
pub proof fn lemma_name_hits_come_first(
    entries: Seq<ContextEntry>,
    needle: Seq<char>,
    matches: Seq<Match>,
    j: int,
    k: int,
)
    requires
        is_ranking(entry_scores(entries, needle), matches),
        0 <= j < matches.len(),
        0 <= k < matches.len(),
        field_quality(entries[matches[j].index as int].name@, needle) is Some,
        field_quality(entries[matches[k].index as int].name@, needle) is None,
    ensures
        j < k,
{
    let x = entries[matches[j].index as int];
    let y = entries[matches[k].index as int];
    assert(entry_scores(entries, needle)[matches[j].index as int] == entry_quality(x, needle));
    assert(entry_scores(entries, needle)[matches[k].index as int] == entry_quality(y, needle));
    lemma_tiers(text::lowered(x.name@), needle);
    lemma_tiers(text::lowered(x.cluster@), needle);
    lemma_tiers(text::lowered(text::text_or(x.namespace, ""@)), needle);
    lemma_tiers(text::lowered(source_name(x)), needle);
    lemma_tiers(text::lowered(y.cluster@), needle);
    lemma_tiers(text::lowered(text::text_or(y.namespace, ""@)), needle);
    lemma_tiers(text::lowered(source_name(y)), needle);
    assert(matches[j].score >= 4100);
    assert(matches[k].score <= 3900);
    if k < j {
        assert(ahead(matches[k], matches[j]));
    }
}

/// Whether the characters of a needle stand in a text at the given places, in order.
pub open spec fn stands_in_order(text: Seq<char>, needle: Seq<char>, places: Seq<int>) -> bool {
    &&& places.len() == needle.len()
    &&& forall|i: int|
        0 <= i < places.len() ==> 0 <= #[trigger] places[i] < text.len() && text[places[i]]
            == needle[i]
    &&& forall|i: int, j: int|
        0 <= i < j < places.len() ==> #[trigger] places[i] < #[trigger] places[j]
}

/// The greedy matcher misses nothing: it finds a needle exactly where the needle's characters
/// stand in the text in order.
pub proof fn lemma_greedy_is_complete(text: Seq<char>, needle: Seq<char>)
    ensures
        gaps(text, needle) is Some <==> exists|places: Seq<int>|
            stands_in_order(text, needle, places),
{
    if gaps(text, needle) is Some {
        let places = lemma_greedy_places(text, needle);
        assert(stands_in_order(text, needle, places));
    }
    if exists|places: Seq<int>| stands_in_order(text, needle, places) {
        let places = choose|places: Seq<int>| stands_in_order(text, needle, places);
        lemma_places_found(text, needle, places);
    }
}

/// What the greedy matcher finds stands in order.
pub proof fn lemma_greedy_places(text: Seq<char>, needle: Seq<char>) -> (places: Seq<int>)
    requires
        gaps(text, needle) is Some,
    ensures
        stands_in_order(text, needle, places),
    decreases needle.len(),
{
    if needle.len() == 0 {
        Seq::empty()
    } else {
        lemma_position(text, needle[0]);
        let k = position(text, needle[0])->0;
        let rest = lemma_greedy_places(text.skip(k + 1), needle.drop_first());
        let places = Seq::new(
            needle.len(),
            |i: int|
                if i == 0 {
                    k
                } else {
                    rest[i - 1] + k + 1
                },
        );
        assert forall|i: int| 0 <= i < places.len() implies 0 <= #[trigger] places[i] < text.len()
            && text[places[i]] == needle[i] by {
            if i > 0 {
                assert(0 <= rest[i - 1] < text.skip(k + 1).len());
                assert(text.skip(k + 1)[rest[i - 1]] == needle.drop_first()[i - 1]);
            }
        }
        assert forall|i: int, j: int| 0 <= i < j < places.len() implies #[trigger] places[i]
            < #[trigger] places[j] by {
            assert(0 <= rest[j - 1]);
            if i > 0 {
                assert(rest[i - 1] < rest[j - 1]);
            }
        }
        places
    }
}

/// What stands in order is found by the greedy matcher.
pub proof fn lemma_places_found(text: Seq<char>, needle: Seq<char>, places: Seq<int>)
    requires
        stands_in_order(text, needle, places),
    ensures
        gaps(text, needle) is Some,
    decreases needle.len(),
{
    if needle.len() > 0 {
        lemma_position(text, needle[0]);
        assert(0 <= places[0] < text.len() && text[places[0]] == needle[0]);
        let k = position(text, needle[0])->0;
        assert(k <= places[0]);
        let rest = Seq::new((places.len() - 1) as nat, |i: int| places[i + 1] - (k + 1));
        assert forall|i: int| 0 <= i < rest.len() implies 0 <= #[trigger] rest[i] < text.skip(
            k + 1,
        ).len() && text.skip(k + 1)[rest[i]] == needle.drop_first()[i] by {
            assert(places[0] < places[i + 1]);
            assert(text[places[i + 1]] == needle[i + 1]);
        }
        assert forall|i: int, j: int| 0 <= i < j < rest.len() implies #[trigger] rest[i]
            < #[trigger] rest[j] by {
            assert(places[i + 1] < places[j + 1]);
        }
        lemma_places_found(text.skip(k + 1), needle.drop_first(), rest);
    }
}

} // verus!
