//! Text primitives: searching, trimming, joining, ordering and number formatting.
//!
//! Text is modelled as the sequence of its characters. Everything here is proved against a
//! specification over `Seq<char>`, except for the few items marked as trusted, which stand for
//! functions of the standard library.

use vstd::prelude::*;
use vstd::utf8::*;

verus! {

// ---------------------------------------------------------------------------------------------
// Trusted: functions of the standard library
// ---------------------------------------------------------------------------------------------
/// Trusted: `String::push` appends one character at the end of the string.
pub assume_specification[ String::push ](s: &mut String, c: char)
    ensures
        final(s)@ == old(s)@.push(c),
;

/// The lowercase equivalent of a text, as Unicode defines it.
pub uninterp spec fn lowercase(s: Seq<char>) -> Seq<char>;

/// Trusted: `str::to_lowercase` is a function of the text alone. Of a text made of ASCII
/// characters only, it maps `A` to `Z` onto `a` to `z` and keeps every other character.
#[verifier::external_body]
pub(crate) fn to_lowercase(s: &str) -> (r: String)
    ensures
        r@ == lowercase(s@),
        is_ascii_chars(s@) ==> r@ == ascii_lowercase(s@),
{
    s.to_lowercase()
}

/// A text as the debug formatter shows it: between double quotes, with special characters
/// escaped.
pub uninterp spec fn debug_quoted(s: Seq<char>) -> Seq<char>;

/// Whether a character is printable ASCII that needs no escape between double quotes.
pub open spec fn plainly_quoted(c: char) -> bool {
    ' ' <= c <= '~' && c != '"' && c != '\\'
}

/// A text between double quotes, spelled out where nothing in it needs an escape.
pub open spec fn between_quotes(s: Seq<char>) -> Seq<char> {
    if forall|i: int| 0 <= i < s.len() ==> plainly_quoted(#[trigger] s[i]) {
        seq!['"'] + s + seq!['"']
    } else {
        debug_quoted(s)
    }
}

/// Trusted: the `{:?}` rendering of a string is a function of the text alone. A text of printable
/// ASCII characters without double quotes and backslashes is put between double quotes as it is.
/// How other characters are escaped is left unsaid.
#[verifier::external_body]
pub(crate) fn quoted(s: &str) -> (r: String)
    ensures
        r@ == debug_quoted(s@),
        (forall|i: int| 0 <= i < s@.len() ==> plainly_quoted(#[trigger] s@[i])) ==> r@ == seq!['"']
            + s@ + seq!['"'],
{
    format!("{:?}", s)
}

// ---------------------------------------------------------------------------------------------
// Characters and equality
// ---------------------------------------------------------------------------------------------
/// The characters of a text, one by one.
pub fn chars_of(s: &str) -> (r: Vec<char>)
    ensures
        r@ == s@,
{
    let mut r: Vec<char> = Vec::new();
    for c in it: s.chars()
        invariant
            it.seq() == s@,
            r@ == s@.take(it.index()),
    {
        proof {
            assert(s@.take(it.index() + 1) == s@.take(it.index()).push(s@[it.index()]));
        }
        r.push(c);
    }
    proof {
        assert(s@.take(s@.len() as int) == s@);
    }
    r
}

/// Whether two texts hold the same characters.
pub fn same_text(a: &str, b: &str) -> (r: bool)
    ensures
        r == (a@ == b@),
{
    a.to_owned() == b.to_owned()
}

/// The texts of a list of strings.
pub open spec fn texts(v: Seq<String>) -> Seq<Seq<char>> {
    Seq::new(v.len(), |i: int| v[i]@)
}

/// The text of an optional string.
pub open spec fn optional(o: Option<String>) -> Option<Seq<char>> {
    match o {
        Some(s) => Some(s@),
        None => None,
    }
}

/// The text of an optional string, or a fallback where there is none.
pub open spec fn text_or(o: Option<String>, fallback: Seq<char>) -> Seq<char> {
    match o {
        Some(s) => s@,
        None => fallback,
    }
}

/// The text of an optional string, or a fallback where there is none.
pub fn str_or<'a>(o: &'a Option<String>, fallback: &'a str) -> (r: &'a str)
    ensures
        r@ == text_or(*o, fallback@),
{
    match o {
        Some(s) => s.as_str(),
        None => fallback,
    }
}

/// A copy of an optional string.
pub fn copy_optional(o: &Option<String>) -> (r: Option<String>)
    ensures
        r == *o,
{
    match o {
        Some(s) => Some(s.clone()),
        None => None,
    }
}

/// A copy of a list of strings.
pub fn copy_list(v: &Vec<String>) -> (r: Vec<String>)
    ensures
        r@ == v@,
{
    let mut r: Vec<String> = Vec::new();
    for i in 0..v.len()
        invariant
            r@ == v@.take(i as int),
    {
        r.push(v[i].clone());
        proof {
            assert(v@.take(i + 1) == v@.take(i as int).push(v@[i as int]));
        }
    }
    proof {
        assert(v@.take(v@.len() as int) == v@);
    }
    r
}

/// Whether a list of strings holds a text.
pub fn list_contains(v: &Vec<String>, s: &str) -> (r: bool)
    ensures
        r == texts(v@).contains(s@),
{
    for i in 0..v.len()
        invariant
            forall|j: int| 0 <= j < i ==> texts(v@)[j] != s@,
    {
        if same_text(v[i].as_str(), s) {
            proof {
                assert(texts(v@)[i as int] == s@);
            }
            return true;
        }
    }
    false
}

// ---------------------------------------------------------------------------------------------
// Letter case
// ---------------------------------------------------------------------------------------------
/// A character with `A` to `Z` mapped onto `a` to `z`.
pub open spec fn ascii_lower(c: char) -> char {
    if 'A' <= c <= 'Z' {
        ((c as u32 + 32) as u32) as char
    } else {
        c
    }
}

/// A text with `A` to `Z` mapped onto `a` to `z`.
pub open spec fn ascii_lowercase(s: Seq<char>) -> Seq<char> {
    Seq::new(s.len(), |i: int| ascii_lower(s[i]))
}

/// A text in lower case: of one made of ASCII characters only, every letter is known.
pub open spec fn lowered(s: Seq<char>) -> Seq<char> {
    if is_ascii_chars(s) {
        ascii_lowercase(s)
    } else {
        lowercase(s)
    }
}

/// A text with `A` to `Z` mapped onto `a` to `z`.
pub fn to_ascii_lowercase(s: &str) -> (r: String)
    ensures
        r@ == ascii_lowercase(s@),
{
    let chars = chars_of(s);
    let mut r = String::new();
    for i in 0..chars.len()
        invariant
            chars@ == s@,
            r@ == ascii_lowercase(s@).take(i as int),
    {
        let c = chars[i];
        let lower = if 'A' <= c && c <= 'Z' {
            ((c as u8) + 32) as char
        } else {
            c
        };
        proof {
            assert(ascii_lowercase(s@).take(i + 1) == ascii_lowercase(s@).take(i as int).push(
                ascii_lowercase(s@)[i as int],
            ));
        }
        r.push(lower);
    }
    proof {
        assert(ascii_lowercase(s@).take(s@.len() as int) == ascii_lowercase(s@));
    }
    r
}

// ---------------------------------------------------------------------------------------------
// White space
// ---------------------------------------------------------------------------------------------
/// Whether a character has the Unicode property `White_Space`.
pub open spec fn white_space(c: char) -> bool {
    let code = c as u32;
    ||| 0x09 <= code <= 0x0d
    ||| code == 0x20
    ||| code == 0x85
    ||| code == 0xa0
    ||| code == 0x1680
    ||| 0x2000 <= code <= 0x200a
    ||| code == 0x2028
    ||| code == 0x2029
    ||| code == 0x202f
    ||| code == 0x205f
    ||| code == 0x3000
}

/// Whether a character has the Unicode property `White_Space`.
pub fn is_white_space(c: char) -> (r: bool)
    ensures
        r == white_space(c),
{
    let code: u32 = c as u32;
    (0x09 <= code && code <= 0x0d) || code == 0x20 || code == 0x85 || code == 0xa0 || code
        == 0x1680 || (0x2000 <= code && code <= 0x200a) || code == 0x2028 || code == 0x2029
        || code == 0x202f || code == 0x205f || code == 0x3000
}

/// A text without the white space at its start.
pub open spec fn trimmed_start(s: Seq<char>) -> Seq<char>
    decreases s.len(),
{
    if s.len() > 0 && white_space(s[0]) {
        trimmed_start(s.drop_first())
    } else {
        s
    }
}

/// A text without the white space at its end.
pub open spec fn trimmed_end(s: Seq<char>) -> Seq<char>
    decreases s.len(),
{
    if s.len() > 0 && white_space(s.last()) {
        trimmed_end(s.drop_last())
    } else {
        s
    }
}

/// A text without the white space at either end.
pub open spec fn trimmed(s: Seq<char>) -> Seq<char> {
    trimmed_end(trimmed_start(s))
}

proof fn lemma_trimmed_start(s: Seq<char>, k: int)
    requires
        0 <= k <= s.len(),
        forall|i: int| 0 <= i < k ==> white_space(#[trigger] s[i]),
        k == s.len() || !white_space(s[k]),
    ensures
        trimmed_start(s) == s.subrange(k, s.len() as int),
    decreases k,
{
    if k > 0 {
        let rest = s.drop_first();
        assert forall|i: int| 0 <= i < k - 1 implies white_space(#[trigger] rest[i]) by {
            assert(rest[i] == s[i + 1]);
        }
        lemma_trimmed_start(rest, k - 1);
        assert(rest.subrange(k - 1, rest.len() as int) == s.subrange(k, s.len() as int));
    } else {
        assert(s.subrange(0, s.len() as int) == s);
    }
}

proof fn lemma_trimmed_end(s: Seq<char>, k: int)
    requires
        0 <= k <= s.len(),
        forall|i: int| k <= i < s.len() ==> white_space(#[trigger] s[i]),
        k == 0 || !white_space(s[k - 1]),
    ensures
        trimmed_end(s) == s.take(k),
    decreases s.len() - k,
{
    if k < s.len() {
        let rest = s.drop_last();
        assert(white_space(s[s.len() - 1]));
        lemma_trimmed_end(rest, k);
        assert(rest.take(k) == s.take(k));
    } else {
        assert(s.take(k) == s);
    }
}

/// Trimming adds no character.
pub proof fn lemma_trimmed_within(s: Seq<char>)
    ensures
        forall|c: char| trimmed(s).contains(c) ==> s.contains(c),
{
    lemma_trimmed_start_within(s);
    lemma_trimmed_end_within(trimmed_start(s));
}

proof fn lemma_trimmed_start_within(s: Seq<char>)
    ensures
        forall|c: char| trimmed_start(s).contains(c) ==> s.contains(c),
    decreases s.len(),
{
    if s.len() > 0 && white_space(s[0]) {
        lemma_trimmed_start_within(s.drop_first());
        assert forall|c: char| s.drop_first().contains(c) implies s.contains(c) by {
            let i = choose|i: int| 0 <= i < s.len() - 1 && s.drop_first()[i] == c;
            assert(s[i + 1] == c);
        }
    }
}

proof fn lemma_trimmed_end_within(s: Seq<char>)
    ensures
        forall|c: char| trimmed_end(s).contains(c) ==> s.contains(c),
    decreases s.len(),
{
    if s.len() > 0 && white_space(s.last()) {
        lemma_trimmed_end_within(s.drop_last());
        assert forall|c: char| s.drop_last().contains(c) implies s.contains(c) by {
            let i = choose|i: int| 0 <= i < s.len() - 1 && s.drop_last()[i] == c;
            assert(s[i] == c);
        }
    }
}

/// Trimming a text made of ASCII characters commutes with lowering its letters.
pub proof fn lemma_trimmed_lowered(s: Seq<char>)
    requires
        is_ascii_chars(s),
    ensures
        is_ascii_chars(trimmed(s)),
        lowered(trimmed(s)) == trimmed(ascii_lowercase(s)),
{
    lemma_trimmed_start_lowered(s);
    lemma_trimmed_end_lowered(trimmed_start(s));
}

proof fn lemma_trimmed_start_lowered(s: Seq<char>)
    requires
        is_ascii_chars(s),
    ensures
        is_ascii_chars(trimmed_start(s)),
        ascii_lowercase(trimmed_start(s)) == trimmed_start(ascii_lowercase(s)),
    decreases s.len(),
{
    if s.len() > 0 && white_space(s[0]) {
        lemma_trimmed_start_lowered(s.drop_first());
        assert(ascii_lowercase(s).drop_first() == ascii_lowercase(s.drop_first()));
    }
}

proof fn lemma_trimmed_end_lowered(s: Seq<char>)
    requires
        is_ascii_chars(s),
    ensures
        is_ascii_chars(trimmed_end(s)),
        ascii_lowercase(trimmed_end(s)) == trimmed_end(ascii_lowercase(s)),
    decreases s.len(),
{
    if s.len() > 0 && white_space(s.last()) {
        lemma_trimmed_end_lowered(s.drop_last());
        assert(ascii_lowercase(s).drop_last() == ascii_lowercase(s.drop_last()));
    }
}

/// A character typed at the end of a text takes nothing away from what trimming leaves of it.
pub proof fn lemma_trimmed_grows(s: Seq<char>, c: char)
    ensures
        trimmed(s).is_prefix_of(trimmed(s.push(c))),
{
    lemma_trimmed_start_grows(s, c);
    let t = trimmed_start(s);
    lemma_trimmed_end_prefix(t);
    if t.len() > 0 {
        assert(t.push(c).drop_last() == t);
    }
}

proof fn lemma_trimmed_start_grows(s: Seq<char>, c: char)
    ensures
        trimmed_start(s).len() > 0 ==> trimmed_start(s.push(c)) == trimmed_start(s).push(c),
    decreases s.len(),
{
    if s.len() > 0 && white_space(s[0]) {
        lemma_trimmed_start_grows(s.drop_first(), c);
        assert(s.push(c).drop_first() == s.drop_first().push(c));
    }
}

proof fn lemma_trimmed_end_prefix(s: Seq<char>)
    ensures
        trimmed_end(s).is_prefix_of(s),
    decreases s.len(),
{
    if s.len() > 0 && white_space(s.last()) {
        lemma_trimmed_end_prefix(s.drop_last());
    }
}

/// Remove the white space at either end of a text.
pub fn trim(s: &str) -> (r: String)
    ensures
        r@ == trimmed(s@),
{
    let chars = chars_of(s);
    let mut start: usize = 0;
    while start < chars.len() && is_white_space(chars[start])
        invariant
            chars@ == s@,
            start <= chars.len(),
            forall|i: int| 0 <= i < start ==> white_space(#[trigger] s@[i]),
        decreases chars.len() - start,
    {
        start = start + 1;
    }
    let mut end: usize = chars.len();
    while start < end && is_white_space(chars[end - 1])
        invariant
            chars@ == s@,
            start <= end <= chars.len(),
            forall|i: int| end <= i < s@.len() ==> white_space(#[trigger] s@[i]),
        decreases end,
    {
        end = end - 1;
    }
    proof {
        lemma_trimmed_start(s@, start as int);
        let middle = s@.subrange(start as int, s@.len() as int);
        lemma_trimmed_end(middle, end - start);
        assert(middle.take(end - start) == s@.subrange(start as int, end as int));
    }
    s.substring_char(start, end).to_owned()
}

/// Where the first line feed of a text stands, or the length of the text.
pub open spec fn line_length(s: Seq<char>) -> int
    decreases s.len(),
{
    if s.len() == 0 || s[0] == '\n' {
        0
    } else {
        1 + line_length(s.drop_first())
    }
}

/// The first line of a text, without its line ending (`\n` or `\r\n`).
pub open spec fn first_line(s: Seq<char>) -> Seq<char> {
    let n = line_length(s);
    if 0 < n < s.len() && s[n - 1] == '\r' {
        s.take(n - 1)
    } else {
        s.take(n)
    }
}

proof fn lemma_line_length(s: Seq<char>, k: int)
    requires
        0 <= k <= s.len(),
        forall|i: int| 0 <= i < k ==> #[trigger] s[i] != '\n',
        k == s.len() || s[k] == '\n',
    ensures
        line_length(s) == k,
    decreases k,
{
    if k > 0 {
        let rest = s.drop_first();
        assert(s[0] != '\n');
        assert forall|i: int| 0 <= i < k - 1 implies #[trigger] rest[i] != '\n' by {
            assert(rest[i] == s[i + 1]);
        }
        lemma_line_length(rest, k - 1);
    }
}

proof fn lemma_line_bounds(s: Seq<char>)
    ensures
        0 <= line_length(s) <= s.len(),
        forall|i: int| 0 <= i < line_length(s) ==> #[trigger] s[i] != '\n',
    decreases s.len(),
{
    if s.len() > 0 && s[0] != '\n' {
        let rest = s.drop_first();
        lemma_line_bounds(rest);
        assert forall|i: int| 0 <= i < line_length(s) implies #[trigger] s[i] != '\n' by {
            if i > 0 {
                assert(s[i] == rest[i - 1]);
            }
        }
    }
}

/// The first line holds no line feed.
pub proof fn lemma_first_line(s: Seq<char>)
    ensures
        !first_line(s).contains('\n'),
{
    lemma_line_bounds(s);
}

/// The first line of a text, without its line ending.
pub fn line_one(s: &str) -> (r: String)
    ensures
        r@ == first_line(s@),
{
    let chars = chars_of(s);
    let mut end: usize = 0;
    while end < chars.len() && chars[end] != '\n'
        invariant
            chars@ == s@,
            end <= chars.len(),
            forall|i: int| 0 <= i < end ==> #[trigger] s@[i] != '\n',
        decreases chars.len() - end,
    {
        end = end + 1;
    }
    proof {
        lemma_line_length(s@, end as int);
    }
    if 0 < end && end < chars.len() && chars[end - 1] == '\r' {
        s.substring_char(0, end - 1).to_owned()
    } else {
        s.substring_char(0, end).to_owned()
    }
}

// ---------------------------------------------------------------------------------------------
// Searching
// ---------------------------------------------------------------------------------------------
/// Whether `needle` stands in `text` at position `at`.
pub open spec fn occurs_at(text: Seq<char>, needle: Seq<char>, at: int) -> bool {
    &&& 0 <= at
    &&& at + needle.len() <= text.len()
    &&& text.subrange(at, at + needle.len()) == needle
}

/// Whether `needle` stands anywhere in `text`.
pub open spec fn occurs(text: Seq<char>, needle: Seq<char>) -> bool {
    exists|at: int| occurs_at(text, needle, at)
}

/// The first position, no earlier than `from`, at which `needle` stands in `text`.
pub open spec fn next_occurrence(text: Seq<char>, needle: Seq<char>, from: int) -> Option<int>
    decreases text.len() - from,
{
    if occurs_at(text, needle, from) {
        Some(from)
    } else if from >= text.len() {
        None
    } else {
        next_occurrence(text, needle, from + 1)
    }
}

/// The first position at which `needle` stands in `text`.
pub open spec fn first_occurrence(text: Seq<char>, needle: Seq<char>) -> Option<int> {
    next_occurrence(text, needle, 0)
}

/// A search that starts at `from` finds the first position from there on, if there is one.
pub proof fn lemma_next_occurrence(text: Seq<char>, needle: Seq<char>, from: int)
    requires
        0 <= from,
    ensures
        match next_occurrence(text, needle, from) {
            Some(at) => {
                &&& from <= at
                &&& occurs_at(text, needle, at)
                &&& forall|j: int| from <= j < at ==> !#[trigger] occurs_at(text, needle, j)
            },
            None => forall|j: int| from <= j ==> !#[trigger] occurs_at(text, needle, j),
        },
    decreases text.len() - from,
{
    if !occurs_at(text, needle, from) && from < text.len() {
        lemma_next_occurrence(text, needle, from + 1);
    }
}

/// A text contains another exactly where a search finds it.
pub proof fn lemma_occurs(text: Seq<char>, needle: Seq<char>)
    ensures
        occurs(text, needle) <==> first_occurrence(text, needle) is Some,
{
    lemma_next_occurrence(text, needle, 0);
}

/// The first position at which `needle` stands in `text`.
pub fn find(text: &Vec<char>, needle: &Vec<char>) -> (r: Option<usize>)
    ensures
        match r {
            Some(at) => first_occurrence(text@, needle@) == Some(at as int),
            None => first_occurrence(text@, needle@) is None,
        },
{
    let mut at: usize = 0;
    loop
        invariant
            at <= text.len(),
            first_occurrence(text@, needle@) == next_occurrence(text@, needle@, at as int),
        decreases text.len() - at,
    {
        if stands_at(text, needle, at) {
            return Some(at);
        }
        if at >= text.len() {
            return None;
        }
        at = at + 1;
    }
}

fn stands_at(text: &Vec<char>, needle: &Vec<char>, at: usize) -> (r: bool)
    requires
        at <= text.len(),
    ensures
        r == occurs_at(text@, needle@, at as int),
{
    if needle.len() > text.len() - at {
        return false;
    }
    for i in 0..needle.len()
        invariant
            at + needle.len() <= text.len(),
            forall|j: int| 0 <= j < i ==> text@[at + j] == needle@[j],
    {
        if text[at + i] != needle[i] {
            proof {
                assert(text@.subrange(at as int, at + needle@.len())[i as int] != needle@[i as int]);
            }
            return false;
        }
    }
    proof {
        assert(text@.subrange(at as int, at + needle@.len()) == needle@);
    }
    true
}

/// Whether a text contains another.
pub fn contains(text: &str, needle: &str) -> (r: bool)
    ensures
        r == occurs(text@, needle@),
{
    proof {
        lemma_occurs(text@, needle@);
    }
    find(&chars_of(text), &chars_of(needle)).is_some()
}

// ---------------------------------------------------------------------------------------------
// Byte lengths
// ---------------------------------------------------------------------------------------------
/// How many bytes the UTF-8 encoding of a text takes.
pub open spec fn byte_length(s: Seq<char>) -> nat {
    encode_utf8(s).len()
}

/// The encoding of two texts side by side is the two encodings side by side.
pub proof fn lemma_encode_concat(a: Seq<char>, b: Seq<char>)
    ensures
        encode_utf8(a + b) == encode_utf8(a) + encode_utf8(b),
    decreases a.len(),
{
    if a.len() == 0 {
        assert(a + b == b);
        assert(encode_utf8(a) + encode_utf8(b) == encode_utf8(b));
    } else {
        lemma_encode_concat(a.drop_first(), b);
        assert((a + b).drop_first() == a.drop_first() + b);
        assert((a + b)[0] == a[0]);
        assert(encode_utf8(a + b) == encode_scalar(a[0] as u32) + (encode_utf8(a.drop_first())
            + encode_utf8(b)));
        assert(encode_scalar(a[0] as u32) + (encode_utf8(a.drop_first()) + encode_utf8(b)) == (
        encode_scalar(a[0] as u32) + encode_utf8(a.drop_first())) + encode_utf8(b));
    }
}

/// A text that is not empty has at least one byte.
pub proof fn lemma_byte_length_positive(s: Seq<char>)
    requires
        s.len() > 0,
    ensures
        byte_length(s) > 0,
{
    encode_utf8_first_scalar(s);
}

proof fn lemma_byte_length_step(s: Seq<char>, i: int)
    requires
        0 <= i < s.len(),
    ensures
        byte_length(s.take(i + 1)) == byte_length(s.take(i)) + encode_scalar(s[i] as u32).len(),
{
    let one = seq![s[i]];
    assert(s.take(i + 1) == s.take(i) + one);
    lemma_encode_concat(s.take(i), one);
    assert(one.drop_first() == Seq::<char>::empty());
    assert(encode_utf8(one.drop_first()) == Seq::<u8>::empty());
    assert(encode_utf8(one) == encode_scalar(s[i] as u32));
}

fn scalar_width(c: char) -> (r: usize)
    ensures
        r == encode_scalar(c as u32).len(),
        1 <= r <= 4,
{
    let code: u32 = c as u32;
    if code < 0x80 {
        1
    } else if code < 0x800 {
        2
    } else if code < 0x10000 {
        3
    } else {
        4
    }
}

/// The smaller of `cap` and the number of bytes that the first `count` characters take.
pub fn capped_byte_length(text: &Vec<char>, count: usize, cap: usize) -> (r: usize)
    requires
        count <= text.len(),
        cap <= 1_000_000,
    ensures
        r == (if byte_length(text@.take(count as int)) < cap {
            byte_length(text@.take(count as int)) as int
        } else {
            cap as int
        }),
{
    let mut bytes: usize = 0;
    proof {
        assert(text@.take(0) == Seq::<char>::empty());
    }
    for i in 0..count
        invariant
            count <= text.len(),
            bytes < cap + 4,
            cap <= 1_000_000,
            bytes < cap ==> bytes == byte_length(text@.take(i as int)),
            bytes >= cap ==> byte_length(text@.take(i as int)) >= cap,
    {
        proof {
            lemma_byte_length_step(text@, i as int);
        }
        if bytes < cap {
            bytes = bytes + scalar_width(text[i]);
        }
    }
    if bytes < cap {
        bytes
    } else {
        cap
    }
}

// ---------------------------------------------------------------------------------------------
// Joining and padding
// ---------------------------------------------------------------------------------------------
/// The parts side by side, with a separator between each two.
pub open spec fn joined(parts: Seq<Seq<char>>, separator: Seq<char>) -> Seq<char>
    decreases parts.len(),
{
    if parts.len() == 0 {
        Seq::empty()
    } else if parts.len() == 1 {
        parts[0]
    } else {
        joined(parts.drop_last(), separator) + separator + parts.last()
    }
}

/// Join the first `count` strings of a list with a separator between each two.
pub fn join_first(parts: &Vec<String>, count: usize, separator: &str) -> (r: String)
    requires
        count <= parts.len(),
    ensures
        r@ == joined(texts(parts@).take(count as int), separator@),
{
    let mut r = String::new();
    for i in 0..count
        invariant
            count <= parts.len(),
            r@ == joined(texts(parts@).take(i as int), separator@),
    {
        proof {
            assert(texts(parts@).take(i + 1).drop_last() == texts(parts@).take(i as int));
            assert(texts(parts@).take(i + 1).last() == parts@[i as int]@);
        }
        if i > 0 {
            r.append(separator);
        } else {
            proof {
                assert(r@ + parts@[0]@ == parts@[0]@);
            }
        }
        r.append(parts[i].as_str());
    }
    r
}

/// Join strings with a separator between each two.
pub fn join(parts: &Vec<String>, separator: &str) -> (r: String)
    ensures
        r@ == joined(texts(parts@), separator@),
{
    proof {
        assert(texts(parts@).take(parts@.len() as int) == texts(parts@));
    }
    join_first(parts, parts.len(), separator)
}

/// A text of `count` spaces.
pub open spec fn spaces(count: nat) -> Seq<char> {
    Seq::new(count, |i: int| ' ')
}

/// A label followed by as many spaces as bring it to `width` characters.
pub open spec fn padded(label: Seq<char>, width: nat) -> Seq<char> {
    label + spaces(if label.len() < width {
        (width - label.len()) as nat
    } else {
        0
    })
}

/// Pad a label on the right to `width` characters.
pub fn pad(label: &str, width: usize) -> (r: String)
    ensures
        r@ == padded(label@, width as nat),
{
    let mut r = label.to_owned();
    let mut length: usize = label.unicode_len();
    let ghost missing: nat = if label@.len() < width {
        (width - label@.len()) as nat
    } else {
        0
    };
    proof {
        assert(label@ + spaces(0) == label@);
    }
    while length < width
        invariant
            length <= width || length == label@.len(),
            label@.len() <= length,
            missing == (if label@.len() < width {
                (width - label@.len()) as nat
            } else {
                0
            }),
            r@ == label@ + spaces((length - label@.len()) as nat),
        decreases width - length,
    {
        r.push(' ');
        proof {
            assert(label@ + spaces((length + 1 - label@.len()) as nat) == (label@ + spaces(
                (length - label@.len()) as nat,
            )).push(' '));
        }
        length = length + 1;
    }
    proof {
        assert(length - label@.len() == missing);
    }
    r
}

// ---------------------------------------------------------------------------------------------
// Numbers
// ---------------------------------------------------------------------------------------------
/// The digit for a value below sixteen, in lower case.
pub open spec fn digit(value: nat) -> char {
    if value < 10 {
        (value + 48) as char
    } else {
        (value + 87) as char
    }
}

/// A number written in a base between 2 and 16, without leading zeros.
pub open spec fn numeral(n: nat, base: nat) -> Seq<char>
    decreases n,
{
    if base < 2 || n < base {
        seq![digit(n)]
    } else {
        proof {
            assert(n / base < n) by (nonlinear_arith)
                requires
                    n >= base,
                    base >= 2,
            ;
        }
        numeral(n / base, base).push(digit(n % base))
    }
}

/// A natural number in decimal.
pub open spec fn decimal(n: nat) -> Seq<char> {
    numeral(n, 10)
}

/// An integer in decimal, with a minus sign where it is negative.
pub open spec fn decimal_signed(n: int) -> Seq<char> {
    if n < 0 {
        seq!['-'] + decimal((-n) as nat)
    } else {
        decimal(n as nat)
    }
}

/// The digit for a value below sixteen, in lower case.
pub fn digit_char(value: u64) -> (r: char)
    requires
        value < 16,
    ensures
        r == digit(value as nat),
{
    if value < 10 {
        (48 + value as u8) as char
    } else {
        (87 + value as u8) as char
    }
}

fn push_numeral(out: &mut String, n: u128, base: u128)
    requires
        2 <= base <= 16,
    ensures
        final(out)@ == old(out)@ + numeral(n as nat, base as nat),
    decreases n,
{
    if n >= base {
        proof {
            assert(n / base < n) by (nonlinear_arith)
                requires
                    n >= base,
                    base >= 2,
            ;
        }
        push_numeral(out, n / base, base);
        proof {
            assert(old(out)@ + numeral(n as nat, base as nat) == (old(out)@ + numeral(
                (n / base) as nat,
                base as nat,
            )).push(digit((n % base) as nat)));
        }
        out.push(digit_char((n % base) as u64));
    } else {
        proof {
            assert(old(out)@ + numeral(n as nat, base as nat) == old(out)@.push(digit(n as nat)));
        }
        out.push(digit_char(n as u64));
    }
}

/// Write a natural number in decimal.
pub fn number(n: usize) -> (r: String)
    ensures
        r@ == decimal(n as nat),
{
    let mut r = String::new();
    push_numeral(&mut r, n as u128, 10);
    proof {
        assert(Seq::<char>::empty() + decimal(n as nat) == decimal(n as nat));
    }
    r
}

/// Write a natural number of any size in decimal.
pub fn wide_number(n: u128) -> (r: String)
    ensures
        r@ == decimal(n as nat),
{
    let mut r = String::new();
    push_numeral(&mut r, n, 10);
    proof {
        assert(Seq::<char>::empty() + decimal(n as nat) == decimal(n as nat));
    }
    r
}

/// Write a natural number in octal.
pub fn octal(n: u32) -> (r: String)
    ensures
        r@ == numeral(n as nat, 8),
{
    let mut r = String::new();
    push_numeral(&mut r, n as u128, 8);
    proof {
        assert(Seq::<char>::empty() + numeral(n as nat, 8) == numeral(n as nat, 8));
    }
    r
}

/// Write an integer in decimal.
pub fn signed(n: i32) -> (r: String)
    ensures
        r@ == decimal_signed(n as int),
{
    let mut r = String::new();
    if n < 0 {
        r.push('-');
        proof {
            assert(r@ == seq!['-']);
        }
        push_numeral(&mut r, (-(n as i64)) as u128, 10);
    } else {
        push_numeral(&mut r, n as u128, 10);
        proof {
            assert(Seq::<char>::empty() + decimal(n as nat) == decimal(n as nat));
        }
    }
    r
}

// ---------------------------------------------------------------------------------------------
// Splitting
// ---------------------------------------------------------------------------------------------
/// The pieces of a text between the occurrences of a separator.
pub open spec fn pieces(s: Seq<char>, separator: char) -> Seq<Seq<char>>
    decreases s.len(),
{
    if s.len() == 0 {
        seq![s]
    } else {
        let before = pieces(s.drop_last(), separator);
        if s.last() == separator {
            before.push(Seq::empty())
        } else {
            before.drop_last().push(before.last().push(s.last()))
        }
    }
}

proof fn lemma_pieces_without(s: Seq<char>, separator: char)
    requires
        !s.contains(separator),
    ensures
        pieces(s, separator) == seq![s],
    decreases s.len(),
{
    if s.len() > 0 {
        assert forall|i: int| 0 <= i < s.len() implies s[i] != separator by {
            assert(s.contains(s[i]));
        }
        let shorter = s.drop_last();
        assert(!shorter.contains(separator)) by {
            if shorter.contains(separator) {
                let k = choose|k: int| 0 <= k < shorter.len() && shorter[k] == separator;
                assert(s[k] == separator);
            }
        }
        lemma_pieces_without(shorter, separator);
        assert(s.last() == s[s.len() - 1]);
        assert(seq![shorter].drop_last() == Seq::<Seq<char>>::empty());
        assert(shorter.push(s.last()) == s);
        assert(Seq::<Seq<char>>::empty().push(s) == seq![s]);
    }
}

/// A text without the separator, behind a separator, is one more piece.
proof fn lemma_pieces_more(s: Seq<char>, separator: char, last: Seq<char>)
    requires
        !last.contains(separator),
    ensures
        pieces(s.push(separator) + last, separator) == pieces(s, separator).push(last),
    decreases last.len(),
{
    let whole = s.push(separator) + last;
    if last.len() == 0 {
        assert(whole == s.push(separator));
        assert(whole.drop_last() == s);
        assert(last == Seq::<char>::empty());
    } else {
        let shorter = last.drop_last();
        assert(last.contains(last[last.len() - 1]));
        assert(!shorter.contains(separator)) by {
            if shorter.contains(separator) {
                let k = choose|k: int| 0 <= k < shorter.len() && shorter[k] == separator;
                assert(last[k] == separator);
            }
        }
        lemma_pieces_more(s, separator, shorter);
        assert(whole.drop_last() == s.push(separator) + shorter);
        assert(whole.last() == last.last());
        let earlier = pieces(s, separator).push(shorter);
        assert(earlier.drop_last() == pieces(s, separator));
        assert(earlier.last().push(last.last()) == last);
    }
}

/// Joining texts with a separator none of them holds loses nothing: cutting at the separator
/// gives them back.
pub proof fn lemma_split_undoes_join(parts: Seq<Seq<char>>, separator: char)
    requires
        parts.len() > 0,
        forall|i: int| 0 <= i < parts.len() ==> !(#[trigger] parts[i]).contains(separator),
    ensures
        pieces(joined(parts, seq![separator]), separator) == parts,
    decreases parts.len(),
{
    if parts.len() == 1 {
        assert(!parts[0].contains(separator));
        lemma_pieces_without(parts[0], separator);
        assert(parts == seq![parts[0]]);
    } else {
        let shorter = parts.drop_last();
        assert forall|i: int| 0 <= i < shorter.len() implies !(#[trigger] shorter[i]).contains(
            separator,
        ) by {
            assert(shorter[i] == parts[i]);
        }
        lemma_split_undoes_join(shorter, separator);
        let start = joined(shorter, seq![separator]);
        assert(!parts[parts.len() - 1].contains(separator));
        lemma_pieces_more(start, separator, parts.last());
        assert(start + seq![separator] == start.push(separator));
        assert(parts == shorter.push(parts.last()));
    }
}

/// Cut a text at every occurrence of a separator.
pub fn split(s: &str, separator: char) -> (r: Vec<String>)
    ensures
        texts(r@) == pieces(s@, separator),
{
    let chars = chars_of(s);
    let mut done: Vec<String> = Vec::new();
    let mut current = String::new();
    proof {
        assert(s@.take(0) == current@);
        assert(texts(done@).push(current@) == pieces(s@.take(0), separator));
    }
    for i in 0..chars.len()
        invariant
            chars@ == s@,
            texts(done@).push(current@) == pieces(s@.take(i as int), separator),
    {
        let c: char = chars[i];
        let ghost before = pieces(s@.take(i as int), separator);
        proof {
            assert(s@.take(i + 1).drop_last() == s@.take(i as int));
            assert(s@.take(i + 1).last() == c);
            assert(before.last() == current@);
            assert(before.drop_last() == texts(done@));
        }
        if c == separator {
            done.push(current);
            current = String::new();
            proof {
                assert(texts(done@) == before);
                assert(current@ == Seq::<char>::empty());
            }
        } else {
            current.push(c);
        }
    }
    proof {
        assert(s@.take(s@.len() as int) == s@);
    }
    let ghost earlier = texts(done@);
    done.push(current);
    proof {
        assert(texts(done@) == earlier.push(current@));
    }
    done
}

// ---------------------------------------------------------------------------------------------
// Order
// ---------------------------------------------------------------------------------------------
/// Whether a text stands before another: by the first character in which they differ, and a
/// text before all that continue it.
pub open spec fn before(a: Seq<char>, b: Seq<char>) -> bool
    decreases a.len(),
{
    if b.len() == 0 {
        false
    } else if a.len() == 0 {
        true
    } else if a[0] != b[0] {
        a[0] < b[0]
    } else {
        before(a.drop_first(), b.drop_first())
    }
}

/// Of two different texts exactly one stands before the other, and none before itself.
pub proof fn lemma_before_total(a: Seq<char>, b: Seq<char>)
    ensures
        a == b ==> !before(a, b),
        a != b ==> before(a, b) != before(b, a),
    decreases a.len(),
{
    if a.len() > 0 && b.len() > 0 {
        lemma_before_total(a.drop_first(), b.drop_first());
        if a[0] == b[0] && a.drop_first() == b.drop_first() {
            assert(a == seq![a[0]] + a.drop_first());
            assert(b == seq![b[0]] + b.drop_first());
        }
    } else if a.len() == 0 && b.len() == 0 {
        assert(a == b);
    }
}

/// The order of texts is transitive.
pub proof fn lemma_before_transitive(a: Seq<char>, b: Seq<char>, c: Seq<char>)
    requires
        before(a, b),
        before(b, c),
    ensures
        before(a, c),
    decreases a.len(),
{
    if a.len() > 0 && a[0] == b[0] && b[0] == c[0] {
        lemma_before_transitive(a.drop_first(), b.drop_first(), c.drop_first());
    }
}

proof fn lemma_before_at(a: Seq<char>, b: Seq<char>, k: int)
    requires
        0 <= k <= a.len(),
        k <= b.len(),
        forall|i: int| 0 <= i < k ==> #[trigger] a[i] == b[i],
        k == a.len() || k == b.len() || a[k] != b[k],
    ensures
        before(a, b) == (k < b.len() && (k == a.len() || a[k] < b[k])),
    decreases k,
{
    if k > 0 {
        assert(a[0] == b[0]);
        let x = a.drop_first();
        let y = b.drop_first();
        assert forall|i: int| 0 <= i < k - 1 implies #[trigger] x[i] == y[i] by {
            assert(a[i + 1] == b[i + 1]);
        }
        lemma_before_at(x, y, k - 1);
    }
}

/// Whether a text stands before another.
pub fn is_before(a: &str, b: &str) -> (r: bool)
    ensures
        r == before(a@, b@),
{
    let x = chars_of(a);
    let y = chars_of(b);
    let mut k: usize = 0;
    while k < x.len() && k < y.len() && x[k] == y[k]
        invariant
            x@ == a@,
            y@ == b@,
            k <= x.len(),
            k <= y.len(),
            forall|i: int| 0 <= i < k ==> #[trigger] a@[i] == b@[i],
        decreases x.len() - k,
    {
        k = k + 1;
    }
    proof {
        lemma_before_at(a@, b@, k as int);
    }
    k < y.len() && (k == x.len() || x[k] < y[k])
}

/// A list with one more text, put behind all that do not stand after it.
pub open spec fn inserted(list: Seq<Seq<char>>, added: Seq<char>) -> Seq<Seq<char>>
    decreases list.len(),
{
    if list.len() > 0 && before(added, list.last()) {
        inserted(list.drop_last(), added).push(list.last())
    } else {
        list.push(added)
    }
}

/// A list of texts, brought into order.
pub open spec fn ordered(list: Seq<Seq<char>>) -> Seq<Seq<char>>
    decreases list.len(),
{
    if list.len() == 0 {
        list
    } else {
        inserted(ordered(list.drop_last()), list.last())
    }
}

/// Whether no text of a list stands after a later one.
pub open spec fn in_order(list: Seq<Seq<char>>) -> bool {
    forall|i: int, j: int|
        0 <= i < j < list.len() ==> !before(#[trigger] list[j], #[trigger] list[i])
}

proof fn lemma_inserted(list: Seq<Seq<char>>, added: Seq<char>)
    requires
        in_order(list),
    ensures
        in_order(inserted(list, added)),
        inserted(list, added).to_multiset() == list.to_multiset().insert(added),
        inserted(list, added).len() == list.len() + 1,
    decreases list.len(),
{
    broadcast use vstd::seq_lib::group_to_multiset_ensures;

    if list.len() > 0 && before(added, list.last()) {
        let shorter = list.drop_last();
        assert(in_order(shorter));
        lemma_inserted(shorter, added);
        let rest = inserted(shorter, added);
        assert(list == shorter.push(list.last()));
        assert(rest.push(list.last()).to_multiset() == list.to_multiset().insert(added));
        assert forall|i: int| 0 <= i < rest.len() implies !before(
            list.last(),
            #[trigger] rest[i],
        ) by {
            assert(rest.to_multiset().count(rest[i]) > 0);
            assert(shorter.to_multiset().insert(added).count(rest[i]) > 0);
            if rest[i] == added {
                lemma_before_total(added, list.last());
            } else {
                assert(shorter.to_multiset().count(rest[i]) > 0);
                assert(shorter.contains(rest[i]));
                let k = choose|k: int| 0 <= k < shorter.len() && shorter[k] == rest[i];
                assert(list[k] == rest[i]);
                assert(!before(list[list.len() - 1], list[k]));
            }
        }
        let whole = rest.push(list.last());
        assert forall|i: int, j: int| 0 <= i < j < whole.len() implies !before(
            #[trigger] whole[j],
            #[trigger] whole[i],
        ) by {
            if j < rest.len() {
                assert(whole[j] == rest[j] && whole[i] == rest[i]);
            } else {
                assert(whole[i] == rest[i]);
            }
        }
    } else {
        let whole = list.push(added);
        assert forall|i: int, j: int| 0 <= i < j < whole.len() implies !before(
            #[trigger] whole[j],
            #[trigger] whole[i],
        ) by {
            if j < list.len() {
                assert(whole[j] == list[j] && whole[i] == list[i]);
            } else {
                assert(whole[i] == list[i]);
                if before(added, list[i]) {
                    if i < list.len() - 1 {
                        assert(!before(list[list.len() - 1], list[i]));
                        lemma_before_total(list.last(), list[i]);
                        if list.last() != list[i] {
                            lemma_before_transitive(added, list[i], list.last());
                        }
                    }
                }
            }
        }
    }
}

/// Bringing a list into order neither adds nor loses a text, and the result is in order.
pub proof fn lemma_ordered(list: Seq<Seq<char>>)
    ensures
        in_order(ordered(list)),
        ordered(list).to_multiset() == list.to_multiset(),
        ordered(list).len() == list.len(),
    decreases list.len(),
{
    broadcast use vstd::seq_lib::group_to_multiset_ensures;

    if list.len() > 0 {
        lemma_ordered(list.drop_last());
        lemma_inserted(ordered(list.drop_last()), list.last());
        assert(list == list.drop_last().push(list.last()));
    }
}

/// Put a text into a list, behind all that do not stand after it.
pub fn insert_ordered(list: &mut Vec<String>, added: String)
    ensures
        texts(final(list)@) == inserted(texts(old(list)@), added@),
{
    let ghost given = texts(list@);
    let mut at: usize = list.len();
    proof {
        assert(given.take(given.len() as int) == given);
        assert(inserted(given.take(at as int), added@) + given.skip(at as int) == inserted(
            given,
            added@,
        ));
    }
    while at > 0 && is_before(added.as_str(), list[at - 1].as_str())
        invariant
            at <= list@.len(),
            texts(list@) == given,
            inserted(given.take(at as int), added@) + given.skip(at as int) == inserted(
                given,
                added@,
            ),
        decreases at,
    {
        proof {
            let upto = given.take(at as int);
            assert(upto.last() == list@[at - 1]@);
            assert(upto.drop_last() == given.take(at - 1));
            assert(inserted(given.take(at - 1), added@).push(upto.last()) + given.skip(at as int)
                == inserted(given.take(at - 1), added@) + given.skip(at - 1));
        }
        at = at - 1;
    }
    proof {
        let upto = given.take(at as int);
        if at > 0 {
            assert(upto.last() == list@[at - 1]@);
        }
        assert(inserted(upto, added@) == upto.push(added@));
        assert(texts(list@.insert(at as int, added)) == upto.push(added@) + given.skip(at as int));
    }
    list.insert(at, added);
}

/// Bring a list of texts into order.
pub fn sort(list: Vec<String>) -> (r: Vec<String>)
    ensures
        texts(r@) == ordered(texts(list@)),
{
    let mut sorted: Vec<String> = Vec::new();
    let ghost given = texts(list@);
    proof {
        assert(given.take(0).len() == 0);
        assert(texts(sorted@) == ordered(given.take(0)));
    }
    for i in 0..list.len()
        invariant
            given == texts(list@),
            texts(sorted@) == ordered(given.take(i as int)),
    {
        proof {
            assert(given.take(i + 1).drop_last() == given.take(i as int));
            assert(given.take(i + 1).last() == list@[i as int]@);
        }
        insert_ordered(&mut sorted, list[i].clone());
    }
    proof {
        assert(given.take(given.len() as int) == given);
    }
    sorted
}

/// The texts of a list, each once and in order.
pub open spec fn distinct_ordered(list: Seq<Seq<char>>) -> Seq<Seq<char>>
    decreases list.len(),
{
    if list.len() == 0 {
        list
    } else {
        let before = distinct_ordered(list.drop_last());
        if before.contains(list.last()) {
            before
        } else {
            inserted(before, list.last())
        }
    }
}

/// Put a text into an ordered list unless it is there already.
pub fn insert_distinct(list: &mut Vec<String>, added: String)
    ensures
        texts(final(list)@) == (if texts(old(list)@).contains(added@) {
            texts(old(list)@)
        } else {
            inserted(texts(old(list)@), added@)
        }),
{
    if !list_contains(list, added.as_str()) {
        insert_ordered(list, added);
    }
}

/// Whether every text of a list stands before all later ones.
pub open spec fn ascending(list: Seq<Seq<char>>) -> bool {
    forall|i: int, j: int|
        0 <= i < j < list.len() ==> before(#[trigger] list[i], #[trigger] list[j])
}

proof fn lemma_push_contains(list: Seq<Seq<char>>, added: Seq<char>)
    ensures
        forall|t: Seq<char>|
            #[trigger] list.push(added).contains(t) <==> list.contains(t) || t == added,
{
    let whole = list.push(added);
    assert forall|t: Seq<char>| #[trigger] whole.contains(t) <==> list.contains(t) || t == added by {
        if list.contains(t) {
            let k = choose|k: int| 0 <= k < list.len() && list[k] == t;
            assert(whole[k] == t);
        }
        assert(whole[list.len() as int] == added);
    }
}

proof fn lemma_inserted_ascending(list: Seq<Seq<char>>, added: Seq<char>)
    requires
        ascending(list),
        !list.contains(added),
    ensures
        ascending(inserted(list, added)),
        forall|t: Seq<char>|
            #[trigger] inserted(list, added).contains(t) <==> list.contains(t) || t == added,
    decreases list.len(),
{
    if list.len() > 0 && before(added, list.last()) {
        let shorter = list.drop_last();
        let rest = inserted(shorter, added);
        let whole = rest.push(list.last());
        assert(list == shorter.push(list.last()));
        lemma_push_contains(shorter, list.last());
        lemma_push_contains(rest, list.last());
        lemma_inserted_ascending(shorter, added);
        assert forall|i: int| 0 <= i < rest.len() implies before(#[trigger] rest[i], list.last()) by {
            assert(rest.contains(rest[i]));
            if rest[i] != added {
                let k = choose|k: int| 0 <= k < shorter.len() && shorter[k] == rest[i];
                assert(before(list[k], list[list.len() - 1]));
            }
        }
        assert forall|i: int, j: int| 0 <= i < j < whole.len() implies before(
            #[trigger] whole[i],
            #[trigger] whole[j],
        ) by {
            assert(whole[i] == rest[i]);
            if j < rest.len() {
                assert(whole[j] == rest[j]);
            }
        }
    } else {
        let whole = list.push(added);
        lemma_push_contains(list, added);
        assert forall|i: int, j: int| 0 <= i < j < whole.len() implies before(
            #[trigger] whole[i],
            #[trigger] whole[j],
        ) by {
            assert(whole[i] == list[i]);
            if j < list.len() {
                assert(whole[j] == list[j]);
            } else {
                assert(list.contains(list.last()));
                lemma_before_total(added, list.last());
                if i < list.len() - 1 {
                    assert(before(list[i], list[list.len() - 1]));
                    lemma_before_transitive(list[i], list.last(), added);
                }
            }
        }
    }
}

/// Keeping each text once and in order loses none, adds none and repeats none: the result is in
/// strictly ascending order and holds exactly the texts of the list.
pub proof fn lemma_distinct_ordered(list: Seq<Seq<char>>)
    ensures
        ascending(distinct_ordered(list)),
        forall|t: Seq<char>| #[trigger] distinct_ordered(list).contains(t) <==> list.contains(t),
    decreases list.len(),
{
    if list.len() > 0 {
        let shorter = list.drop_last();
        lemma_distinct_ordered(shorter);
        assert(list == shorter.push(list.last()));
        lemma_push_contains(shorter, list.last());
        if !distinct_ordered(shorter).contains(list.last()) {
            lemma_inserted_ascending(distinct_ordered(shorter), list.last());
        }
    }
}

/// Two ascending lists of the same texts are the same list.
pub proof fn lemma_ascending_is_unique(a: Seq<Seq<char>>, b: Seq<Seq<char>>)
    requires
        ascending(a),
        ascending(b),
        forall|t: Seq<char>| #[trigger] a.contains(t) <==> b.contains(t),
    ensures
        a == b,
    decreases a.len(),
{
    if a.len() == 0 {
        if b.len() > 0 {
            assert(b.contains(b[0]));
            assert(a.contains(b[0]));
        }
        assert(a == b);
    } else {
        let x = a.last();
        assert(a.contains(x));
        assert(b.contains(x));
        let y = b.last();
        assert(b.contains(y));
        assert(a.contains(y));
        let i = choose|i: int| 0 <= i < a.len() && a[i] == y;
        let j = choose|j: int| 0 <= j < b.len() && b[j] == x;
        lemma_before_total(x, y);
        assert(x == y);
        lemma_ascending_without_last(a);
        lemma_ascending_without_last(b);
        assert forall|t: Seq<char>| #[trigger]
            a.drop_last().contains(t) <==> b.drop_last().contains(t) by {
            assert(a.contains(t) <==> b.contains(t));
        }
        lemma_ascending_is_unique(a.drop_last(), b.drop_last());
        assert(a == a.drop_last().push(x));
        assert(b == b.drop_last().push(y));
    }
}

proof fn lemma_ascending_without_last(list: Seq<Seq<char>>)
    requires
        ascending(list),
        list.len() > 0,
    ensures
        ascending(list.drop_last()),
        forall|t: Seq<char>| #[trigger]
            list.drop_last().contains(t) <==> list.contains(t) && t != list.last(),
{
    let shorter = list.drop_last();
    assert forall|t: Seq<char>| #[trigger]
        shorter.contains(t) <==> list.contains(t) && t != list.last() by {
        if shorter.contains(t) {
            let i = choose|i: int| 0 <= i < shorter.len() && shorter[i] == t;
            assert(list[i] == t);
            assert(before(list[i], list[list.len() - 1]));
            lemma_before_total(t, list.last());
        }
        if list.contains(t) && t != list.last() {
            let i = choose|i: int| 0 <= i < list.len() && list[i] == t;
            assert(shorter[i] == t);
        }
    }
}

/// The order in which texts are listed, and how often, does not matter to the ordered list of
/// distinct ones.
pub proof fn lemma_distinct_ordered_is_unique(a: Seq<Seq<char>>, b: Seq<Seq<char>>)
    requires
        forall|t: Seq<char>| #[trigger] a.contains(t) <==> b.contains(t),
    ensures
        distinct_ordered(a) == distinct_ordered(b),
{
    lemma_distinct_ordered(a);
    lemma_distinct_ordered(b);
    assert forall|t: Seq<char>| #[trigger]
        distinct_ordered(a).contains(t) <==> distinct_ordered(b).contains(t) by {
        assert(a.contains(t) <==> b.contains(t));
    }
    lemma_ascending_is_unique(distinct_ordered(a), distinct_ordered(b));
}

/// A list without the texts that repeat the one just before them.
pub open spec fn squeezed(list: Seq<Seq<char>>) -> Seq<Seq<char>>
    decreases list.len(),
{
    if list.len() <= 1 {
        list
    } else if list.last() == list[list.len() - 2] {
        squeezed(list.drop_last())
    } else {
        squeezed(list.drop_last()).push(list.last())
    }
}

proof fn lemma_squeezed_last(list: Seq<Seq<char>>)
    requires
        list.len() > 0,
    ensures
        squeezed(list).len() > 0,
        squeezed(list).last() == list.last(),
    decreases list.len(),
{
    if list.len() > 1 {
        lemma_squeezed_last(list.drop_last());
    }
}

/// Drop the texts of a list that repeat the one just before them.
pub fn dedup(list: &Vec<String>) -> (r: Vec<String>)
    ensures
        texts(r@) == squeezed(texts(list@)),
{
    let mut kept: Vec<String> = Vec::new();
    let ghost given = texts(list@);
    proof {
        assert(texts(kept@) == squeezed(given.take(0)));
    }
    for i in 0..list.len()
        invariant
            given == texts(list@),
            texts(kept@) == squeezed(given.take(i as int)),
    {
        proof {
            assert(given.take(i + 1).drop_last() == given.take(i as int));
            assert(given.take(i + 1).last() == list@[i as int]@);
            if i > 0 {
                lemma_squeezed_last(given.take(i as int));
                assert(given.take(i + 1)[i - 1] == given.take(i as int).last());
            }
        }
        let count: usize = kept.len();
        let ghost earlier = texts(kept@);
        if count == 0 || !same_text(kept[count - 1].as_str(), list[i].as_str()) {
            kept.push(list[i].clone());
            proof {
                assert(texts(kept@) == earlier.push(list@[i as int]@));
                if i == 0 {
                    assert(squeezed(given.take(1)) == given.take(1));
                }
            }
        }
    }
    proof {
        assert(given.take(given.len() as int) == given);
    }
    kept
}

} // verus!
