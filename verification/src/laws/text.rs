//! What holds of text primitives.

use vstd::prelude::*;
use vstd::utf8::*;

use crate::text;

verus! {

/// Lowering ASCII letters leaves no capital, moves every capital by the distance between `A` and
/// `a`, and touches nothing else.
pub proof fn lemma_lowering(s: Seq<char>)
    ensures
        text::ascii_lowercase(s).len() == s.len(),
        forall|i: int|
            0 <= i < s.len() ==> {
                let lower = #[trigger] text::ascii_lowercase(s)[i];
                &&& !('A' <= lower <= 'Z')
                &&& lower == s[i] || (lower as int == s[i] as int + 32 && 'a' <= lower <= 'z')
            },
        text::ascii_lowercase(text::ascii_lowercase(s)) == text::ascii_lowercase(s),
        is_ascii_chars(s) ==> text::lowered(s) == text::ascii_lowercase(s),
{
}

/// Trimming takes white space from either end and nothing else: what is left is a part of the text
/// that neither starts nor ends with white space, with nothing but white space around it.
pub proof fn lemma_trimming(s: Seq<char>) -> (cut: (int, int))
    ensures
        0 <= cut.0 <= cut.1 <= s.len(),
        text::trimmed(s) == s.subrange(cut.0, cut.1),
        forall|i: int| 0 <= i < cut.0 ==> text::white_space(#[trigger] s[i]),
        forall|i: int| cut.1 <= i < s.len() ==> text::white_space(#[trigger] s[i]),
        cut.0 < cut.1 ==> !text::white_space(s[cut.0]) && !text::white_space(s[cut.1 - 1]),
{
    let start = trimmed_start_at(s);
    let rest = text::trimmed_start(s);
    let end = trimmed_end_at(rest);
    let t = text::trimmed_end(rest);
    assert(t == s.subrange(start, start + end));
    assert forall|i: int| start + end <= i < s.len() implies text::white_space(#[trigger] s[i]) by {
        assert(rest[i - start] == s[i]);
    }
    if end > 0 {
        assert(t[0] == rest[0]);
        assert(rest[end - 1] == s[start + end - 1]);
    }
    (start, start + end)
}

proof fn trimmed_start_at(s: Seq<char>) -> (k: int)
    ensures
        0 <= k <= s.len(),
        text::trimmed_start(s) == s.skip(k),
        forall|i: int| 0 <= i < k ==> text::white_space(#[trigger] s[i]),
        k < s.len() ==> !text::white_space(s[k]),
    decreases s.len(),
{
    if s.len() > 0 && text::white_space(s[0]) {
        let k = trimmed_start_at(s.drop_first());
        assert(s.drop_first().skip(k) == s.skip(k + 1));
        assert forall|i: int| 0 <= i < k + 1 implies text::white_space(#[trigger] s[i]) by {
            if i > 0 {
                assert(s.drop_first()[i - 1] == s[i]);
            }
        }
        if k + 1 < s.len() {
            assert(s.drop_first()[k] == s[k + 1]);
        }
        k + 1
    } else {
        assert(s.skip(0) == s);
        0
    }
}

proof fn trimmed_end_at(s: Seq<char>) -> (k: int)
    ensures
        0 <= k <= s.len(),
        text::trimmed_end(s) == s.take(k),
        forall|i: int| k <= i < s.len() ==> text::white_space(#[trigger] s[i]),
        k > 0 ==> !text::white_space(s[k - 1]),
    decreases s.len(),
{
    if s.len() > 0 && text::white_space(s.last()) {
        let k = trimmed_end_at(s.drop_last());
        assert(s.drop_last().take(k) == s.take(k));
        assert forall|i: int| k <= i < s.len() implies text::white_space(#[trigger] s[i]) by {
            if i < s.len() - 1 {
                assert(s.drop_last()[i] == s[i]);
            }
        }
        k
    } else {
        assert(s.take(s.len() as int) == s);
        s.len() as int
    }
}

/// White space are the blanks, tabs, line and page ends of Unicode, and nothing else.
pub proof fn lemma_white_space(c: char)
    ensures
        text::white_space(c) <==> {
            ||| '\t' <= c <= '\r'
            ||| c == ' '
            ||| c == '\u{85}'
            ||| c == '\u{a0}'
            ||| c == '\u{1680}'
            ||| '\u{2000}' <= c <= '\u{200a}'
            ||| c == '\u{2028}'
            ||| c == '\u{2029}'
            ||| c == '\u{202f}'
            ||| c == '\u{205f}'
            ||| c == '\u{3000}'
        },
{
}

/// The first line is what stands before the first line end, which is a line feed with or without a
/// carriage return before it.
pub proof fn lemma_first_line(line: Seq<char>, rest: Seq<char>)
    requires
        !line.contains('\n'),
    ensures
        text::first_line(line) == line,
        line.len() == 0 || line.last() != '\r' ==> text::first_line(line + seq!['\n'] + rest)
            == line,
        text::first_line(line + seq!['\r', '\n'] + rest) == line,
{
    let plain = line + seq!['\n'] + rest;
    let long = line + seq!['\r', '\n'] + rest;
    line_ends_at(line, line.len() as int);
    line_ends_at(plain, line.len() as int);
    line_ends_at(long, line.len() as int + 1);
    assert(line.take(line.len() as int) == line);
    assert(plain.take(line.len() as int) == line);
    assert(long.take(line.len() as int) == line);
    if line.len() > 0 {
        assert(plain[line.len() - 1] == line.last());
    }
}

proof fn line_ends_at(s: Seq<char>, k: int)
    requires
        0 <= k <= s.len(),
        forall|i: int| 0 <= i < k ==> #[trigger] s[i] != '\n',
        k == s.len() || s[k] == '\n',
    ensures
        text::line_length(s) == k,
    decreases k,
{
    if k > 0 {
        assert(s[0] != '\n');
        assert forall|i: int| 0 <= i < k - 1 implies #[trigger] s.drop_first()[i] != '\n' by {
            assert(s.drop_first()[i] == s[i + 1]);
        }
        line_ends_at(s.drop_first(), k - 1);
    }
}

/// A text occurs in another exactly where the other can be put together around it.
pub proof fn lemma_occurs_within(whole: Seq<char>, part: Seq<char>)
    ensures
        text::occurs(whole, part) <==> exists|before: Seq<char>, after: Seq<char>|
            whole == #[trigger] (before + part + after),
{
    if text::occurs(whole, part) {
        let at = choose|at: int| text::occurs_at(whole, part, at);
        let before = whole.take(at);
        let after = whole.skip(at + part.len());
        assert(whole == before + part + after);
    }
    if exists|before: Seq<char>, after: Seq<char>| whole == #[trigger] (before + part + after) {
        let (before, after) = choose|before: Seq<char>, after: Seq<char>|
            whole == #[trigger] (before + part + after);
        assert(whole.subrange(before.len() as int, before.len() as int + part.len()) == part);
        assert(text::occurs_at(whole, part, before.len() as int));
    }
}

/// Joining one text gives that text, and joining two lists gives either, with one separator
/// between.
pub proof fn lemma_joining(a: Seq<Seq<char>>, b: Seq<Seq<char>>, separator: Seq<char>)
    ensures
        a.len() == 0 ==> text::joined(a, separator).len() == 0,
        a.len() == 1 ==> text::joined(a, separator) == a[0],
        a.len() > 0 && b.len() > 0 ==> text::joined(a + b, separator) == text::joined(a, separator)
            + separator + text::joined(b, separator),
    decreases b.len(),
{
    if a.len() > 0 && b.len() > 0 {
        assert((a + b).drop_last() == a + b.drop_last());
        assert((a + b).last() == b.last());
        if b.len() > 1 {
            lemma_joining(a, b.drop_last(), separator);
            assert(text::joined(a, separator) + separator + text::joined(b.drop_last(), separator)
                + separator + b.last() == text::joined(a, separator) + separator + (text::joined(
                b.drop_last(),
                separator,
            ) + separator + b.last()));
        } else {
            assert(a + b.drop_last() == a);
        }
    }
}

/// A padded label is the label and blanks, as wide as asked for or as the label is.
pub proof fn lemma_padding(label: Seq<char>, width: nat)
    ensures
        text::padded(label, width).take(label.len() as int) == label,
        forall|i: int|
            label.len() <= i < text::padded(label, width).len() ==> #[trigger] text::padded(
                label,
                width,
            )[i] == ' ',
        text::padded(label, width).len() == (if label.len() < width {
            width
        } else {
            label.len()
        }),
{
    assert(text::padded(label, width).take(label.len() as int) == label);
}

/// The value of a digit, in lower case.
pub open spec fn digit_value(c: char) -> int {
    if '0' <= c <= '9' {
        c as int - '0' as int
    } else {
        c as int - 'a' as int + 10
    }
}

/// The number that digits stand for in a base.
pub open spec fn read_in(digits: Seq<char>, base: int) -> int
    decreases digits.len(),
{
    if digits.len() == 0 {
        0
    } else {
        read_in(digits.drop_last(), base) * base + digit_value(digits.last())
    }
}

/// A written number reads back as itself, has digits of its base only, and no zero in front.
pub proof fn lemma_numbers_read_back(n: nat, base: nat)
    requires
        2 <= base <= 16,
    ensures
        read_in(text::numeral(n, base), base as int) == n,
        text::numeral(n, base).len() > 0,
        n > 0 ==> text::numeral(n, base)[0] != '0',
        n == 0 ==> text::numeral(n, base) == seq!['0'],
        forall|i: int|
            0 <= i < text::numeral(n, base).len() ==> {
                let c = #[trigger] text::numeral(n, base)[i];
                &&& '0' <= c <= '9' || 'a' <= c <= 'f'
                &&& digit_value(c) < base
            },
    decreases n,
{
    if n >= base {
        assert(n / base < n && n / base > 0 && n % base < base && n == (n / base) * base + n
            % base) by (nonlinear_arith)
            requires
                n >= base,
                base >= 2,
        ;
        lemma_numbers_read_back(n / base, base);
        let front = text::numeral(n / base, base);
        assert(text::numeral(n, base) == front.push(text::digit(n % base)));
        assert(text::numeral(n, base).drop_last() == front);
    } else {
        assert(text::numeral(n, base) == seq![text::digit(n)]);
        assert(text::numeral(n, base).drop_last().len() == 0);
        assert(read_in(text::numeral(n, base).drop_last(), base as int) == 0);
        assert(0 * base == 0);
    }
}

/// Numbers are written in base ten, with a minus sign in front of negative ones.
pub proof fn lemma_decimals(n: nat)
    ensures
        read_in(text::decimal(n), 10) == n,
        forall|i: int|
            0 <= i < text::decimal(n).len() ==> '0' <= #[trigger] text::decimal(n)[i] <= '9',
        text::decimal_signed(n as int) == text::decimal(n),
        n > 0 ==> text::decimal_signed(-n) == seq!['-'] + text::decimal(n),
{
    lemma_numbers_read_back(n, 10);
}

/// Splitting loses nothing: joined again, the pieces are the text, and none holds the separator.
pub proof fn lemma_join_undoes_split(s: Seq<char>, separator: char)
    ensures
        text::pieces(s, separator).len() > 0,
        forall|i: int|
            0 <= i < text::pieces(s, separator).len() ==> !(#[trigger] text::pieces(
                s,
                separator,
            )[i]).contains(separator),
        text::joined(text::pieces(s, separator), seq![separator]) == s,
    decreases s.len(),
{
    let all = text::pieces(s, separator);
    if s.len() == 0 {
        assert(all == seq![s]);
    } else {
        lemma_join_undoes_split(s.drop_last(), separator);
        let before = text::pieces(s.drop_last(), separator);
        assert(s == s.drop_last().push(s.last()));
        if s.last() == separator {
            assert(all.drop_last() == before);
            assert forall|i: int| 0 <= i < all.len() implies !(#[trigger] all[i]).contains(
                separator,
            ) by {
                if i < before.len() {
                    assert(all[i] == before[i]);
                }
            }
            assert(text::joined(all, seq![separator]) == s.drop_last() + seq![separator]
                + Seq::<char>::empty());
            assert(text::joined(all, seq![separator]) == s);
        } else {
            let grown = before.last().push(s.last());
            assert(all == before.drop_last().push(grown));
            assert(all.drop_last() == before.drop_last());
            assert forall|i: int| 0 <= i < all.len() implies !(#[trigger] all[i]).contains(
                separator,
            ) by {
                if i < before.len() - 1 {
                    assert(all[i] == before[i]);
                } else {
                    assert(!before[before.len() - 1].contains(separator));
                    assert forall|k: int| 0 <= k < grown.len() implies grown[k] != separator by {
                        if k < grown.len() - 1 {
                            assert(before.last()[k] == grown[k]);
                        }
                    }
                }
            }
            if before.len() == 1 {
                assert(text::joined(all, seq![separator]) == s);
            } else {
                assert(text::joined(all, seq![separator]) == text::joined(
                    before.drop_last(),
                    seq![separator],
                ) + seq![separator] + grown);
                assert(text::joined(all, seq![separator]) == s);
            }
        }
    }
}

/// Texts are ordered as in a dictionary, by code point: by the first character in which they
/// differ, and a text stands before what continues it.
pub proof fn lemma_dictionary_order(common: Seq<char>, a: char, b: char, x: Seq<char>, y: Seq<char>)
    ensures
        a < b ==> text::before(common + seq![a] + x, common + seq![b] + y),
        text::before(common, common + seq![b] + y),
        !text::before(common + seq![b] + y, common),
        !text::before(common, common),
    decreases common.len(),
{
    let p = common + seq![a] + x;
    let q = common + seq![b] + y;
    if common.len() > 0 {
        lemma_dictionary_order(common.drop_first(), a, b, x, y);
        assert(p.drop_first() == common.drop_first() + seq![a] + x);
        assert(q.drop_first() == common.drop_first() + seq![b] + y);
    }
}

/// Squeezing drops exactly the repetitions: every text of the list stands in the result at a place
/// that moves on by one where the text changes and not at all where it does not.
pub proof fn lemma_squeezing(list: Seq<Seq<char>>) -> (places: Seq<int>)
    ensures
        places.len() == list.len(),
        forall|i: int|
            0 <= i < list.len() ==> 0 <= #[trigger] places[i] < text::squeezed(list).len()
                && text::squeezed(list)[places[i]] == list[i],
        list.len() > 0 ==> places[0] == 0 && places.last() == text::squeezed(list).len() - 1,
        list.len() == 0 ==> text::squeezed(list).len() == 0,
        forall|i: int|
            0 <= i < list.len() - 1 ==> #[trigger] places[i + 1] == places[i] + (if list[i + 1]
                == list[i] {
                0int
            } else {
                1
            }),
    decreases list.len(),
{
    if list.len() == 0 {
        Seq::empty()
    } else if list.len() == 1 {
        seq![0]
    } else {
        let shorter = list.drop_last();
        let earlier = lemma_squeezing(shorter);
        let last = list.len() - 1;
        let before = text::squeezed(shorter);
        let next = if list[last] == list[last - 1] {
            earlier.last()
        } else {
            before.len() as int
        };
        let places = earlier.push(next);
        assert(before[earlier[last - 1]] == shorter[last - 1]);
        assert forall|i: int| 0 <= i < list.len() implies 0 <= #[trigger] places[i]
            < text::squeezed(list).len() && text::squeezed(list)[places[i]] == list[i] by {
            if i < last {
                assert(places[i] == earlier[i]);
                assert(before[earlier[i]] == shorter[i]);
            }
        }
        assert forall|i: int| 0 <= i < list.len() - 1 implies #[trigger] places[i + 1] == places[i]
            + (if list[i + 1] == list[i] {
            0int
        } else {
            1
        }) by {
            if i + 1 < last {
                assert(places[i + 1] == earlier[i + 1] && places[i] == earlier[i]);
                assert(shorter[i + 1] == list[i + 1] && shorter[i] == list[i]);
            } else {
                assert(places[i] == earlier[last - 1]);
            }
        }
        places
    }
}

/// Sorting gives a permutation in which no text stands after one it comes before.
pub proof fn lemma_sorting(list: Seq<Seq<char>>)
    ensures
        text::ordered(list).to_multiset() == list.to_multiset(),
        forall|i: int, j: int|
            0 <= i < j < text::ordered(list).len() ==> !text::before(
                #[trigger] text::ordered(list)[j],
                #[trigger] text::ordered(list)[i],
            ),
{
    text::lemma_ordered(list);
}

// ---------------------------------------------------------------------------------------------
// The functions
// ---------------------------------------------------------------------------------------------
/// Trimming a text gives the part of it between the white space at its ends.
pub proof fn lemma_trim(s: &str, r: String)
    requires
        call_ensures(text::trim, (s,), r),
    ensures
        exists|start: int, end: int|
            0 <= start <= end <= s@.len() && r@ == #[trigger] s@.subrange(start, end) && (forall|
                i: int,
            |
                (0 <= i < start || end <= i < s@.len()) ==> text::white_space(#[trigger] s@[i])),
        r@.len() > 0 ==> !text::white_space(r@[0]) && !text::white_space(r@.last()),
{
    let cut = lemma_trimming(s@);
    assert(r@ == s@.subrange(cut.0, cut.1));
}

/// Lowering, the first line and white space are as their laws say.
pub proof fn lemma_plain_functions(
    s: &str,
    c: char,
    lower: String,
    line: String,
    white: bool,
    other: &str,
    same: bool,
    chars: Vec<char>,
)
    requires
        call_ensures(text::to_ascii_lowercase, (s,), lower),
        call_ensures(text::line_one, (s,), line),
        call_ensures(text::is_white_space, (c,), white),
        call_ensures(text::same_text, (s, other), same),
        call_ensures(text::chars_of, (s,), chars),
    ensures
        lower@ == text::ascii_lowercase(s@),
        line@ == text::first_line(s@),
        !s@.contains('\n') ==> line@ == s@,
        !line@.contains('\n'),
        white == text::white_space(c),
        same <==> s@ == other@,
        chars@ == s@,
{
    text::lemma_first_line(s@);
    if !s@.contains('\n') {
        lemma_first_line(s@, s@);
    }
}

/// A needle is found where it first stands: nowhere before, and not at all only if it stands
/// nowhere.
pub proof fn lemma_find(whole: &Vec<char>, needle: &Vec<char>, r: Option<usize>)
    requires
        call_ensures(text::find, (whole, needle), r),
    ensures
        r matches Some(at) ==> {
            &&& at + needle@.len() <= whole@.len()
            &&& whole@.subrange(at as int, at + needle@.len()) == needle@
            &&& forall|k: int|
                0 <= k < at && k + needle@.len() <= whole@.len() ==> #[trigger] whole@.subrange(
                    k,
                    k + needle@.len(),
                ) != needle@
        },
        r is None ==> forall|k: int|
            0 <= k && k + needle@.len() <= whole@.len() ==> #[trigger] whole@.subrange(
                k,
                k + needle@.len(),
            ) != needle@,
{
    text::lemma_next_occurrence(whole@, needle@, 0);
    if let Some(at) = r {
        assert forall|k: int|
            0 <= k < at && k + needle@.len() <= whole@.len() implies #[trigger] whole@.subrange(
            k,
            k + needle@.len(),
        ) != needle@ by {
            assert(!text::occurs_at(whole@, needle@, k));
        }
    } else {
        assert forall|k: int| 0 <= k && k + needle@.len() <= whole@.len() implies
            #[trigger] whole@.subrange(k, k + needle@.len()) != needle@ by {
            assert(!text::occurs_at(whole@, needle@, k));
        }
    }
}

/// A text contains another exactly if it can be put together around it.
pub proof fn lemma_contains(whole: &str, part: &str, r: bool)
    requires
        call_ensures(text::contains, (whole, part), r),
    ensures
        r <==> exists|before: Seq<char>, after: Seq<char>|
            whole@ == #[trigger] (before + part@ + after),
{
    lemma_occurs_within(whole@, part@);
}

/// Splitting at a separator and joining with it undo each other.
pub proof fn lemma_split_and_join(s: &str, separator: char, parts: Vec<String>, glue: &str, r: String)
    requires
        call_ensures(text::split, (s, separator), parts),
        call_ensures(text::join, (&parts, glue), r),
        glue@ == seq![separator],
    ensures
        r@ == s@,
        parts@.len() > 0,
        forall|i: int| 0 <= i < parts@.len() ==> !(#[trigger] parts@[i])@.contains(separator),
{
    lemma_join_undoes_split(s@, separator);
    let all = text::texts(parts@);
    assert forall|i: int| 0 <= i < parts@.len() implies !(#[trigger] parts@[i])@.contains(
        separator,
    ) by {
        assert(all[i] == parts@[i]@);
    }
}

/// Joining some of a list joins its first texts.
pub proof fn lemma_join_first(
    parts: &Vec<String>,
    count: usize,
    glue: &str,
    some: String,
    all: String,
)
    requires
        count <= parts@.len(),
        call_ensures(text::join_first, (parts, count, glue), some),
        call_ensures(text::join, (parts, glue), all),
    ensures
        count == parts@.len() ==> some@ == all@,
        count == 0 ==> some@.len() == 0,
        count == 1 ==> some@ == parts@[0]@,
        some@.is_prefix_of(all@),
{
    let list = text::texts(parts@);
    if count == parts@.len() {
        assert(list.take(count as int) == list);
    }
    lemma_joining(list.take(count as int), list.skip(count as int), glue@);
    assert(list.take(count as int) + list.skip(count as int) == list);
    lemma_joining(list, list, glue@);
    if 0 < count < parts@.len() {
        assert(all@ == some@ + glue@ + text::joined(list.skip(count as int), glue@));
    }
}

/// Numbers are written so that they read back.
pub proof fn lemma_numbers(
    n: usize,
    wide: u128,
    small: u32,
    signed: i32,
    n_text: String,
    wide_text: String,
    octal: String,
    signed_text: String,
)
    requires
        call_ensures(text::number, (n,), n_text),
        call_ensures(text::wide_number, (wide,), wide_text),
        call_ensures(text::octal, (small,), octal),
        call_ensures(text::signed, (signed,), signed_text),
    ensures
        read_in(n_text@, 10) == n,
        read_in(wide_text@, 10) == wide,
        read_in(octal@, 8) == small,
        signed >= 0 ==> read_in(signed_text@, 10) == signed,
        signed < 0 ==> signed_text@.len() > 1 && signed_text@[0] == '-' && read_in(
            signed_text@.drop_first(),
            10,
        ) == -signed,
{
    lemma_numbers_read_back(n as nat, 10);
    lemma_numbers_read_back(wide as nat, 10);
    lemma_numbers_read_back(small as nat, 8);
    if signed >= 0 {
        lemma_decimals(signed as nat);
    } else {
        lemma_decimals((-signed) as nat);
        lemma_numbers_read_back((-signed) as nat, 10);
        assert(signed_text@ == seq!['-'] + text::decimal((-signed) as nat));
        assert(signed_text@.drop_first() == text::decimal((-signed) as nat));
    }
}

/// A label is padded with blanks to a width.
pub proof fn lemma_pad(label: &str, width: usize, r: String)
    requires
        call_ensures(text::pad, (label, width), r),
    ensures
        label@.is_prefix_of(r@),
        forall|i: int| label@.len() <= i < r@.len() ==> #[trigger] r@[i] == ' ',
        label@.len() <= width ==> r@.len() == width,
        label@.len() > width ==> r@ == label@,
{
    lemma_padding(label@, width as nat);
    assert(r@.take(label@.len() as int) == label@);
    assert(label@.is_prefix_of(r@));
}

/// Sorting keeps every text and leaves none behind one that it comes before.
pub proof fn lemma_sort(list: Vec<String>, r: Vec<String>)
    requires
        call_ensures(text::sort, (list,), r),
    ensures
        text::texts(r@).to_multiset() == text::texts(list@).to_multiset(),
        forall|i: int, j: int|
            0 <= i < j < r@.len() ==> !text::before((#[trigger] r@[j])@, (#[trigger] r@[i])@),
{
    lemma_sorting(text::texts(list@));
    let all = text::texts(r@);
    assert forall|i: int, j: int| 0 <= i < j < r@.len() implies !text::before(
        (#[trigger] r@[j])@,
        (#[trigger] r@[i])@,
    ) by {
        assert(all[i] == r@[i]@ && all[j] == r@[j]@);
    }
}

/// Equal texts that follow each other are kept once, and everything else stays.
pub proof fn lemma_dedup(list: &Vec<String>, r: Vec<String>)
    requires
        call_ensures(text::dedup, (list,), r),
    ensures
        text::texts(r@) == text::squeezed(text::texts(list@)),
        forall|i: int| 0 <= i < r@.len() - 1 ==> (#[trigger] r@[i])@ != r@[i + 1]@,
{
    let all = text::texts(r@);
    no_repetitions(text::texts(list@));
    assert forall|i: int| 0 <= i < r@.len() - 1 implies (#[trigger] r@[i])@ != r@[i + 1]@ by {
        assert(all[i] == r@[i]@ && all[i + 1] == r@[i + 1]@);
    }
}

proof fn no_repetitions(list: Seq<Seq<char>>)
    ensures
        forall|i: int|
            0 <= i < text::squeezed(list).len() - 1 ==> #[trigger] text::squeezed(list)[i]
                != text::squeezed(list)[i + 1],
        list.len() > 0 ==> text::squeezed(list).len() > 0 && text::squeezed(list).last()
            == list.last(),
    decreases list.len(),
{
    if list.len() > 0 {
        no_repetitions(list.drop_last());
    }
}

/// One text stands before another in the order of the dictionary.
pub proof fn lemma_is_before(a: &str, b: &str, r: bool)
    requires
        call_ensures(text::is_before, (a, b), r),
    ensures
        r == text::before(a@, b@),
        a@ == b@ ==> !r,
        a@.is_prefix_of(b@) && a@.len() < b@.len() ==> r,
        a@.len() > 0 && b@.len() > 0 && a@[0] < b@[0] ==> r,
        a@.len() > 0 && b@.len() > 0 && a@[0] > b@[0] ==> !r,
{
    if a@ == b@ {
        lemma_dictionary_order(a@, 'a', 'b', a@, a@);
    }
    if a@.is_prefix_of(b@) && a@.len() < b@.len() {
        let n = a@.len() as int;
        let back = b@.skip(n + 1);
        assert(b@ == a@ + seq![b@[n]] + back);
        lemma_dictionary_order(a@, b@[n], b@[n], back, back);
    }
}

/// A text that is not there yet is put in its place, and one that is changes nothing.
pub proof fn lemma_insert_distinct(list: &mut Vec<String>, added: String)
    requires
        call_ensures(text::insert_distinct, (list, added), ()),
    ensures
        text::texts(old(list)@).contains(added@) ==> text::texts(final(list)@) == text::texts(
            old(list)@,
        ),
        !text::texts(old(list)@).contains(added@) ==> text::texts(final(list)@) == text::inserted(
            text::texts(old(list)@),
            added@,
        ),
{
}

/// A text put into a list comes before everything behind it, but not before what stands right in
/// front of it, and the rest of the list stays as it is.
pub proof fn lemma_inserting(list: Seq<Seq<char>>, added: Seq<char>) -> (at: int)
    ensures
        0 <= at <= list.len(),
        text::inserted(list, added) == list.take(at) + seq![added] + list.skip(at),
        forall|i: int| at <= i < list.len() ==> text::before(added, #[trigger] list[i]),
        at > 0 ==> !text::before(added, list[at - 1]),
    decreases list.len(),
{
    if list.len() > 0 && text::before(added, list.last()) {
        let front = list.drop_last();
        let at = lemma_inserting(front, added);
        assert(front.take(at) == list.take(at));
        assert(front.skip(at).push(list.last()) == list.skip(at));
        assert(text::inserted(list, added) == list.take(at) + seq![added] + list.skip(at));
        assert forall|i: int| at <= i < list.len() implies text::before(
            added,
            #[trigger] list[i],
        ) by {
            if i < front.len() {
                assert(front[i] == list[i]);
            }
        }
        at
    } else {
        assert(list.take(list.len() as int) + seq![added] + list.skip(list.len() as int)
            == list.push(added));
        list.len() as int
    }
}

/// Optional texts and lists are read and copied as they are.
pub proof fn lemma_small_functions(
    value: &Option<String>,
    fallback: &str,
    read: &str,
    copy: Option<String>,
    list: &Vec<String>,
    copies: Vec<String>,
    there: bool,
    grown: &mut Vec<String>,
    added: String,
    digit: u64,
    c: char,
)
    requires
        call_ensures(text::str_or, (value, fallback), read),
        call_ensures(text::copy_optional, (value,), copy),
        call_ensures(text::copy_list, (list,), copies),
        call_ensures(text::list_contains, (list, fallback), there),
        call_ensures(text::insert_ordered, (grown, added), ()),
        digit < 16,
        call_ensures(text::digit_char, (digit,), c),
    ensures
        value matches Some(given) ==> read@ == given@,
        value is None ==> read@ == fallback@,
        copy == *value,
        copies@ == list@,
        there <==> text::texts(list@).contains(fallback@),
        text::texts(final(grown)@) == text::inserted(text::texts(old(grown)@), added@),
        digit_value(c) == digit,
{
}

/// The number of bytes before a place is counted exactly up to a cap.
pub proof fn lemma_byte_lengths(chars: &Vec<char>, count: usize, cap: usize, r: usize)
    requires
        count <= chars@.len(),
        cap <= 1_000_000,
        call_ensures(text::capped_byte_length, (chars, count, cap), r),
    ensures
        encode_utf8(chars@.take(count as int)).len() < cap ==> r == encode_utf8(
            chars@.take(count as int),
        ).len(),
        encode_utf8(chars@.take(count as int)).len() >= cap ==> r == cap,
        text::byte_length(chars@) == encode_utf8(chars@).len(),
{
}

/// Texts in order without repetitions are those of a list, each once, each before the next.
pub proof fn lemma_distinct_texts(list: Seq<Seq<char>>, t: Seq<char>)
    ensures
        text::distinct_ordered(list).contains(t) <==> list.contains(t),
        forall|i: int, j: int|
            0 <= i < j < text::distinct_ordered(list).len() ==> text::before(
                #[trigger] text::distinct_ordered(list)[i],
                #[trigger] text::distinct_ordered(list)[j],
            ),
{
    text::lemma_distinct_ordered(list);
}

} // verus!
