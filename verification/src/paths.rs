//! Filesystem locations kctx cares about, plus the encoding used for overlay file names.
//!
//! Everything here is pure path arithmetic on Unix paths, written as text: the environment and
//! the disk are looked at elsewhere, and what was found is handed in.

use vstd::prelude::*;
use vstd::utf8::*;

use crate::text;
use crate::text::{chars_of, octal, same_text};

verus! {

// ---------------------------------------------------------------------------------------------
// The structure of a path
// ---------------------------------------------------------------------------------------------
/// Where the segment that starts at `at` ends: at the next slash or at the end of the path.
pub open spec fn segment_end(path: Seq<char>, at: int) -> int
    decreases path.len() - at,
{
    if at >= path.len() || path[at] == '/' {
        at
    } else {
        segment_end(path, at + 1)
    }
}

/// A segment end is never before its start, nor past the end of the path.
pub proof fn lemma_segment_end(path: Seq<char>, at: int)
    requires
        0 <= at <= path.len(),
    ensures
        at <= segment_end(path, at) <= path.len(),
        at < path.len() && path[at] != '/' ==> at < segment_end(path, at),
    decreases path.len() - at,
{
    if at < path.len() && path[at] != '/' {
        lemma_segment_end(path, at + 1);
    }
}

/// Whether the text from `start` to `end` is a single dot.
pub open spec fn is_dot(path: Seq<char>, start: int, end: int) -> bool {
    end == start + 1 && path[start] == '.'
}

/// Start and end of every component of a path from position `at` on.
///
/// Repeated and trailing slashes separate nothing, and a `.` counts only as the very first
/// component of a relative path.
pub open spec fn component_bounds(path: Seq<char>, at: int) -> Seq<(int, int)>
    decreases path.len() - at,
{
    if at < 0 || at >= path.len() {
        Seq::empty()
    } else if path[at] == '/' {
        component_bounds(path, at + 1)
    } else {
        let end = segment_end(path, at);
        proof {
            lemma_segment_end(path, at);
        }
        if is_dot(path, at, end) && at > 0 {
            component_bounds(path, end)
        } else {
            seq![(at, end)] + component_bounds(path, end)
        }
    }
}

/// Every bound lies inside the path, in order.
pub proof fn lemma_component_bounds(path: Seq<char>, at: int)
    requires
        0 <= at <= path.len(),
    ensures
        forall|i: int|
            0 <= i < component_bounds(path, at).len() ==> at <= (
            #[trigger] component_bounds(path, at)[i]).0 < component_bounds(path, at)[i].1
                <= path.len(),
        forall|i: int, j: int|
            0 <= i < j < component_bounds(path, at).len() ==> (#[trigger] component_bounds(
                path,
                at,
            )[i]).1 <= (#[trigger] component_bounds(path, at)[j]).0,
    decreases path.len() - at,
{
    if at < path.len() {
        if path[at] == '/' {
            lemma_component_bounds(path, at + 1);
            assert(component_bounds(path, at) == component_bounds(path, at + 1));
        } else {
            let end = segment_end(path, at);
            lemma_segment_end(path, at);
            lemma_component_bounds(path, end);
            let rest = component_bounds(path, end);
            if is_dot(path, at, end) && at > 0 {
                assert(component_bounds(path, at) == rest);
            } else {
                let all = component_bounds(path, at);
                assert(all == seq![(at, end)] + rest);
                assert forall|i: int| 0 <= i < all.len() implies at <= (#[trigger] all[i]).0
                    < all[i].1 <= path.len() by {
                    if i > 0 {
                        assert(all[i] == rest[i - 1]);
                    }
                }
                assert forall|i: int, j: int| 0 <= i < j < all.len() implies (#[trigger] all[i]).1
                    <= (#[trigger] all[j]).0 by {
                    assert(all[j] == rest[j - 1]);
                    if i > 0 {
                        assert(all[i] == rest[i - 1]);
                    }
                }
            }
        }
    }
}

/// The components of a path, as text.
pub open spec fn components(path: Seq<char>) -> Seq<Seq<char>> {
    component_bounds(path, 0).map_values(|b: (int, int)| path.subrange(b.0, b.1))
}

/// Whether a path starts at the root.
pub open spec fn absolute(path: Seq<char>) -> bool {
    path.len() > 0 && path[0] == '/'
}

/// Whether two paths name the same location: both absolute or both relative, with the same
/// components.
pub open spec fn same_location(a: Seq<char>, b: Seq<char>) -> bool {
    absolute(a) == absolute(b) && components(a) == components(b)
}

/// The final component of a path, unless it is `.` or `..` or there is none.
pub open spec fn file_name_of(path: Seq<char>) -> Option<Seq<char>> {
    let parts = components(path);
    if parts.len() == 0 || parts.last() == seq!['.'] || parts.last() == seq!['.', '.'] {
        None
    } else {
        Some(parts.last())
    }
}

fn bounds_of(chars: &Vec<char>) -> (r: Vec<(usize, usize)>)
    ensures
        r@.len() == component_bounds(chars@, 0).len(),
        forall|i: int|
            0 <= i < r@.len() ==> (#[trigger] r@[i]).0 == component_bounds(chars@, 0)[i].0
                && r@[i].1 == component_bounds(chars@, 0)[i].1,
{
    let mut r: Vec<(usize, usize)> = Vec::new();
    let mut at: usize = 0;
    let ghost all = component_bounds(chars@, 0);
    let ghost mut found: Seq<(int, int)> = Seq::empty();
    proof {
        assert(found + all == all);
    }
    while at < chars.len()
        invariant
            at <= chars.len(),
            all == component_bounds(chars@, 0),
            all == found + component_bounds(chars@, at as int),
            r@.len() == found.len(),
            forall|i: int|
                0 <= i < r@.len() ==> (#[trigger] r@[i]).0 == found[i].0 && r@[i].1 == found[i].1,
        decreases chars.len() - at,
    {
        if chars[at] == '/' {
            at = at + 1;
        } else {
            let start: usize = at;
            proof {
                lemma_segment_end(chars@, start as int);
            }
            while at < chars.len() && chars[at] != '/'
                invariant
                    start <= at <= chars.len(),
                    segment_end(chars@, start as int) == segment_end(chars@, at as int),
                decreases chars.len() - at,
            {
                at = at + 1;
            }
            let dot: bool = at - start == 1 && chars[start] == '.';
            if !(dot && start > 0) {
                proof {
                    let rest = component_bounds(chars@, at as int);
                    let here = (start as int, at as int);
                    assert(found + (seq![here] + rest) == found.push(here) + rest);
                    found = found.push(here);
                }
                r.push((start, at));
            }
        }
    }
    proof {
        assert(found + Seq::<(int, int)>::empty() == found);
    }
    r
}

/// The final component of a path, unless it is `.` or `..` or there is none.
pub fn file_name(path: &str) -> (r: Option<String>)
    ensures
        match r {
            Some(name) => file_name_of(path@) == Some(name@),
            None => file_name_of(path@) is None,
        },
{
    let chars = chars_of(path);
    let bounds = bounds_of(&chars);
    proof {
        lemma_component_bounds(path@, 0);
    }
    let count: usize = bounds.len();
    if count == 0 {
        return None;
    }
    let (start, end): (usize, usize) = bounds[count - 1];
    let ghost last = components(path@).last();
    proof {
        assert(last == path@.subrange(start as int, end as int));
    }
    if end - start == 1 && chars[start] == '.' {
        proof {
            assert(last == seq!['.']);
        }
        return None;
    }
    if end - start == 2 && chars[start] == '.' && chars[start + 1] == '.' {
        proof {
            assert(last == seq!['.', '.']);
        }
        return None;
    }
    proof {
        if last == seq!['.'] {
            assert(last.len() == 1 && last[0] == '.');
        }
        if last == seq!['.', '.'] {
            assert(last.len() == 2 && last[0] == '.' && last[1] == '.');
        }
    }
    Some(path.substring_char(start, end).to_owned())
}

/// Whether the first components of a path are exactly those of another.
pub open spec fn has_prefix(path: Seq<char>, prefix: Seq<char>) -> bool {
    &&& absolute(path) == absolute(prefix)
    &&& components(prefix).len() <= components(path).len()
    &&& components(path).take(components(prefix).len() as int) == components(prefix)
}

fn shares_components(a: &str, b: &str, count: usize) -> (r: bool)
    requires
        count <= components(a@).len(),
        count <= components(b@).len(),
    ensures
        r == (components(a@).take(count as int) == components(b@).take(count as int)),
{
    let a_chars = chars_of(a);
    let b_chars = chars_of(b);
    let a_bounds = bounds_of(&a_chars);
    let b_bounds = bounds_of(&b_chars);
    proof {
        lemma_component_bounds(a@, 0);
        lemma_component_bounds(b@, 0);
    }
    for i in 0..count
        invariant
            count <= a_bounds.len(),
            count <= b_bounds.len(),
            a_bounds.len() == components(a@).len(),
            b_bounds.len() == components(b@).len(),
            forall|j: int|
                0 <= j < a_bounds.len() ==> (#[trigger] a_bounds@[j]).0 == component_bounds(
                    a@,
                    0,
                )[j].0 && a_bounds@[j].1 == component_bounds(a@, 0)[j].1 && a_bounds@[j].0
                    <= a_bounds@[j].1 <= a@.len(),
            forall|j: int|
                0 <= j < b_bounds.len() ==> (#[trigger] b_bounds@[j]).0 == component_bounds(
                    b@,
                    0,
                )[j].0 && b_bounds@[j].1 == component_bounds(b@, 0)[j].1 && b_bounds@[j].0
                    <= b_bounds@[j].1 <= b@.len(),
            components(a@).take(i as int) == components(b@).take(i as int),
    {
        let (a_start, a_end): (usize, usize) = a_bounds[i];
        let (b_start, b_end): (usize, usize) = b_bounds[i];
        proof {
            assert(components(a@)[i as int] == a@.subrange(a_start as int, a_end as int));
            assert(components(b@)[i as int] == b@.subrange(b_start as int, b_end as int));
            assert(components(a@).take(i + 1) == components(a@).take(i as int).push(
                components(a@)[i as int],
            ));
            assert(components(b@).take(i + 1) == components(b@).take(i as int).push(
                components(b@)[i as int],
            ));
        }
        if !same_text(a.substring_char(a_start, a_end), b.substring_char(b_start, b_end)) {
            proof {
                assert(components(a@).take(count as int)[i as int] == components(a@)[i as int]);
                assert(components(b@).take(count as int)[i as int] == components(b@)[i as int]);
            }
            return false;
        }
    }
    true
}

/// Whether a path starts at the root.
pub fn is_absolute(path: &str) -> (r: bool)
    ensures
        r == absolute(path@),
{
    !path.is_empty() && path.get_char(0) == '/'
}

/// Whether two paths name the same location.
pub fn same_path(a: &str, b: &str) -> (r: bool)
    ensures
        r == same_location(a@, b@),
{
    let a_count: usize = bounds_of(&chars_of(a)).len();
    let b_count: usize = bounds_of(&chars_of(b)).len();
    if is_absolute(a) != is_absolute(b) || a_count != b_count {
        return false;
    }
    proof {
        assert(components(a@).take(a_count as int) == components(a@));
        assert(components(b@).take(a_count as int) == components(b@));
    }
    shares_components(a, b, a_count)
}

/// A path with a relative part appended. An absolute part replaces the path.
pub open spec fn joined_path(base: Seq<char>, part: Seq<char>) -> Seq<char> {
    if absolute(part) {
        part
    } else if base.len() == 0 || base.last() == '/' {
        base + part
    } else {
        base + seq!['/'] + part
    }
}

/// Append a part to a path.
pub fn join_path(base: &str, part: &str) -> (r: String)
    ensures
        r@ == joined_path(base@, part@),
{
    if is_absolute(part) {
        return part.to_owned();
    }
    let mut r = base.to_owned();
    let count: usize = base.unicode_len();
    if count > 0 && base.get_char(count - 1) != '/' {
        r.push('/');
        proof {
            assert(base@.push('/') == base@ + seq!['/']);
        }
    }
    r.append(part);
    r
}

/// The proper ancestors of a path, nearest first.
pub open spec fn ancestors_of(path: Seq<char>) -> Seq<Seq<char>> {
    let bounds = component_bounds(path, 0);
    Seq::new(
        bounds.len(),
        |i: int|
            if i + 1 < bounds.len() {
                path.take(bounds[bounds.len() - 2 - i].1)
            } else if absolute(path) {
                seq!['/']
            } else {
                Seq::empty()
            },
    )
}

/// The proper ancestors of a path, nearest first: the directory that holds it, the one that
/// holds that, and so on up to the root, or to the empty path where it is relative.
pub fn ancestors(path: &str) -> (r: Vec<String>)
    ensures
        text::texts(r@) == ancestors_of(path@),
{
    let chars = chars_of(path);
    let bounds = bounds_of(&chars);
    proof {
        lemma_component_bounds(path@, 0);
    }
    let count: usize = bounds.len();
    let mut r: Vec<String> = Vec::new();
    for i in 0..count
        invariant
            count == bounds.len(),
            count == component_bounds(path@, 0).len(),
            forall|j: int|
                0 <= j < bounds@.len() ==> (#[trigger] bounds@[j]).1 == component_bounds(
                    path@,
                    0,
                )[j].1 && bounds@[j].1 <= path@.len(),
            r@.len() == i,
            forall|j: int| 0 <= j < i ==> (#[trigger] r@[j])@ == ancestors_of(path@)[j],
    {
        let ancestor = if i + 1 < count {
            let end: usize = bounds[count - 2 - i].1;
            path.substring_char(0, end).to_owned()
        } else if is_absolute(path) {
            let mut root = String::new();
            root.push('/');
            root
        } else {
            String::new()
        };
        proof {
            assert(ancestor@ == ancestors_of(path@)[i as int]);
        }
        r.push(ancestor);
    }
    r
}

// ---------------------------------------------------------------------------------------------
// Locations
// ---------------------------------------------------------------------------------------------
/// The home directory that the environment reports, unless it is empty.
pub open spec fn usable_home(reported: Option<String>) -> Option<Seq<char>> {
    match reported {
        Some(home) => if home@.len() == 0 {
            None
        } else {
            Some(home@)
        },
        None => None,
    }
}

/// The user's home directory, given what the environment reports.
pub fn home_dir(reported: &Option<String>) -> (r: Option<String>)
    ensures
        text::optional(r) == usable_home(*reported),
{
    match reported {
        Some(home) => {
            if home.as_str().is_empty() {
                None
            } else {
                Some(home.clone())
            }
        },
        None => None,
    }
}

/// kctx's cache directory: `$XDG_CACHE_HOME/kctx`, falling back to `~/.cache/kctx`. A relative
/// `$XDG_CACHE_HOME` is ignored.
pub open spec fn cache_location(xdg: Option<String>, home: Option<String>) -> Option<Seq<char>> {
    if xdg is Some && absolute(xdg->0@) {
        Some(joined_path(xdg->0@, "kctx"@))
    } else {
        match usable_home(home) {
            Some(home) => Some(joined_path(joined_path(home, ".cache"@), "kctx"@)),
            None => None,
        }
    }
}

/// kctx's cache directory, given `$XDG_CACHE_HOME` and the home directory that the environment
/// reports.
pub fn cache_dir(xdg: &Option<String>, home: &Option<String>) -> (r: Option<String>)
    ensures
        text::optional(r) == cache_location(*xdg, *home),
{
    if let Some(xdg) = xdg {
        // Relative XDG paths are invalid and must be ignored.
        if is_absolute(xdg.as_str()) {
            return Some(join_path(xdg.as_str(), "kctx"));
        }
    }
    match home_dir(home) {
        Some(home) => Some(join_path(join_path(home.as_str(), ".cache").as_str(), "kctx")),
        None => None,
    }
}

/// Directory holding the generated `current-context` overlay files, given the same two values
/// as [`cache_dir`].
pub fn overlay_dir(xdg: &Option<String>, home: &Option<String>) -> (r: Option<String>)
    ensures
        text::optional(r) == (match cache_location(*xdg, *home) {
            Some(dir) => Some(joined_path(dir, "contexts"@)),
            None => None,
        }),
{
    match cache_dir(xdg, home) {
        Some(dir) => Some(join_path(dir.as_str(), "contexts")),
        None => None,
    }
}

/// The text of a path after its first `count` components, as it is written there.
pub open spec fn rest_after(path: Seq<char>, count: int) -> Seq<char> {
    let bounds = component_bounds(path, 0);
    if count < bounds.len() {
        path.subrange(bounds[count].0, bounds.last().1)
    } else {
        Seq::empty()
    }
}

/// A path with the home directory abbreviated to `~`.
pub open spec fn shortened(path: Seq<char>, home: Option<String>) -> Seq<char> {
    match usable_home(home) {
        Some(home) => if has_prefix(path, home) {
            let rest = rest_after(path, components(home).len() as int);
            if rest.len() == 0 {
                "~"@
            } else {
                "~/"@ + rest
            }
        } else {
            path
        },
        None => path,
    }
}

/// Render a path for humans, abbreviating the home directory to `~`.
pub fn shorten_home(path: &str, home: &Option<String>) -> (r: String)
    ensures
        r@ == shortened(path@, *home),
{
    let home = match home_dir(home) {
        Some(home) => home,
        None => {
            return path.to_owned();
        },
    };
    let bounds = bounds_of(&chars_of(path));
    let home_count: usize = bounds_of(&chars_of(home.as_str())).len();
    let count: usize = bounds.len();
    if is_absolute(path) != is_absolute(home.as_str()) || home_count > count {
        return path.to_owned();
    }
    proof {
        lemma_component_bounds(path@, 0);
        assert(components(home@).take(home_count as int) == components(home@));
    }
    if !shares_components(path, home.as_str(), home_count) {
        return path.to_owned();
    }
    if home_count == count {
        return "~".to_owned();
    }
    let start: usize = bounds[home_count].0;
    let end: usize = bounds[count - 1].1;
    proof {
        let all = component_bounds(path@, 0);
        assert(all[home_count as int].0 < all[home_count as int].1);
        assert(all.last() == all[count - 1]);
        if home_count < count - 1 {
            assert(all[home_count as int].1 <= all[count - 1].0);
        }
    }
    let mut r = "~/".to_owned();
    r.append(path.substring_char(start, end));
    r
}

// ---------------------------------------------------------------------------------------------
// Private directories
// ---------------------------------------------------------------------------------------------
/// What is known of an existing directory entry.
#[derive(Debug, Clone, Copy, PartialEq, Eq, Structural)]
pub struct EntryFacts {
    /// Whether the entry is a directory.
    pub is_dir: bool,
    /// Whether the entry is a symbolic link.
    pub is_symlink: bool,
    /// Type and permission bits.
    pub mode: u32,
}

/// What is left to do for a private directory to be usable.
#[derive(Debug, Clone, Copy, PartialEq, Eq, Structural)]
pub enum PrivateDirPlan {
    /// It exists and is private: nothing.
    Ready,
    /// It does not exist: create it and its parents with owner-only permissions.
    Create,
}

/// Why a directory that kctx creates its own directories inside is refused, if it is.
///
/// Others must not be able to write to it, unless the sticky bit stops them from removing or
/// renaming what is not theirs.
pub open spec fn shared_ancestor_refusal(dir: Seq<char>, facts: EntryFacts) -> Option<Seq<char>> {
    if !facts.is_dir {
        Some(dir + " is not a directory, so kctx cannot keep its cache below it"@)
    } else if facts.mode & 0o022 != 0 && facts.mode & 0o1000 == 0 {
        Some(
            dir + " is writable by other users (mode "@ + text::numeral(
                (facts.mode & 0o7777) as nat,
                8,
            ) + "); kctx will not keep its cache below it"@,
        )
    } else {
        None
    }
}

/// Reject a directory kctx will create its own directories inside if others can write to it.
///
/// The facts are those of what the name resolves to: symbolic links are followed.
pub fn check_shared_ancestor(dir: &str, facts: EntryFacts) -> (r: Result<(), String>)
    ensures
        match r {
            Ok(_) => shared_ancestor_refusal(dir@, facts) is None,
            Err(message) => shared_ancestor_refusal(dir@, facts) == Some(message@),
        },
{
    if !facts.is_dir {
        let mut message = dir.to_owned();
        message.append(" is not a directory, so kctx cannot keep its cache below it");
        return Err(message);
    }
    // Sticky directories such as `/tmp` are world-writable by design and are still safe to build
    // inside: the sticky bit is what stops anyone but the owner removing or renaming our entries.
    if facts.mode & 0o022 != 0 && facts.mode & 0o1000 == 0 {
        let mut message = dir.to_owned();
        message.append(" is writable by other users (mode ");
        message.append(octal(facts.mode & 0o7777).as_str());
        message.append("); kctx will not keep its cache below it");
        return Err(message);
    }
    Ok(())
}

/// Why an existing directory is not usable as a private one, if it is not.
pub open spec fn private_dir_refusal(dir: Seq<char>, facts: EntryFacts) -> Option<Seq<char>> {
    if facts.is_symlink {
        Some(dir + " is a symbolic link; kctx will not write overlays through one"@)
    } else if !facts.is_dir {
        Some(dir + " exists but is not a directory"@)
    } else if facts.mode & 0o077 != 0 {
        Some(
            dir + " is accessible to other users (mode "@ + text::numeral(
                (facts.mode & 0o7777) as nat,
                8,
            ) + "); run `chmod 700` on it"@,
        )
    } else {
        None
    }
}

/// Require `dir` to be a real directory that only its owner can reach.
///
/// The facts are those of the entry itself: symbolic links are not followed.
pub fn check_private_dir(dir: &str, facts: EntryFacts) -> (r: Result<(), String>)
    ensures
        match r {
            Ok(_) => private_dir_refusal(dir@, facts) is None,
            Err(message) => private_dir_refusal(dir@, facts) == Some(message@),
        },
{
    // Checked before `is_dir`, which is false for a symbolic link however it resolves and would
    // otherwise report a link to a perfectly good directory as "not a directory".
    if facts.is_symlink {
        let mut message = dir.to_owned();
        message.append(" is a symbolic link; kctx will not write overlays through one");
        return Err(message);
    }
    if !facts.is_dir {
        let mut message = dir.to_owned();
        message.append(" exists but is not a directory");
        return Err(message);
    }
    if facts.mode & 0o077 != 0 {
        let mut message = dir.to_owned();
        message.append(" is accessible to other users (mode ");
        message.append(octal(facts.mode & 0o7777).as_str());
        message.append("); run `chmod 700` on it");
        return Err(message);
    }
    Ok(())
}

/// The closest proper ancestor of `dir` that exists, given the paths that do.
pub fn deepest_existing_ancestor(dir: &str, existing: &Vec<String>) -> (r: Option<String>)
    ensures
        match r {
            Some(ancestor) => exists|i: int|
                {
                    &&& 0 <= i < ancestors_of(dir@).len()
                    &&& #[trigger] ancestors_of(dir@)[i] == ancestor@
                    &&& text::texts(existing@).contains(ancestors_of(dir@)[i])
                    &&& forall|j: int|
                        0 <= j < i ==> !text::texts(existing@).contains(
                            #[trigger] ancestors_of(dir@)[j],
                        )
                },
            None => forall|j: int|
                0 <= j < ancestors_of(dir@).len() ==> !text::texts(existing@).contains(
                    #[trigger] ancestors_of(dir@)[j],
                ),
        },
{
    let all = ancestors(dir);
    let ghost wanted = ancestors_of(dir@);
    for i in 0..all.len()
        invariant
            text::texts(all@) == wanted,
            wanted == ancestors_of(dir@),
            forall|j: int| 0 <= j < i ==> !text::texts(existing@).contains(#[trigger] wanted[j]),
    {
        proof {
            assert(text::texts(all@)[i as int] == all@[i as int]@);
        }
        if text::list_contains(existing, all[i].as_str()) {
            return Some(all[i].clone());
        }
    }
    None
}

/// Why `dir` cannot be made, or used as, a private directory, if it cannot: first what is wrong
/// with its closest existing ancestor, then what is wrong with the entry itself.
pub open spec fn private_dir_obstacle(
    dir: Seq<char>,
    ancestor: Option<(String, EntryFacts)>,
    existing: Option<EntryFacts>,
) -> Option<Seq<char>> {
    let inherited = match ancestor {
        Some((path, facts)) => shared_ancestor_refusal(path@, facts),
        None => None,
    };
    if inherited is Some {
        inherited
    } else {
        match existing {
            Some(facts) => private_dir_refusal(dir, facts),
            None => None,
        }
    }
}

/// Decide how to make `dir` a private directory.
///
/// `ancestor` is the closest existing ancestor with its facts, links followed; `existing` are
/// the facts of `dir` itself, links not followed, if there is such an entry. A directory that
/// already exists is checked rather than trusted: kctx writes the overlay files that decide which
/// cluster a shell talks to, so a cache directory another user can modify is not a usable place
/// to keep them.
pub fn ensure_private_dir(
    dir: &str,
    ancestor: &Option<(String, EntryFacts)>,
    existing: &Option<EntryFacts>,
) -> (r: Result<PrivateDirPlan, String>)
    ensures
        match r {
            Ok(plan) => {
                &&& private_dir_obstacle(dir@, *ancestor, *existing) is None
                &&& plan == (if existing is Some {
                    PrivateDirPlan::Ready
                } else {
                    PrivateDirPlan::Create
                })
            },
            Err(message) => private_dir_obstacle(dir@, *ancestor, *existing) == Some(message@),
        },
{
    if let Some(found) = ancestor {
        if let Err(message) = check_shared_ancestor(found.0.as_str(), found.1) {
            return Err(message);
        }
    }
    match existing {
        Some(facts) => match check_private_dir(dir, *facts) {
            Ok(_) => Ok(PrivateDirPlan::Ready),
            Err(message) => Err(message),
        },
        None => Ok(PrivateDirPlan::Create),
    }
}

/// A directory is kept for overlays only where nobody but its owner can reach it, and nobody but
/// its owner can replace it.
pub proof fn lemma_ready_means_private(dir: Seq<char>, facts: EntryFacts)
    ensures
        private_dir_refusal(dir, facts) is None <==> {
            &&& facts.is_dir
            &&& !facts.is_symlink
            &&& facts.mode & 0o077 == 0
        },
        shared_ancestor_refusal(dir, facts) is None <==> {
            &&& facts.is_dir
            &&& facts.mode & 0o022 == 0 || facts.mode & 0o1000 != 0
        },
{
}

// ---------------------------------------------------------------------------------------------
// File stems
// ---------------------------------------------------------------------------------------------
/// Longest encoded file stem we are willing to produce before falling back to a hash suffix.
pub const MAX_STEM_LEN: usize = 180;

/// Whether a byte is written as it is in a file stem.
pub open spec fn plain_byte(byte: u8) -> bool {
    ||| 0x41 <= byte <= 0x5a
    ||| 0x61 <= byte <= 0x7a
    ||| 0x30 <= byte <= 0x39
    ||| byte == 0x2e
    ||| byte == 0x2d
}

/// How a byte is written in a file stem: as it is, or as `_` and its two hexadecimal digits.
pub open spec fn escape(byte: u8) -> Seq<char> {
    if plain_byte(byte) {
        seq![byte as char]
    } else {
        seq!['_', text::digit(byte as nat / 16), text::digit(byte as nat % 16)]
    }
}

/// How a sequence of bytes is written in a file stem.
pub open spec fn escaped(bytes: Seq<u8>) -> Seq<char>
    decreases bytes.len(),
{
    if bytes.len() == 0 {
        Seq::empty()
    } else {
        escape(bytes[0]) + escaped(bytes.drop_first())
    }
}

/// How many bytes, at least `from`, are written before the stem has reached its longest length.
pub open spec fn kept_from(bytes: Seq<u8>, from: int) -> int
    decreases bytes.len() - from,
{
    if from >= bytes.len() || escaped(bytes.take(from)).len() >= MAX_STEM_LEN {
        from
    } else {
        kept_from(bytes, from + 1)
    }
}

/// How many bytes of a name are written in its file stem.
pub open spec fn kept(bytes: Seq<u8>) -> int {
    kept_from(bytes, 0)
}

/// Whether a name is too long to be written in full.
pub open spec fn overlong(name: Seq<char>) -> bool {
    kept(encode_utf8(name)) < encode_utf8(name).len()
}

/// The FNV-1a hash of a sequence of bytes.
pub open spec fn fnv1a(bytes: Seq<u8>) -> u64
    decreases bytes.len(),
{
    if bytes.len() == 0 {
        0xcbf2_9ce4_8422_2325
    } else {
        (fnv1a(bytes.drop_last()) ^ (bytes.last() as u64)).wrapping_mul(0x0000_0100_0000_01b3)
    }
}

/// A number in hexadecimal, with exactly `width` digits.
pub open spec fn hex(n: nat, width: nat) -> Seq<char>
    decreases width,
{
    if width == 0 {
        Seq::empty()
    } else {
        hex(n / 16, (width - 1) as nat).push(text::digit(n % 16))
    }
}

/// The stem before its start is made safe: the escaped bytes, and a hash of the full name where
/// the name is overlong.
pub open spec fn raw_stem(bytes: Seq<u8>) -> Seq<char> {
    let start = escaped(bytes.take(kept(bytes)));
    if kept(bytes) < bytes.len() {
        start + seq!['-'] + hex(fnv1a(bytes) as nat, 16)
    } else {
        start
    }
}

/// A stem that is neither empty nor a dotfile.
pub open spec fn safe_start(raw: Seq<char>) -> Seq<char> {
    if raw.len() == 0 {
        "_empty"@
    } else if raw[0] == '.' {
        "_2e"@ + raw.drop_first()
    } else {
        raw
    }
}

/// The file stem of a context name.
pub open spec fn file_stem(name: Seq<char>) -> Seq<char> {
    safe_start(raw_stem(encode_utf8(name)))
}

proof fn lemma_escaped_concat(a: Seq<u8>, b: Seq<u8>)
    ensures
        escaped(a + b) == escaped(a) + escaped(b),
    decreases a.len(),
{
    if a.len() == 0 {
        assert(a + b == b);
        assert(escaped(a) + escaped(b) == escaped(b));
    } else {
        lemma_escaped_concat(a.drop_first(), b);
        assert((a + b).drop_first() == a.drop_first() + b);
        assert((a + b)[0] == a[0]);
        assert(escape(a[0]) + (escaped(a.drop_first()) + escaped(b)) == (escape(a[0]) + escaped(
            a.drop_first(),
        )) + escaped(b));
    }
}

proof fn lemma_escaped_push(a: Seq<u8>, byte: u8)
    ensures
        escaped(a.push(byte)) == escaped(a) + escape(byte),
{
    let one = seq![byte];
    assert(a.push(byte) == a + one);
    lemma_escaped_concat(a, one);
    reveal_with_fuel(escaped, 2);
    assert(escaped(one) == escape(byte) + Seq::<char>::empty());
    assert(escape(byte) + Seq::<char>::empty() == escape(byte));
}

fn push_hex(out: &mut String, n: u64, width: usize)
    ensures
        final(out)@ == old(out)@ + hex(n as nat, width as nat),
    decreases width,
{
    if width == 0 {
        proof {
            assert(old(out)@ + hex(n as nat, 0) == old(out)@);
        }
        return;
    }
    push_hex(out, n / 16, width - 1);
    proof {
        assert(old(out)@ + hex(n as nat, width as nat) == (old(out)@ + hex(
            (n / 16) as nat,
            (width - 1) as nat,
        )).push(text::digit((n % 16) as nat)));
    }
    out.push(text::digit_char(n % 16));
}

fn push_escape(out: &mut String, byte: u8)
    ensures
        final(out)@ == old(out)@ + escape(byte),
{
    if (0x41 <= byte && byte <= 0x5a) || (0x61 <= byte && byte <= 0x7a) || (0x30 <= byte && byte
        <= 0x39) || byte == 0x2e || byte == 0x2d {
        proof {
            assert(old(out)@ + escape(byte) == old(out)@.push(byte as char));
        }
        out.push(byte as char);
    } else {
        out.push('_');
        out.push(text::digit_char((byte / 16) as u64));
        out.push(text::digit_char((byte % 16) as u64));
        proof {
            assert(old(out)@ + escape(byte) == old(out)@.push('_').push(
                text::digit(byte as nat / 16),
            ).push(text::digit(byte as nat % 16)));
        }
    }
}

/// FNV-1a, used only to disambiguate truncated file names. Deterministic across releases.
pub fn fnv1a64(bytes: &[u8]) -> (r: u64)
    ensures
        r == fnv1a(bytes@),
{
    let mut hash: u64 = 0xcbf2_9ce4_8422_2325;
    for i in 0..bytes.len()
        invariant
            hash == fnv1a(bytes@.take(i as int)),
    {
        proof {
            assert(bytes@.take(i + 1).drop_last() == bytes@.take(i as int));
        }
        hash = (hash ^ (bytes[i] as u64)).wrapping_mul(0x0000_0100_0000_01b3);
    }
    proof {
        assert(bytes@.take(bytes@.len() as int) == bytes@);
    }
    hash
}

proof fn lemma_kept_within(bytes: Seq<u8>, from: int)
    requires
        0 <= from <= bytes.len(),
    ensures
        from <= kept_from(bytes, from) <= bytes.len(),
        kept_from(bytes, from) < bytes.len() ==> escaped(
            bytes.take(kept_from(bytes, from)),
        ).len() >= MAX_STEM_LEN,
        kept_from(bytes, from) > from ==> escaped(
            bytes.take(kept_from(bytes, from) - 1),
        ).len() < MAX_STEM_LEN,
    decreases bytes.len() - from,
{
    if !(from >= bytes.len() || escaped(bytes.take(from)).len() >= MAX_STEM_LEN) {
        lemma_kept_within(bytes, from + 1);
    }
}

/// Encode an arbitrary context name into a safe, deterministic file stem.
///
/// Characters outside `[A-Za-z0-9.-]` (including `_` itself) are escaped as `_XX` with the byte's
/// lowercase hex. Overlong names are truncated at an escape boundary and disambiguated with a
/// hash of the full name.
pub fn encode_file_stem(name: &str) -> (r: String)
    ensures
        r@ == file_stem(name@),
{
    let bytes = name.as_bytes();
    let ghost all = encode_utf8(name@);
    let mut out = String::new();
    let mut length: usize = 0;
    let mut i: usize = 0;
    let count: usize = bytes.len();
    while i < count && length < MAX_STEM_LEN
        invariant
            count == bytes.len(),
            bytes@ == all,
            i <= count,
            length == out@.len(),
            length < MAX_STEM_LEN + 3,
            out@ == escaped(all.take(i as int)),
            kept(all) == kept_from(all, i as int),
        decreases count - i,
    {
        let byte: u8 = bytes[i];
        proof {
            assert(all.take(i + 1) == all.take(i as int).push(all[i as int]));
            lemma_escaped_push(all.take(i as int), all[i as int]);
        }
        push_escape(&mut out, byte);
        length = out.as_str().unicode_len();
        i = i + 1;
    }
    proof {
        assert(kept(all) == i as int);
    }
    if i < count {
        out.push('-');
        proof {
            assert(out@ == escaped(all.take(i as int)) + seq!['-']);
        }
        push_hex(&mut out, fnv1a64(bytes), 16);
    }
    proof {
        assert(out@ == raw_stem(all));
    }
    // Never produce a dotfile, `.` or `..`.
    let written: usize = out.as_str().unicode_len();
    if written == 0 {
        return "_empty".to_owned();
    }
    if out.as_str().get_char(0) == '.' {
        let mut safe = "_2e".to_owned();
        safe.append(out.as_str().substring_char(1, written));
        proof {
            assert(out@.subrange(1, written as int) == out@.drop_first());
        }
        return safe;
    }
    out
}

// ---------------------------------------------------------------------------------------------
// What a file stem is good for
// ---------------------------------------------------------------------------------------------
/// Whether a character may stand in a file stem.
pub open spec fn stem_char(c: char) -> bool {
    ||| 'A' <= c <= 'Z'
    ||| 'a' <= c <= 'z'
    ||| '0' <= c <= '9'
    ||| c == '.'
    ||| c == '-'
    ||| c == '_'
}

/// Whether every character may stand in a file stem.
pub open spec fn stem_text(text: Seq<char>) -> bool {
    forall|i: int| 0 <= i < text.len() ==> stem_char(#[trigger] text[i])
}

proof fn lemma_escaped_text(bytes: Seq<u8>)
    ensures
        stem_text(escaped(bytes)),
        escaped(bytes).len() >= bytes.len(),
    decreases bytes.len(),
{
    if bytes.len() > 0 {
        lemma_escaped_text(bytes.drop_first());
        assert(stem_text(escape(bytes[0])));
    }
}

proof fn lemma_hex_text(n: nat, width: nat)
    ensures
        stem_text(hex(n, width)),
        hex(n, width).len() == width,
    decreases width,
{
    if width > 0 {
        lemma_hex_text(n / 16, (width - 1) as nat);
    }
}

/// A file stem holds only ASCII letters, digits, `.`, `-` and `_`, so it never names another
/// directory; it is never empty, never a dotfile, and never longer than a file name may be.
pub proof fn lemma_stem_is_safe(name: Seq<char>)
    ensures
        stem_text(file_stem(name)),
        file_stem(name).len() > 0,
        file_stem(name)[0] != '.',
        file_stem(name).len() <= MAX_STEM_LEN + 21,
{
    let bytes = encode_utf8(name);
    let count = kept(bytes);
    lemma_kept_within(bytes, 0);
    lemma_escaped_text(bytes.take(count));
    lemma_hex_text(fnv1a(bytes) as nat, 16);
    reveal_strlit("_empty");
    reveal_strlit("_2e");
    if count > 0 {
        assert(bytes.take(count) == bytes.take(count - 1).push(bytes[count - 1]));
        lemma_escaped_push(bytes.take(count - 1), bytes[count - 1]);
    }
    assert(stem_text(raw_stem(bytes)));
}

proof fn lemma_escape_first(a: u8, b: u8, x: Seq<char>, y: Seq<char>)
    requires
        escape(a) + x == escape(b) + y,
    ensures
        a == b,
        x == y,
{
    let left = escape(a) + x;
    let right = escape(b) + y;
    assert(left[0] == escape(a)[0]);
    assert(right[0] == escape(b)[0]);
    assert(plain_byte(a) == plain_byte(b));
    if !plain_byte(a) {
        assert(left[1] == escape(a)[1] && left[2] == escape(a)[2]);
        assert(right[1] == escape(b)[1] && right[2] == escape(b)[2]);
        assert(a as nat / 16 == b as nat / 16);
        assert(a as nat % 16 == b as nat % 16);
    }
    assert(a == b);
    assert(x == left.skip(escape(a).len() as int));
    assert(y == right.skip(escape(b).len() as int));
}

proof fn lemma_escaped_injective(a: Seq<u8>, b: Seq<u8>)
    requires
        escaped(a) == escaped(b),
    ensures
        a == b,
    decreases a.len(),
{
    lemma_escaped_text(a);
    lemma_escaped_text(b);
    if a.len() == 0 {
        assert(b.len() == 0);
        assert(a == b);
    } else {
        assert(b.len() > 0) by {
            if b.len() == 0 {
                assert(escaped(b).len() == 0);
            }
        }
        lemma_escape_first(a[0], b[0], escaped(a.drop_first()), escaped(b.drop_first()));
        lemma_escaped_injective(a.drop_first(), b.drop_first());
        assert(a == seq![a[0]] + a.drop_first());
        assert(b == seq![b[0]] + b.drop_first());
    }
}

/// The largest number that fits `width` hexadecimal digits, plus one.
spec fn hex_range(width: nat) -> nat
    decreases width,
{
    if width == 0 {
        1
    } else {
        16 * hex_range((width - 1) as nat)
    }
}

proof fn lemma_hex_injective(a: nat, b: nat, width: nat)
    requires
        a < hex_range(width),
        b < hex_range(width),
        hex(a, width) == hex(b, width),
    ensures
        a == b,
    decreases width,
{
    if width > 0 {
        let shorter = (width - 1) as nat;
        let left = hex(a, width);
        let right = hex(b, width);
        assert(left.last() == text::digit(a % 16));
        assert(right.last() == text::digit(b % 16));
        assert(a % 16 == b % 16);
        assert(left.drop_last() == hex(a / 16, shorter));
        assert(right.drop_last() == hex(b / 16, shorter));
        lemma_hex_injective(a / 16, b / 16, shorter);
    }
}

/// How the stem of a name that is not empty starts.
proof fn lemma_raw_start(bytes: Seq<u8>) -> (rest: Seq<char>)
    requires
        bytes.len() > 0,
    ensures
        raw_stem(bytes) == escape(bytes[0]) + rest,
{
    lemma_kept_within(bytes, 1);
    assert(escaped(bytes.take(0)).len() == 0);
    assert(kept(bytes) == kept_from(bytes, 1));
    let start = bytes.take(kept(bytes));
    assert(start[0] == bytes[0]);
    let rest = escaped(start.drop_first());
    if kept(bytes) < bytes.len() {
        let tail = seq!['-'] + hex(fnv1a(bytes) as nat, 16);
        assert(raw_stem(bytes) == escape(bytes[0]) + (rest + tail));
        rest + tail
    } else {
        rest
    }
}

proof fn lemma_safe_start_injective(a: Seq<u8>, b: Seq<u8>)
    requires
        safe_start(raw_stem(a)) == safe_start(raw_stem(b)),
    ensures
        raw_stem(a) == raw_stem(b),
{
    reveal_strlit("_empty");
    reveal_strlit("_2e");
    lemma_stem_shape(a);
    lemma_stem_shape(b);
    let left = raw_stem(a);
    let right = raw_stem(b);
    if left.len() > 0 && right.len() > 0 {
        if left[0] == '.' && right[0] == '.' {
            assert(left.drop_first() == safe_start(left).skip(3));
            assert(right.drop_first() == safe_start(right).skip(3));
            assert(left == seq!['.'] + left.drop_first());
            assert(right == seq!['.'] + right.drop_first());
        } else if left[0] == '.' {
            assert(safe_start(left)[0] == '_' && safe_start(left)[1] == '2' && safe_start(left)[2]
                == 'e');
        } else if right[0] == '.' {
            assert(safe_start(right)[0] == '_' && safe_start(right)[1] == '2' && safe_start(
                right,
            )[2] == 'e');
        }
    } else if left.len() > 0 {
        assert(safe_start(right)[2] == 'm');
        assert(left[0] == '.' ==> safe_start(left)[2] == 'e');
    } else if right.len() > 0 {
        assert(safe_start(left)[2] == 'm');
        assert(right[0] == '.' ==> safe_start(right)[2] == 'e');
    }
}

/// A stem is empty only for the empty name, and one that starts with `_` goes on with two
/// hexadecimal digits that are not those of a plain byte.
proof fn lemma_stem_shape(bytes: Seq<u8>)
    ensures
        raw_stem(bytes).len() == 0 <==> bytes.len() == 0,
        raw_stem(bytes).len() > 0 && raw_stem(bytes)[0] == '_' ==> {
            &&& raw_stem(bytes).len() >= 3
            &&& raw_stem(bytes)[2] != 'm'
            &&& !(raw_stem(bytes)[1] == '2' && raw_stem(bytes)[2] == 'e')
        },
{
    if bytes.len() == 0 {
        assert(bytes.take(0).len() == 0);
        assert(kept(bytes) == 0);
        assert(escaped(bytes.take(0)).len() == 0);
    } else {
        let rest = lemma_raw_start(bytes);
        let first = escape(bytes[0]);
        assert(raw_stem(bytes)[0] == first[0]);
        if raw_stem(bytes)[0] == '_' {
            assert(!plain_byte(bytes[0]));
            assert(raw_stem(bytes)[1] == first[1]);
            assert(raw_stem(bytes)[2] == first[2]);
            if first[1] == '2' && first[2] == 'e' {
                assert(bytes[0] as nat / 16 == 2);
                assert(bytes[0] as nat % 16 == 14);
                assert(bytes[0] == 0x2e);
            }
        }
    }
}

/// Two names share a file stem only if they are the same name, or both are overlong, start with
/// the same kept bytes and have the same hash. In particular no two names that are written in
/// full, and no name written in full and an overlong one, ever share a file.
pub proof fn lemma_stem_is_injective(a: Seq<char>, b: Seq<char>)
    requires
        file_stem(a) == file_stem(b),
    ensures
        a == b || {
            &&& overlong(a)
            &&& overlong(b)
            &&& encode_utf8(a).take(kept(encode_utf8(a))) == encode_utf8(b).take(
                kept(encode_utf8(b)),
            )
            &&& fnv1a(encode_utf8(a)) == fnv1a(encode_utf8(b))
        },
{
    let x = encode_utf8(a);
    let y = encode_utf8(b);
    lemma_safe_start_injective(x, y);
    lemma_kept_within(x, 0);
    lemma_kept_within(y, 0);
    lemma_raw_length(x);
    lemma_raw_length(y);
    let left = escaped(x.take(kept(x)));
    let right = escaped(y.take(kept(y)));
    lemma_hex_text(fnv1a(x) as nat, 16);
    lemma_hex_text(fnv1a(y) as nat, 16);
    if kept(x) == x.len() {
        assert(x.take(kept(x)) == x);
        assert(y.take(kept(y)) == y);
        lemma_escaped_injective(x, y);
        encode_utf8_decode_utf8(a);
        encode_utf8_decode_utf8(b);
        assert(a == b);
    } else {
        let whole = raw_stem(x);
        assert(left.len() == right.len());
        assert(left == whole.take(left.len() as int));
        assert(right == whole.take(right.len() as int));
        lemma_escaped_injective(x.take(kept(x)), y.take(kept(y)));
        assert(hex(fnv1a(x) as nat, 16) == whole.skip(left.len() as int + 1));
        assert(hex(fnv1a(y) as nat, 16) == whole.skip(right.len() as int + 1));
        assert(hex_range(16) == 0x1_0000_0000_0000_0000) by {
            reveal_with_fuel(hex_range, 17);
        }
        lemma_hex_injective(fnv1a(x) as nat, fnv1a(y) as nat, 16);
    }
}

/// An overlong name has a stem longer than that of any name written in full.
proof fn lemma_raw_length(bytes: Seq<u8>)
    ensures
        kept(bytes) < bytes.len() ==> raw_stem(bytes).len() >= MAX_STEM_LEN + 17,
        kept(bytes) == bytes.len() ==> raw_stem(bytes).len() < MAX_STEM_LEN + 3,
{
    let count = kept(bytes);
    lemma_kept_within(bytes, 0);
    lemma_hex_text(fnv1a(bytes) as nat, 16);
    if count > 0 {
        assert(bytes.take(count) == bytes.take(count - 1).push(bytes[count - 1]));
        lemma_escaped_push(bytes.take(count - 1), bytes[count - 1]);
    }
}

} // verus!
