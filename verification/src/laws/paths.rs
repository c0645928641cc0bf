//! What holds of paths, cache locations and file stems.

use vstd::prelude::*;
use vstd::utf8::*;

use crate::paths;
use crate::paths::{EntryFacts, PrivateDirPlan};
use crate::text;

verus! {

/// Whether a path starts with a `.` that stands for the directory it is in.
pub open spec fn starts_in_place(path: Seq<char>) -> bool {
    path.len() > 0 && path[0] == '.' && (path.len() == 1 || path[1] == '/')
}

/// A path is the components before a slash and those after it; a path without a slash is one
/// component, or none if it is empty.
pub proof fn lemma_components_split(dir: Seq<char>, rest: Seq<char>)
    ensures
        !starts_in_place(rest) ==> paths::components(dir + seq!['/'] + rest) == paths::components(
            dir,
        ) + paths::components(rest),
        !dir.contains('/') && dir.len() > 0 ==> paths::components(dir) == seq![dir],
        dir.len() == 0 ==> paths::components(dir).len() == 0,
{
    let path = dir + seq!['/'] + rest;
    if !starts_in_place(rest) {
        bounds_split(dir, rest, 0);
        let shift = dir.len() as int + 1;
        let front = paths::component_bounds(dir, 0);
        let back = paths::component_bounds(rest, 0);
        paths::lemma_component_bounds(dir, 0);
        paths::lemma_component_bounds(rest, 0);
        assert forall|i: int| 0 <= i < front.len() + back.len() implies #[trigger] paths::components(
            path,
        )[i] == (paths::components(dir) + paths::components(rest))[i] by {
            if i < front.len() {
                let b = front[i];
                assert(path.subrange(b.0, b.1) == dir.subrange(b.0, b.1));
            } else {
                let b = back[i - front.len()];
                assert(path.subrange(b.0 + shift, b.1 + shift) == rest.subrange(b.0, b.1));
            }
        }
        assert(paths::components(path) == paths::components(dir) + paths::components(rest));
    }
    if !dir.contains('/') && dir.len() > 0 {
        segment_ends_at(dir, 0, dir.len() as int);
        assert(paths::component_bounds(dir, dir.len() as int).len() == 0);
        assert(paths::component_bounds(dir, 0) == seq![(0int, dir.len() as int)]);
        assert(dir.subrange(0, dir.len() as int) == dir);
        assert(paths::components(dir) == seq![dir]);
    }
}

/// Slashes at the end and a `.` after a slash name no component.
pub proof fn lemma_idle_segments(dir: Seq<char>)
    ensures
        paths::components(dir + seq!['/']) == paths::components(dir),
        paths::components(dir + seq!['/', '.']) == paths::components(dir),
{
    let none = Seq::<char>::empty();
    lemma_components_split(dir, none);
    lemma_components_split(none, none);
    assert(dir + seq!['/'] + none == dir + seq!['/']);
    assert(paths::components(dir) + paths::components(none) == paths::components(dir));
    let path = dir + seq!['/', '.'];
    dot_dropped(dir, 0);
    paths::lemma_component_bounds(dir, 0);
    let front = paths::component_bounds(dir, 0);
    assert forall|i: int| 0 <= i < front.len() implies #[trigger] paths::components(path)[i]
        == paths::components(dir)[i] by {
        let b = front[i];
        assert(path.subrange(b.0, b.1) == dir.subrange(b.0, b.1));
    }
    assert(paths::components(path) == paths::components(dir));
}

proof fn dot_dropped(dir: Seq<char>, at: int)
    requires
        0 <= at <= dir.len(),
    ensures
        paths::component_bounds(dir + seq!['/', '.'], at) == paths::component_bounds(dir, at),
    decreases dir.len() - at,
{
    let path = dir + seq!['/', '.'];
    if at == dir.len() {
        reveal_with_fuel(paths::component_bounds, 3);
        assert(path[at] == '/' && path[at + 1] == '.');
        segment_ends_at(path, at + 1, path.len() as int);
    } else if dir[at] == '/' {
        assert(path[at] == '/');
        dot_dropped(dir, at + 1);
    } else {
        let end = paths::segment_end(dir, at);
        paths::lemma_segment_end(dir, at);
        segment_is(dir, at);
        segment_ends_at(path, at, end);
        dot_dropped(dir, end);
    }
}

proof fn segment_is(path: Seq<char>, at: int)
    requires
        0 <= at <= path.len(),
    ensures
        at <= paths::segment_end(path, at) <= path.len(),
        forall|i: int| at <= i < paths::segment_end(path, at) ==> #[trigger] path[i] != '/',
        paths::segment_end(path, at) < path.len() ==> path[paths::segment_end(path, at)] == '/',
    decreases path.len() - at,
{
    if at < path.len() && path[at] != '/' {
        segment_is(path, at + 1);
    }
}

proof fn segment_ends_at(path: Seq<char>, at: int, end: int)
    requires
        0 <= at <= end <= path.len(),
        forall|i: int| at <= i < end ==> #[trigger] path[i] != '/',
        end < path.len() ==> path[end] == '/',
    ensures
        paths::segment_end(path, at) == end,
    decreases end - at,
{
    if at < end {
        assert(path[at] != '/');
        segment_ends_at(path, at + 1, end);
    }
}

spec fn shifted(bounds: Seq<(int, int)>, by: int) -> Seq<(int, int)> {
    bounds.map_values(|b: (int, int)| (b.0 + by, b.1 + by))
}

proof fn bounds_shifted(dir: Seq<char>, rest: Seq<char>, at: int)
    requires
        0 <= at <= rest.len(),
        at > 0 || !starts_in_place(rest),
    ensures
        paths::component_bounds(dir + seq!['/'] + rest, dir.len() + 1 + at) == shifted(
            paths::component_bounds(rest, at),
            dir.len() as int + 1,
        ),
    decreases rest.len() - at,
{
    let path = dir + seq!['/'] + rest;
    let shift = dir.len() as int + 1;
    if at == rest.len() {
        assert(paths::component_bounds(path, shift + at).len() == 0);
    } else {
        assert(path[shift + at] == rest[at]);
        if rest[at] == '/' {
            bounds_shifted(dir, rest, at + 1);
        } else {
            let end = paths::segment_end(rest, at);
            segment_is(rest, at);
            assert forall|i: int| shift + at <= i < shift + end implies #[trigger] path[i]
                != '/' by {
                assert(path[i] == rest[i - shift]);
            }
            segment_ends_at(path, shift + at, shift + end);
            paths::lemma_segment_end(rest, at);
            bounds_shifted(dir, rest, end);
            if at == 0 && end == 1 && rest.len() > 1 {
                assert(rest[1] == '/');
            }
            assert(paths::is_dot(rest, at, end) == paths::is_dot(path, shift + at, shift + end));
            if !(paths::is_dot(rest, at, end) && at > 0) {
                let tail = paths::component_bounds(rest, end);
                assert(shifted(seq![(at, end)] + tail, shift) == seq![(shift + at, shift + end)]
                    + shifted(tail, shift));
            }
        }
    }
}

proof fn bounds_split(dir: Seq<char>, rest: Seq<char>, at: int)
    requires
        0 <= at <= dir.len(),
        !starts_in_place(rest),
    ensures
        paths::component_bounds(dir + seq!['/'] + rest, at) == paths::component_bounds(dir, at)
            + shifted(paths::component_bounds(rest, 0), dir.len() as int + 1),
    decreases dir.len() - at,
{
    let path = dir + seq!['/'] + rest;
    let back = shifted(paths::component_bounds(rest, 0), dir.len() as int + 1);
    if at == dir.len() {
        assert(path[at] == '/');
        bounds_shifted(dir, rest, 0);
        assert(Seq::<(int, int)>::empty() + back == back);
    } else {
        assert(path[at] == dir[at]);
        if dir[at] == '/' {
            bounds_split(dir, rest, at + 1);
        } else {
            let end = paths::segment_end(dir, at);
            segment_is(dir, at);
            assert forall|i: int| at <= i < end implies #[trigger] path[i] != '/' by {
                assert(path[i] == dir[i]);
            }
            segment_ends_at(path, at, end);
            paths::lemma_segment_end(dir, at);
            bounds_split(dir, rest, end);
            let tail = paths::component_bounds(dir, end);
            assert(seq![(at, end)] + (tail + back) == seq![(at, end)] + tail + back);
        }
    }
}

/// No component is empty or holds a slash.
pub proof fn lemma_components_hold_no_slash(path: Seq<char>)
    ensures
        forall|i: int|
            0 <= i < paths::components(path).len() ==> (#[trigger] paths::components(path)[i]).len()
                > 0 && !paths::components(path)[i].contains('/'),
{
    paths::lemma_component_bounds(path, 0);
    bounds_hold_no_slash(path, 0);
    assert forall|i: int| 0 <= i < paths::components(path).len() implies (
    #[trigger] paths::components(path)[i]).len() > 0 && !paths::components(path)[i].contains(
        '/',
    ) by {
        let b = paths::component_bounds(path, 0)[i];
        assert forall|k: int| 0 <= k < b.1 - b.0 implies path.subrange(b.0, b.1)[k] != '/' by {
            assert(path[b.0 + k] != '/');
        }
    }
}

proof fn bounds_hold_no_slash(path: Seq<char>, at: int)
    requires
        0 <= at <= path.len(),
    ensures
        forall|i: int, k: int|
            0 <= i < paths::component_bounds(path, at).len() && paths::component_bounds(
                path,
                at,
            )[i].0 <= k < (#[trigger] paths::component_bounds(path, at)[i]).1
                ==> #[trigger] path[k] != '/',
    decreases path.len() - at,
{
    if at < path.len() {
        if path[at] == '/' {
            bounds_hold_no_slash(path, at + 1);
            assert(paths::component_bounds(path, at) == paths::component_bounds(path, at + 1));
        } else {
            let end = paths::segment_end(path, at);
            paths::lemma_segment_end(path, at);
            segment_is(path, at);
            bounds_hold_no_slash(path, end);
            let tail = paths::component_bounds(path, end);
            let all = paths::component_bounds(path, at);
            assert forall|i: int, k: int|
                0 <= i < all.len() && all[i].0 <= k < (#[trigger] all[i]).1 implies
                #[trigger] path[k] != '/' by {
                if paths::is_dot(path, at, end) && at > 0 {
                    assert(all[i] == tail[i]);
                } else if i > 0 {
                    assert(all[i] == tail[i - 1]);
                }
            }
        }
    }
}

/// The file name is what stands after the last slash, whatever the directory; `.` and `..` are
/// directories and no file names. A file name holds no slash.
pub proof fn lemma_file_name(dir: Seq<char>, name: Seq<char>)
    requires
        name.len() > 0,
        !name.contains('/'),
        name != seq!['.'],
        name != seq!['.', '.'],
    ensures
        paths::file_name_of(dir + seq!['/'] + name) == Some(name),
        paths::file_name_of(name) == Some(name),
        paths::file_name_of(dir + seq!['/', '.', '.']) is None,
{
    lemma_components_split(dir, name);
    lemma_components_split(name, name);
    if starts_in_place(name) {
        if name.len() == 1 {
            assert(name == seq!['.']);
        } else {
            assert(name[1] == '/');
            assert(name.contains('/'));
        }
    }
    assert((paths::components(dir) + paths::components(name)).last() == name);
    let up = seq!['.', '.'];
    lemma_components_split(dir, up);
    lemma_components_split(up, up);
    assert(dir + seq!['/'] + up == dir + seq!['/', '.', '.']);
    assert(!up.contains('/'));
    assert((paths::components(dir) + paths::components(up)).last() == up);
}

/// A file name is a single component: not empty, without a slash, and neither `.` nor `..`.
pub proof fn lemma_file_name_is_plain(path: Seq<char>)
    ensures
        paths::file_name_of(path) matches Some(name) ==> {
            &&& name.len() > 0
            &&& !name.contains('/')
            &&& name != seq!['.']
            &&& name != seq!['.', '.']
        },
{
    lemma_components_hold_no_slash(path);
}

/// Where a path leads does not change with slashes at its end, but it does with another component
/// and with a slash at its start.
pub proof fn lemma_same_location(a: Seq<char>, name: Seq<char>)
    requires
        name.len() > 0,
        !name.contains('/'),
        name != seq!['.'],
    ensures
        a.len() > 0 ==> paths::same_location(a + seq!['/'], a),
        a.len() > 0 ==> paths::same_location(a + seq!['/', '.'], a),
        !paths::same_location(a + seq!['/'] + name, a),
        !paths::same_location(seq!['/'] + name, name),
{
    lemma_idle_segments(a);
    lemma_components_split(a, name);
    lemma_components_split(name, name);
    if starts_in_place(name) {
        if name.len() == 1 {
            assert(name == seq!['.']);
        } else {
            assert(name[1] == '/');
        }
    }
    if a.len() > 0 {
        assert((a + seq!['/'])[0] == a[0]);
        assert((a + seq!['/', '.'])[0] == a[0]);
    }
    assert(paths::components(a + seq!['/'] + name).len() == paths::components(a).len() + 1);
    assert((seq!['/'] + name)[0] == '/');
    assert(name[0] != '/');
}

/// A relative path joined to a directory lies in it; an absolute one replaces it.
pub proof fn lemma_joined_path(base: Seq<char>, part: Seq<char>)
    ensures
        paths::absolute(part) ==> paths::joined_path(base, part) == part,
        !paths::absolute(part) && base.len() > 0 && !starts_in_place(part) ==> {
            &&& paths::components(paths::joined_path(base, part)) == paths::components(base)
                + paths::components(part)
            &&& paths::absolute(paths::joined_path(base, part)) == paths::absolute(base)
            &&& base.is_prefix_of(paths::joined_path(base, part))
            &&& paths::joined_path(base, part).skip(
                paths::joined_path(base, part).len() - part.len(),
            ) == part
            &&& paths::joined_path(base, part).len() <= base.len() + 1 + part.len()
        },
        !paths::absolute(part) && base.len() == 0 ==> paths::joined_path(base, part) == part,
{
    let all = paths::joined_path(base, part);
    if !paths::absolute(part) && base.len() > 0 && !starts_in_place(part) {
        if base.last() == '/' {
            let front = base.drop_last();
            assert(base == front + seq!['/']);
            assert(all == front + seq!['/'] + part);
            lemma_components_split(front, part);
            lemma_idle_segments(front);
        } else {
            lemma_components_split(base, part);
        }
        assert(all[0] == base[0]);
        assert(all.skip(all.len() - part.len()) == part);
        assert(base.is_prefix_of(all));
    }
    if base.len() == 0 {
        assert(base + part == part);
    }
}

/// The ancestors of a path come nearest first, each with one component fewer and as far up as the
/// root or the working directory.
pub proof fn lemma_ancestors(path: Seq<char>)
    ensures
        paths::ancestors_of(path).len() == paths::components(path).len(),
        forall|i: int|
            0 <= i < paths::ancestors_of(path).len() ==> {
                let up = #[trigger] paths::ancestors_of(path)[i];
                &&& paths::components(up) == paths::components(path).take(
                    paths::components(path).len() - 1 - i,
                )
                &&& paths::absolute(up) == paths::absolute(path)
                &&& up.is_prefix_of(path)
            },
{
    let bounds = paths::component_bounds(path, 0);
    paths::lemma_component_bounds(path, 0);
    assert forall|i: int| 0 <= i < paths::ancestors_of(path).len() implies {
        let up = #[trigger] paths::ancestors_of(path)[i];
        &&& paths::components(up) == paths::components(path).take(
            paths::components(path).len() - 1 - i,
        )
        &&& paths::absolute(up) == paths::absolute(path)
        &&& up.is_prefix_of(path)
    } by {
        let up = paths::ancestors_of(path)[i];
        let kept = bounds.len() - 1 - i;
        if i + 1 < bounds.len() {
            let last = bounds.len() - 2 - i;
            bounds_taken(path, 0, last);
            assert(up == path.take(bounds[last].1));
            assert(up[0] == path[0]);
            assert forall|k: int| 0 <= k < kept implies #[trigger] paths::components(up)[k]
                == paths::components(path)[k] by {
                let b = bounds[k];
                assert(paths::component_bounds(up, 0)[k] == b);
                assert(b.1 <= bounds[last].1);
                assert(up.subrange(b.0, b.1) == path.subrange(b.0, b.1));
            }
            assert(paths::components(up) == paths::components(path).take(kept));
        } else {
            let none = Seq::<char>::empty();
            lemma_idle_segments(none);
            lemma_components_split(none, none);
            assert(none + seq!['/'] == seq!['/']);
            assert(paths::components(up) == paths::components(path).take(kept));
            if paths::absolute(path) {
                assert(up == path.take(1));
            } else {
                assert(up == path.take(0));
            }
        }
    }
}

proof fn bounds_taken(path: Seq<char>, at: int, last: int)
    requires
        0 <= at <= path.len(),
        0 <= last < paths::component_bounds(path, at).len(),
    ensures
        paths::component_bounds(path.take(paths::component_bounds(path, at)[last].1), at)
            == paths::component_bounds(path, at).take(last + 1),
    decreases path.len() - at,
{
    let all = paths::component_bounds(path, at);
    paths::lemma_component_bounds(path, at);
    let cut = all[last].1;
    let short = path.take(cut);
    if path[at] == '/' {
        bounds_taken(path, at + 1, last);
        assert(short[at] == '/');
    } else {
        let end = paths::segment_end(path, at);
        paths::lemma_segment_end(path, at);
        segment_is(path, at);
        paths::lemma_component_bounds(path, end);
        let tail = paths::component_bounds(path, end);
        if paths::is_dot(path, at, end) && at > 0 {
            bounds_taken(path, end, last);
            assert(tail[last].0 >= end);
            segment_ends_at(short, at, end);
        } else if last == 0 {
            assert(cut == end);
            segment_ends_at(short, at, end);
            assert(paths::component_bounds(short, end).len() == 0);
            assert(all.take(1) == seq![(at, end)]);
            assert(seq![(at, end)] + Seq::<(int, int)>::empty() == seq![(at, end)]);
        } else {
            assert(all[last] == tail[last - 1]);
            bounds_taken(path, end, last - 1);
            segment_ends_at(short, at, end);
            assert(all.take(last + 1) == seq![(at, end)] + tail.take(last));
        }
    }
}

/// The cache stands in `kctx` below the cache directory set in the environment if that is
/// absolute, else in `.cache/kctx` below the home directory; without either there is none.
pub proof fn lemma_cache_location(xdg: Option<String>, home: Option<String>)
    ensures
        xdg is Some && paths::absolute(xdg->0@) ==> {
            &&& paths::cache_location(xdg, home) is Some
            &&& paths::components(paths::cache_location(xdg, home)->0) == paths::components(
                xdg->0@,
            ).push("kctx"@)
            &&& paths::absolute(paths::cache_location(xdg, home)->0)
        },
        !(xdg is Some && paths::absolute(xdg->0@)) && home is Some && home->0@.len() > 0 ==> {
            &&& paths::cache_location(xdg, home) is Some
            &&& paths::components(paths::cache_location(xdg, home)->0) == paths::components(
                home->0@,
            ).push(".cache"@).push("kctx"@)
            &&& paths::absolute(paths::cache_location(xdg, home)->0) == paths::absolute(home->0@)
        },
        !(xdg is Some && paths::absolute(xdg->0@)) && !(home is Some && home->0@.len() > 0)
            ==> paths::cache_location(xdg, home) is None,
{
    if xdg is Some && paths::absolute(xdg->0@) {
        assert(!"kctx"@.contains('/') && "kctx"@.len() == 4 && "kctx"@[0] == 'k') by {
            reveal_strlit("kctx");
        }
        name_joined(xdg->0@, "kctx"@);
    } else if home is Some && home->0@.len() > 0 {
        assert(!"kctx"@.contains('/') && "kctx"@.len() == 4 && "kctx"@[0] == 'k') by {
            reveal_strlit("kctx");
        }
        assert(!".cache"@.contains('/') && ".cache"@.len() == 6 && ".cache"@[1] == 'c') by {
            reveal_strlit(".cache");
        }
        name_joined(home->0@, ".cache"@);
        name_joined(paths::joined_path(home->0@, ".cache"@), "kctx"@);
    }
}

proof fn name_joined(base: Seq<char>, name: Seq<char>)
    requires
        base.len() > 0,
        name.len() > 1,
        !name.contains('/'),
    ensures
        paths::joined_path(base, name).len() > 0,
        paths::components(paths::joined_path(base, name)) == paths::components(base).push(name),
        paths::absolute(paths::joined_path(base, name)) == paths::absolute(base),
{
    assert(name[0] != '/' && name[1] != '/') by {
        assert(name.contains(name[0]) && name.contains(name[1]));
    }
    lemma_joined_path(base, name);
    lemma_components_split(name, name);
    assert(paths::components(base) + seq![name] == paths::components(base).push(name));
}

/// The home directory is shown as `~` and what is below it as `~/` and the rest of the path; a
/// path that does not lead into the home directory is shown as it is, and so is every path where
/// no home directory is known.
pub proof fn lemma_home_is_shortened(path: Seq<char>, home: String, rest: Seq<char>)
    ensures
        home@.len() > 0 ==> paths::shortened(home@, Some(home)) == "~"@,
        home@.len() > 0 && rest.len() > 0 && rest[0] != '/' && rest[0] != '.' && rest.last() != '/'
            && rest.last() != '.' ==> paths::shortened(home@ + seq!['/'] + rest, Some(home))
            == "~/"@ + rest,
        paths::absolute(path) != paths::absolute(home@) || !paths::components(
            home@,
        ).is_prefix_of(paths::components(path)) ==> paths::shortened(path, Some(home)) == path,
        home@.len() == 0 ==> paths::shortened(path, Some(home)) == path,
        paths::shortened(path, None) == path,
{
    let top = paths::components(home@);
    if home@.len() > 0 {
        assert(top.take(top.len() as int) == top);
        assert(paths::shortened(home@, Some(home)) == "~"@);
    }
    if home@.len() > 0 && rest.len() > 0 && rest[0] != '/' && rest[0] != '.' && rest.last() != '/'
        && rest.last() != '.' {
        let whole = home@ + seq!['/'] + rest;
        lemma_components_split(home@, rest);
        bounds_split(home@, rest, 0);
        assert(whole[0] == home@[0]);
        assert(paths::components(whole).take(top.len() as int) == top);
        let shift = home@.len() as int + 1;
        let back = paths::component_bounds(rest, 0);
        bounds_reach_end(rest, 0);
        assert(back.len() > 0 && back[0].0 == 0);
        let bounds = paths::component_bounds(whole, 0);
        assert(bounds[top.len() as int] == shifted(back, shift)[0]);
        assert(bounds.last() == shifted(back, shift).last());
        let kept = paths::rest_after(whole, top.len() as int);
        assert(kept == whole.subrange(shift, whole.len() as int));
        assert(kept == rest);
    }
    if paths::has_prefix(path, home@) {
        assert(top.is_prefix_of(paths::components(path)));
    }
}

proof fn bounds_reach_end(path: Seq<char>, at: int)
    requires
        0 <= at < path.len(),
        path.last() != '/',
        path.last() != '.',
    ensures
        paths::component_bounds(path, at).len() > 0,
        paths::component_bounds(path, at).last().1 == path.len(),
    decreases path.len() - at,
{
    if path[at] == '/' {
        bounds_reach_end(path, at + 1);
    } else {
        let end = paths::segment_end(path, at);
        paths::lemma_segment_end(path, at);
        segment_is(path, at);
        if end < path.len() {
            bounds_reach_end(path, end);
        } else {
            assert(paths::component_bounds(path, end).len() == 0);
        }
    }
}

/// A directory is used only where nothing stands against the nearest ancestor that exists and
/// nothing against the directory itself, if it exists; what stands against the ancestor comes
/// first.
pub proof fn lemma_obstacles(
    dir: Seq<char>,
    ancestor: Option<(String, EntryFacts)>,
    existing: Option<EntryFacts>,
)
    ensures
        paths::private_dir_obstacle(dir, ancestor, existing) is None <==> {
            &&& ancestor matches Some((path, facts)) ==> {
                &&& facts.is_dir
                &&& facts.mode & 0o022 == 0 || facts.mode & 0o1000 != 0
            }
            &&& existing is Some ==> {
                &&& existing->0.is_dir
                &&& !existing->0.is_symlink
                &&& existing->0.mode & 0o077 == 0
            }
        },
        paths::private_dir_obstacle(dir, ancestor, existing) matches Some(said) ==> {
            ||| dir.is_prefix_of(said)
            ||| ancestor matches Some((path, facts)) && path@.is_prefix_of(said)
        },
        paths::private_dir_obstacle(dir, ancestor, None) is Some ==> paths::private_dir_obstacle(
            dir,
            ancestor,
            existing,
        ) == paths::private_dir_obstacle(dir, ancestor, None),
{
    if let Some((path, facts)) = ancestor {
        paths::lemma_ready_means_private(path@, facts);
    }
    if let Some(facts) = existing {
        paths::lemma_ready_means_private(dir, facts);
    }
}

/// A character that a file stem holds as it is.
pub open spec fn plain(c: char) -> bool {
    'a' <= c <= 'z' || 'A' <= c <= 'Z' || '0' <= c <= '9' || c == '.' || c == '-'
}

/// The bytes that an encoded stem stands for: `_` and two hexadecimal digits stand for the byte
/// with that value, any other character for itself.
pub open spec fn decoded(stem: Seq<char>) -> Seq<int>
    decreases stem.len(),
{
    if stem.len() == 0 {
        Seq::empty()
    } else if stem[0] == '_' && stem.len() >= 3 {
        seq![crate::laws::text::digit_value(stem[1]) * 16 + crate::laws::text::digit_value(stem[2])]
            + decoded(stem.skip(3))
    } else {
        seq![stem[0] as int] + decoded(stem.skip(1))
    }
}

/// Encoded bytes decode to themselves, and a byte stands for itself exactly if it is a letter, a
/// digit, a dot or a dash.
pub proof fn lemma_escapes_decode(bytes: Seq<u8>)
    ensures
        decoded(paths::escaped(bytes)) == Seq::new(bytes.len(), |i: int| bytes[i] as int),
        forall|i: int|
            0 <= i < bytes.len() ==> (#[trigger] paths::escape(bytes[i])).len() == (if plain(
                bytes[i] as char,
            ) {
                1int
            } else {
                3
            }),
    decreases bytes.len(),
{
    let all = paths::escaped(bytes);
    if bytes.len() > 0 {
        let first = paths::escape(bytes[0]);
        let others = paths::escaped(bytes.drop_first());
        lemma_escapes_decode(bytes.drop_first());
        assert(all == first + others);
        let byte = bytes[0];
        if paths::plain_byte(byte) {
            assert(all.skip(1) == others);
            assert(all[0] == byte as char);
            assert(byte as char as int == byte as int);
        } else {
            assert(all.skip(3) == others);
            assert(all[0] == '_' && all[1] == text::digit(byte as nat / 16) && all[2]
                == text::digit(byte as nat % 16));
            assert(crate::laws::text::digit_value(all[1]) == byte as int / 16);
            assert(crate::laws::text::digit_value(all[2]) == byte as int % 16);
        }
        assert(decoded(all) == seq![byte as int] + decoded(others));
        assert(decoded(all) == Seq::new(bytes.len(), |i: int| bytes[i] as int));
        assert forall|i: int| 0 <= i < bytes.len() implies (#[trigger] paths::escape(
            bytes[i],
        )).len() == (if plain(bytes[i] as char) {
            1int
        } else {
            3
        }) by {}
    } else {
        assert(decoded(all) == Seq::new(bytes.len(), |i: int| bytes[i] as int));
    }
}

/// A name of letters, digits, dots and dashes that is not too long and does not start with a dot
/// is its own file stem.
pub proof fn lemma_plain_names_are_kept(name: Seq<char>)
    requires
        0 < name.len() <= 180,
        name[0] != '.',
        forall|i: int| 0 <= i < name.len() ==> plain(#[trigger] name[i]),
    ensures
        paths::file_stem(name) == name,
{
    let bytes = encode_utf8(name);
    is_ascii_chars_encode_utf8(name);
    assert(bytes.len() == name.len());
    assert forall|i: int| 0 <= i < bytes.len() implies #[trigger] bytes[i] as char == name[i]
        && plain(name[i]) by {}
    plain_bytes_are_kept(bytes, name, name.len() as int);
    kept_at_end(bytes, name, 0);
    assert(bytes.take(bytes.len() as int) == bytes);
    assert(name.take(name.len() as int) == name);
}

proof fn plain_bytes_are_kept(bytes: Seq<u8>, name: Seq<char>, count: int)
    requires
        bytes.len() == name.len(),
        0 <= count <= bytes.len(),
        forall|i: int|
            0 <= i < bytes.len() ==> #[trigger] bytes[i] as char == name[i] && plain(name[i]),
    ensures
        paths::escaped(bytes.take(count)) == name.take(count),
    decreases count,
{
    if count > 0 {
        let front = bytes.take(count);
        assert(front.drop_first() == bytes.drop_first().take(count - 1));
        assert(bytes[0] as char == name[0]);
        plain_bytes_are_kept(bytes.drop_first(), name.drop_first(), count - 1);
        assert(paths::plain_byte(bytes[0]));
        assert(paths::escaped(front) == seq![name[0]] + name.drop_first().take(count - 1));
        assert(seq![name[0]] + name.drop_first().take(count - 1) == name.take(count));
    }
}

proof fn kept_at_end(bytes: Seq<u8>, name: Seq<char>, from: int)
    requires
        bytes.len() == name.len() <= 180,
        0 <= from <= bytes.len(),
        forall|i: int|
            0 <= i < bytes.len() ==> #[trigger] bytes[i] as char == name[i] && plain(name[i]),
    ensures
        paths::kept_from(bytes, from) == bytes.len(),
    decreases bytes.len() - from,
{
    if from < bytes.len() {
        plain_bytes_are_kept(bytes, name, from);
        kept_at_end(bytes, name, from + 1);
    }
}

/// The bytes of a name that are written out are as many as fit: what is written stays under the
/// limit but for its last byte, and everything is written if there is room.
pub proof fn lemma_stem_limit(bytes: Seq<u8>)
    ensures
        0 <= paths::kept(bytes) <= bytes.len(),
        paths::kept(bytes) < bytes.len() ==> paths::escaped(
            bytes.take(paths::kept(bytes)),
        ).len() >= 180,
        paths::kept(bytes) > 0 ==> paths::escaped(bytes.take(paths::kept(bytes) - 1)).len() < 180,
{
    kept_within(bytes, 0);
}

proof fn kept_within(bytes: Seq<u8>, from: int)
    requires
        0 <= from <= bytes.len(),
        from > 0 ==> paths::escaped(bytes.take(from - 1)).len() < 180,
    ensures
        from <= paths::kept_from(bytes, from) <= bytes.len(),
        paths::kept_from(bytes, from) < bytes.len() ==> paths::escaped(
            bytes.take(paths::kept_from(bytes, from)),
        ).len() >= 180,
        paths::kept_from(bytes, from) > 0 ==> paths::escaped(
            bytes.take(paths::kept_from(bytes, from) - 1),
        ).len() < 180,
    decreases bytes.len() - from,
{
    if from < bytes.len() && paths::escaped(bytes.take(from)).len() < 180 {
        kept_within(bytes, from + 1);
    }
}

/// The stem of an overlong name ends in a dash and the sixteen digits of the hash of all its
/// bytes; no other stem is longer than what is written out of the name.
pub proof fn lemma_overlong_names_are_hashed(bytes: Seq<u8>)
    ensures
        paths::kept(bytes) < bytes.len() ==> {
            let stem = paths::raw_stem(bytes);
            &&& stem.len() == paths::escaped(bytes.take(paths::kept(bytes))).len() + 17
            &&& stem[stem.len() - 17] == '-'
            &&& crate::laws::text::read_in(stem.skip(stem.len() - 16), 16) == paths::fnv1a(bytes)
        },
        paths::kept(bytes) == bytes.len() ==> paths::raw_stem(bytes) == paths::escaped(bytes),
        paths::fnv1a(Seq::empty()) == 0xcbf29ce484222325,
        forall|byte: u8| #[trigger]
            paths::fnv1a(bytes.push(byte)) == (paths::fnv1a(bytes) ^ (
            byte as u64)).wrapping_mul(0x100000001b3),
{
    assert(bytes.take(bytes.len() as int) == bytes);
    hex_reads_back(paths::fnv1a(bytes) as nat, 16);
    let start = paths::escaped(bytes.take(paths::kept(bytes)));
    let digits = paths::hex(paths::fnv1a(bytes) as nat, 16);
    assert(sixteen_to(16) == 0x1_0000_0000_0000_0000) by {
        reveal_with_fuel(sixteen_to, 17);
    }
    let long = start + seq!['-'] + digits;
    assert(long.skip(long.len() - 16) == digits);
    assert forall|byte: u8| #[trigger]
        paths::fnv1a(bytes.push(byte)) == (paths::fnv1a(bytes) ^ (byte as u64)).wrapping_mul(
            0x100000001b3,
        ) by {
        assert(bytes.push(byte).drop_last() == bytes);
    }
}

spec fn sixteen_to(width: nat) -> nat
    decreases width,
{
    if width == 0 {
        1
    } else {
        16 * sixteen_to((width - 1) as nat)
    }
}

proof fn hex_reads_back(n: nat, width: nat)
    ensures
        paths::hex(n, width).len() == width,
        n < sixteen_to(width) ==> crate::laws::text::read_in(paths::hex(n, width), 16) == n,
    decreases width,
{
    if width > 0 {
        hex_reads_back(n / 16, (width - 1) as nat);
        let front = paths::hex(n / 16, (width - 1) as nat);
        assert(paths::hex(n, width).drop_last() == front);
        assert(crate::laws::text::digit_value(text::digit(n % 16)) == n % 16);
    }
}

// ---------------------------------------------------------------------------------------------
// The functions
// ---------------------------------------------------------------------------------------------
/// The file name is the final component, whatever the directory, without a slash in it.
pub proof fn lemma_final_component(path: &str, r: Option<String>, dir: Seq<char>, name: Seq<char>)
    requires
        call_ensures(paths::file_name, (path,), r),
        name.len() > 0,
        !name.contains('/'),
        name != seq!['.'],
        name != seq!['.', '.'],
    ensures
        path@ == dir + seq!['/'] + name || path@ == name ==> r is Some && r->0@ == name,
        path@ == dir + seq!['/', '.', '.'] ==> r is None,
        r matches Some(file) ==> !file@.contains('/') && file@.len() > 0,
{
    lemma_file_name(dir, name);
    lemma_file_name_is_plain(path@);
}

/// Paths that lead to the same place have the same components, from the same start.
pub proof fn lemma_same_path(a: &str, b: &str, same: bool, absolute: bool)
    requires
        call_ensures(paths::same_path, (a, b), same),
        call_ensures(paths::is_absolute, (a,), absolute),
    ensures
        absolute <==> a@.len() > 0 && a@[0] == '/',
        same <==> (a@.len() > 0 && a@[0] == '/' <==> b@.len() > 0 && b@[0] == '/')
            && paths::components(a@) == paths::components(b@),
        a@ == b@ ==> same,
{
}

/// A path joined to a directory lies in it, unless it is absolute.
pub proof fn lemma_join_path(base: &str, part: &str, r: String)
    requires
        call_ensures(paths::join_path, (base, part), r),
    ensures
        part@.len() > 0 && part@[0] == '/' ==> r@ == part@,
        base@.len() > 0 && base@.last() != '/' && !(part@.len() > 0 && part@[0] == '/') ==> r@
            == base@ + seq!['/'] + part@,
        base@.len() > 0 && base@.last() == '/' && !(part@.len() > 0 && part@[0] == '/') ==> r@
            == base@ + part@,
        base@.len() == 0 ==> r@ == part@,
{
    if base@.len() == 0 {
        assert(base@ + part@ == part@);
    }
}

/// Ancestors come nearest first, each one component shorter, and the one that counts is the nearest
/// that exists.
pub proof fn lemma_nearest_ancestor(
    path: &str,
    all: Vec<String>,
    existing: &Vec<String>,
    r: Option<String>,
)
    requires
        call_ensures(paths::ancestors, (path,), all),
        call_ensures(paths::deepest_existing_ancestor, (path, existing), r),
    ensures
        all@.len() == paths::components(path@).len(),
        forall|i: int|
            0 <= i < all@.len() ==> paths::components((#[trigger] all@[i])@) == paths::components(
                path@,
            ).take(all@.len() - 1 - i),
        r matches Some(found) ==> exists|i: int|
            0 <= i < all@.len() && (#[trigger] all@[i])@ == found@ && text::texts(
                existing@,
            ).contains(all@[i]@) && forall|j: int|
                0 <= j < i ==> !text::texts(existing@).contains((#[trigger] all@[j])@),
{
    lemma_ancestors(path@);
    let up = paths::ancestors_of(path@);
    assert(text::texts(all@) == up);
    assert(up.len() == all@.len());
    assert forall|i: int| 0 <= i < all@.len() implies #[trigger] up[i] == all@[i]@ by {
        assert(text::texts(all@)[i] == all@[i]@);
    }
    assert forall|i: int| 0 <= i < all@.len() implies paths::components((#[trigger] all@[i])@)
        == paths::components(path@).take(all@.len() - 1 - i) by {
        assert(up[i] == all@[i]@);
    }
    if let Some(found) = r {
        let i = choose|i: int|
            {
                &&& 0 <= i < up.len()
                &&& #[trigger] up[i] == found@
                &&& text::texts(existing@).contains(up[i])
                &&& forall|j: int|
                    0 <= j < i ==> !text::texts(existing@).contains(#[trigger] up[j])
            };
        assert(all@[i]@ == found@);
        assert forall|j: int| 0 <= j < i implies !text::texts(existing@).contains(
            (#[trigger] all@[j])@,
        ) by {
            assert(up[j] == all@[j]@);
        }
    }
}

/// An ancestor that counts is found wherever one of them exists.
pub proof fn lemma_some_ancestor_is_found(
    path: &str,
    existing: &Vec<String>,
    r: Option<String>,
    j: int,
)
    requires
        call_ensures(paths::deepest_existing_ancestor, (path, existing), r),
        0 <= j < paths::ancestors_of(path@).len(),
        text::texts(existing@).contains(paths::ancestors_of(path@)[j]),
    ensures
        r is Some,
{
    let args = (path, existing);
    assert(paths::ancestors_of(args.0@)[j] == paths::ancestors_of(path@)[j]);
    assert(text::texts(args.1@).contains(paths::ancestors_of(args.0@)[j]));
}

/// The caches stand where [`lemma_cache_location`] says, the overlays in `contexts` below.
pub proof fn lemma_cache_dirs(
    xdg: &Option<String>,
    home: &Option<String>,
    cache: Option<String>,
    overlays: Option<String>,
)
    requires
        call_ensures(paths::cache_dir, (xdg, home), cache),
        call_ensures(paths::overlay_dir, (xdg, home), overlays),
    ensures
        cache is Some <==> (xdg is Some && paths::absolute(xdg->0@)) || (home is Some
            && home->0@.len() > 0),
        overlays is Some <==> cache is Some,
        xdg is Some && paths::absolute(xdg->0@) ==> paths::components(cache->0@)
            == paths::components(xdg->0@).push("kctx"@),
        !(xdg is Some && paths::absolute(xdg->0@)) && cache is Some ==> paths::components(cache->0@)
            == paths::components(home->0@).push(".cache"@).push("kctx"@),
        cache is Some ==> paths::components(overlays->0@) == paths::components(cache->0@).push(
            "contexts"@,
        ),
{
    lemma_cache_location(*xdg, *home);
    if cache is Some {
        assert(cache->0@.len() > 0) by {
            if cache->0@.len() == 0 {
                lemma_components_split(cache->0@, cache->0@);
            }
        }
        assert(!"contexts"@.contains('/') && "contexts"@.len() == 8) by {
            reveal_strlit("contexts");
        }
        name_joined(cache->0@, "contexts"@);
    }
}

/// The home directory is used only if it is set and not empty.
pub proof fn lemma_home_dir(reported: &Option<String>, r: Option<String>)
    requires
        call_ensures(paths::home_dir, (reported,), r),
    ensures
        r is Some <==> reported is Some && reported->0@.len() > 0,
        r matches Some(home) ==> home@ == reported->0@,
{
}

/// A path below the home directory is shown behind `~`, as [`lemma_home_is_shortened`] says.
pub proof fn lemma_shorten_home(
    path: &str,
    home: &Option<String>,
    r: String,
    rest: Seq<char>,
)
    requires
        call_ensures(paths::shorten_home, (path, home), r),
    ensures
        home is None || home->0@.len() == 0 ==> r@ == path@,
        home is Some && home->0@.len() > 0 && path@ == home->0@ ==> r@ == "~"@,
        home is Some && home->0@.len() > 0 && path@ == home->0@ + seq!['/'] + rest && rest.len() > 0
            && rest[0] != '/' && rest[0] != '.' && rest.last() != '/' && rest.last() != '.' ==> r@
            == "~/"@ + rest,
        home is Some && (paths::absolute(path@) != paths::absolute(home->0@) || !paths::components(
            home->0@,
        ).is_prefix_of(paths::components(path@))) ==> r@ == path@,
{
    if let Some(home) = *home {
        lemma_home_is_shortened(path@, home, rest);
    }
}

/// A private directory is used as it is or created; either only where nothing stands against it.
pub proof fn lemma_private_dir(
    dir: &str,
    ancestor: &Option<(String, EntryFacts)>,
    existing: &Option<EntryFacts>,
    r: Result<PrivateDirPlan, String>,
)
    requires
        call_ensures(paths::ensure_private_dir, (dir, ancestor, existing), r),
    ensures
        r is Ok <==> {
            &&& ancestor matches Some((path, facts)) ==> {
                &&& facts.is_dir
                &&& facts.mode & 0o022 == 0 || facts.mode & 0o1000 != 0
            }
            &&& existing matches Some(facts) ==> {
                &&& facts.is_dir
                &&& !facts.is_symlink
                &&& facts.mode & 0o077 == 0
            }
        },
        r matches Ok(plan) ==> (plan is Ready <==> existing is Some) && (plan is Create
            <==> existing is None),
{
    lemma_obstacles(dir@, *ancestor, *existing);
}

/// What stands against a directory is said of it: that it is a link, that it is no directory, or
/// who else may get at it, with its mode.
pub proof fn lemma_refusals(
    dir: &str,
    facts: EntryFacts,
    shared: Result<(), String>,
    private: Result<(), String>,
)
    requires
        call_ensures(paths::check_shared_ancestor, (dir, facts), shared),
        call_ensures(paths::check_private_dir, (dir, facts), private),
    ensures
        shared is Ok <==> facts.is_dir && (facts.mode & 0o022 == 0 || facts.mode & 0o1000 != 0),
        private is Ok <==> facts.is_dir && !facts.is_symlink && facts.mode & 0o077 == 0,
        shared matches Err(said) ==> said@ == (if !facts.is_dir {
            dir@ + " is not a directory, so kctx cannot keep its cache below it"@
        } else {
            dir@ + " is writable by other users (mode "@ + text::numeral(
                (facts.mode & 0o7777) as nat,
                8,
            ) + "); kctx will not keep its cache below it"@
        }),
        private matches Err(said) ==> said@ == (if facts.is_symlink {
            dir@ + " is a symbolic link; kctx will not write overlays through one"@
        } else if !facts.is_dir {
            dir@ + " exists but is not a directory"@
        } else {
            dir@ + " is accessible to other users (mode "@ + text::numeral(
                (facts.mode & 0o7777) as nat,
                8,
            ) + "); run `chmod 700` on it"@
        }),
{
}

/// The stem of a name is made of its encoded bytes, with a safe start: a plain name stays as it is,
/// an empty one has a stem of its own, and no stem starts with a dot.
pub proof fn lemma_stems(name: &str, r: String, bytes: &[u8], hash: u64)
    requires
        call_ensures(paths::encode_file_stem, (name,), r),
        call_ensures(paths::fnv1a64, (bytes,), hash),
        bytes@ == encode_utf8(name@),
    ensures
        hash == paths::fnv1a(bytes@),
        0 < name@.len() <= 180 && name@[0] != '.' && (forall|i: int|
            0 <= i < name@.len() ==> plain(#[trigger] name@[i])) ==> r@ == name@,
        paths::raw_stem(bytes@).len() == 0 ==> r@ == "_empty"@,
        paths::raw_stem(bytes@).len() > 0 && paths::raw_stem(bytes@)[0] == '.' ==> r@ == "_2e"@
            + paths::raw_stem(bytes@).drop_first(),
        paths::raw_stem(bytes@).len() > 0 && paths::raw_stem(bytes@)[0] != '.' ==> r@
            == paths::raw_stem(bytes@),
{
    if 0 < name@.len() <= 180 && name@[0] != '.' && (forall|i: int|
        0 <= i < name@.len() ==> plain(#[trigger] name@[i])) {
        lemma_plain_names_are_kept(name@);
    }
}

} // verus!
