//! What holds of finding kubeconfig files.

use vstd::prelude::*;

use crate::kubeconfig::discovery;
use crate::kubeconfig::discovery::{DirItem, DiscoverySources, FileFacts, ItemKind, Scan, Tree};
use crate::laws::health as health_laws;
use crate::laws::paths as path_laws;
use crate::paths;
use crate::text;

verus! {

// ---------------------------------------------------------------------------------------------
// Which files are taken
// ---------------------------------------------------------------------------------------------
/// Whether a name ends in a dot and an extension, with something before the dot.
pub open spec fn ends_in(name: Seq<char>, extension: Seq<char>) -> bool {
    &&& name.len() > extension.len() + 1
    &&& !extension.contains('.')
    &&& name[name.len() - extension.len() - 1] == '.'
    &&& name.skip(name.len() - extension.len()) == extension
}

/// Whether a lower-cased extension is one of those of certificates, keys, data, logs and texts.
pub open spec fn foreign(extension: Seq<char>) -> bool {
    ||| extension == "crt"@
    ||| extension == "cert"@
    ||| extension == "key"@
    ||| extension == "pem"@
    ||| extension == "pub"@
    ||| extension == "csr"@
    ||| extension == "json"@
    ||| extension == "lock"@
    ||| extension == "log"@
    ||| extension == "db"@
    ||| extension == "txt"@
    ||| extension == "md"@
    ||| extension == "sh"@
    ||| extension == "bak"@
}

/// The extension of a file name is what stands behind its last dot, unless that is its first
/// character; a name without such a dot has none.
pub proof fn lemma_extension(stem: Seq<char>, extension: Seq<char>)
    requires
        !extension.contains('.'),
    ensures
        stem.len() > 0 ==> discovery::extension_of(stem + seq!['.'] + extension) == Some(extension),
        discovery::extension_of(seq!['.'] + extension) is None,
        discovery::extension_of(extension) is None,
{
    dot_found(stem, extension);
    dot_found(Seq::empty(), extension);
    no_dot(extension);
    let name = stem + seq!['.'] + extension;
    assert(name.skip(stem.len() as int + 1) == extension);
    assert(Seq::<char>::empty() + seq!['.'] + extension == seq!['.'] + extension);
}

proof fn no_dot(s: Seq<char>)
    requires
        !s.contains('.'),
    ensures
        discovery::last_dot(s) is None,
    decreases s.len(),
{
    if s.len() > 0 {
        assert(s.contains(s.last()));
        assert forall|i: int| 0 <= i < s.len() - 1 implies s.drop_last()[i] != '.' by {
            assert(s.contains(s[i]));
        }
        no_dot(s.drop_last());
    }
}

proof fn dot_found(stem: Seq<char>, extension: Seq<char>)
    requires
        !extension.contains('.'),
    ensures
        discovery::last_dot(stem + seq!['.'] + extension) == Some(stem.len() as int),
    decreases extension.len(),
{
    let name = stem + seq!['.'] + extension;
    if extension.len() > 0 {
        assert(extension.contains(extension.last()));
        let shorter = extension.drop_last();
        assert forall|i: int| 0 <= i < shorter.len() implies shorter[i] != '.' by {
            assert(extension.contains(extension[i]));
        }
        dot_found(stem, shorter);
        assert(name.drop_last() == stem + seq!['.'] + shorter);
    } else {
        assert(name.last() == '.');
    }
}

/// A file is taken for a kubeconfig exactly if it is neither empty nor over the size limit and its
/// extension, in lower case, is none of those of certificates, keys, data, logs and texts. A file
/// without an extension is taken.
pub proof fn lemma_plausible_files(
    max_file_size: u64,
    dir: Seq<char>,
    stem: Seq<char>,
    extension: Seq<char>,
    size: u64,
    named: &str,
    named_taken: bool,
    bare: &str,
    bare_taken: bool,
)
    requires
        call_ensures(discovery::is_plausible_file, (max_file_size, named, size), named_taken),
        call_ensures(discovery::is_plausible_file, (max_file_size, bare, size), bare_taken),
        named@ == dir + seq!['/'] + (stem + seq!['.'] + extension),
        bare@ == dir + seq!['/'] + stem,
        !stem.contains('/'),
        !extension.contains('/'),
        !extension.contains('.'),
        stem.len() > 0,
        stem + seq!['.'] + extension != seq!['.', '.'],
    ensures
        named_taken <==> 0 < size && size <= max_file_size && !foreign(
            text::ascii_lowercase(extension),
        ),
        !stem.contains('.') ==> (bare_taken <==> 0 < size && size <= max_file_size),
{
    let name = stem + seq!['.'] + extension;
    lemma_extension(stem, extension);
    assert forall|i: int| 0 <= i < name.len() implies name[i] != '/' by {
        if i < stem.len() {
            assert(stem.contains(stem[i]));
        } else if i > stem.len() {
            assert(extension.contains(extension[i - stem.len() - 1]));
        }
    }
    if name.len() == 1 {
        assert(stem.len() == 0);
    }
    path_laws::lemma_file_name(dir, name);
    if !stem.contains('.') {
        lemma_extension(stem, stem);
        assert(stem != seq!['.'] && stem != seq!['.', '.']) by {
            if stem == seq!['.'] || stem == seq!['.', '.'] {
                assert(stem[0] == '.');
                assert(stem.contains('.'));
            }
        }
        path_laws::lemma_file_name(dir, stem);
    }
}

/// Whether an item of a directory is a regular file to read: not hidden, not empty, within the
/// size limit and without a foreign extension.
pub open spec fn worth_reading(max_file_size: u64, item: DirItem) -> bool {
    &&& item.name@[0] != '.'
    &&& item.kind matches ItemKind::File(size) && 0 < size && size <= max_file_size
    &&& !exists|extension: Seq<char>| #[trigger]
        ends_in(item.name@, extension) && foreign(text::ascii_lowercase(extension))
}

/// Whether an item of a directory is a directory to descend into: not hidden and not one that
/// holds caches or plugins.
pub open spec fn worth_entering(item: DirItem) -> bool {
    &&& item.name@[0] != '.'
    &&& item.kind is Directory
    &&& item.name@ != "cache"@
    &&& item.name@ != "http-cache"@
    &&& item.name@ != "oidc-login"@
    &&& item.name@ != "kubelet-plugins"@
}

/// Whether an item can stand in a directory: its name is not empty and holds no slash.
pub open spec fn proper(item: DirItem) -> bool {
    item.name@.len() > 0 && !item.name@.contains('/')
}

/// What a scan takes of a directory are exactly its files worth reading, and what it enters are
/// exactly its directories worth entering.
pub proof fn lemma_what_is_taken(max_file_size: u64, dir: Seq<char>, item: DirItem)
    requires
        proper(item),
    ensures
        discovery::takes(max_file_size, dir, item) <==> worth_reading(max_file_size, item),
        discovery::descends(item) <==> worth_entering(item),
{
    let name = item.name@;
    if name[0] != '.' {
        let path = paths::joined_path(dir, name);
        assert(name.contains(name[0]));
        if dir.len() == 0 {
            assert(path == name);
            path_laws::lemma_file_name(dir, name);
        } else if dir.last() == '/' {
            path_laws::lemma_file_name(dir.drop_last(), name);
            assert(path == dir.drop_last() + seq!['/'] + name);
        } else {
            path_laws::lemma_file_name(dir, name);
        }
        assert(paths::file_name_of(path) == Some(name));
        last_dot_splits(name);
        match discovery::last_dot(name) {
            Some(k) => {
                let extension = name.skip(k + 1);
                assert(k > 0);
                assert(name.skip(name.len() - extension.len()) == extension);
                assert(ends_in(name, extension));
                assert forall|other: Seq<char>| #[trigger] ends_in(name, other) implies other
                    == extension by {
                    let at = name.len() - other.len() - 1;
                    if at > k {
                        assert(extension[at - k - 1] == '.');
                        assert(extension.contains('.'));
                    }
                    if at < k {
                        assert(other[k - at - 1] == name[k]);
                        assert(other.contains('.'));
                    }
                    assert(at == k);
                    assert(other == name.skip(k + 1));
                }
            },
            None => {
                assert forall|other: Seq<char>| !#[trigger] ends_in(name, other) by {
                    if ends_in(name, other) {
                        assert(name.contains('.'));
                    }
                }
            },
        }
    }
}

proof fn last_dot_splits(s: Seq<char>)
    ensures
        match discovery::last_dot(s) {
            Some(k) => 0 <= k < s.len() && s[k] == '.' && !s.skip(k + 1).contains('.'),
            None => !s.contains('.'),
        },
    decreases s.len(),
{
    if s.len() > 0 {
        if s.last() == '.' {
            assert(s.skip(s.len() as int).len() == 0);
        } else {
            let front = s.drop_last();
            last_dot_splits(front);
            match discovery::last_dot(front) {
                Some(k) => {
                    let tail = s.skip(k + 1);
                    assert forall|i: int| 0 <= i < tail.len() implies #[trigger] tail[i]
                        != '.' by {
                        if i < front.len() - k - 1 {
                            assert(front.skip(k + 1)[i] == tail[i]);
                        }
                    }
                },
                None => {
                    assert forall|i: int| 0 <= i < s.len() implies s[i] != '.' by {
                        if i < front.len() {
                            assert(front[i] == s[i]);
                        }
                    }
                },
            }
        }
    }
}

/// A path is among those found in a directory exactly if it is that of a file worth reading there.
pub proof fn lemma_files_in(
    max_file_size: u64,
    dir: Seq<char>,
    listing: Seq<DirItem>,
    path: Seq<char>,
)
    requires
        forall|i: int| 0 <= i < listing.len() ==> proper(#[trigger] listing[i]),
    ensures
        discovery::files_in(max_file_size, dir, listing).contains(path) <==> exists|i: int|
            0 <= i < listing.len() && worth_reading(max_file_size, #[trigger] listing[i]) && path
                == paths::joined_path(dir, listing[i].name@),
        discovery::dirs_in(dir, listing).contains(path) <==> exists|i: int|
            0 <= i < listing.len() && worth_entering(#[trigger] listing[i]) && path
                == paths::joined_path(dir, listing[i].name@),
{
    names_taken(max_file_size, dir, listing);
    names_entered(listing);
    placed_contains(dir, discovery::taken_names(max_file_size, dir, listing), path);
    placed_contains(dir, discovery::entered_names(listing), path);
    let taken = discovery::taken_names(max_file_size, dir, listing);
    let entered = discovery::entered_names(listing);
    if exists|j: int|
        0 <= j < taken.len() && path == paths::joined_path(dir, #[trigger] taken[j]) {
        let j = choose|j: int|
            0 <= j < taken.len() && path == paths::joined_path(dir, #[trigger] taken[j]);
        assert(taken.contains(taken[j]));
    }
    if exists|j: int|
        0 <= j < entered.len() && path == paths::joined_path(dir, #[trigger] entered[j]) {
        let j = choose|j: int|
            0 <= j < entered.len() && path == paths::joined_path(dir, #[trigger] entered[j]);
        assert(entered.contains(entered[j]));
    }
    if exists|i: int|
        0 <= i < listing.len() && worth_reading(max_file_size, #[trigger] listing[i]) && path
            == paths::joined_path(dir, listing[i].name@) {
        let i = choose|i: int|
            0 <= i < listing.len() && worth_reading(max_file_size, #[trigger] listing[i]) && path
                == paths::joined_path(dir, listing[i].name@);
        assert(taken.contains(listing[i].name@));
    }
    if exists|i: int|
        0 <= i < listing.len() && worth_entering(#[trigger] listing[i]) && path
            == paths::joined_path(dir, listing[i].name@) {
        let i = choose|i: int|
            0 <= i < listing.len() && worth_entering(#[trigger] listing[i]) && path
                == paths::joined_path(dir, listing[i].name@);
        assert(entered.contains(listing[i].name@));
    }
}

proof fn placed_contains(dir: Seq<char>, names: Seq<Seq<char>>, path: Seq<char>)
    ensures
        discovery::placed(dir, text::ordered(names)).contains(path) <==> exists|i: int|
            0 <= i < names.len() && path == paths::joined_path(dir, #[trigger] names[i]),
{
    let sorted = text::ordered(names);
    text::lemma_ordered(names);
    names.to_multiset_ensures();
    sorted.to_multiset_ensures();
    let all = discovery::placed(dir, sorted);
    if all.contains(path) {
        let k = choose|k: int| 0 <= k < all.len() && all[k] == path;
        assert(sorted.contains(sorted[k]));
        assert(sorted.to_multiset().count(sorted[k]) > 0);
        assert(names.contains(sorted[k]));
        let i = choose|i: int| 0 <= i < names.len() && names[i] == sorted[k];
        assert(path == paths::joined_path(dir, names[i]));
    }
    if exists|i: int|
        0 <= i < names.len() && path == paths::joined_path(dir, #[trigger] names[i]) {
        let i = choose|i: int|
            0 <= i < names.len() && path == paths::joined_path(dir, #[trigger] names[i]);
        assert(names.contains(names[i]));
        assert(names.to_multiset().count(names[i]) > 0);
        assert(sorted.contains(names[i]));
        let k = choose|k: int| 0 <= k < sorted.len() && sorted[k] == names[i];
        assert(all[k] == path);
    }
}

/// The files taken of a directory are those worth reading, each once for each time it is listed.
pub proof fn lemma_names_taken(max_file_size: u64, dir: Seq<char>, listing: Seq<DirItem>)
    requires
        forall|i: int| 0 <= i < listing.len() ==> proper(#[trigger] listing[i]),
    ensures
        discovery::taken_names(max_file_size, dir, listing).len() == listing.filter(
            |item: DirItem| worth_reading(max_file_size, item),
        ).len(),
        discovery::entered_names(listing).len() == listing.filter(
            |item: DirItem| worth_entering(item),
        ).len(),
    decreases listing.len(),
{
    reveal(Seq::filter);
    if listing.len() > 0 {
        let before = listing.drop_last();
        assert forall|i: int| 0 <= i < before.len() implies proper(#[trigger] before[i]) by {
            assert(proper(listing[i]));
        }
        lemma_names_taken(max_file_size, dir, before);
        assert(proper(listing[listing.len() - 1]));
        lemma_what_is_taken(max_file_size, dir, listing.last());
    }
}

proof fn names_taken(max_file_size: u64, dir: Seq<char>, listing: Seq<DirItem>)
    requires
        forall|i: int| 0 <= i < listing.len() ==> proper(#[trigger] listing[i]),
    ensures
        forall|name: Seq<char>| #[trigger]
            discovery::taken_names(max_file_size, dir, listing).contains(name) <==> exists|i: int|
                0 <= i < listing.len() && worth_reading(max_file_size, #[trigger] listing[i])
                    && listing[i].name@ == name,
    decreases listing.len(),
{
    let all = discovery::taken_names(max_file_size, dir, listing);
    if listing.len() > 0 {
        let before = listing.drop_last();
        assert forall|i: int| 0 <= i < before.len() implies proper(#[trigger] before[i]) by {
            assert(proper(listing[i]));
        }
        names_taken(max_file_size, dir, before);
        let last = listing.len() - 1;
        assert(proper(listing[last]));
        lemma_what_is_taken(max_file_size, dir, listing[last]);
        let front = discovery::taken_names(max_file_size, dir, before);
        assert forall|name: Seq<char>| #[trigger] all.contains(name) <==> exists|i: int|
            0 <= i < listing.len() && worth_reading(max_file_size, #[trigger] listing[i])
                && listing[i].name@ == name by {
            if all.contains(name) {
                let k = choose|k: int| 0 <= k < all.len() && all[k] == name;
                if k < front.len() {
                    assert(front[k] == name);
                    assert(front.contains(name));
                    let i = choose|i: int|
                        0 <= i < before.len() && worth_reading(max_file_size, #[trigger] before[i])
                            && before[i].name@ == name;
                    assert(listing[i] == before[i]);
                } else {
                    assert(listing[last].name@ == name);
                }
            }
            if exists|i: int|
                0 <= i < listing.len() && worth_reading(max_file_size, #[trigger] listing[i])
                    && listing[i].name@ == name {
                let i = choose|i: int|
                    0 <= i < listing.len() && worth_reading(max_file_size, #[trigger] listing[i])
                        && listing[i].name@ == name;
                if i < last {
                    assert(before[i] == listing[i]);
                    assert(front.contains(name));
                    let k = choose|k: int| 0 <= k < front.len() && front[k] == name;
                    assert(all[k] == name);
                } else {
                    assert(all.last() == name);
                }
            }
        }
    }
}

proof fn names_entered(listing: Seq<DirItem>)
    requires
        forall|i: int| 0 <= i < listing.len() ==> proper(#[trigger] listing[i]),
    ensures
        forall|name: Seq<char>| #[trigger]
            discovery::entered_names(listing).contains(name) <==> exists|i: int|
                0 <= i < listing.len() && worth_entering(#[trigger] listing[i])
                    && listing[i].name@ == name,
    decreases listing.len(),
{
    let all = discovery::entered_names(listing);
    if listing.len() > 0 {
        let before = listing.drop_last();
        assert forall|i: int| 0 <= i < before.len() implies proper(#[trigger] before[i]) by {
            assert(proper(listing[i]));
        }
        names_entered(before);
        let last = listing.len() - 1;
        assert(proper(listing[last]));
        lemma_what_is_taken(0, Seq::empty(), listing[last]);
        let front = discovery::entered_names(before);
        assert forall|name: Seq<char>| #[trigger] all.contains(name) <==> exists|i: int|
            0 <= i < listing.len() && worth_entering(#[trigger] listing[i]) && listing[i].name@
                == name by {
            if all.contains(name) {
                let k = choose|k: int| 0 <= k < all.len() && all[k] == name;
                if k < front.len() {
                    assert(front[k] == name);
                    assert(front.contains(name));
                    let i = choose|i: int|
                        0 <= i < before.len() && worth_entering(#[trigger] before[i])
                            && before[i].name@ == name;
                    assert(listing[i] == before[i]);
                } else {
                    assert(listing[last].name@ == name);
                }
            }
            if exists|i: int|
                0 <= i < listing.len() && worth_entering(#[trigger] listing[i])
                    && listing[i].name@ == name {
                let i = choose|i: int|
                    0 <= i < listing.len() && worth_entering(#[trigger] listing[i])
                        && listing[i].name@ == name;
                if i < last {
                    assert(before[i] == listing[i]);
                    assert(front.contains(name));
                    let k = choose|k: int| 0 <= k < front.len() && front[k] == name;
                    assert(all[k] == name);
                } else {
                    assert(all.last() == name);
                }
            }
        }
    }
}

/// A scan finds a path below a directory exactly if the directory is not too deep and can be
/// listed, and the path is found in it or below one of its directories, one level deeper.
pub proof fn lemma_below(
    tree: Tree,
    max_depth: int,
    max_file_size: u64,
    dir: Seq<char>,
    depth: int,
    path: Seq<char>,
)
    ensures
        discovery::below(tree, max_depth, max_file_size, dir, depth).contains(path) <==> {
            &&& depth <= max_depth
            &&& tree(dir) matches Some(listing) && {
                ||| discovery::files_in(max_file_size, dir, listing).contains(path)
                ||| exists|i: int|
                    0 <= i < discovery::dirs_in(dir, listing).len() && discovery::below(
                        tree,
                        max_depth,
                        max_file_size,
                        #[trigger] discovery::dirs_in(dir, listing)[i],
                        depth + 1,
                    ).contains(path)
            }
        },
{
    broadcast use vstd::seq_lib::lemma_seq_concat_contains_all_elements;

    if depth <= max_depth {
        if let Some(listing) = tree(dir) {
            below_any(
                tree,
                max_depth,
                max_file_size,
                discovery::dirs_in(dir, listing),
                depth + 1,
                path,
            );
        }
    }
}

proof fn below_any(
    tree: Tree,
    max_depth: int,
    max_file_size: u64,
    dirs: Seq<Seq<char>>,
    depth: int,
    path: Seq<char>,
)
    ensures
        discovery::below_all(tree, max_depth, max_file_size, dirs, depth).contains(path)
            <==> exists|i: int|
            0 <= i < dirs.len() && discovery::below(
                tree,
                max_depth,
                max_file_size,
                #[trigger] dirs[i],
                depth,
            ).contains(path),
    decreases dirs.len(),
{
    broadcast use vstd::seq_lib::lemma_seq_concat_contains_all_elements;

    if dirs.len() > 0 {
        let before = dirs.drop_last();
        below_any(tree, max_depth, max_file_size, before, depth, path);
        let last = dirs.len() - 1;
        assert(dirs[last] == dirs.last());
        if exists|i: int|
            0 <= i < before.len() && discovery::below(
                tree,
                max_depth,
                max_file_size,
                #[trigger] before[i],
                depth,
            ).contains(path) {
            let i = choose|i: int|
                0 <= i < before.len() && discovery::below(
                    tree,
                    max_depth,
                    max_file_size,
                    #[trigger] before[i],
                    depth,
                ).contains(path);
            assert(dirs[i] == before[i]);
        }
        if exists|i: int|
            0 <= i < dirs.len() && discovery::below(
                tree,
                max_depth,
                max_file_size,
                #[trigger] dirs[i],
                depth,
            ).contains(path) {
            let i = choose|i: int|
                0 <= i < dirs.len() && discovery::below(
                    tree,
                    max_depth,
                    max_file_size,
                    #[trigger] dirs[i],
                    depth,
                ).contains(path);
            if i < last {
                assert(before[i] == dirs[i]);
            }
        }
    }
}

/// Files of a directory come before those of its directories, and the directories are gone
/// through one after the other.
pub proof fn lemma_files_come_first(
    tree: Tree,
    max_depth: int,
    max_file_size: u64,
    dir: Seq<char>,
    depth: int,
    front: Seq<Seq<char>>,
    back: Seq<Seq<char>>,
)
    requires
        depth <= max_depth,
        tree(dir) is Some,
        discovery::dirs_in(dir, tree(dir)->0) == front + back,
    ensures
        discovery::below(tree, max_depth, max_file_size, dir, depth) == discovery::files_in(
            max_file_size,
            dir,
            tree(dir)->0,
        ) + discovery::below_all(tree, max_depth, max_file_size, front, depth + 1)
            + discovery::below_all(tree, max_depth, max_file_size, back, depth + 1),
        front.len() == 1 ==> discovery::below_all(
            tree,
            max_depth,
            max_file_size,
            front,
            depth + 1,
        ) == discovery::below(tree, max_depth, max_file_size, front[0], depth + 1),
{
    below_split(tree, max_depth, max_file_size, front, back, depth + 1);
    let none = Seq::<Seq<char>>::empty();
    if front.len() == 1 {
        assert(front.drop_last() == none);
        let first = discovery::below(tree, max_depth, max_file_size, front[0], depth + 1);
        assert(discovery::below_all(tree, max_depth, max_file_size, none, depth + 1) == none);
        assert(none + first == first);
    }
}

proof fn below_split(
    tree: Tree,
    max_depth: int,
    max_file_size: u64,
    front: Seq<Seq<char>>,
    back: Seq<Seq<char>>,
    depth: int,
)
    ensures
        discovery::below_all(tree, max_depth, max_file_size, front + back, depth)
            == discovery::below_all(tree, max_depth, max_file_size, front, depth)
            + discovery::below_all(tree, max_depth, max_file_size, back, depth),
    decreases back.len(),
{
    if back.len() > 0 {
        below_split(tree, max_depth, max_file_size, front, back.drop_last(), depth);
        assert((front + back).drop_last() == front + back.drop_last());
    } else {
        assert(front + back == front);
    }
}

/// Files are found in the order of their names.
pub proof fn lemma_files_are_sorted(
    max_file_size: u64,
    dir: Seq<char>,
    listing: Seq<DirItem>,
) -> (names: Seq<Seq<char>>)
    ensures
        discovery::files_in(max_file_size, dir, listing) == names.map_values(
            |name: Seq<char>| paths::joined_path(dir, name),
        ),
        forall|i: int, j: int|
            0 <= i < j < names.len() ==> !text::before(#[trigger] names[j], #[trigger] names[i]),
{
    let taken = discovery::taken_names(max_file_size, dir, listing);
    let names = text::ordered(taken);
    text::lemma_ordered(taken);
    assert(discovery::files_in(max_file_size, dir, listing) == names.map_values(
        |name: Seq<char>| paths::joined_path(dir, name),
    ));
    names
}

// ---------------------------------------------------------------------------------------------
// Which paths are considered
// ---------------------------------------------------------------------------------------------
/// A list of paths is split at colons, and empty paths between them are dropped.
pub proof fn lemma_listed_paths(parts: Seq<Seq<char>>)
    requires
        parts.len() > 0,
        forall|i: int| 0 <= i < parts.len() ==> !(#[trigger] parts[i]).contains(':'),
    ensures
        discovery::listed_paths(text::joined(parts, seq![':'])) == parts.filter(
            |part: Seq<char>| part.len() > 0,
        ),
{
    text::lemma_split_undoes_join(parts, ':');
    health_laws::same_filter(
        parts,
        |piece: Seq<char>| piece.len() > 0,
        |part: Seq<char>| part.len() > 0,
    );
}

/// The environment's paths come first, then the default file if there is one, then what the scan
/// found.
pub proof fn lemma_search_order(
    sources: DiscoverySources,
    default_is_file: bool,
    scanned: Seq<String>,
)
    ensures
        ({
            let all = discovery::considered(sources, default_is_file, scanned);
            let env = sources.kubeconfig_env@.len() as int;
            let taken: int = if sources.default_config is Some && default_is_file {
                1
            } else {
                0
            };
            &&& all.len() == env + taken + scanned.len()
            &&& forall|i: int| 0 <= i < env ==> #[trigger] all[i] == sources.kubeconfig_env@[i]@
            &&& taken == 1 ==> all[env] == sources.default_config->0@
            &&& forall|i: int|
                0 <= i < scanned.len() ==> all[env + taken + i] == (#[trigger] scanned[i])@
        }),
{
}

/// The key of a path is the canonical path first given for it, or the path itself.
pub proof fn lemma_key_of(canonical: Seq<(String, String)>, path: Seq<char>)
    ensures
        ({
            ||| discovery::key_of(canonical, path) == path && forall|i: int|
                0 <= i < canonical.len() ==> (#[trigger] canonical[i]).0@ != path
            ||| exists|k: int|
                0 <= k < canonical.len() && (#[trigger] canonical[k]).0@ == path
                    && discovery::key_of(canonical, path) == canonical[k].1@ && forall|i: int|
                    0 <= i < k ==> (#[trigger] canonical[i]).0@ != path
        }),
{
    key_found(canonical, path, 0);
}

proof fn key_found(canonical: Seq<(String, String)>, path: Seq<char>, from: int)
    requires
        0 <= from <= canonical.len(),
        forall|i: int| 0 <= i < from ==> (#[trigger] canonical[i]).0@ != path,
    ensures
        ({
            ||| discovery::key_from(canonical, path, from) == path && forall|i: int|
                0 <= i < canonical.len() ==> (#[trigger] canonical[i]).0@ != path
            ||| exists|k: int|
                0 <= k < canonical.len() && (#[trigger] canonical[k]).0@ == path
                    && discovery::key_from(canonical, path, from) == canonical[k].1@ && forall|
                    i: int,
                |
                    0 <= i < k ==> (#[trigger] canonical[i]).0@ != path
        }),
    decreases canonical.len() - from,
{
    if from < canonical.len() && canonical[from].0@ != path {
        key_found(canonical, path, from + 1);
    }
}

/// A path is kept exactly if no path before it leads to the same file.
pub proof fn lemma_first_of_a_file_is_kept(
    canonical: Seq<(String, String)>,
    before: Seq<Seq<char>>,
    path: Seq<char>,
)
    ensures
        discovery::distinct(canonical, before.push(path)) == (if exists|j: int|
            0 <= j < before.len() && paths::same_location(
                discovery::key_of(canonical, #[trigger] before[j]),
                discovery::key_of(canonical, path),
            ) {
            discovery::distinct(canonical, before)
        } else {
            discovery::distinct(canonical, before).push(path)
        }),
        discovery::distinct(canonical, Seq::empty()).len() == 0,
{
    assert(before.push(path).drop_last() == before);
    kept_leads_where_listed(canonical, before, path);
}

proof fn kept_leads_where_listed(
    canonical: Seq<(String, String)>,
    before: Seq<Seq<char>>,
    path: Seq<char>,
)
    ensures
        discovery::listed(canonical, discovery::distinct(canonical, before), path) <==> exists|j: int|
            0 <= j < before.len() && paths::same_location(
                discovery::key_of(canonical, #[trigger] before[j]),
                discovery::key_of(canonical, path),
            ),
    decreases before.len(),
{
    let kept = discovery::distinct(canonical, before);
    if before.len() > 0 {
        let fewer = before.drop_last();
        let last = before.len() - 1;
        let front = discovery::distinct(canonical, fewer);
        kept_leads_where_listed(canonical, fewer, path);
        assert(before[last] == before.last());
        if discovery::listed(canonical, kept, path) {
            let j = choose|j: int|
                0 <= j < kept.len() && paths::same_location(
                    discovery::key_of(canonical, #[trigger] kept[j]),
                    discovery::key_of(canonical, path),
                );
            if j < front.len() {
                assert(front[j] == kept[j]);
                assert(discovery::listed(canonical, front, path));
                let i = choose|i: int|
                    0 <= i < fewer.len() && paths::same_location(
                        discovery::key_of(canonical, #[trigger] fewer[i]),
                        discovery::key_of(canonical, path),
                    );
                assert(before[i] == fewer[i]);
            } else {
                assert(kept[j] == before[last]);
            }
        }
        if exists|j: int|
            0 <= j < before.len() && paths::same_location(
                discovery::key_of(canonical, #[trigger] before[j]),
                discovery::key_of(canonical, path),
            ) {
            let j = choose|j: int|
                0 <= j < before.len() && paths::same_location(
                    discovery::key_of(canonical, #[trigger] before[j]),
                    discovery::key_of(canonical, path),
                );
            if j < last {
                assert(fewer[j] == before[j]);
                assert(discovery::listed(canonical, front, path));
                let i = choose|i: int|
                    0 <= i < front.len() && paths::same_location(
                        discovery::key_of(canonical, #[trigger] front[i]),
                        discovery::key_of(canonical, path),
                    );
                assert(kept[i] == front[i]);
            } else if discovery::listed(canonical, front, before.last()) {
                let i = choose|i: int|
                    0 <= i < front.len() && paths::same_location(
                        discovery::key_of(canonical, #[trigger] front[i]),
                        discovery::key_of(canonical, before.last()),
                    );
                assert(kept[i] == front[i]);
            } else {
                assert(kept.last() == before.last());
                assert(kept[kept.len() - 1] == before[last]);
            }
        }
    }
}

/// Where to look: the paths that the environment lists, the file `.kube/config` below the home
/// directory, and the directory `.kube` there, with the usual limits.
pub proof fn lemma_sources(env: Option<&str>, home: Option<&str>, r: DiscoverySources)
    requires
        call_ensures(DiscoverySources::new, (env, home), r),
    ensures
        env matches Some(value) ==> text::texts(r.kubeconfig_env@) == text::pieces(
            value@,
            ':',
        ).filter(|piece: Seq<char>| piece.len() > 0),
        env is None ==> r.kubeconfig_env@.len() == 0,
        home matches Some(home) ==> {
            &&& r.default_config is Some
            &&& r.scan_dirs@.len() == 1
            &&& r.scan_dirs@[0]@ == paths::joined_path(home@, ".kube"@)
            &&& r.default_config->0@ == paths::joined_path(r.scan_dirs@[0]@, "config"@)
        },
        home is None ==> r.default_config is None && r.scan_dirs@.len() == 0,
        r.max_depth == 2,
        r.max_file_size == 5 * 1024 * 1024,
{
    assert(text::texts(r.kubeconfig_env@).len() == r.kubeconfig_env@.len());
    assert(text::texts(r.scan_dirs@).len() == r.scan_dirs@.len());
    if home is Some {
        assert(text::texts(r.scan_dirs@)[0] == r.scan_dirs@[0]@);
    }
}

/// The candidates are the paths considered, without those that lead to a file seen before.
pub proof fn lemma_candidates(
    sources: &DiscoverySources,
    facts: &FileFacts,
    r: Vec<String>,
    order: Vec<String>,
)
    requires
        call_ensures(DiscoverySources::candidates, (sources, facts), r),
        call_ensures(
            DiscoverySources::search_order,
            (sources, facts.default_is_file, &facts.scanned),
            order,
        ),
    ensures
        text::texts(order@) == discovery::considered(
            *sources,
            facts.default_is_file,
            facts.scanned@,
        ),
        text::texts(r@) == discovery::distinct(facts.canonical@, text::texts(order@)),
{
}

/// A scan starts at its directories, one level deep, with the first of them next; it goes nowhere
/// if it may not go one level deep.
pub proof fn lemma_scan_start(sources: &DiscoverySources, r: Scan)
    requires
        call_ensures(DiscoverySources::scan, (sources,), r),
    ensures
        r.found@.len() == 0,
        sources.max_depth == 0 ==> r.pending@.len() == 0,
        sources.max_depth > 0 ==> r.pending@.len() == sources.scan_dirs@.len(),
        forall|i: int|
            0 <= i < r.pending@.len() ==> (#[trigger] r.pending@[i]).dir@
                == sources.scan_dirs@[sources.scan_dirs@.len() - 1 - i]@ && r.pending@[i].depth
                == 1,
        r.max_depth == sources.max_depth,
        r.max_file_size == sources.max_file_size,
{
    let waiting = r.waiting();
    assert(waiting.len() == r.pending@.len());
    assert forall|i: int| 0 <= i < r.pending@.len() implies (#[trigger] r.pending@[i]).dir@
        == sources.scan_dirs@[sources.scan_dirs@.len() - 1 - i]@ && r.pending@[i].depth == 1 by {
        assert(waiting[i] == (r.pending@[i].dir@, r.pending@[i].depth as int));
    }
}

/// The directory to list next is the one put off last.
pub proof fn lemma_scan_next(scan: &Scan, r: Option<&str>)
    requires
        call_ensures(Scan::next, (scan,), r),
    ensures
        r is None <==> scan.pending@.len() == 0,
        r matches Some(dir) ==> dir@ == scan.pending@.last().dir@,
{
    assert(scan.waiting().len() == scan.pending@.len());
}

/// A directory that could be listed adds its files worth reading to what was found and puts off
/// its directories worth entering, unless they are too deep; one that could not be adds nothing.
/// Either way it is done with.
pub proof fn lemma_scan_step(scan: &mut Scan, listing: Option<Vec<DirItem>>)
    requires
        old(scan).pending@.len() > 0,
        call_ensures(Scan::feed, (scan, listing), ()),
    ensures
        ({
            let dir = old(scan).pending@.last().dir@;
            let depth = old(scan).pending@.last().depth;
            &&& listing matches Some(listing) ==> {
                &&& text::texts(final(scan).found@) == text::texts(old(scan).found@)
                    + discovery::files_in(old(scan).max_file_size, dir, listing@)
                &&& depth < old(scan).max_depth ==> final(scan).pending@.len() == old(scan).pending@.len() - 1 + discovery::dirs_in(dir, listing@).len()
                &&& depth < old(scan).max_depth ==> final(scan).waiting() == old(scan).waiting().drop_last() + Seq::new(
                    discovery::dirs_in(dir, listing@).len(),
                    |i: int|
                        (
                            discovery::dirs_in(dir, listing@)[discovery::dirs_in(
                                dir,
                                listing@,
                            ).len() - 1 - i],
                            depth + 1,
                        ),
                )
                &&& depth >= old(scan).max_depth ==> final(scan).waiting() == old(scan).waiting().drop_last()
            }
            &&& listing is None ==> final(scan).found@ == old(scan).found@ && final(scan).waiting()
                == old(scan).waiting().drop_last()
            &&& final(scan).max_depth == old(scan).max_depth
            &&& final(scan).max_file_size == old(scan).max_file_size
        }),
{
    assert(old(scan).waiting().len() == old(scan).pending@.len());
    assert(final(scan).waiting().len() == final(scan).pending@.len());
    assert(old(scan).waiting().last() == (
        old(scan).pending@.last().dir@,
        old(scan).pending@.last().depth as int,
    ));
}

/// Unless set otherwise, a scan goes two levels deep and reads files of up to five mebibytes.
pub proof fn lemma_default_limits(max_depth: usize, max_file_size: u64)
    requires
        max_depth == discovery::DEFAULT_MAX_DEPTH,
        max_file_size == discovery::DEFAULT_MAX_FILE_SIZE,
    ensures
        max_depth == 2,
        max_file_size == 5 * 1024 * 1024,
{
}

/// A path is added unless one that leads to the same file is there already.
pub proof fn lemma_push_unique(
    out: &mut Vec<String>,
    canonical: &Vec<(String, String)>,
    path: &str,
)
    requires
        call_ensures(discovery::push_unique, (out, canonical, path), ()),
    ensures
        ({
            let before = text::texts(old(out)@);
            let there = exists|j: int|
                0 <= j < before.len() && paths::same_location(
                    discovery::key_of(canonical@, #[trigger] before[j]),
                    discovery::key_of(canonical@, path@),
                );
            &&& there ==> text::texts(final(out)@) == before
            &&& !there ==> text::texts(final(out)@) == before.push(path@)
        }),
{
}

/// Without anything set, there is nowhere to look, and the usual limits hold.
pub proof fn lemma_no_sources(r: DiscoverySources)
    requires
        call_ensures(DiscoverySources::default, (), r),
    ensures
        r.kubeconfig_env@.len() == 0,
        r.default_config is None,
        r.scan_dirs@.len() == 0,
        r.max_depth == 2,
        r.max_file_size == 5 * 1024 * 1024,
{
}

} // verus!
