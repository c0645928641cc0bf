//! Where to look for kubeconfig files.
//!
//! Discovery is deliberately a plain data struct so additional directories become a field
//! assignment rather than a code change. The file system is read by the caller: a [`Scan`] says
//! which directory to list next and takes the listing back.

use vstd::prelude::*;

use crate::paths;
use crate::paths::{file_name, join_path, same_path};
use crate::text;
use crate::text::{chars_of, copy_list, same_text, sort, split, to_ascii_lowercase};

verus! {

/// Ordered set of locations to search for kubeconfig files.
#[derive(Debug, Clone)]
pub struct DiscoverySources {
    /// Files listed in `$KUBECONFIG`, in order. Searched first, so they win merge conflicts.
    pub kubeconfig_env: Vec<String>,
    /// The conventional `~/.kube/config`.
    pub default_config: Option<String>,
    /// Directories scanned for further kubeconfig-like files.
    pub scan_dirs: Vec<String>,
    /// How deep to recurse into `scan_dirs` (1 = only files directly inside).
    pub max_depth: usize,
    /// Files larger than this are never parsed.
    pub max_file_size: u64,
}

/// How deep directories are scanned unless told otherwise.
pub const DEFAULT_MAX_DEPTH: usize = 2;

/// The largest file that is parsed unless told otherwise: five mebibytes.
pub const DEFAULT_MAX_FILE_SIZE: u64 = 5_242_880;

impl Default for DiscoverySources {
    fn default() -> (r: Self)
        ensures
            r.kubeconfig_env@.len() == 0,
            r.default_config is None,
            r.scan_dirs@.len() == 0,
            r.max_depth == DEFAULT_MAX_DEPTH,
            r.max_file_size == DEFAULT_MAX_FILE_SIZE,
    {
        DiscoverySources {
            kubeconfig_env: Vec::new(),
            default_config: None,
            scan_dirs: Vec::new(),
            max_depth: DEFAULT_MAX_DEPTH,
            max_file_size: DEFAULT_MAX_FILE_SIZE,
        }
    }
}

/// The entries of a `:`-separated list of paths that are not empty.
pub open spec fn listed_paths(value: Seq<char>) -> Seq<Seq<char>> {
    text::pieces(value, ':').filter(|piece: Seq<char>| piece.len() > 0)
}

fn split_paths(value: &str) -> (r: Vec<String>)
    ensures
        text::texts(r@) == listed_paths(value@),
{
    let pieces = split(value, ':');
    let ghost all = text::pieces(value@, ':');
    let ghost filled = |piece: Seq<char>| piece.len() > 0;
    let mut kept: Vec<String> = Vec::new();
    proof {
        reveal(Seq::filter);
        assert(text::texts(kept@) == all.take(0).filter(filled));
    }
    for i in 0..pieces.len()
        invariant
            text::texts(pieces@) == all,
            filled == (|piece: Seq<char>| piece.len() > 0),
            text::texts(kept@) == all.take(i as int).filter(filled),
    {
        let ghost before = text::texts(kept@);
        proof {
            reveal(Seq::filter);
            assert(all.take(i + 1).drop_last() == all.take(i as int));
            assert(all.take(i + 1).last() == pieces@[i as int]@);
        }
        if !pieces[i].as_str().is_empty() {
            kept.push(pieces[i].clone());
            proof {
                assert(text::texts(kept@) == before.push(pieces@[i as int]@));
            }
        }
    }
    proof {
        assert(all.take(all.len() as int) == all);
    }
    kept
}

impl DiscoverySources {
    /// Build a source set from the value of `$KUBECONFIG` and the home directory.
    pub fn new(kubeconfig_env: Option<&str>, home: Option<&str>) -> (r: Self)
        ensures
            text::texts(r.kubeconfig_env@) == (match kubeconfig_env {
                Some(value) => listed_paths(value@),
                None => Seq::empty(),
            }),
            text::optional(r.default_config) == (match home {
                Some(home) => Some(
                    paths::joined_path(paths::joined_path(home@, ".kube"@), "config"@),
                ),
                None => None,
            }),
            text::texts(r.scan_dirs@) == (match home {
                Some(home) => seq![paths::joined_path(home@, ".kube"@)],
                None => Seq::empty(),
            }),
            r.max_depth == DEFAULT_MAX_DEPTH,
            r.max_file_size == DEFAULT_MAX_FILE_SIZE,
    {
        let mut sources = DiscoverySources::default();
        if let Some(value) = kubeconfig_env {
            sources.kubeconfig_env = split_paths(value);
        }
        if let Some(home) = home {
            let kube_dir = join_path(home, ".kube");
            sources.default_config = Some(join_path(kube_dir.as_str(), "config"));
            sources.scan_dirs.push(kube_dir);
        }
        proof {
            assert(kubeconfig_env is None ==> text::texts(sources.kubeconfig_env@) == Seq::<
                Seq<char>,
            >::empty());
            assert(home is None ==> text::texts(sources.scan_dirs@) == Seq::<Seq<char>>::empty());
        }
        sources
    }
}

// ---------------------------------------------------------------------------------------------
// Which files and directories are looked at
// ---------------------------------------------------------------------------------------------
/// What a directory entry is, symbolic links followed.
#[derive(Debug, Clone, Copy, PartialEq, Eq, Structural)]
pub enum ItemKind {
    /// A directory.
    Directory,
    /// A regular file, with its size in bytes.
    File(u64),
    /// Anything else, or something whose metadata cannot be read.
    Other,
}

/// A directory entry.
#[derive(Debug)]
pub struct DirItem {
    /// Its name within the directory.
    pub name: String,
    /// What it is.
    pub kind: ItemKind,
}

/// Directories that never contain kubeconfigs, only kubectl's caches.
pub open spec fn skipped_dir(name: Seq<char>) -> bool {
    ||| name == "cache"@
    ||| name == "http-cache"@
    ||| name == "oidc-login"@
    ||| name == "kubelet-plugins"@
}

fn is_skipped_dir(name: &str) -> (r: bool)
    ensures
        r == skipped_dir(name@),
{
    same_text(name, "cache") || same_text(name, "http-cache") || same_text(name, "oidc-login")
        || same_text(name, "kubelet-plugins")
}

/// Extensions that are certainly not kubeconfigs, used to avoid parsing certificate blobs.
pub open spec fn skipped_extension(extension: Seq<char>) -> bool {
    ||| extension == "crt"@
    ||| extension == "cert"@
    ||| extension == "key"@
    ||| extension == "pem"@
    ||| extension == "pub"@
    ||| extension == "csr"@
    ||| extension == "json"@
    ||| extension == "lock"@
    ||| extension == "log"@
    ||| extension == "db"@
    ||| extension == "txt"@
    ||| extension == "md"@
    ||| extension == "sh"@
    ||| extension == "bak"@
}

fn is_skipped_extension(extension: &str) -> (r: bool)
    ensures
        r == skipped_extension(extension@),
{
    same_text(extension, "crt") || same_text(extension, "cert") || same_text(extension, "key")
        || same_text(extension, "pem") || same_text(extension, "pub") || same_text(extension, "csr")
        || same_text(extension, "json") || same_text(extension, "lock") || same_text(
        extension,
        "log",
    ) || same_text(extension, "db") || same_text(extension, "txt") || same_text(extension, "md")
        || same_text(extension, "sh") || same_text(extension, "bak")
}

/// Where the last `.` of a text stands.
pub open spec fn last_dot(s: Seq<char>) -> Option<int>
    decreases s.len(),
{
    if s.len() == 0 {
        None
    } else if s.last() == '.' {
        Some(s.len() - 1)
    } else {
        last_dot(s.drop_last())
    }
}

/// The extension of a file name: what follows its last `.`, unless that is its first character.
pub open spec fn extension_of(name: Seq<char>) -> Option<Seq<char>> {
    match last_dot(name) {
        Some(k) => if k == 0 {
            None
        } else {
            Some(name.skip(k + 1))
        },
        None => None,
    }
}

fn extension(name: &str) -> (r: Option<String>)
    ensures
        text::optional(r) == extension_of(name@),
{
    let chars = chars_of(name);
    let mut k: usize = chars.len();
    proof {
        assert(name@.take(k as int) == name@);
    }
    while k > 0 && chars[k - 1] != '.'
        invariant
            chars@ == name@,
            k <= chars.len(),
            last_dot(name@) == last_dot(name@.take(k as int)),
        decreases k,
    {
        proof {
            assert(name@.take(k as int).drop_last() == name@.take(k - 1));
        }
        k = k - 1;
    }
    if k <= 1 {
        return None;
    }
    proof {
        assert(name@.skip(k as int) == name@.subrange(k as int, name@.len() as int));
    }
    Some(name.substring_char(k, chars.len()).to_owned())
}

/// Whether a file is worth parsing, as far as its path and size tell.
pub open spec fn plausible(max_file_size: u64, path: Seq<char>, size: u64) -> bool {
    &&& 0 < size <= max_file_size
    &&& match paths::file_name_of(path) {
        Some(name) => match extension_of(name) {
            Some(extension) => !skipped_extension(text::ascii_lowercase(extension)),
            None => true,
        },
        None => true,
    }
}

/// Cheap pre-filter applied before a file is handed to the YAML parser.
pub fn is_plausible_file(max_file_size: u64, path: &str, size: u64) -> (r: bool)
    ensures
        r == plausible(max_file_size, path@, size),
{
    if size == 0 || size > max_file_size {
        return false;
    }
    match file_name(path) {
        Some(name) => match extension(name.as_str()) {
            Some(extension) => !is_skipped_extension(to_ascii_lowercase(extension.as_str()).as_str()),
            None => true,
        },
        None => true,
    }
}

/// Whether a name marks a hidden entry.
pub open spec fn hidden(name: Seq<char>) -> bool {
    name.len() > 0 && name[0] == '.'
}

/// Whether a directory entry is a directory to look into.
pub open spec fn descends(item: DirItem) -> bool {
    !hidden(item.name@) && item.kind is Directory && !skipped_dir(item.name@)
}

/// Whether a directory entry is a file to take.
pub open spec fn takes(max_file_size: u64, dir: Seq<char>, item: DirItem) -> bool {
    !hidden(item.name@) && (item.kind matches ItemKind::File(size) && plausible(
        max_file_size,
        paths::joined_path(dir, item.name@),
        size,
    ))
}

/// The names of the files of a listing to take, in listing order.
pub open spec fn taken_names(max_file_size: u64, dir: Seq<char>, listing: Seq<DirItem>) -> Seq<
    Seq<char>,
>
    decreases listing.len(),
{
    if listing.len() == 0 {
        Seq::empty()
    } else {
        let before = taken_names(max_file_size, dir, listing.drop_last());
        if takes(max_file_size, dir, listing.last()) {
            before.push(listing.last().name@)
        } else {
            before
        }
    }
}

/// The names of the directories of a listing to look into, in listing order.
pub open spec fn entered_names(listing: Seq<DirItem>) -> Seq<Seq<char>>
    decreases listing.len(),
{
    if listing.len() == 0 {
        Seq::empty()
    } else {
        let before = entered_names(listing.drop_last());
        if descends(listing.last()) {
            before.push(listing.last().name@)
        } else {
            before
        }
    }
}

/// Names as paths below a directory.
pub open spec fn placed(dir: Seq<char>, names: Seq<Seq<char>>) -> Seq<Seq<char>> {
    Seq::new(names.len(), |i: int| paths::joined_path(dir, names[i]))
}

/// The files of a directory to take, in order.
pub open spec fn files_in(max_file_size: u64, dir: Seq<char>, listing: Seq<DirItem>) -> Seq<
    Seq<char>,
> {
    placed(dir, text::ordered(taken_names(max_file_size, dir, listing)))
}

/// The directories of a directory to look into, in order.
pub open spec fn dirs_in(dir: Seq<char>, listing: Seq<DirItem>) -> Seq<Seq<char>> {
    placed(dir, text::ordered(entered_names(listing)))
}

/// What reading directories gives: the entries of each that can be read.
pub type Tree = spec_fn(Seq<char>) -> Option<Seq<DirItem>>;

/// The plausible kubeconfig files below a directory: first its own, then those of its
/// subdirectories, down to the depth limit.
pub open spec fn below(
    tree: Tree,
    max_depth: int,
    max_file_size: u64,
    dir: Seq<char>,
    depth: int,
) -> Seq<Seq<char>>
    decreases max_depth + 1 - depth, 0nat,
{
    if depth > max_depth {
        Seq::empty()
    } else {
        match tree(dir) {
            Some(listing) => files_in(max_file_size, dir, listing) + below_all(
                tree,
                max_depth,
                max_file_size,
                dirs_in(dir, listing),
                depth + 1,
            ),
            None => Seq::empty(),
        }
    }
}

/// The plausible kubeconfig files below a list of directories.
pub open spec fn below_all(
    tree: Tree,
    max_depth: int,
    max_file_size: u64,
    dirs: Seq<Seq<char>>,
    depth: int,
) -> Seq<Seq<char>>
    decreases max_depth + 1 - depth, dirs.len(),
{
    if dirs.len() == 0 {
        Seq::empty()
    } else {
        below_all(tree, max_depth, max_file_size, dirs.drop_last(), depth) + below(
            tree,
            max_depth,
            max_file_size,
            dirs.last(),
            depth,
        )
    }
}

// ---------------------------------------------------------------------------------------------
// Scanning step by step
// ---------------------------------------------------------------------------------------------
/// A directory still to be listed.
#[derive(Debug)]
pub struct Pending {
    /// The directory.
    pub dir: String,
    /// How deep it is (1 = a directory to scan itself).
    pub depth: usize,
}

/// A scan under way.
#[derive(Debug)]
pub struct Scan {
    /// The directories still to be listed, the next one last.
    pub pending: Vec<Pending>,
    /// The files found so far, in order.
    pub found: Vec<String>,
    /// How deep to recurse.
    pub max_depth: usize,
    /// Files larger than this are not taken.
    pub max_file_size: u64,
}

/// Directories at a depth, as they wait for their turn: the first one last.
pub open spec fn stacked(dirs: Seq<Seq<char>>, depth: int) -> Seq<(Seq<char>, int)> {
    Seq::new(dirs.len(), |i: int| (dirs[dirs.len() - 1 - i], depth))
}

/// The files a list of waiting directories leads to, in order.
pub open spec fn awaited(
    tree: Tree,
    max_depth: int,
    max_file_size: u64,
    waiting: Seq<(Seq<char>, int)>,
) -> Seq<Seq<char>>
    decreases waiting.len(),
{
    if waiting.len() == 0 {
        Seq::empty()
    } else {
        below(tree, max_depth, max_file_size, waiting.last().0, waiting.last().1) + awaited(
            tree,
            max_depth,
            max_file_size,
            waiting.drop_last(),
        )
    }
}

impl Scan {
    /// The directories still to be listed, with their depths.
    pub open spec fn waiting(self) -> Seq<(Seq<char>, int)> {
        Seq::new(
            self.pending@.len(),
            |i: int| (self.pending@[i].dir@, self.pending@[i].depth as int),
        )
    }

    /// No directory waits that lies beyond the depth limit.
    pub open spec fn wf(self) -> bool {
        forall|i: int| 0 <= i < self.waiting().len() ==> (#[trigger] self.waiting()[i]).1
            <= self.max_depth
    }

    /// What the scan will have found in the end.
    pub open spec fn outcome(self, tree: Tree) -> Seq<Seq<char>> {
        text::texts(self.found@) + awaited(
            tree,
            self.max_depth as int,
            self.max_file_size,
            self.waiting(),
        )
    }

    /// Whether this is `before` after the directory to list next was answered.
    pub open spec fn follows(self, before: Scan, listing: Option<Seq<DirItem>>) -> bool {
        let (dir, depth) = before.waiting().last();
        &&& self.max_depth == before.max_depth
        &&& self.max_file_size == before.max_file_size
        &&& match listing {
            Some(listing) => {
                &&& text::texts(self.found@) == text::texts(before.found@) + files_in(
                    before.max_file_size,
                    dir,
                    listing,
                )
                &&& self.waiting() == before.waiting().drop_last() + (if depth < before.max_depth {
                    stacked(dirs_in(dir, listing), depth + 1)
                } else {
                    Seq::empty()
                })
            },
            None => {
                &&& self.found@ == before.found@
                &&& self.waiting() == before.waiting().drop_last()
            },
        }
    }

    /// The directory to list next; none when the scan is done.
    pub fn next(&self) -> (r: Option<&str>)
        ensures
            match r {
                Some(dir) => self.waiting().len() > 0 && dir@ == self.waiting().last().0,
                None => self.waiting().len() == 0,
            },
    {
        let count: usize = self.pending.len();
        if count == 0 {
            None
        } else {
            Some(self.pending[count - 1].dir.as_str())
        }
    }

    /// Take the entries of the directory to list next; `None` where it cannot be read.
    pub fn feed(&mut self, listing: Option<Vec<DirItem>>)
        ensures
            old(self).wf() ==> final(self).wf(),
            old(self).waiting().len() == 0 ==> *final(self) == *old(self),
            old(self).waiting().len() > 0 ==> final(self).follows(
                *old(self),
                match listing {
                    Some(listing) => Some(listing@),
                    None => None,
                },
            ),
    {
        if self.pending.len() == 0 {
            return;
        }
        let ghost given = *self;
        let current = match self.pending.pop() {
            Some(current) => current,
            None => {
                return;
            },
        };
        proof {
            assert(self.waiting() == given.waiting().drop_last());
            assert(given.waiting().last() == (current.dir@, current.depth as int));
        }
        let listing = match listing {
            Some(listing) => listing,
            None => {
                return;
            },
        };
        let dir = current.dir.as_str();
        let names = sort(self.taken(dir, &listing));
        self.take_files(dir, &names);
        if current.depth < self.max_depth {
            let subdirs = sort(entered(&listing));
            proof {
                assert(placed(dir@, text::texts(subdirs@)) == dirs_in(dir@, listing@));
            }
            self.enter(dir, &subdirs, current.depth + 1);
        }
    }

    /// The names of the files to take.
    fn taken(&self, dir: &str, listing: &Vec<DirItem>) -> (r: Vec<String>)
        ensures
            text::texts(r@) == taken_names(self.max_file_size, dir@, listing@),
    {
        let mut names: Vec<String> = Vec::new();
        proof {
            assert(text::texts(names@) == Seq::<Seq<char>>::empty());
        }
        for i in 0..listing.len()
            invariant
                text::texts(names@) == taken_names(
                    self.max_file_size,
                    dir@,
                    listing@.take(i as int),
                ),
        {
            let ghost before = text::texts(names@);
            let item = &listing[i];
            proof {
                assert(listing@.take(i + 1).drop_last() == listing@.take(i as int));
                assert(listing@.take(i + 1).last() == *item);
            }
            let plausible: bool = match item.kind {
                ItemKind::File(size) => is_plausible_file(
                    self.max_file_size,
                    join_path(dir, item.name.as_str()).as_str(),
                    size,
                ),
                _ => false,
            };
            if plausible && !is_hidden(item.name.as_str()) {
                names.push(item.name.clone());
                proof {
                    assert(text::texts(names@) == before.push(item.name@));
                }
            }
        }
        proof {
            assert(listing@.take(listing@.len() as int) == listing@);
        }
        names
    }

    /// Add files of a directory to those found.
    fn take_files(&mut self, dir: &str, names: &Vec<String>)
        ensures
            text::texts(final(self).found@) == text::texts(old(self).found@) + placed(
                dir@,
                text::texts(names@),
            ),
            final(self).pending == old(self).pending,
            final(self).max_depth == old(self).max_depth,
            final(self).max_file_size == old(self).max_file_size,
    {
        let ghost given = text::texts(self.found@);
        let ghost all = placed(dir@, text::texts(names@));
        proof {
            assert(given + all.take(0) == given);
        }
        for i in 0..names.len()
            invariant
                given == text::texts(old(self).found@),
                all == placed(dir@, text::texts(names@)),
                text::texts(self.found@) == given + all.take(i as int),
                self.pending == old(self).pending,
                self.max_depth == old(self).max_depth,
                self.max_file_size == old(self).max_file_size,
        {
            let ghost before = self.found@;
            let path = join_path(dir, names[i].as_str());
            self.found.push(path);
            proof {
                assert(text::texts(before.push(path)) == text::texts(before).push(path@));
                assert(path@ == all[i as int]);
                assert(all.take(i + 1) == all.take(i as int).push(all[i as int]));
                assert((given + all.take(i as int)).push(all[i as int]) == given + all.take(
                    i + 1,
                ));
            }
        }
        proof {
            assert(all.take(all.len() as int) == all);
        }
    }

    /// Let directories wait for their turn, the first one on top.
    fn enter(&mut self, dir: &str, names: &Vec<String>, depth: usize)
        ensures
            final(self).waiting() == old(self).waiting() + stacked(
                placed(dir@, text::texts(names@)),
                depth as int,
            ),
            final(self).found == old(self).found,
            final(self).max_depth == old(self).max_depth,
            final(self).max_file_size == old(self).max_file_size,
    {
        let ghost given = self.waiting();
        let ghost all = stacked(placed(dir@, text::texts(names@)), depth as int);
        let count: usize = names.len();
        proof {
            assert(given + all.take(0) == given);
        }
        for i in 0..count
            invariant
                count == names@.len(),
                given == old(self).waiting(),
                all == stacked(placed(dir@, text::texts(names@)), depth as int),
                self.waiting() == given + all.take(i as int),
                self.found == old(self).found,
                self.max_depth == old(self).max_depth,
                self.max_file_size == old(self).max_file_size,
        {
            let ghost before = self.waiting();
            let path = join_path(dir, names[count - 1 - i].as_str());
            self.pending.push(Pending { dir: path, depth });
            proof {
                assert((path@, depth as int) == all[i as int]);
                assert(self.waiting() == before.push(all[i as int]));
                assert(all.take(i + 1) == all.take(i as int).push(all[i as int]));
                assert((given + all.take(i as int)).push(all[i as int]) == given + all.take(
                    i + 1,
                ));
            }
        }
        proof {
            assert(all.take(all.len() as int) == all);
        }
    }
}

fn is_hidden(name: &str) -> (r: bool)
    ensures
        r == hidden(name@),
{
    !name.is_empty() && name.get_char(0) == '.'
}

/// The names of the directories to look into.
fn entered(listing: &Vec<DirItem>) -> (r: Vec<String>)
    ensures
        text::texts(r@) == entered_names(listing@),
{
    let mut names: Vec<String> = Vec::new();
    proof {
        assert(text::texts(names@) == Seq::<Seq<char>>::empty());
    }
    for i in 0..listing.len()
        invariant
            text::texts(names@) == entered_names(listing@.take(i as int)),
    {
        let ghost before = text::texts(names@);
        let item = &listing[i];
        proof {
            assert(listing@.take(i + 1).drop_last() == listing@.take(i as int));
            assert(listing@.take(i + 1).last() == *item);
        }
        if item.kind == ItemKind::Directory && !is_hidden(item.name.as_str()) && !is_skipped_dir(
            item.name.as_str(),
        ) {
            names.push(item.name.clone());
            proof {
                assert(text::texts(names@) == before.push(item.name@));
            }
        }
    }
    proof {
        assert(listing@.take(listing@.len() as int) == listing@);
    }
    names
}

impl DiscoverySources {
    /// Start collecting plausible kubeconfig files below the directories to scan.
    pub fn scan(&self) -> (r: Scan)
        ensures
            r.wf(),
            r.found@.len() == 0,
            r.waiting() == (if self.max_depth > 0 {
                stacked(text::texts(self.scan_dirs@), 1)
            } else {
                Seq::empty()
            }),
            r.max_depth == self.max_depth,
            r.max_file_size == self.max_file_size,
    {
        let mut scan = Scan {
            pending: Vec::new(),
            found: Vec::new(),
            max_depth: self.max_depth,
            max_file_size: self.max_file_size,
        };
        if self.max_depth == 0 {
            proof {
                assert(scan.waiting() == Seq::<(Seq<char>, int)>::empty());
            }
            return scan;
        }
        let ghost all = stacked(text::texts(self.scan_dirs@), 1);
        let count: usize = self.scan_dirs.len();
        proof {
            assert(scan.waiting() == all.take(0));
        }
        for i in 0..count
            invariant
                count == self.scan_dirs@.len(),
                all == stacked(text::texts(self.scan_dirs@), 1),
                scan.waiting() == all.take(i as int),
                scan.found@.len() == 0,
                scan.max_depth == self.max_depth,
                scan.max_file_size == self.max_file_size,
        {
            let ghost before = scan.waiting();
            scan.pending.push(Pending { dir: self.scan_dirs[count - 1 - i].clone(), depth: 1 });
            proof {
                assert(scan.waiting() == before.push(all[i as int]));
                assert(all.take(i + 1) == all.take(i as int).push(all[i as int]));
            }
        }
        proof {
            assert(all.take(all.len() as int) == all);
        }
        scan
    }
}

/// A scan finds what there is to find: at its start, the files below its directories; and every
/// answered directory leaves what will be found in the end as it was, so that a scan with nothing
/// left to list has found exactly that.
pub proof fn lemma_scan_is_exact(tree: Tree, before: Scan, after: Scan)
    requires
        before.waiting().len() > 0,
        before.wf(),
        after.follows(before, tree(before.waiting().last().0)),
    ensures
        after.outcome(tree) == before.outcome(tree),
{
    let (dir, depth) = before.waiting().last();
    assert(before.waiting()[before.waiting().len() - 1].1 <= before.max_depth);
    let rest = before.waiting().drop_last();
    let max_depth = before.max_depth as int;
    let max_size = before.max_file_size;
    match tree(dir) {
        Some(listing) => {
            let dirs = dirs_in(dir, listing);
            if depth < max_depth {
                lemma_awaited_stack(tree, max_depth, max_size, rest, dirs, depth + 1);
            } else {
                lemma_too_deep(tree, max_depth, max_size, dirs, depth + 1);
                assert(after.waiting() == rest);
            }
            let files = files_in(max_size, dir, listing);
            let deeper = below_all(tree, max_depth, max_size, dirs, depth + 1);
            let later = awaited(tree, max_depth, max_size, rest);
            assert(text::texts(before.found@) + ((files + deeper) + later) == (text::texts(
                before.found@,
            ) + files) + (deeper + later));
        },
        None => {
            assert(after.outcome(tree) == before.outcome(tree));
        },
    }
}

/// At its start, what a scan will find is the files below the directories to scan.
pub proof fn lemma_scan_start(tree: Tree, sources: DiscoverySources, scan: Scan)
    requires
        scan.found@.len() == 0,
        scan.waiting() == (if sources.max_depth > 0 {
            stacked(text::texts(sources.scan_dirs@), 1)
        } else {
            Seq::empty()
        }),
        scan.max_depth == sources.max_depth,
        scan.max_file_size == sources.max_file_size,
    ensures
        scan.outcome(tree) == below_all(
            tree,
            sources.max_depth as int,
            sources.max_file_size,
            text::texts(sources.scan_dirs@),
            1,
        ),
{
    let dirs = text::texts(sources.scan_dirs@);
    let max_depth = sources.max_depth as int;
    let max_size = sources.max_file_size;
    if sources.max_depth > 0 {
        let nothing = Seq::<(Seq<char>, int)>::empty();
        lemma_awaited_stack(tree, max_depth, max_size, nothing, dirs, 1);
        assert(nothing + stacked(dirs, 1) == stacked(dirs, 1));
    } else {
        lemma_too_deep(tree, max_depth, max_size, dirs, 1);
    }
}

proof fn lemma_too_deep(
    tree: Tree,
    max_depth: int,
    max_size: u64,
    dirs: Seq<Seq<char>>,
    depth: int,
)
    requires
        depth > max_depth,
    ensures
        below_all(tree, max_depth, max_size, dirs, depth) == Seq::<Seq<char>>::empty(),
    decreases dirs.len(),
{
    reveal_with_fuel(below_all, 2);
    if dirs.len() > 0 {
        lemma_too_deep(tree, max_depth, max_size, dirs.drop_last(), depth);
        assert(below(tree, max_depth, max_size, dirs.last(), depth) == Seq::<Seq<char>>::empty());
    }
}

proof fn lemma_below_all_split(
    tree: Tree,
    max_depth: int,
    max_size: u64,
    dirs: Seq<Seq<char>>,
    depth: int,
)
    requires
        dirs.len() > 0,
    ensures
        below_all(tree, max_depth, max_size, dirs, depth) == below(
            tree,
            max_depth,
            max_size,
            dirs[0],
            depth,
        ) + below_all(tree, max_depth, max_size, dirs.drop_first(), depth),
    decreases dirs.len(),
{
    let shorter = dirs.drop_last();
    let first = below(tree, max_depth, max_size, dirs[0], depth);
    let last = below(tree, max_depth, max_size, dirs.last(), depth);
    reveal_with_fuel(below_all, 2);
    if dirs.len() > 1 {
        lemma_below_all_split(tree, max_depth, max_size, shorter, depth);
        let middle = shorter.drop_first();
        assert(middle == dirs.drop_first().drop_last());
        assert(dirs.drop_first().last() == dirs.last());
        let between = below_all(tree, max_depth, max_size, middle, depth);
        assert((first + between) + last == first + (between + last));
    } else {
        assert(shorter.len() == 0);
        assert(dirs.drop_first().len() == 0);
        assert(below_all(tree, max_depth, max_size, shorter, depth) + last == last);
        assert(first + below_all(tree, max_depth, max_size, dirs.drop_first(), depth) == first);
    }
}

proof fn lemma_awaited_stack(
    tree: Tree,
    max_depth: int,
    max_size: u64,
    rest: Seq<(Seq<char>, int)>,
    dirs: Seq<Seq<char>>,
    depth: int,
)
    ensures
        awaited(tree, max_depth, max_size, rest + stacked(dirs, depth)) == below_all(
            tree,
            max_depth,
            max_size,
            dirs,
            depth,
        ) + awaited(tree, max_depth, max_size, rest),
    decreases dirs.len(),
{
    let whole = rest + stacked(dirs, depth);
    if dirs.len() == 0 {
        assert(whole == rest);
        assert(below_all(tree, max_depth, max_size, dirs, depth) + awaited(
            tree,
            max_depth,
            max_size,
            rest,
        ) == awaited(tree, max_depth, max_size, rest));
    } else {
        lemma_awaited_stack(tree, max_depth, max_size, rest, dirs.drop_first(), depth);
        lemma_below_all_split(tree, max_depth, max_size, dirs, depth);
        assert(whole.last() == (dirs[0], depth));
        assert(whole.drop_last() == rest + stacked(dirs.drop_first(), depth));
    }
}

// ---------------------------------------------------------------------------------------------
// Candidates
// ---------------------------------------------------------------------------------------------
/// What the file system says about the files that may be candidates.
#[derive(Debug)]
pub struct FileFacts {
    /// Whether the default config exists and is a regular file.
    pub default_is_file: bool,
    /// What scanning the directories found, in order.
    pub scanned: Vec<String>,
    /// Paths with their canonical form, for those that have one.
    pub canonical: Vec<(String, String)>,
}

/// What a path is known by: its canonical form, or the literal path where it has none.
pub open spec fn key_from(canonical: Seq<(String, String)>, path: Seq<char>, from: int) -> Seq<char>
    decreases canonical.len() - from,
{
    if from >= canonical.len() {
        path
    } else if canonical[from].0@ == path {
        canonical[from].1@
    } else {
        key_from(canonical, path, from + 1)
    }
}

/// What a path is known by.
pub open spec fn key_of(canonical: Seq<(String, String)>, path: Seq<char>) -> Seq<char> {
    key_from(canonical, path, 0)
}

/// Whether a path is equivalent to one of a list.
pub open spec fn listed(
    canonical: Seq<(String, String)>,
    paths: Seq<Seq<char>>,
    path: Seq<char>,
) -> bool {
    exists|j: int|
        0 <= j < paths.len() && paths::same_location(
            key_of(canonical, #[trigger] paths[j]),
            key_of(canonical, path),
        )
}

/// A list of paths without those equivalent to an earlier one.
pub open spec fn distinct(canonical: Seq<(String, String)>, paths: Seq<Seq<char>>) -> Seq<Seq<char>>
    decreases paths.len(),
{
    if paths.len() == 0 {
        Seq::empty()
    } else {
        let before = distinct(canonical, paths.drop_last());
        if listed(canonical, before, paths.last()) {
            before
        } else {
            before.push(paths.last())
        }
    }
}

/// Every path to consider, in priority order.
pub open spec fn considered(sources: DiscoverySources, default_is_file: bool, scanned: Seq<String>) -> Seq<
    Seq<char>,
> {
    text::texts(sources.kubeconfig_env@) + (match sources.default_config {
        Some(path) => if default_is_file {
            seq![path@]
        } else {
            Seq::empty()
        },
        None => Seq::empty(),
    }) + text::texts(scanned)
}

fn find_key(canonical: &Vec<(String, String)>, path: &str) -> (r: String)
    ensures
        r@ == key_of(canonical@, path@),
{
    let mut i: usize = 0;
    while i < canonical.len()
        invariant
            i <= canonical@.len(),
            key_of(canonical@, path@) == key_from(canonical@, path@, i as int),
        decreases canonical@.len() - i,
    {
        if same_text(canonical[i].0.as_str(), path) {
            return canonical[i].1.clone();
        }
        i = i + 1;
    }
    path.to_owned()
}

/// Append `path` unless an equivalent path was already collected.
///
/// Paths are compared by canonical form so `~/.kube/config` and a symlink to it are recognised as
/// one file; files that do not exist yet are compared by their literal path.
pub fn push_unique(out: &mut Vec<String>, canonical: &Vec<(String, String)>, path: &str)
    ensures
        text::texts(final(out)@) == (if listed(canonical@, text::texts(old(out)@), path@) {
            text::texts(old(out)@)
        } else {
            text::texts(old(out)@).push(path@)
        }),
{
    let ghost given = text::texts(out@);
    let key = find_key(canonical, path);
    for i in 0..out.len()
        invariant
            text::texts(out@) == given,
            given == text::texts(old(out)@),
            key@ == key_of(canonical@, path@),
            forall|j: int|
                0 <= j < i ==> !paths::same_location(
                    key_of(canonical@, #[trigger] given[j]),
                    key_of(canonical@, path@),
                ),
    {
        let other = find_key(canonical, out[i].as_str());
        if same_path(other.as_str(), key.as_str()) {
            proof {
                assert(given[i as int] == out@[i as int]@);
                assert(listed(canonical@, given, path@));
            }
            return;
        }
    }
    let added = path.to_owned();
    let ghost before = out@;
    out.push(added);
    proof {
        assert(text::texts(before.push(added)) == given.push(path@));
    }
}

impl DiscoverySources {
    /// Every path to consider, in priority order: `$KUBECONFIG` entries, the default config where
    /// it is a file, and what scanning found.
    pub fn search_order(&self, default_is_file: bool, scanned: &Vec<String>) -> (r: Vec<String>)
        ensures
            text::texts(r@) == considered(*self, default_is_file, scanned@),
    {
        let mut order = copy_list(&self.kubeconfig_env);
        if let Some(path) = &self.default_config {
            if default_is_file {
                order.push(path.clone());
            }
        }
        let mut rest = copy_list(scanned);
        let ghost start = order@;
        order.append(&mut rest);
        proof {
            assert(text::texts(start) == text::texts(self.kubeconfig_env@) + (
            match self.default_config {
                Some(path) => if default_is_file {
                    seq![path@]
                } else {
                    Seq::empty()
                },
                None => Seq::empty(),
            }));
            assert(text::texts(start + scanned@) == text::texts(start) + text::texts(scanned@));
        }
        order
    }

    /// Every candidate file, in priority order, deduplicated by canonical path.
    ///
    /// `$KUBECONFIG` entries are returned even when they do not exist, so the caller can report
    /// them as inaccessible — the user asked for them explicitly. A missing `~/.kube/config` and
    /// implausible scanned files are filtered out silently.
    pub fn candidates(&self, facts: &FileFacts) -> (r: Vec<String>)
        ensures
            text::texts(r@) == distinct(
                facts.canonical@,
                considered(*self, facts.default_is_file, facts.scanned@),
            ),
    {
        let order = self.search_order(facts.default_is_file, &facts.scanned);
        let ghost all = text::texts(order@);
        let mut out: Vec<String> = Vec::new();
        proof {
            assert(text::texts(out@) == distinct(facts.canonical@, all.take(0)));
        }
        for i in 0..order.len()
            invariant
                all == text::texts(order@),
                text::texts(out@) == distinct(facts.canonical@, all.take(i as int)),
        {
            proof {
                assert(all.take(i + 1).drop_last() == all.take(i as int));
                assert(all.take(i + 1).last() == order@[i as int]@);
            }
            push_unique(&mut out, &facts.canonical, order[i].as_str());
        }
        proof {
            assert(all.take(all.len() as int) == all);
        }
        out
    }
}

/// The same file is only listed once, and none is lost: no two candidates are equivalent, and
/// every path to consider is equivalent to a candidate.
pub proof fn lemma_candidates_are_distinct(canonical: Seq<(String, String)>, paths: Seq<Seq<char>>)
    ensures
        forall|i: int, j: int|
            0 <= i < j < distinct(canonical, paths).len() ==> !paths::same_location(
                key_of(canonical, #[trigger] distinct(canonical, paths)[i]),
                key_of(canonical, #[trigger] distinct(canonical, paths)[j]),
            ),
        forall|i: int|
            0 <= i < paths.len() ==> listed(
                canonical,
                distinct(canonical, paths),
                #[trigger] paths[i],
            ),
    decreases paths.len(),
{
    if paths.len() > 0 {
        let shorter = paths.drop_last();
        let before = distinct(canonical, shorter);
        let after = distinct(canonical, paths);
        lemma_candidates_are_distinct(canonical, shorter);
        assert forall|i: int| 0 <= i < paths.len() implies listed(
            canonical,
            after,
            #[trigger] paths[i],
        ) by {
            if i < shorter.len() {
                assert(shorter[i] == paths[i]);
                let j = choose|j: int|
                    0 <= j < before.len() && paths::same_location(
                        key_of(canonical, #[trigger] before[j]),
                        key_of(canonical, paths[i]),
                    );
                assert(after[j] == before[j]);
            } else if !listed(canonical, before, paths.last()) {
                assert(after[before.len() as int] == paths.last());
            }
        }
    }
}

/// `$KUBECONFIG` entries come first and in order, so they win merge conflicts: the candidates
/// start with the entries that are not equivalent to an earlier entry.
pub proof fn lemma_first_paths_stay_first(
    canonical: Seq<(String, String)>,
    first: Seq<Seq<char>>,
    rest: Seq<Seq<char>>,
)
    ensures
        distinct(canonical, first).is_prefix_of(distinct(canonical, first + rest)),
    decreases rest.len(),
{
    if rest.len() == 0 {
        assert(first + rest == first);
    } else {
        lemma_first_paths_stay_first(canonical, first, rest.drop_last());
        assert((first + rest).drop_last() == first + rest.drop_last());
    }
}

} // verus!
