//! Finding kubeconfig files, against a file system held in memory.

use kctx::kubeconfig::discovery::{
    is_plausible_file, push_unique, DirItem, DiscoverySources, FileFacts, ItemKind,
    DEFAULT_MAX_FILE_SIZE,
};
use std::collections::{BTreeMap, BTreeSet};

const MINIMAL: &str = "apiVersion: v1\nkind: Config\ncontexts: []\n";

/// A file system: files with their contents, and links with what they point to.
#[derive(Default)]
struct Disk {
    files: BTreeMap<String, usize>,
    links: BTreeMap<String, String>,
}

impl Disk {
    fn write(&mut self, path: &str, contents: &str) {
        self.files.insert(path.to_string(), contents.len());
    }

    fn resolve(&self, path: &str) -> String {
        self.links
            .get(path)
            .cloned()
            .unwrap_or_else(|| path.to_string())
    }

    fn size(&self, path: &str) -> Option<usize> {
        self.files.get(&self.resolve(path)).copied()
    }

    fn list(&self, dir: &str) -> Option<Vec<DirItem>> {
        let prefix = format!("{dir}/");
        let mut names = BTreeSet::new();
        for path in self.files.keys().chain(self.links.keys()) {
            if let Some(rest) = path.strip_prefix(&prefix) {
                names.insert(rest.split('/').next().unwrap().to_string());
            }
        }
        if names.is_empty() {
            return None;
        }
        // Listed backwards, since the order of a listing is unspecified.
        Some(
            names
                .into_iter()
                .rev()
                .map(|name| {
                    let kind = match self.size(&format!("{prefix}{name}")) {
                        Some(size) => ItemKind::File(size as u64),
                        None => ItemKind::Directory,
                    };
                    DirItem { name, kind }
                })
                .collect(),
        )
    }

    fn candidates(&self, sources: &DiscoverySources) -> Vec<String> {
        let mut scan = sources.scan();
        while let Some(dir) = scan.next() {
            let listing = self.list(dir);
            scan.feed(listing);
        }
        let default_is_file = sources
            .default_config
            .as_ref()
            .is_some_and(|path| self.size(path).is_some());
        let canonical = sources
            .search_order(default_is_file, &scan.found)
            .into_iter()
            .filter(|path| self.size(path).is_some())
            .map(|path| {
                let key = self.resolve(&path);
                (path, key)
            })
            .collect();
        sources.candidates(&FileFacts {
            default_is_file,
            scanned: scan.found,
            canonical,
        })
    }
}

#[test]
fn env_entries_come_first_and_in_order() {
    let mut disk = Disk::default();
    disk.write("/home/a.yaml", MINIMAL);
    disk.write("/home/b.yaml", MINIMAL);
    disk.write("/home/.kube/config", MINIMAL);

    let sources = DiscoverySources::new(Some("/home/b.yaml:/home/a.yaml"), Some("/home"));
    let candidates = disk.candidates(&sources);

    assert_eq!(candidates[0], "/home/b.yaml");
    assert_eq!(candidates[1], "/home/a.yaml");
    assert_eq!(candidates[2], "/home/.kube/config");
}

#[test]
fn missing_env_entries_are_kept_for_error_reporting() {
    let disk = Disk::default();
    let sources = DiscoverySources::new(Some("/home/nope.yaml"), Some("/home"));
    assert_eq!(disk.candidates(&sources), vec!["/home/nope.yaml"]);
}

#[test]
fn empty_env_entries_are_ignored() {
    let disk = Disk::default();
    let sources = DiscoverySources::new(Some("::"), Some("/home"));
    assert!(disk.candidates(&sources).is_empty());
}

#[test]
fn scans_kube_dir_recursively_and_skips_caches() {
    let mut disk = Disk::default();
    disk.write("/home/.kube/config", MINIMAL);
    disk.write("/home/.kube/prod.yaml", MINIMAL);
    disk.write("/home/.kube/clusters/staging.conf", MINIMAL);
    disk.write("/home/.kube/cache/discovery/thing.yaml", MINIMAL);
    disk.write("/home/.kube/http-cache/x.yaml", MINIMAL);
    disk.write("/home/.kube/ca.crt", "not a kubeconfig");
    disk.write("/home/.kube/.hidden.yaml", MINIMAL);
    disk.write("/home/.kube/empty.yaml", "");

    let sources = DiscoverySources::new(None, Some("/home"));
    let candidates = disk.candidates(&sources);

    assert_eq!(
        candidates,
        vec![
            "/home/.kube/config",
            "/home/.kube/prod.yaml",
            "/home/.kube/clusters/staging.conf",
        ]
    );
}

#[test]
fn depth_limit_is_respected() {
    let mut disk = Disk::default();
    disk.write("/home/.kube/a/b/deep.yaml", MINIMAL);

    let mut sources = DiscoverySources::new(None, Some("/home"));
    sources.max_depth = 2;
    assert!(disk.candidates(&sources).is_empty());

    sources.max_depth = 3;
    assert_eq!(
        disk.candidates(&sources),
        vec!["/home/.kube/a/b/deep.yaml"]
    );

    sources.max_depth = 0;
    assert!(disk.candidates(&sources).is_empty());
}

#[test]
fn the_same_file_is_only_listed_once() {
    let mut disk = Disk::default();
    disk.write("/home/.kube/config", MINIMAL);

    // Reached via $KUBECONFIG, via the default path, and via the directory scan.
    let sources = DiscoverySources::new(Some("/home/.kube/config"), Some("/home"));
    assert_eq!(disk.candidates(&sources), vec!["/home/.kube/config"]);
}

#[test]
fn symlinks_to_the_same_file_are_deduplicated() {
    let mut disk = Disk::default();
    disk.write("/home/.kube/config", MINIMAL);
    disk.links.insert(
        "/home/.kube/alias.yaml".to_string(),
        "/home/.kube/config".to_string(),
    );

    let sources = DiscoverySources::new(None, Some("/home"));
    assert_eq!(disk.candidates(&sources), vec!["/home/.kube/config"]);
}

#[test]
fn extra_scan_dirs_are_honoured() {
    let mut disk = Disk::default();
    disk.write("/extra/team.yaml", MINIMAL);

    let mut sources = DiscoverySources::new(None, Some("/home"));
    sources.scan_dirs.push("/extra".to_string());

    assert_eq!(disk.candidates(&sources), vec!["/extra/team.yaml"]);
}

#[test]
fn oversized_files_are_skipped() {
    let mut disk = Disk::default();
    disk.write("/home/.kube/huge.yaml", &"x".repeat(4096));

    let mut sources = DiscoverySources::new(None, Some("/home"));
    sources.max_file_size = 1024;
    assert!(disk.candidates(&sources).is_empty());
}

#[test]
fn files_come_before_subdirectories_and_both_are_sorted() {
    let mut disk = Disk::default();
    disk.write("/home/.kube/b.yaml", MINIMAL);
    disk.write("/home/.kube/a.yaml", MINIMAL);
    disk.write("/home/.kube/z/1.yaml", MINIMAL);
    disk.write("/home/.kube/m/2.yaml", MINIMAL);

    let sources = DiscoverySources::new(None, Some("/home"));
    assert_eq!(
        disk.candidates(&sources),
        vec![
            "/home/.kube/a.yaml",
            "/home/.kube/b.yaml",
            "/home/.kube/m/2.yaml",
            "/home/.kube/z/1.yaml",
        ]
    );
}

#[test]
fn without_a_home_only_the_environment_is_searched() {
    let sources = DiscoverySources::new(Some("a:b"), None);
    assert_eq!(sources.kubeconfig_env, vec!["a", "b"]);
    assert_eq!(sources.default_config, None);
    assert!(sources.scan_dirs.is_empty());
    assert_eq!(sources.max_depth, 2);
    assert_eq!(sources.max_file_size, 5 * 1024 * 1024);
    assert!(sources.scan().next().is_none());
}

#[test]
fn plausible_files_are_told_by_size_and_extension() {
    let max = DEFAULT_MAX_FILE_SIZE;
    assert!(is_plausible_file(max, "/k/config", 1));
    assert!(is_plausible_file(max, "/k/prod.yaml", max));
    assert!(!is_plausible_file(max, "/k/prod.yaml", 0));
    assert!(!is_plausible_file(max, "/k/prod.yaml", max + 1));
    for extension in [
        "crt", "cert", "key", "pem", "pub", "csr", "json", "lock", "log", "db", "txt", "md", "sh",
        "bak",
    ] {
        assert!(!is_plausible_file(max, &format!("/k/x.{extension}"), 1));
    }
    // Extensions are compared without regard to case, and only the last one counts.
    assert!(!is_plausible_file(max, "/k/ca.CRT", 1));
    assert!(is_plausible_file(max, "/k/ca.crt.yaml", 1));
    assert!(is_plausible_file(max, "/k/name.", 1));
}

#[test]
fn an_unreadable_directory_is_skipped() {
    let mut sources = DiscoverySources::new(None, None);
    sources.scan_dirs = vec!["/one".to_string(), "/two".to_string()];
    let mut scan = sources.scan();
    assert_eq!(scan.next(), Some("/one"));
    scan.feed(None);
    assert_eq!(scan.next(), Some("/two"));
    scan.feed(Some(vec![DirItem {
        name: "config".to_string(),
        kind: ItemKind::File(10),
    }]));
    assert_eq!(scan.next(), None);
    assert_eq!(scan.found, vec!["/two/config"]);
    // Feeding a scan that is done changes nothing.
    scan.feed(None);
    assert_eq!(scan.found, vec!["/two/config"]);
}

#[test]
fn equivalent_paths_are_collected_once() {
    let mut out = Vec::new();
    let canonical = vec![("/link".to_string(), "/real".to_string())];
    push_unique(&mut out, &canonical, "/real");
    push_unique(&mut out, &canonical, "/link");
    push_unique(&mut out, &canonical, "/other");
    push_unique(&mut out, &canonical, "/other/.");
    assert_eq!(out, vec!["/real", "/other"]);
}
