use std::collections::BTreeMap;

use debtap_rs::error::Result;
use debtap_rs::transform::layout::{merge_path, EntryKind, MergeReply, MergeStep};
use debtap_rs::transform::links::{rewrite_absolute_target, rewrite_relative_path};
use debtap_rs::transform::report::{needs_command_link, LINTIAN_WARNING, OPENCODE_WARNING};
use debtap_rs::transform::{
    calculate_installed_size, configuration_paths, normalize_layout, normalize_payload,
    read_backup_paths, rewrite_link, LayoutMerge, PayloadChanges, SizedEntry,
};

#[derive(Clone, Debug, PartialEq)]
enum Node {
    Directory,
    File(&'static str),
    Link(&'static str),
    Special,
}

/// A file system in memory.
#[derive(Clone, Debug, PartialEq)]
struct Tree(BTreeMap<String, Node>);

impl Tree {
    fn new(nodes: &[(&str, Node)]) -> Self {
        Tree(
            nodes
                .iter()
                .map(|(path, node)| (format!("/root/{path}"), node.clone()))
                .collect(),
        )
    }

    fn get(&self, path: &str) -> Option<&Node> {
        self.0.get(&format!("/root/{path}"))
    }

    fn kind(&self, path: &[u8]) -> Option<EntryKind> {
        match self.0.get(&text(path)) {
            None => None,
            Some(Node::Directory) => Some(EntryKind::Directory),
            Some(Node::File(_)) => Some(EntryKind::File),
            Some(Node::Link(_)) => Some(EntryKind::Link),
            Some(Node::Special) => Some(EntryKind::Special),
        }
    }

    /// The names in a directory, the last one first.
    fn names(&self, directory: &[u8]) -> Vec<Vec<u8>> {
        let prefix = format!("{}/", text(directory));
        self.0
            .keys()
            .rev()
            .filter_map(|path| path.strip_prefix(&prefix))
            .filter(|rest| !rest.contains('/'))
            .map(|name| name.as_bytes().to_vec())
            .collect()
    }

    fn move_all(&mut self, source: &str, destination: &str) {
        let moved: Vec<(String, Node)> = self
            .0
            .iter()
            .filter(|(path, _)| *path == source || path.starts_with(&format!("{source}/")))
            .map(|(path, node)| (path.clone(), node.clone()))
            .collect();
        assert!(!moved.is_empty());
        for (path, node) in moved {
            self.0.remove(&path);
            let previous = self
                .0
                .insert(format!("{destination}{}", &path[source.len()..]), node);
            assert_eq!(previous, None);
        }
    }

    fn perform(&mut self, step: &MergeStep) -> MergeReply {
        match step {
            MergeStep::Inspect { source, destination } => MergeReply::Found {
                source: self.kind(source),
                destination: self.kind(destination),
            },
            MergeStep::Move { source, destination } => {
                self.move_all(&text(source), &text(destination));
                MergeReply::Done
            }
            MergeStep::List { source, .. } => MergeReply::Names(self.names(source)),
            MergeStep::CompareFiles { source, destination }
            | MergeStep::CompareLinks { source, destination } => {
                MergeReply::Equal(self.0[&text(source)] == self.0[&text(destination)])
            }
            MergeStep::RemoveFile { source } => {
                self.0.remove(&text(source)).expect("a file");
                MergeReply::Done
            }
            MergeStep::RemoveDirectory { source } => {
                assert!(self.names(source).is_empty());
                self.0.remove(&text(source)).expect("a directory");
                MergeReply::Done
            }
        }
    }

    fn run(&mut self, mut merge: LayoutMerge) -> Result<()> {
        loop {
            let reply = match merge.next_step() {
                None => return Ok(()),
                Some(step) => self.perform(step),
            };
            merge = merge.advance(reply)?;
        }
    }

    fn normalize(&mut self, architecture: &str) -> Result<()> {
        self.run(normalize_layout(b"/root", architecture))
    }
}

fn text(path: &[u8]) -> String {
    String::from_utf8(path.to_vec()).expect("text")
}

#[test]
fn merges_usr_paths_and_hidden_files() {
    let mut tree = Tree::new(&[
        ("bin", Node::Directory),
        ("usr", Node::Directory),
        ("usr/bin", Node::Directory),
        ("bin/.hidden", Node::File("data")),
        ("usr/bin/tool", Node::File("tool")),
    ]);

    tree.normalize("x86_64").expect("normalization");
    assert_eq!(tree.get("usr/bin/.hidden"), Some(&Node::File("data")));
    assert_eq!(tree.get("usr/bin/tool"), Some(&Node::File("tool")));
    assert!(tree.get("bin").is_none());
}

#[test]
fn rejects_different_files_at_one_output_path() {
    let mut tree = Tree::new(&[
        ("bin", Node::Directory),
        ("usr", Node::Directory),
        ("usr/bin", Node::Directory),
        ("bin/tool", Node::File("one")),
        ("usr/bin/tool", Node::File("two")),
    ]);

    let error = tree.normalize("x86_64").expect_err("collision expected");
    assert!(error.to_string().contains("collision"));
    assert!(error.to_string().contains("/root/bin/tool"));
    assert!(error.to_string().contains("/root/usr/bin/tool"));
}

#[test]
fn counts_hard_link_content_once() {
    let entry = |path: &str, is_file: bool, inode: u64, links: u64, length: u64| SizedEntry {
        path: path.as_bytes().to_vec(),
        is_file,
        device: 1,
        inode,
        links,
        length,
    };
    let entries = vec![
        entry("one", true, 10, 2, 5),
        entry("two", true, 10, 2, 5),
        entry("link", false, 11, 1, 3),
    ];
    assert_eq!(calculate_installed_size(&entries).expect("size"), 5);

    let entries = vec![
        entry("one", true, 10, 1, 5),
        entry("two", true, 12, 1, 6),
        entry(".PKGINFO", true, 13, 1, 100),
    ];
    assert_eq!(calculate_installed_size(&entries).expect("size"), 11);

    let entries = vec![
        entry("one", true, 10, 1, u64::MAX),
        entry("two", true, 12, 1, 1),
    ];
    assert!(calculate_installed_size(&entries).is_err());
}

#[test]
fn maps_and_checks_configuration_files() {
    let paths = configuration_paths("/lib/app.conf\n/missing\n", "x86_64").expect("paths");
    let present: Vec<bool> = paths
        .iter()
        .map(|path| path == b"usr/lib/app.conf")
        .collect();
    let (backups, warnings) = read_backup_paths(&paths, &present);
    assert_eq!(backups, vec!["usr/lib/app.conf"]);
    assert_eq!(warnings.len(), 1);
}

#[test]
fn backups_are_sorted_and_unique() {
    let paths = configuration_paths("/etc/b\n\n/etc/a\n/etc/b\n", "x86_64").expect("paths");
    let present = vec![true; paths.len()];
    let (backups, warnings) = read_backup_paths(&paths, &present);
    assert_eq!(backups, ["etc/a", "etc/b"]);
    assert!(warnings.is_empty());
    assert!(configuration_paths("/../etc/a\n", "x86_64").is_err());
}

#[test]
fn libraries_of_the_architecture_move_to_the_library_directory() {
    let mut tree = Tree::new(&[
        ("lib", Node::Directory),
        ("lib/x86_64-linux-gnu", Node::Directory),
        ("lib/x86_64-linux-gnu/libone.so", Node::File("one")),
        ("lib/x86_64-linux-gnu/libtwo.so", Node::Link("libone.so")),
        ("usr", Node::Directory),
        ("usr/lib", Node::Directory),
        ("usr/lib/libone.so", Node::File("one")),
        ("usr/lib/libtwo.so", Node::Link("libone.so")),
    ]);
    tree.normalize("x86_64").expect("normalization");
    assert_eq!(tree.get("usr/lib/libone.so"), Some(&Node::File("one")));
    assert_eq!(tree.get("usr/lib/libtwo.so"), Some(&Node::Link("libone.so")));
    assert!(tree.get("lib").is_none());
    assert!(tree.get("usr/lib/x86_64-linux-gnu").is_none());
}

#[test]
fn things_of_different_sorts_do_not_merge() {
    for (one, two) in [
        (Node::Directory, Node::File("x")),
        (Node::Link("x"), Node::File("x")),
        (Node::Special, Node::Special),
    ] {
        let mut tree = Tree::new(&[
            ("bin", Node::Directory),
            ("bin/x", one),
            ("usr", Node::Directory),
            ("usr/bin", Node::Directory),
            ("usr/bin/x", two),
        ]);
        assert!(tree.normalize("x86_64").is_err());
    }
    let mut links = Tree::new(&[
        ("bin", Node::Directory),
        ("bin/x", Node::Link("a")),
        ("usr", Node::Directory),
        ("usr/bin", Node::Directory),
        ("usr/bin/x", Node::Link("b")),
    ]);
    assert!(links.normalize("x86_64").is_err());
}

#[test]
fn a_normal_layout_stays() {
    let mut tree = Tree::new(&[
        ("usr", Node::Directory),
        ("usr/bin", Node::Directory),
        ("usr/bin/tool", Node::File("tool")),
        ("etc", Node::Directory),
    ]);
    let before = tree.clone();
    tree.normalize("x86_64").expect("normalization");
    assert_eq!(tree, before);
}

#[test]
fn paths_follow_the_layout() {
    assert_eq!(text(&rewrite_relative_path(b"bin/sh", "x86_64")), "usr/bin/sh");
    assert_eq!(
        text(&rewrite_relative_path(b"lib32/libc.so", "x86_64")),
        "usr/lib32/libc.so"
    );
    assert_eq!(
        text(&rewrite_relative_path(b"lib32/libc.so", "i686")),
        "usr/lib/libc.so"
    );
    assert_eq!(text(&rewrite_relative_path(b"etc/bin", "x86_64")), "etc/bin");
    assert_eq!(
        text(&rewrite_absolute_target(b"/sbin/tool", "x86_64").expect("target")),
        "/usr/bin/tool"
    );
}

#[test]
fn links_are_rewritten_and_stay_below_the_root() {
    let link = |directory: &str, target: &str| {
        rewrite_link(b"usr/bin/x", directory.as_bytes(), target.as_bytes(), "x86_64")
    };
    assert_eq!(
        link("usr/bin", "/bin/tool").expect("absolute").as_deref(),
        Some(&b"/usr/bin/tool"[..])
    );
    assert_eq!(link("usr/bin", "tool").expect("relative"), None);
    assert!(link("usr/bin", "../../../etc/passwd").is_err());
}

#[test]
fn the_report_names_every_change() {
    let changes = PayloadChanges {
        lintian_removed: true,
        command_added: true,
        configuration_files: vec![b"etc/a".to_vec(), b"etc/b".to_vec()],
        configuration_present: vec![true, false],
        entries: vec![SizedEntry {
            path: b"etc/a".to_vec(),
            is_file: true,
            device: 1,
            inode: 1,
            links: 1,
            length: 7,
        }],
    };
    let report = normalize_payload(&changes).expect("report");
    assert_eq!(report.installed_size, 7);
    assert_eq!(report.backup_paths, ["etc/a"]);
    assert_eq!(report.warnings.len(), 3);
    assert_eq!(report.warnings[0], LINTIAN_WARNING);
    assert_eq!(report.warnings[1], OPENCODE_WARNING);
    assert!(report.warnings[2].contains("etc/b"));
    assert!(needs_command_link(true, false));
    assert!(!needs_command_link(true, true));
    assert!(!needs_command_link(false, false));
}

#[test]
fn one_directory_merges_into_another() {
    let mut tree = Tree::new(&[
        ("one", Node::Directory),
        ("one/a", Node::File("a")),
        ("one/b", Node::File("b")),
        ("two", Node::Directory),
        ("two/a", Node::File("a")),
    ]);
    tree.run(merge_path(b"/root/one", b"/root/two")).expect("merge");
    assert_eq!(
        tree,
        Tree::new(&[
            ("two", Node::Directory),
            ("two/a", Node::File("a")),
            ("two/b", Node::File("b")),
        ])
    );
    let before = tree.clone();
    tree.run(merge_path(b"/root/missing", b"/root/two")).expect("nothing");
    assert_eq!(tree, before);
}
