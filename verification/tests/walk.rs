use std::cell::RefCell;
use std::collections::HashMap;

use rtree::fs::FileSystem;
use rtree::models::{DirTree, EntryKind, FsEntry, TreeNode};
use rtree::walk::{failed_listing_tree, make_node, walk_dir, WalkOptions};

#[derive(Default)]
struct MockFileSystem {
    responses: RefCell<HashMap<String, Result<Vec<FsEntry>, String>>>,
    calls: RefCell<Vec<String>>,
}

impl MockFileSystem {
    fn set_dir_entries(&self, dir: &str, entries: Vec<FsEntry>) {
        self.responses
            .borrow_mut()
            .insert(dir.to_owned(), Ok(entries));
    }

    fn set_error(&self, dir: &str, message: &str) {
        self.responses
            .borrow_mut()
            .insert(dir.to_owned(), Err(message.to_owned()));
    }

    fn calls(&self) -> Vec<String> {
        self.calls.borrow().clone()
    }
}

impl FileSystem for MockFileSystem {
    fn read_dir(&self, dir: &String) -> Result<Vec<FsEntry>, String> {
        self.calls.borrow_mut().push(dir.clone());
        match self.responses.borrow().get(dir) {
            Some(Ok(entries)) => Ok(entries.clone()),
            Some(Err(message)) => Err(message.clone()),
            None => Err(format!("no mock response for {dir}")),
        }
    }
}

fn entry(path: &str, name: &str, kind: EntryKind) -> FsEntry {
    FsEntry {
        path: path.to_owned(),
        name: name.to_owned(),
        kind,
    }
}

#[test]
fn sorts_by_rendered_name_including_directory_suffix() {
    let fs = MockFileSystem::default();
    fs.set_dir_entries(
        "/root",
        vec![
            entry("/root/a-dir", "a", EntryKind::Directory),
            entry("/root/a-file", "a", EntryKind::File),
            entry("/root/b", "b", EntryKind::File),
        ],
    );
    fs.set_dir_entries("/root/a-dir", vec![]);

    let options = WalkOptions::default();
    let tree = walk_dir(&fs, &"/root".to_owned(), &options).unwrap();
    let names: Vec<String> = tree.children.into_iter().map(|n| n.name).collect();
    assert_eq!(names, vec!["a".to_owned(), "a/".to_owned(), "b".to_owned()]);
}

#[test]
fn unreadable_directory_is_recorded_and_not_descended() {
    let fs = MockFileSystem::default();
    fs.set_dir_entries(
        "/root",
        vec![entry("/root/secret", "secret", EntryKind::Directory)],
    );
    fs.set_error("/root/secret", "Permission denied");

    let options = WalkOptions::default();
    let tree = walk_dir(&fs, &"/root".to_owned(), &options).unwrap();
    assert_eq!(tree.error, None);
    assert_eq!(tree.children.len(), 1);
    assert_eq!(tree.children[0].name, "secret/".to_owned());
    assert!(tree.children[0]
        .error
        .as_deref()
        .unwrap_or("")
        .contains("Permission"));
    assert!(tree.children[0].children.is_empty());
}

#[test]
fn symlinks_are_leaf_nodes() {
    let fs = MockFileSystem::default();
    fs.set_dir_entries(
        "/root",
        vec![entry("/root/link", "link", EntryKind::Symlink)],
    );
    fs.set_dir_entries(
        "/root/link",
        vec![entry("/root/link/child", "child", EntryKind::File)],
    );

    let options = WalkOptions::default();
    let tree = walk_dir(&fs, &"/root".to_owned(), &options).unwrap();
    assert_eq!(tree.children.len(), 1);
    assert_eq!(tree.children[0].name, "link".to_owned());
    assert_eq!(tree.children[0].children.len(), 0);

    let calls: Vec<String> = fs.calls();
    assert_eq!(calls, vec!["/root".to_owned()]);
}

#[test]
fn depth_limit_stops_at_specified_level() {
    let fs = MockFileSystem::default();
    fs.set_dir_entries(
        "/root",
        vec![entry("/root/level1", "level1", EntryKind::Directory)],
    );
    fs.set_dir_entries(
        "/root/level1",
        vec![entry("/root/level1/level2", "level2", EntryKind::Directory)],
    );
    fs.set_dir_entries(
        "/root/level1/level2",
        vec![entry(
            "/root/level1/level2/level3",
            "level3",
            EntryKind::Directory,
        )],
    );

    let options = WalkOptions {
        max_depth: Some(1),
        ..WalkOptions::default()
    };
    let tree = walk_dir(&fs, &"/root".to_owned(), &options).unwrap();
    assert_eq!(tree.children.len(), 1);
    assert_eq!(tree.children[0].name, "level1/");
    assert!(tree.children[0].children.is_empty());

    let options = WalkOptions {
        max_depth: Some(2),
        ..WalkOptions::default()
    };
    let tree = walk_dir(&fs, &"/root".to_owned(), &options).unwrap();
    assert_eq!(tree.children[0].children.len(), 1);
    assert_eq!(tree.children[0].children[0].name, "level2/");
    assert!(tree.children[0].children[0].children.is_empty());
}

#[test]
fn depth_limit_none_traverses_all() {
    let fs = MockFileSystem::default();
    fs.set_dir_entries("/root", vec![entry("/root/a", "a", EntryKind::Directory)]);
    fs.set_dir_entries(
        "/root/a",
        vec![entry("/root/a/b", "b", EntryKind::Directory)],
    );
    fs.set_dir_entries(
        "/root/a/b",
        vec![entry("/root/a/b/c", "c", EntryKind::File)],
    );

    let options = WalkOptions::default();
    let tree = walk_dir(&fs, &"/root".to_owned(), &options).unwrap();
    assert_eq!(tree.children[0].children[0].children.len(), 1);
    assert_eq!(tree.children[0].children[0].children[0].name, "c");
}

#[test]
fn ignore_single_pattern() {
    let fs = MockFileSystem::default();
    fs.set_dir_entries(
        "/root",
        vec![
            entry("/root/keep", "keep", EntryKind::File),
            entry("/root/node_modules", "node_modules", EntryKind::Directory),
        ],
    );

    let options = WalkOptions {
        ignore_pattern: Some("node_modules".to_owned()),
        ..WalkOptions::default()
    };
    let tree = walk_dir(&fs, &"/root".to_owned(), &options).unwrap();
    assert_eq!(tree.children.len(), 1);
    assert_eq!(tree.children[0].name, "keep");
}

#[test]
fn ignore_pipe_separated_patterns() {
    let fs = MockFileSystem::default();
    fs.set_dir_entries(
        "/root",
        vec![
            entry("/root/keep", "keep", EntryKind::File),
            entry("/root/node_modules", "node_modules", EntryKind::Directory),
            entry("/root/dist", "dist", EntryKind::Directory),
            entry("/root/.git", ".git", EntryKind::Directory),
        ],
    );

    let options = WalkOptions {
        ignore_pattern: Some("node_modules|dist|.git".to_owned()),
        ..WalkOptions::default()
    };
    let tree = walk_dir(&fs, &"/root".to_owned(), &options).unwrap();
    assert_eq!(tree.children.len(), 1);
    assert_eq!(tree.children[0].name, "keep");
}

#[test]
fn dirs_only_excludes_files() {
    let fs = MockFileSystem::default();
    fs.set_dir_entries(
        "/root",
        vec![
            entry("/root/dir", "dir", EntryKind::Directory),
            entry("/root/file.txt", "file.txt", EntryKind::File),
        ],
    );
    fs.set_dir_entries("/root/dir", vec![]);

    let options = WalkOptions {
        dirs_only: true,
        ..WalkOptions::default()
    };
    let tree = walk_dir(&fs, &"/root".to_owned(), &options).unwrap();
    assert_eq!(tree.children.len(), 1);
    assert_eq!(tree.children[0].name, "dir/");
}

#[test]
fn dirs_only_excludes_symlinks() {
    let fs = MockFileSystem::default();
    fs.set_dir_entries(
        "/root",
        vec![
            entry("/root/dir", "dir", EntryKind::Directory),
            entry("/root/link", "link", EntryKind::Symlink),
        ],
    );
    fs.set_dir_entries("/root/dir", vec![]);

    let options = WalkOptions {
        dirs_only: true,
        ..WalkOptions::default()
    };
    let tree = walk_dir(&fs, &"/root".to_owned(), &options).unwrap();
    assert_eq!(tree.children.len(), 1);
    assert_eq!(tree.children[0].name, "dir/");
}

#[test]
fn dirs_first_sorts_directories_before_files() {
    let fs = MockFileSystem::default();
    fs.set_dir_entries(
        "/root",
        vec![
            entry("/root/zebra.txt", "zebra.txt", EntryKind::File),
            entry("/root/alpha", "alpha", EntryKind::Directory),
            entry("/root/beta.txt", "beta.txt", EntryKind::File),
        ],
    );
    fs.set_dir_entries("/root/alpha", vec![]);

    let options = WalkOptions {
        dirs_first: true,
        ..WalkOptions::default()
    };
    let tree = walk_dir(&fs, &"/root".to_owned(), &options).unwrap();
    let names: Vec<&str> = tree.children.iter().map(|n| n.name.as_str()).collect();
    assert_eq!(names, vec!["alpha/", "beta.txt", "zebra.txt"]);
}

#[test]
fn dirs_first_maintains_alphabetical_within_category() {
    let fs = MockFileSystem::default();
    fs.set_dir_entries(
        "/root",
        vec![
            entry("/root/zdir", "zdir", EntryKind::Directory),
            entry("/root/adir", "adir", EntryKind::Directory),
            entry("/root/zfile", "zfile", EntryKind::File),
            entry("/root/afile", "afile", EntryKind::File),
        ],
    );
    fs.set_dir_entries("/root/adir", vec![]);
    fs.set_dir_entries("/root/zdir", vec![]);

    let options = WalkOptions {
        dirs_first: true,
        ..WalkOptions::default()
    };
    let tree = walk_dir(&fs, &"/root".to_owned(), &options).unwrap();
    let names: Vec<&str> = tree.children.iter().map(|n| n.name.as_str()).collect();
    assert_eq!(names, vec!["adir/", "zdir/", "afile", "zfile"]);
}

#[test]
fn hidden_files_shown_by_default() {
    let fs = MockFileSystem::default();
    fs.set_dir_entries(
        "/root",
        vec![
            entry("/root/.hidden", ".hidden", EntryKind::File),
            entry("/root/visible", "visible", EntryKind::File),
        ],
    );

    let options = WalkOptions::default();
    let tree = walk_dir(&fs, &"/root".to_owned(), &options).unwrap();
    assert_eq!(tree.children.len(), 2);
}

#[test]
fn hidden_files_excluded_when_show_hidden_false() {
    let fs = MockFileSystem::default();
    fs.set_dir_entries(
        "/root",
        vec![
            entry("/root/.hidden", ".hidden", EntryKind::File),
            entry("/root/.gitignore", ".gitignore", EntryKind::File),
            entry("/root/visible", "visible", EntryKind::File),
        ],
    );

    let options = WalkOptions {
        show_hidden: false,
        ..WalkOptions::default()
    };
    let tree = walk_dir(&fs, &"/root".to_owned(), &options).unwrap();
    assert_eq!(tree.children.len(), 1);
    assert_eq!(tree.children[0].name, "visible");
}

#[test]
fn combined_dirs_first_and_ignore_pattern() {
    let fs = MockFileSystem::default();
    fs.set_dir_entries(
        "/root",
        vec![
            entry("/root/src", "src", EntryKind::Directory),
            entry("/root/node_modules", "node_modules", EntryKind::Directory),
            entry("/root/README.md", "README.md", EntryKind::File),
        ],
    );
    fs.set_dir_entries("/root/src", vec![]);

    let options = WalkOptions {
        dirs_first: true,
        ignore_pattern: Some("node_modules".to_owned()),
        ..WalkOptions::default()
    };
    let tree = walk_dir(&fs, &"/root".to_owned(), &options).unwrap();
    let names: Vec<&str> = tree.children.iter().map(|n| n.name.as_str()).collect();
    assert_eq!(names, vec!["src/", "README.md"]);
}

#[test]
fn combined_depth_limit_and_dirs_only() {
    let fs = MockFileSystem::default();
    fs.set_dir_entries(
        "/root",
        vec![
            entry("/root/dir1", "dir1", EntryKind::Directory),
            entry("/root/file1", "file1", EntryKind::File),
        ],
    );
    fs.set_dir_entries(
        "/root/dir1",
        vec![
            entry("/root/dir1/subdir", "subdir", EntryKind::Directory),
            entry("/root/dir1/file2", "file2", EntryKind::File),
        ],
    );
    fs.set_dir_entries("/root/dir1/subdir", vec![]);

    let options = WalkOptions {
        max_depth: Some(2),
        dirs_only: true,
        ..WalkOptions::default()
    };
    let tree = walk_dir(&fs, &"/root".to_owned(), &options).unwrap();
    assert_eq!(tree.children.len(), 1);
    assert_eq!(tree.children[0].name, "dir1/");
    assert_eq!(tree.children[0].children.len(), 1);
    assert_eq!(tree.children[0].children[0].name, "subdir/");
}

#[test]
fn ignore_mixed_literal_and_glob_keeps_only_unmatched() {
    let fs = MockFileSystem::default();
    fs.set_dir_entries(
        "/root",
        vec![
            entry("/root/node_modules", "node_modules", EntryKind::Directory),
            entry("/root/debug.log", "debug.log", EntryKind::File),
            entry("/root/main.rs", "main.rs", EntryKind::File),
        ],
    );

    let options = WalkOptions {
        ignore_pattern: Some("node_modules|*.log".to_owned()),
        ..WalkOptions::default()
    };
    let tree = walk_dir(&fs, &"/root".to_owned(), &options).unwrap();
    let names: Vec<&str> = tree.children.iter().map(|n| n.name.as_str()).collect();
    assert_eq!(names, vec!["main.rs"]);
}

#[test]
fn node_assembly_keeps_entry_identity_and_subtree_outcome() {
    let dir_entry = entry("/root/secret", "secret", EntryKind::Directory);
    let node = make_node(&dir_entry, failed_listing_tree("Permission denied".to_owned()));
    assert_eq!(node.name, "secret/");
    assert_eq!(node.kind, EntryKind::Directory);
    assert_eq!(node.error, Some("Permission denied".to_owned()));
    assert!(node.children.is_empty());

    let file_entry = entry("/root/plain.txt", "plain.txt", EntryKind::File);
    let sub = DirTree {
        error: None,
        children: vec![TreeNode {
            name: "inner".to_owned(),
            kind: EntryKind::File,
            error: None,
            children: vec![],
        }],
    };
    let node = make_node(&file_entry, sub);
    assert_eq!(node.name, "plain.txt");
    assert_eq!(node.kind, EntryKind::File);
    assert_eq!(node.error, None);
    assert_eq!(node.children.len(), 1);
    assert_eq!(node.children[0].name, "inner");
}

#[test]
fn walk_fails_up_front_when_the_pattern_does_not_compile() {
    let fs = MockFileSystem::default();
    fs.set_dir_entries("/root", vec![]);

    let options = WalkOptions {
        ignore_pattern: Some("*".repeat(300_000)),
        ..WalkOptions::default()
    };
    let result = walk_dir(&fs, &"/root".to_owned(), &options);
    assert!(result.is_err());
    // No directory was read: the walk failed before any traversal.
    assert!(fs.calls().is_empty());
}

#[test]
fn root_listing_error_yields_childless_errored_tree() {
    let fs = MockFileSystem::default();
    fs.set_error("/root", "Permission denied");

    let options = WalkOptions::default();
    let tree = walk_dir(&fs, &"/root".to_owned(), &options).unwrap();
    assert_eq!(tree.error, Some("Permission denied".to_owned()));
    assert!(tree.children.is_empty());
}

#[test]
fn failed_sibling_leaves_other_siblings_untouched() {
    let fs = MockFileSystem::default();
    fs.set_dir_entries(
        "/root",
        vec![
            entry("/root/ok", "ok", EntryKind::Directory),
            entry("/root/secret", "secret", EntryKind::Directory),
            entry("/root/plain.txt", "plain.txt", EntryKind::File),
        ],
    );
    fs.set_dir_entries(
        "/root/ok",
        vec![entry("/root/ok/inner.txt", "inner.txt", EntryKind::File)],
    );
    fs.set_error("/root/secret", "Permission denied");

    let options = WalkOptions::default();
    let tree = walk_dir(&fs, &"/root".to_owned(), &options).unwrap();
    let names: Vec<&str> = tree.children.iter().map(|n| n.name.as_str()).collect();
    assert_eq!(names, vec!["ok/", "plain.txt", "secret/"]);
    assert_eq!(tree.children[0].children.len(), 1);
    assert_eq!(tree.children[2].error, Some("Permission denied".to_owned()));
    assert!(tree.children[2].children.is_empty());
}
