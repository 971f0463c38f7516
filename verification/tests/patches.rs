use std::collections::BTreeMap;

use connector::apply_patch::apply::{conclude, prepare};
use connector::apply_patch::chunks::{apply_chunks, normalize_line};
use connector::apply_patch::commit::{change_label, Stage};
use connector::apply_patch::parse::{parse_patch, parse_path};
use connector::apply_patch::paths::{
    file_name_of, normalize_path, parent_path, relative_path, resolve_path, same_path,
};
use connector::apply_patch::plan::{preflight, Entry, Facts, PlannedChange, Target, TargetState};
use connector::apply_patch::publish::{temp_path_of, temp_token, FsAction, Outcome, Phase, Write};
use connector::apply_patch::{Chunk, HunkLine, Operation};

/// A directory in memory.
struct Disk {
    files: BTreeMap<String, Vec<u8>>,
    created: String,
    opened: String,
    /// The action that fails, counted from the first.
    fail_at: Option<usize>,
    actions: usize,
}

fn gone() -> Outcome {
    Outcome::Failed { exists: false, message: "No such file or directory (os error 2)".to_string() }
}

fn taken() -> Outcome {
    Outcome::Failed { exists: true, message: "File exists (os error 17)".to_string() }
}

impl Disk {
    fn new(files: &[(&str, &str)]) -> Disk {
        let mut disk = Disk {
            files: BTreeMap::new(),
            created: String::new(),
            opened: String::new(),
            fail_at: None,
            actions: 0,
        };
        for (path, content) in files {
            disk.files.insert(path.to_string(), content.as_bytes().to_vec());
        }
        disk
    }

    fn text(&self, path: &str) -> Option<String> {
        self.files.get(path).map(|b| String::from_utf8(b.clone()).unwrap())
    }

    fn names(&self) -> Vec<String> {
        self.files.keys().cloned().collect()
    }

    fn facts(&self, cwd: &str, operation: &Operation) -> Facts {
        let (path, to) = match operation {
            Operation::Add { path, .. } => (path, None),
            Operation::Delete { path } => (path, None),
            Operation::Update { path, move_to, .. } => (path, move_to.as_ref()),
        };
        let entry = match self.files.get(&resolve_path(cwd, path)) {
            Some(bytes) => Entry::File {
                bytes: Ok(bytes.clone()),
                text: String::from_utf8(bytes.clone()).map_err(|e| e.to_string()),
            },
            None => Entry::Absent("No such file or directory (os error 2)".to_string()),
        };
        let destination_exists = match to {
            Some(to) => self.files.contains_key(&resolve_path(cwd, to)),
            None => false,
        };
        Facts { entry, destination_exists }
    }

    fn perform(&mut self, action: FsAction) -> Outcome {
        self.actions += 1;
        if self.fail_at == Some(self.actions) {
            return Outcome::Failed {
                exists: false,
                message: "No space left on device (os error 28)".to_string(),
            };
        }
        match action {
            FsAction::MakeDirectory(_) => {}
            FsAction::CreateNew(path) => {
                if self.files.contains_key(&path) {
                    return taken();
                }
                self.files.insert(path.clone(), Vec::new());
                self.created = path;
            }
            FsAction::WriteNew(bytes) => {
                self.files.insert(self.created.clone(), bytes);
            }
            FsAction::Link { from, to } => {
                if self.files.contains_key(&to) {
                    return taken();
                }
                let bytes = self.files[&from].clone();
                self.files.insert(to, bytes);
            }
            FsAction::Remove(path) => {
                if self.files.remove(&path).is_none() {
                    return gone();
                }
            }
            FsAction::OpenTarget(path) => {
                if !self.files.contains_key(&path) {
                    return gone();
                }
                self.opened = path;
            }
            FsAction::LockTarget => {}
            FsAction::ReadTarget => return Outcome::Done(self.files[&self.opened].clone()),
            FsAction::RewriteTarget(bytes) => {
                self.files.insert(self.opened.clone(), bytes);
            }
            FsAction::Rename { from, to } => match self.files.remove(&from) {
                Some(bytes) => {
                    self.files.insert(to, bytes);
                }
                None => return gone(),
            },
        }
        Outcome::Done(Vec::new())
    }

    fn apply(&mut self, cwd: &str, patch: &str) -> Result<String, String> {
        let operations = parse_patch(patch)?;
        let mut facts: Vec<Facts> = Vec::new();
        for operation in &operations {
            facts.push(self.facts(cwd, operation));
        }
        let mut commit = match prepare(cwd, &operations, &facts) {
            Ok(commit) => commit,
            Err(failure) => return Err(failure.chain()),
        };
        while commit.stage != Stage::Finished && commit.stage != Stage::Failed {
            let outcome = self.perform(commit.next_action());
            commit.advance(outcome);
        }
        match conclude(commit, cwd) {
            Ok(answer) => Ok(answer.output),
            Err(failure) => Err(failure.chain()),
        }
    }
}

#[test]
fn applies_add_update_move_and_delete() {
    let mut disk = Disk::new(&[("/w/old.txt", "one\ntwo\n"), ("/w/delete.txt", "bye\n")]);
    let output = disk
        .apply(
            "/w",
            "*** Begin Patch\n*** Add File: added.txt\n+hello\n*** Update File: old.txt\n*** Move to: moved.txt\n@@\n one\n-two\n+three\n*** Delete File: delete.txt\n*** End Patch\n",
        )
        .unwrap();
    assert_eq!(disk.text("/w/added.txt").unwrap(), "hello\n");
    assert_eq!(disk.text("/w/moved.txt").unwrap(), "one\nthree\n");
    assert!(disk.text("/w/old.txt").is_none());
    assert!(disk.text("/w/delete.txt").is_none());
    assert_eq!(output, "Done!\nA added.txt\nR old.txt -> moved.txt\nD delete.txt\n");
    assert_eq!(disk.names(), vec!["/w/added.txt".to_string(), "/w/moved.txt".to_string()]);
}

#[test]
fn preflight_failure_does_not_publish_changes() {
    let mut disk = Disk::new(&[("/w/existing.txt", "keep\n")]);
    let error = disk
        .apply(
            "/w",
            "*** Begin Patch\n*** Add File: new.txt\n+new\n*** Update File: missing.txt\n@@\n-old\n+new\n*** End Patch\n",
        )
        .unwrap_err();
    assert!(error.contains("cannot update missing file"));
    assert!(disk.text("/w/new.txt").is_none());
    assert_eq!(disk.text("/w/existing.txt").unwrap(), "keep\n");
    assert_eq!(disk.actions, 0);
}

#[test]
fn repeated_updates_use_the_previous_virtual_result() {
    let mut disk = Disk::new(&[("/w/file.txt", "alpha\nmiddle\nomega\n")]);
    disk.apply(
        "/w",
        "*** Begin Patch\n*** Update File: file.txt\n@@\n-omega\n+OMEGA\n*** Update File: file.txt\n@@\n-alpha\n+ALPHA\n*** End Patch\n",
    )
    .unwrap();
    assert_eq!(disk.text("/w/file.txt").unwrap(), "ALPHA\nmiddle\nOMEGA\n");
}

#[test]
fn a_failed_write_leaves_or_restores_the_file() {
    let patch = "*** Begin Patch\n*** Update File: file.txt\n@@\n-old\n+new\n*** End Patch\n";
    let mut clean = Disk::new(&[("/w/file.txt", "old\n")]);
    clean.apply("/w", patch).unwrap();
    assert_eq!(clean.text("/w/file.txt").unwrap(), "new\n");
    assert_eq!(clean.names(), vec!["/w/file.txt".to_string()]);
    for n in 1..clean.actions {
        let mut disk = Disk::new(&[("/w/file.txt", "old\n")]);
        disk.fail_at = Some(n);
        let result = disk.apply("/w", patch);
        let text = disk.text("/w/file.txt").unwrap();
        if result.is_ok() {
            assert_eq!(text, "new\n");
        } else {
            assert_eq!(text, "old\n");
        }
    }
}

#[test]
fn a_later_failure_tells_what_was_completed() {
    let patch = "*** Begin Patch\n*** Add File: a.txt\n+a\n*** Delete File: b.txt\n*** End Patch\n";
    let mut clean = Disk::new(&[("/w/b.txt", "b\n")]);
    clean.apply("/w", patch).unwrap();
    let mut disk = Disk::new(&[("/w/b.txt", "b\n")]);
    disk.fail_at = Some(clean.actions);
    let error = disk.apply("/w", patch).unwrap_err();
    assert!(error.contains("completed changes before failure: A /w/a.txt"), "{}", error);
    assert_eq!(disk.text("/w/a.txt").unwrap(), "a\n");
    assert_eq!(disk.text("/w/b.txt").unwrap(), "b\n");
}

#[test]
fn a_failed_move_is_rolled_back() {
    let patch = "*** Begin Patch\n*** Update File: a.txt\n*** Move to: b.txt\n@@\n-one\n+two\n*** End Patch\n";
    let mut clean = Disk::new(&[("/w/a.txt", "one\n")]);
    clean.apply("/w", patch).unwrap();
    assert_eq!(clean.text("/w/b.txt").unwrap(), "two\n");
    for n in 1..clean.actions {
        let mut disk = Disk::new(&[("/w/a.txt", "one\n")]);
        disk.fail_at = Some(n);
        if disk.apply("/w", patch).is_err() {
            assert_eq!(disk.text("/w/a.txt").unwrap(), "one\n");
        }
    }
}

#[test]
fn new_files_do_not_replace_what_appeared_meanwhile() {
    let mut write = Write::start("/w/new.txt", "mine\n", false, None);
    let mut disk = Disk::new(&[]);
    while write.phase != Phase::Finished && write.phase != Phase::Failed {
        if write.phase == Phase::LinkTemp {
            disk.files.insert("/w/new.txt".to_string(), b"theirs\n".to_vec());
        }
        let outcome = disk.perform(write.next_action());
        write.advance(outcome, "0123");
    }
    assert!(write.phase == Phase::Failed);
    assert_eq!(disk.text("/w/new.txt").unwrap(), "theirs\n");
    assert_eq!(disk.names(), vec!["/w/new.txt".to_string()]);
}

#[test]
fn changed_files_are_not_overwritten() {
    let mut write = Write::start("/w/f", "new\n", true, Some(b"old\n".to_vec()));
    let mut disk = Disk::new(&[("/w/f", "other\n")]);
    while write.phase != Phase::Finished && write.phase != Phase::Failed {
        let outcome = disk.perform(write.next_action());
        write.advance(outcome, "0123");
    }
    assert!(write.phase == Phase::Failed);
    assert_eq!(disk.text("/w/f").unwrap(), "other\n");
}

#[test]
fn patches_are_read_line_by_line() {
    let operations = parse_patch(
        "*** Begin Patch\n*** Update File: a b.txt\n@@ fn main\n context\n-old\n+new\n*** End of File\n*** End Patch\n",
    )
    .unwrap();
    assert_eq!(operations.len(), 1);
    match &operations[0] {
        Operation::Update { path, move_to, chunks } => {
            assert_eq!(path, "a b.txt");
            assert!(move_to.is_none());
            assert_eq!(chunks.len(), 1);
            assert_eq!(chunks[0].locator.as_deref(), Some("fn main"));
            assert!(chunks[0].end_of_file);
            assert!(matches!(&chunks[0].lines[1], HunkLine::Remove(s) if s == "old"));
        }
        _ => panic!("an update"),
    }
    assert!(parse_patch("").is_err());
    assert!(parse_patch("*** Begin Patch\n*** End Patch\n").is_err());
    assert!(parse_patch("*** Begin Patch\n*** Update File: a\n*** End Patch\n").is_err());
    assert_eq!(parse_path(&Vec::new()).unwrap_err(), "patch path cannot be empty");
    assert_eq!(parse_path(&vec!['a', ' ']).unwrap(), "a ");
}

#[test]
fn hunks_prefer_exact_lines() {
    let chunk = |locator: Option<&str>, lines: Vec<HunkLine>| Chunk {
        locator: locator.map(|s| s.to_string()),
        lines,
        end_of_file: false,
    };
    let chunks = vec![chunk(
        None,
        vec![HunkLine::Remove("x".to_string()), HunkLine::Add("y".to_string())],
    )];
    assert_eq!(apply_chunks("x \nx\n", "f", &chunks).unwrap(), "x \ny\n");
    assert_eq!(apply_chunks("  x  \n", "f", &chunks).unwrap(), "y\n");
    assert!(apply_chunks("z\n", "f", &chunks).is_err());
    let located = vec![chunk(Some("b"), vec![HunkLine::Add("new".to_string())])];
    assert_eq!(apply_chunks("a\nb\nc", "f", &located).unwrap(), "a\nb\nnew\nc\n");
    let dashes: Vec<char> = " a\u{2014}b\u{a0}\u{201c}c\u{201d} ".chars().collect();
    let plain: String = normalize_line(&dashes).iter().collect();
    assert_eq!(plain, "a-b \"c\"");
}

#[test]
fn one_entry_belongs_to_one_operation() {
    let add = |path: &str| Operation::Add { path: path.to_string(), content: "x\n".to_string() };
    let absent = || Facts {
        entry: Entry::Absent("No such file or directory (os error 2)".to_string()),
        destination_exists: false,
    };
    let operations = vec![add("a.txt"), add("./d/../a.txt")];
    let failure = preflight("/w", &operations, &vec![absent(), absent()]).unwrap_err();
    assert!(failure.chain().contains("multiple operations target"), "{}", failure.chain());
    let taken = Facts {
        entry: Entry::File { bytes: Ok(Vec::new()), text: Ok(String::new()) },
        destination_exists: false,
    };
    assert!(preflight("/w", &vec![add("a.txt")], &vec![taken]).is_err());
}

#[test]
fn links_keep_leading_to_their_file() {
    let operations =
        parse_patch("*** Begin Patch\n*** Update File: l\n@@\n-a\n+b\n*** End Patch\n").unwrap();
    let facts = vec![Facts {
        entry: Entry::Symlink(Ok(Target {
            path: "/real/f".to_string(),
            state: TargetState::File(Ok("a\n".to_string())),
        })),
        destination_exists: false,
    }];
    let changes = preflight("/w", &operations, &facts).unwrap();
    match &changes[0] {
        PlannedChange::Update { path, reported_path, original, content } => {
            assert_eq!(path, "/real/f");
            assert_eq!(reported_path, "/w/l");
            assert_eq!(original, b"a\n");
            assert_eq!(content, "b\n");
        }
        _ => panic!("an update"),
    }
    assert_eq!(change_label(&changes[0]), "M /w/l");
}

#[test]
fn paths_are_lexical() {
    assert_eq!(resolve_path("/w", "a/b"), "/w/a/b");
    assert_eq!(resolve_path("/w", "/a/b"), "/a/b");
    assert_eq!(relative_path("/w/a/b", "/w"), "a/b");
    assert_eq!(relative_path("/x/b", "/w"), "/x/b");
    assert!(same_path("/w/./a", "/w//a/"));
    assert!(!same_path("/w/a", "/w/b/../a"));
    assert!(normalize_path("/w/a").same(&normalize_path("/w/b/../a")));
    assert!(!normalize_path("/a").same(&normalize_path("a")));
    assert_eq!(parent_path("/a/b").as_deref(), Some("/a"));
    assert_eq!(parent_path("/a").as_deref(), Some("/"));
    assert_eq!(parent_path("/"), None);
    assert_eq!(parent_path("a").as_deref(), Some(""));
    assert_eq!(file_name_of("/a/b").as_deref(), Some("b"));
    assert_eq!(file_name_of("/a/.."), None);
}

#[test]
fn temporary_names_are_hidden_and_unlike() {
    let path = temp_path_of("/w/f.txt", ".patch-", "00ff");
    assert!(path.starts_with("/w/.f.txt"), "{}", path);
    assert!(path.ends_with(".tmp"));
    let a = temp_token();
    let b = temp_token();
    assert_eq!(a.len(), 24);
    assert!(a.chars().all(|c| c.is_ascii_hexdigit()));
    assert_ne!(a, b);
}

#[test]
fn what_is_read_is_well_formed() {
    let patch = "*** Begin Patch\n*** Add File: a\n+x\n*** Update File: b\n*** Move to: c\n@@  fn f  \n-old\n+*** Add File: no\n*** End of File\n*** Delete File: d\n*** End Patch\n";
    let operations = parse_patch(patch).unwrap();
    assert_eq!(operations.len(), 3);
    match &operations[0] {
        Operation::Add { path, content } => assert_eq!((path.as_str(), content.as_str()), ("a", "x\n")),
        _ => panic!("an added file"),
    }
    match &operations[1] {
        Operation::Update { path, move_to, chunks } => {
            assert_eq!((path.as_str(), move_to.as_deref()), ("b", Some("c")));
            assert_eq!(chunks[0].locator.as_deref(), Some("fn f"));
            assert_eq!(chunks[0].lines.len(), 2);
            assert!(chunks[0].end_of_file);
        }
        _ => panic!("an updated file"),
    }
    assert!(matches!(&operations[2], Operation::Delete { path } if path == "d"));
    let windows = parse_patch(&patch.replace('\n', "\r\n")).unwrap();
    assert_eq!(format!("{windows:?}"), format!("{operations:?}"));
}
