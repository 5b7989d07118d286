use vesper::checkpoint::{
    sort_backups, BackupEntry, backup_entry, backup_name, checkpoint_label, create_checkpoint, find_checkpoint, restored_checkpoint_message,
    undo_last, Checkpoint, CheckpointFile,
};
use vesper::diff::unified_diff;
use vesper::sandbox::{
    apply_edits, dir_listing, find_match, git_add_command, git_commit_command, globish,
    grep_file, number_lines, replace_unique, shell_output, skip_name, strip_root, truncated_read,
    walk_step, CommandOutput, LineMatcher, Probe, WalkStep, Workspace,
};

#[test]
fn basic_diff() {
    let d = unified_diff("a.txt", "a\nb\nc\n", "a\nB\nc\n");
    assert!(d.contains("-b"));
    assert!(d.contains("+B"));
}

#[test]
fn diff_exact_text() {
    let d = unified_diff("a.txt", "a\nb\nc\n", "a\nB\nc\n");
    assert_eq!(d, "--- a/a.txt\n+++ b/a.txt\n@@ -2,1 +2,1 @@\n-b\n+B\n");
}

#[test]
fn diff_same_text_notes_no_change() {
    let d = unified_diff("x.rs", "same\n", "same\n");
    assert_eq!(
        d,
        "--- a/x.rs\n+++ b/x.rs\n(no line changes detected, or binary/identical)\n"
    );
}

#[test]
fn diff_of_added_line() {
    let d = unified_diff("f", "a\n", "a\nb\n");
    assert!(d.contains("+b"));
    assert!(!d.contains("-a"));
}

#[test]
fn sandbox_blocks_escape() {
    let ws = Workspace::new("/tmp/ws".to_string());
    assert!(ws.resolve("../etc/passwd", Probe::Missing).is_err());
    assert!(ws
        .resolve("../etc/passwd", Probe::Found("/etc/passwd".to_string()))
        .is_err());
}

#[test]
fn resolve_messages() {
    let ws = Workspace::new("/tmp/ws".to_string());
    let e = ws.resolve("../x", Probe::Missing).unwrap_err();
    assert_eq!(e.message, "path escapes workspace via ..: ../x");
    let e = ws.resolve("/etc/passwd", Probe::Missing).unwrap_err();
    assert_eq!(e.message, "absolute paths are not allowed: /etc/passwd");
    let e = ws.resolve("a/./b", Probe::Missing).unwrap_err();
    assert_eq!(e.message, "path not found: a/b");
    let ok = ws
        .resolve("src/../a.txt", Probe::Found("/tmp/ws/a.txt".to_string()))
        .unwrap();
    assert_eq!(ok, "/tmp/ws/a.txt");
    let e = ws
        .resolve("link", Probe::Found("/tmp/other/a".to_string()))
        .unwrap_err();
    assert_eq!(e.message, "path escapes workspace: /tmp/other/a");
    let e = ws
        .resolve("a", Probe::Found("/tmp/wsx/a".to_string()))
        .unwrap_err();
    assert_eq!(e.message, "path escapes workspace: /tmp/wsx/a");
}

#[test]
fn candidate_joins_root() {
    let ws = Workspace::new("/tmp/ws".to_string());
    assert_eq!(ws.candidate("./a//b/../c").unwrap(), "/tmp/ws/a/c");
    assert_eq!(ws.rel_display("/tmp/ws/a/c"), "a/c");
    assert_eq!(ws.rel_display("/elsewhere/a"), "/elsewhere/a");
    assert_eq!(strip_root("/tmp/ws", "/tmp/ws"), "");
}

#[test]
fn resolve_for_write_inside_and_outside() {
    let ws = Workspace::new("/tmp/ws".to_string());
    let missing = vec!["new.txt".to_string(), "dir".to_string()];
    let p = ws
        .resolve_for_write("dir/new.txt", Ok("/tmp/ws".to_string()), &missing)
        .unwrap();
    assert_eq!(p, "/tmp/ws/dir/new.txt");
    let e = ws
        .resolve_for_write("x.txt", Ok("/tmp".to_string()), &vec!["x.txt".to_string()])
        .unwrap_err();
    assert_eq!(e.message, "path escapes workspace: /tmp");
}

#[test]
fn write_and_replace() {
    let updated = replace_unique("a.txt", "hello world", "world", "vesper").unwrap();
    assert_eq!(updated, "hello vesper");
}

#[test]
fn replace_errors() {
    let e = replace_unique("a.txt", "hello", "", "x").unwrap_err();
    assert_eq!(e.message, "old_string must not be empty");
    let e = replace_unique("a.txt", "hello", "zz", "x").unwrap_err();
    assert_eq!(e.message, "old_string not found in a.txt");
    let e = replace_unique("a.txt", "ab ab", "ab", "x").unwrap_err();
    assert_eq!(e.message, "old_string matched 2 times in a.txt; make it unique");
}

#[test]
fn multi_edits_in_order() {
    let edits = vec![
        ("one".to_string(), "1".to_string()),
        ("1 two".to_string(), "12".to_string()),
    ];
    assert_eq!(apply_edits("one two three", &edits).unwrap(), "12 three");
    let bad = vec![("o".to_string(), "0".to_string())];
    let e = apply_edits("foo", &bad).unwrap_err();
    assert_eq!(e.message, "edit for 'o' matched 2 times (need exactly 1)");
    let empty = vec![("".to_string(), "0".to_string())];
    let e = apply_edits("foo", &empty).unwrap_err();
    assert_eq!(e.message, "old_string must not be empty");
}

#[test]
fn numbered_range() {
    let text = number_lines("a\nb\nc\nd\n", 2, 3);
    assert_eq!(text, "   2|b\n   3|c");
    let all = number_lines("x\ny", 0, 0);
    assert_eq!(all, "   1|x");
}

#[test]
fn truncated_note() {
    assert_eq!(
        truncated_read("abc", 200000),
        "abc\n\n...[truncated at 120000 bytes; file is 200000 bytes]"
    );
}

#[test]
fn listing_is_sorted_and_marks_dirs() {
    let entries = vec![
        ("src".to_string(), true),
        ("b.txt".to_string(), false),
        ("target".to_string(), true),
        ("a.rs".to_string(), false),
    ];
    assert_eq!(dir_listing(&entries), vec!["a.rs", "b.txt", "src/"]);
    assert!(skip_name("node_modules"));
    assert!(!skip_name("src"));
}

#[test]
fn find_patterns() {
    assert!(find_match("Main.RS", "src/Main.RS", "*.rs"));
    assert!(!find_match("main.py", "src/main.py", "*.rs"));
    assert!(find_match("lib.rs", "src/lib.rs", "src/"));
    assert!(find_match("mod.rs", "a/b/mod.rs", "a*mod"));
    assert!(globish("src/lib.rs", "src*lib"));
    assert!(!globish("src/lib.rs", "lib"));
    assert!(!globish("abc", "x*c"));
}

#[test]
fn walk_steps_stop_when_full() {
    let mut out = vec!["x".to_string()];
    let s = walk_step(&mut out, 1, "...[truncated at 1]", "a", false);
    assert!(matches!(s, WalkStep::Stop));
    assert_eq!(out.len(), 2);
    let mut out2: Vec<String> = Vec::new();
    assert!(matches!(walk_step(&mut out2, 5, "n", ".git", true), WalkStep::Skip));
    assert!(matches!(walk_step(&mut out2, 5, "n", "src", true), WalkStep::Descend));
    assert!(matches!(walk_step(&mut out2, 5, "n", "a.rs", false), WalkStep::Visit));
}

#[test]
fn grep_is_case_insensitive_regex() {
    let m = LineMatcher::compile("fo+").unwrap();
    let mut out: Vec<String> = Vec::new();
    grep_file(&mut out, "a.txt", "x\nFOO bar  \nnone\nfoo", &m);
    assert_eq!(out, vec!["a.txt:2:FOO bar", "a.txt:4:foo"]);
    assert!(LineMatcher::compile("(").is_err());
}

#[test]
fn shell_output_and_combined() {
    let o = shell_output(Some(0), "out".to_string(), "".to_string());
    assert_eq!(o.combined(), "out");
    let o = shell_output(Some(2), "".to_string(), "err".to_string());
    assert_eq!(o.combined(), "err\n(exit 2)");
    let o = shell_output(None, "".to_string(), "".to_string());
    assert_eq!(o.status, -1);
    assert_eq!(o.combined(), "(exit -1)");
    let c = CommandOutput { status: 0, stdout: "a".to_string(), stderr: "b".to_string() };
    assert_eq!(c.combined(), "a\nb");
}

#[test]
fn git_commands() {
    assert_eq!(git_add_command("  ").unwrap(), "git add .");
    assert_eq!(git_add_command("-A src").unwrap(), "git add -A src");
    let e = git_add_command("--force x").unwrap_err();
    assert_eq!(e.message, "unsupported git add arg: --force");
    assert_eq!(git_commit_command("it's done").unwrap(), "git commit -m 'it'\\''s done'");
    let e = git_commit_command("  ").unwrap_err();
    assert_eq!(e.message, "commit message required");
}

fn file(path: &str, backup: &str) -> CheckpointFile {
    CheckpointFile { path: path.to_string(), backup: backup.to_string() }
}

#[test]
fn checkpoints_number_and_undo() {
    let mut all: Vec<Checkpoint> = Vec::new();
    assert_eq!(undo_last(&all).unwrap_err().message, "no checkpoints yet");
    let c1 = create_checkpoint(&mut all, "first", 10, vec![file("a", "/w/.vesper/backups/10_a")]);
    assert_eq!(c1.id, 0);
    let c2 = create_checkpoint(&mut all, "second", 11, Vec::new());
    assert_eq!(c2.id, 1);
    assert_eq!(all.len(), 2);
    assert_eq!(undo_last(&all).unwrap(), 1);
    assert_eq!(find_checkpoint(&all, 0).unwrap(), 0);
    assert_eq!(find_checkpoint(&all, 7).unwrap_err().message, "no checkpoint #7");
    assert_eq!(
        restored_checkpoint_message(1, "second", 1),
        "restored checkpoint #1 (second) — 1 file(s)"
    );
    assert_eq!(checkpoint_label("edit", "a.rs"), "before edit a.rs");
}

#[test]
fn checkpoint_log_keeps_last_thirty() {
    let mut all: Vec<Checkpoint> = Vec::new();
    for i in 0..35u64 {
        let label = format!("c{i}");
        create_checkpoint(&mut all, &label, i, Vec::new());
    }
    assert_eq!(all.len(), 30);
    assert_eq!(all[0].label, "c5");
    assert_eq!(all[0].id, 0);
    assert_eq!(all[29].id, 29);
    assert_eq!(all[29].label, "c34");
}

#[test]
fn backup_names() {
    assert_eq!(backup_name("/w", "/w/src/a.rs", 42), "42_src__a.rs");
    let e = backup_entry(3, "42_src__a.rs", "/w/.vesper/backups/42_src__a.rs");
    assert_eq!(e.timestamp, 42);
    assert_eq!(e.original, "src/a.rs");
    let e = backup_entry(0, "plain", "/p");
    assert_eq!(e.timestamp, 0);
    assert_eq!(e.original, "plain");
}

#[test]
fn backups_listed_in_time_order() {
    let e = |id: usize, ts: u64, orig: &str| BackupEntry {
        id,
        original: orig.to_string(),
        backup_path: format!("/b/{ts}_{orig}"),
        timestamp: ts,
    };
    let sorted = sort_backups(vec![e(0, 30, "c"), e(1, 10, "a"), e(2, 20, "b"), e(3, 10, "a2")]);
    let got: Vec<(usize, u64, &str)> =
        sorted.iter().map(|b| (b.id, b.timestamp, b.original.as_str())).collect();
    assert_eq!(got, vec![(0, 10, "a"), (1, 10, "a2"), (2, 20, "b"), (3, 30, "c")]);
}

#[test]
fn diff_of_inserted_line_exact() {
    let d = unified_diff("f", "a\nc\n", "a\nb\nc\n");
    assert_eq!(d, "--- a/f\n+++ b/f\n@@ -2,1 +2,1 @@\n+b\n");
}

#[test]
fn diff_of_deleted_line_exact() {
    let d = unified_diff("f", "a\nb\nc\n", "a\nc\n");
    assert_eq!(d, "--- a/f\n+++ b/f\n@@ -2,1 +2,1 @@\n-b\n");
}

#[test]
fn diff_lines_come_from_the_texts() {
    let before = "x\ny\nz\nq\n";
    let after = "x\nY\nz\nw\nq\nr\n";
    let d = unified_diff("src/p.rs", before, after);
    assert!(d.starts_with("--- a/src/p.rs\n+++ b/src/p.rs\n"));
    assert!(d.ends_with('\n'));
    let old: Vec<&str> = before.lines().collect();
    let new: Vec<&str> = after.lines().collect();
    let mut minus = 0;
    let mut plus = 0;
    for line in d.lines().skip(2) {
        if let Some(rest) = line.strip_prefix('-') {
            assert!(old.contains(&rest));
            minus += 1;
        } else if let Some(rest) = line.strip_prefix('+') {
            assert!(new.contains(&rest));
            plus += 1;
        } else {
            assert!(line.starts_with("@@ "));
        }
    }
    assert_eq!(minus, 1);
    assert_eq!(plus, 3);
}

#[test]
fn refused_paths_absolute_or_climbing() {
    let ws = Workspace::new("/tmp/ws".to_string());
    let e = ws.resolve("a/../../b", Probe::Found("/tmp/b".to_string())).unwrap_err();
    assert_eq!(e.message, "path escapes workspace via ..: a/../../b");
    let e = ws
        .resolve_for_write("/etc/x", Ok("/tmp/ws".to_string()), &vec![])
        .unwrap_err();
    assert_eq!(e.message, "absolute paths are not allowed: /etc/x");
    let e = ws
        .resolve_for_write("./../x", Ok("/tmp/ws".to_string()), &vec!["x".to_string()])
        .unwrap_err();
    assert_eq!(e.message, "path escapes workspace via ..: ./../x");
    let e = ws.resolve("a/../b", Probe::Missing).unwrap_err();
    assert_eq!(e.message, "path not found: b");
}

#[test]
fn write_path_is_root_joined_with_normalized() {
    let ws = Workspace::new("/tmp/ws".to_string());
    let missing = vec!["f.txt".to_string(), "e".to_string()];
    let p = ws
        .resolve_for_write("d/./e/f.txt", Ok("/tmp/ws/d".to_string()), &missing)
        .unwrap();
    assert_eq!(p, "/tmp/ws/d/e/f.txt");
    assert_eq!(ws.candidate("d/./e/f.txt").unwrap(), p);
}

#[test]
fn rel_display_gives_back_relative_path() {
    let ws = Workspace::new("/tmp/ws".to_string());
    let c = ws.candidate("a/b/c.rs").unwrap();
    assert_eq!(ws.rel_display(&c), "a/b/c.rs");
    let slash = Workspace::new("/tmp/ws/".to_string());
    let c = slash.candidate("x/y").unwrap();
    assert_eq!(c, "/tmp/ws/x/y");
    assert_eq!(slash.rel_display(&c), "x/y");
}
