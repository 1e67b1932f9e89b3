use rust_semverver::golden::{filter_full_output, normalize_output, normalize_separators, sanitize_path_line};
use rust_semverver::text::replace_text;

#[test]
fn root_replaced_everywhere() {
    let text = "error at /work/repo/tests/a.rs:1\nsee /work/repo/src\n";
    let r = normalize_output(text, "/work/repo", "$REPO_PATH");
    assert_eq!(r, "error at $REPO_PATH/tests/a.rs:1\nsee $REPO_PATH/src\n");
}

#[test]
fn normalization_idempotent() {
    let text = "/w/x/a /w/x/b";
    let once = normalize_output(text, "/w/x", "$REPO_PATH");
    let twice = normalize_output(&once, "/w/x", "$REPO_PATH");
    assert_eq!(once, "$REPO_PATH/a $REPO_PATH/b");
    assert_eq!(twice, once);
}

#[test]
fn replacement_is_left_to_right_without_overlap() {
    assert_eq!(replace_text("aaa", "aa", "b"), "ba");
    assert_eq!(replace_text("abc", "", "x"), "abc");
    assert_eq!(replace_text("", "a", "x"), "");
    assert_eq!(replace_text("xyz", "q", "r"), "xyz");
}

#[test]
fn path_reference_shortened() {
    let line = "  --> /home/u/.cargo/registry/src/log-0.3.8/src/lib.rs:10:1";
    assert_eq!(sanitize_path_line(line, "log"), "  --> log-0.3.8/src/lib.rs:10:1");
    assert_eq!(sanitize_path_line("  --> /a/log/b/log/c.rs", "log"), "  --> log/c.rs");
    assert_eq!(sanitize_path_line("no arrow: log", "log"), "no arrow: log");
    assert_eq!(sanitize_path_line("log --> /x/y", "log"), "log --> /x/y");
}

#[test]
fn output_before_report_dropped() {
    let lines: Vec<String> = ["Compiling log", "version bump: 0.3.4 -> (breaking) -> 0.4.0", "error: removed", "  --> /r/log-0.3.4/src/lib.rs:1:1"]
        .iter()
        .map(|s| s.to_string())
        .collect();
    let kept = filter_full_output(&lines, "log", false);
    assert_eq!(kept, vec![
        "version bump: 0.3.4 -> (breaking) -> 0.4.0".to_string(),
        "error: removed".to_string(),
        "  --> log-0.3.4/src/lib.rs:1:1".to_string(),
    ]);
    let all = filter_full_output(&lines, "log", true);
    assert_eq!(all.len(), 4);
    assert_eq!(all[0], "Compiling log");
    assert!(filter_full_output(&lines[..1].to_vec(), "log", false).is_empty());
}

#[test]
fn separators_normalized_on_placeholder_lines() {
    let lines = vec![
        "error at $REPO_PATH\\tests\\a.rs".to_string(),
        "note: C:\\other\\b.rs".to_string(),
    ];
    let r = normalize_separators(&lines, "$REPO_PATH");
    assert_eq!(r, vec!["error at $REPO_PATH/tests/a.rs".to_string(), "note: C:\\other\\b.rs".to_string()]);
}
