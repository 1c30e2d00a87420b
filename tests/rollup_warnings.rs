use rollup_warnings::aggregate::{aggregate, compose_comment, new_mentions, MentionState};
use rollup_warnings::classify::{classify, dangerous_files, pings_non_author, touches_path, MentionRule};
use rollup_warnings::commit::{CommitAction, CommitPhase, Committer};
use rollup_warnings::extract::get_rolled_up_prs;
use rollup_warnings::rollup::{classify_all, is_active_rollup, rollup_mentions};

fn strings(items: &[&str]) -> Vec<String> {
    items.iter().map(|s| s.to_string()).collect()
}

fn rule(path: &str, message: Option<&str>, cc: &[&str]) -> MentionRule {
    MentionRule { path: path.to_string(), message: message.map(|m| m.to_string()), cc: strings(cc) }
}

fn state(paths: &[&str]) -> MentionState {
    MentionState { paths: strings(paths) }
}

#[test]
fn can_get_rolled_up_prs() {
    let body = r#"Successful merges:

 - #101075 (Migrate rustc_codegen_gcc to SessionDiagnostics )
 - #102350 (Improve errors for incomplete functions in struct definitions)
 - #102481 (rustdoc: remove unneeded CSS `.rust-example-rendered { position }`)
 - #102491 (rustdoc: remove no-op source sidebar `opacity`)

Failed merges:


r? @ghost
@rustbot modify labels: rollup
<!-- homu-ignore:start -->
[Create a similar rollup](https://bors.rust-lang.org/queue/rust?prs=101075,102350,102481,102491,102499)
<!-- homu-ignore:end -->"#;
    let prs = get_rolled_up_prs(body);
    assert_eq!(prs, vec!["101075", "102350", "102481", "102491"]);
}

#[test]
fn canonical_body_gives_ids_in_order() {
    let body = "Successful merges:\n\n - #101075 (...)\n - #102350 (...)\n\nFailed merges:\n...";
    assert_eq!(get_rolled_up_prs(body), vec!["101075", "102350"]);
}

#[test]
fn crlf_body_is_read_like_lf() {
    let body = "Successful merges:\r\n\r\n - #7 (a)\r\n - #8 (b)\r\n";
    assert_eq!(get_rolled_up_prs(body), vec!["7", "8"]);
}

#[test]
fn body_without_header_gives_nothing() {
    let body = " - #101075 (x)\n - #102350 (y)\n";
    assert!(get_rolled_up_prs(body).is_empty());
    assert!(get_rolled_up_prs("").is_empty());
}

#[test]
fn header_must_be_the_whole_line() {
    let body = "Successful merges: none\n - #1 (a)\n";
    assert!(get_rolled_up_prs(body).is_empty());
}

#[test]
fn interruption_ends_the_run() {
    let body = "Successful merges:\n - #1 (a)\nsome prose\n - #2 (b)\n";
    assert_eq!(get_rolled_up_prs(body), vec!["1"]);
}

#[test]
fn line_without_space_is_skipped() {
    let body = "Successful merges:\n - #1\n - #2 (b)\n - #2 (again)\n";
    assert_eq!(get_rolled_up_prs(body), vec!["2", "2"]);
}

#[test]
fn prefix_is_matched_by_component() {
    let rules = vec![rule("compiler", None, &["@bob"])];
    assert_eq!(classify(&strings(&["compiler/src/lib"]), &rules, "alice"), vec!["compiler"]);
    assert!(classify(&strings(&["compiler2/src/lib"]), &rules, "alice").is_empty());
    assert!(touches_path(&strings(&["docs/y", "compiler/x"]), "compiler"));
    assert!(!touches_path(&strings(&["docs/y"]), "compiler"));
}

#[test]
fn self_mention_is_suppressed() {
    let rules = vec![rule("compiler", None, &["@alice"])];
    let files = strings(&["compiler/src/lib"]);
    assert!(classify(&files, &rules, "alice").is_empty());
    assert!(!dangerous_files(&files, &rules, "alice"));
    assert!(dangerous_files(&files, &rules, "carol"));
    assert!(!pings_non_author(&strings(&["@@alice"]), "alice"));
    assert!(pings_non_author(&strings(&["@alice", "@bob"]), "alice"));
    assert!(pings_non_author(&strings(&[]), "alice"));
    assert!(pings_non_author(&strings(&["@alicia"]), "alice"));
}

#[test]
fn classify_keeps_configuration_order() {
    let rules = vec![
        rule("library", None, &["@x"]),
        rule("compiler", None, &[]),
        rule("docs", None, &["@y"]),
    ];
    let files = strings(&["compiler/a", "library/b"]);
    assert_eq!(classify(&files, &rules, "alice"), vec!["library", "compiler"]);
}

#[test]
fn default_block_format() {
    let rules = vec![rule("compiler", None, &["@bob", "@carol"]), rule("docs", Some("Docs changed."), &[])];
    let text = compose_comment(&strings(&["compiler", "docs"]), &rules);
    assert_eq!(text, "Some changes occurred in compiler\n\ncc @bob, @carol\n\nDocs changed.");
}

#[test]
fn unknown_key_gets_default_message() {
    let text = compose_comment(&strings(&["misc"]), &Vec::new());
    assert_eq!(text, "Some changes occurred in misc");
}

#[test]
fn aggregate_twice_is_silent() {
    let rules = vec![rule("compiler", None, &["@bob"]), rule("library", None, &["@x"])];
    let matched = vec![strings(&["compiler"]), strings(&["library", "compiler"])];
    let (first, next) = aggregate(&matched, &state(&[]), &rules);
    assert!(first.is_some());
    assert_eq!(next.paths, vec!["compiler", "library"]);
    let (second, again) = aggregate(&matched, &next, &rules);
    assert!(second.is_none());
    assert_eq!(again.paths, vec!["compiler", "library"]);
}

#[test]
fn aggregate_skips_known_keys() {
    let rules = vec![rule("compiler", None, &["@bob"]), rule("library", None, &["@x"])];
    let matched = vec![strings(&["compiler", "library"])];
    let (text, next) = aggregate(&matched, &state(&["compiler"]), &rules);
    assert_eq!(text.unwrap(), "Some changes occurred in library\n\ncc @x");
    assert_eq!(next.paths, vec!["compiler", "library"]);
}

#[test]
fn order_follows_bundled_prs() {
    let matched = vec![strings(&["library"]), strings(&["compiler", "library"])];
    let keys = new_mentions(&matched, &state(&[]));
    assert_eq!(keys, vec!["library", "compiler"]);
    let rules = vec![rule("compiler", None, &[]), rule("library", None, &[])];
    let (text, _) = aggregate(&matched, &state(&[]), &rules);
    assert_eq!(text.unwrap(), "Some changes occurred in library\n\nSome changes occurred in compiler");
}

#[test]
fn failed_post_keeps_prior_state() {
    let mut c = Committer::new(state(&["a"]), Some("hello".to_string()), state(&["a", "b"]));
    match c.start() {
        CommitAction::Post(text) => assert_eq!(text, "hello"),
        other => panic!("unexpected {:?}", other),
    }
    assert!(matches!(c.on_posted(false), CommitAction::Abort));
    assert_eq!(c.phase(), CommitPhase::Failed);
    assert_eq!(c.saved().paths, vec!["a"]);
    assert!(matches!(c.on_saved(true), CommitAction::Idle));
    assert_eq!(c.saved().paths, vec!["a"]);
}

#[test]
fn successful_post_then_save() {
    let mut c = Committer::new(state(&[]), Some("hi".to_string()), state(&["b"]));
    assert!(matches!(c.start(), CommitAction::Post(_)));
    match c.on_posted(true) {
        CommitAction::Save(s) => assert_eq!(s.paths, vec!["b"]),
        other => panic!("unexpected {:?}", other),
    }
    assert_eq!(c.saved().paths, Vec::<String>::new());
    assert!(matches!(c.on_saved(true), CommitAction::Finish));
    assert_eq!(c.phase(), CommitPhase::Done);
    assert_eq!(c.saved().paths, vec!["b"]);
}

#[test]
fn nothing_to_post_finishes() {
    let mut c = Committer::new(state(&["a"]), None, state(&["a"]));
    assert!(matches!(c.start(), CommitAction::Finish));
    assert_eq!(c.phase(), CommitPhase::Done);
    assert!(matches!(c.on_posted(true), CommitAction::Idle));
}

#[test]
fn rollup_gate() {
    assert!(is_active_rollup(true, "Rollup of 4 pull requests", false));
    assert!(!is_active_rollup(true, "Rollup of 4 pull requests", true));
    assert!(!is_active_rollup(false, "Rollup of 4 pull requests", false));
    assert!(!is_active_rollup(true, "Fix rollup", false));
}

#[test]
fn end_to_end_mentions_reviewer() {
    let rules = vec![rule("compiler", None, &["@bob"])];
    let files = vec![Some(strings(&["compiler/x"])), Some(strings(&["docs/y"]))];
    let (text, next) = rollup_mentions(&files, &state(&[]), &rules, "alice");
    assert_eq!(text.unwrap(), "Some changes occurred in compiler\n\ncc @bob");
    assert_eq!(next.paths, vec!["compiler"]);
}

#[test]
fn end_to_end_self_review_posts_nothing() {
    let rules = vec![rule("compiler", None, &["@alice"])];
    let files = vec![Some(strings(&["compiler/x"])), Some(strings(&["docs/y"]))];
    let (text, next) = rollup_mentions(&files, &state(&[]), &rules, "alice");
    assert!(text.is_none());
    assert!(next.paths.is_empty());
}

#[test]
fn missing_diff_contributes_nothing() {
    let rules = vec![rule("compiler", None, &["@bob"]), rule("library", None, &["@x"])];
    let files = vec![None, Some(strings(&["library/a"]))];
    let matched = classify_all(&files, &rules, "alice");
    assert_eq!(matched, vec![Vec::<String>::new(), strings(&["library"])]);
}
