use autotyper::config;
use autotyper::config::{
    default_countdown, default_failsafe, empty_snippets, get_snippet, import_snippets,
    load_outcome, snippet_at, snippet_count, LoadOutcome,
};

fn names(s: &autotyper::config::Snippets) -> Vec<String> {
    (0..snippet_count(s)).map(|i| snippet_at(s, i).0).collect()
}

#[test]
fn default_config_created() {
    assert_eq!(default_countdown(), 5);
    assert!(default_failsafe());
    assert_eq!(snippet_count(&empty_snippets()), 0);
}

#[test]
fn add_snippet() {
    let mut cfg = empty_snippets();
    config::add_snippet(&mut cfg, "test_snippet", "Hello, World!");
    assert_eq!(
        get_snippet(&cfg, "test_snippet").as_deref(),
        Some("Hello, World!")
    );
}

#[test]
fn remove_snippet() {
    let mut cfg = empty_snippets();
    config::add_snippet(&mut cfg, "to_remove", "content");
    assert!(config::remove_snippet(&mut cfg, "to_remove"));
    assert!(get_snippet(&cfg, "to_remove").is_none());
}

#[test]
fn remove_nonexistent_snippet() {
    let mut cfg = empty_snippets();
    assert!(!config::remove_snippet(&mut cfg, "nonexistent"));
}

#[test]
fn export_import_snippets() {
    let mut cfg = empty_snippets();
    config::add_snippet(&mut cfg, "snippet1", "Content 1");
    config::add_snippet(&mut cfg, "snippet2", "Content 2");

    let mut new_cfg = empty_snippets();
    import_snippets(&mut new_cfg, &cfg);
    assert_eq!(
        get_snippet(&new_cfg, "snippet1").as_deref(),
        Some("Content 1")
    );
    assert_eq!(
        get_snippet(&new_cfg, "snippet2").as_deref(),
        Some("Content 2")
    );
}

#[test]
fn corrupted_file_fallback() {
    // a corrupted file gives the defaults and is not overwritten
    assert_eq!(load_outcome(true, false), LoadOutcome::UseDefaults);
}

#[test]
fn missing_file_is_created_with_defaults() {
    assert_eq!(load_outcome(false, false), LoadOutcome::UseDefaultsAndSave);
    assert_eq!(load_outcome(true, true), LoadOutcome::UseFile);
}

#[test]
fn snippet_insertion_order_preserved() {
    let mut cfg = empty_snippets();
    config::add_snippet(&mut cfg, "b", "2");
    config::add_snippet(&mut cfg, "a", "1");
    assert_eq!(names(&cfg), vec!["b", "a"]);
}

#[test]
fn resaving_keeps_position_and_replaces_content() {
    let mut cfg = empty_snippets();
    config::add_snippet(&mut cfg, "b", "2");
    config::add_snippet(&mut cfg, "a", "1");
    config::add_snippet(&mut cfg, "b", "3");
    assert_eq!(names(&cfg), vec!["b", "a"]);
    assert_eq!(get_snippet(&cfg, "b").as_deref(), Some("3"));
}

#[test]
fn removal_keeps_order_of_the_rest() {
    let mut cfg = empty_snippets();
    for n in ["a", "b", "c"] {
        config::add_snippet(&mut cfg, n, n);
    }
    assert!(config::remove_snippet(&mut cfg, "b"));
    assert_eq!(names(&cfg), vec!["a", "c"]);
    assert_eq!(get_snippet(&cfg, "c").as_deref(), Some("c"));
}

#[test]
fn import_merges_in_order() {
    let mut cfg = empty_snippets();
    config::add_snippet(&mut cfg, "x", "old");
    config::add_snippet(&mut cfg, "y", "keep");
    let mut incoming = empty_snippets();
    config::add_snippet(&mut incoming, "z", "new");
    config::add_snippet(&mut incoming, "x", "replaced");
    import_snippets(&mut cfg, &incoming);
    assert_eq!(names(&cfg), vec!["x", "y", "z"]);
    assert_eq!(get_snippet(&cfg, "x").as_deref(), Some("replaced"));
    assert_eq!(get_snippet(&cfg, "y").as_deref(), Some("keep"));
}

#[test]
fn import_into_empty_copies_everything() {
    let mut source = empty_snippets();
    config::add_snippet(&mut source, "中文片段", "内容");
    config::add_snippet(&mut source, "k", "v");
    let mut target = empty_snippets();
    import_snippets(&mut target, &source);
    assert_eq!(names(&target), names(&source));
    assert_eq!(snippet_at(&target, 0), ("中文片段".to_string(), "内容".to_string()));
}
