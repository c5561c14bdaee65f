use show::errors::ShowError;
use show::render::{render_path, Style};
use show::tree::{walk_tree, TreeNode};
use show::walk::{
    EntryInfo, EntryType, Metadata, PrintOption, SearchFilter, Walk, WalkEvent,
};

fn meta() -> Metadata {
    Metadata { size: 0, mode: 0o644, created: None, modified: None, accessed: None }
}

fn meta_times(created: u64, modified: u64, accessed: u64) -> Metadata {
    Metadata {
        size: 0,
        mode: 0o644,
        created: Some(created),
        modified: Some(modified),
        accessed: Some(accessed),
    }
}

fn file(name: &str) -> TreeNode {
    TreeNode {
        name: name.to_string(),
        typ: EntryType::RegularFile,
        symlink_to_dir: false,
        metadata: meta(),
        readable: true,
        children: vec![],
    }
}

fn dir(name: &str, children: Vec<TreeNode>) -> TreeNode {
    TreeNode {
        name: name.to_string(),
        typ: EntryType::Directory,
        symlink_to_dir: false,
        metadata: meta(),
        readable: true,
        children,
    }
}

fn emitted_paths(events: &[WalkEvent]) -> Vec<String> {
    let mut out = vec![];
    for ev in events {
        if let WalkEvent::Entry(e) = ev {
            out.push(render_path(e.path(), Style::Posix));
        }
    }
    out
}

fn sample_tree() -> TreeNode {
    // Depth 0: /r; depth 1: a, f1; depth 2: b, f2; depth 3: f3.
    dir(
        "r",
        vec![
            dir("a", vec![dir("b", vec![file("f3")]), file("f2")]),
            file("f1"),
        ],
    )
}

#[test]
fn builders_set_their_fields() {
    let w = Walk::new()
        .with_threads(4)
        .follow_symlink(true)
        .skip_hidden(false)
        .ignore_case(true)
        .min_depth(1)
        .max_depth(3);
    assert_eq!(w.threads, 4);
    assert!(w.filter.follow_symlink);
    assert!(!w.filter.skip_hidden);
    assert!(w.filter.ignore_case);
    assert_eq!(w.filter.min_depth, Some(1));
    assert_eq!(w.filter.max_depth, Some(3));
    let w = w.single_thread();
    assert_eq!(w.threads, 1);
}

#[test]
fn default_filter_values() {
    let f = SearchFilter::default();
    assert!(!f.follow_symlink);
    assert!(f.skip_hidden);
    assert!(!f.ignore_case);
    assert!(f.min_depth.is_none());
    assert!(f.max_depth.is_none());
    assert!(f.include_pattern.is_empty());
    assert!(f.exclude_pattern.is_empty());
    assert!(f.create_before.is_none() && f.create_after.is_none());
    assert!(f.change_before.is_none() && f.change_after.is_none());
    assert!(f.access_before.is_none() && f.access_after.is_none());
}

#[test]
fn conflicting_depth_bounds_are_refused() {
    let w = Walk::new().min_depth(3).max_depth(1);
    match w.start() {
        Err(e) => assert_eq!(e, ShowError::InvalidConfiguration),
        Ok(_) => panic!("a minimum depth above the maximum must be refused"),
    }
    match walk_tree(&Walk::new().min_depth(3).max_depth(1), &sample_tree()) {
        Err(e) => assert_eq!(e, ShowError::InvalidConfiguration),
        Ok(_) => panic!("a minimum depth above the maximum must be refused"),
    }
    assert_eq!(ShowError::InvalidConfiguration.describe(), "invalid configuration");
}

#[test]
fn error_descriptions() {
    assert_eq!(ShowError::IoError.describe(), "i/o error");
    assert_eq!(ShowError::EntryUnreadable.describe(), "entry unreadable");
    assert_eq!(ShowError::NotFound.describe(), "not found");
}

#[test]
fn max_depth_one_yields_roots_and_direct_children_only() {
    let w = Walk::new().max_depth(1);
    let evs = walk_tree(&w, &sample_tree()).expect("the walk runs");
    let paths = emitted_paths(&evs);
    assert_eq!(paths, vec!["/r", "/r/a", "/r/f1"]);
}

#[test]
fn unbounded_walk_reaches_the_whole_tree() {
    let w = Walk::new();
    let evs = walk_tree(&w, &sample_tree()).expect("the walk runs");
    let mut paths = emitted_paths(&evs);
    paths.sort();
    assert_eq!(paths, vec!["/r", "/r/a", "/r/a/b", "/r/a/b/f3", "/r/a/f2", "/r/f1"]);
}

#[test]
fn min_depth_drops_shallow_entries_but_still_descends() {
    let w = Walk::new().min_depth(2);
    let evs = walk_tree(&w, &sample_tree()).expect("the walk runs");
    let mut paths = emitted_paths(&evs);
    paths.sort();
    assert_eq!(paths, vec!["/r/a/b", "/r/a/b/f3", "/r/a/f2"]);
}

#[test]
fn skip_hidden_excludes_dot_names() {
    let tree = dir("r", vec![file(".secret"), file("shown"), dir(".cfg", vec![file("inner")])]);
    let w = Walk::new();
    let evs = walk_tree(&w, &tree).expect("the walk runs");
    let paths = emitted_paths(&evs);
    assert!(paths.contains(&"/r/shown".to_string()));
    assert!(paths.contains(&"/r/.cfg/inner".to_string()));
    for p in &paths {
        assert!(!p.split('/').last().unwrap().starts_with('.'));
    }
}

#[test]
fn hidden_names_emitted_when_not_skipped() {
    let tree = dir("r", vec![file(".secret"), file("shown")]);
    let w = Walk::new().skip_hidden(false);
    let evs = walk_tree(&w, &tree).expect("the walk runs");
    let paths = emitted_paths(&evs);
    assert!(paths.contains(&"/r/.secret".to_string()));
    assert!(paths.contains(&"/r/shown".to_string()));
}

#[test]
fn unreadable_directory_reported_once_and_siblings_go_on() {
    let mut bad = dir("locked", vec![file("never_seen")]);
    bad.readable = false;
    let tree = dir("r", vec![file("before"), bad, file("after")]);
    let w = Walk::new();
    let evs = walk_tree(&w, &tree).expect("the walk runs");
    let mut unreadable: usize = 0;
    for ev in &evs {
        if let WalkEvent::Unreadable(p) = ev {
            unreadable += 1;
            assert_eq!(render_path(p, Style::Posix), "/r/locked");
        }
    }
    assert_eq!(unreadable, 1);
    let paths = emitted_paths(&evs);
    assert!(paths.contains(&"/r/before".to_string()));
    assert!(paths.contains(&"/r/locked".to_string()));
    assert!(paths.contains(&"/r/after".to_string()));
    assert!(!paths.contains(&"/r/locked/never_seen".to_string()));
}

#[test]
fn exclude_patterns_win_over_include_patterns() {
    let mut f = SearchFilter::default();
    f.include_pattern = vec!["log".to_string()];
    f.exclude_pattern = vec!["old".to_string()];
    let tree = dir("r", vec![file("a.log"), file("old.log"), file("notes.txt")]);
    let w = Walk::new().with_filter(f).min_depth(1);
    let evs = walk_tree(&w, &tree).expect("the walk runs");
    assert_eq!(emitted_paths(&evs), vec!["/r/a.log"]);
}

#[test]
fn ignore_case_folds_pattern_matching() {
    let mut f = SearchFilter::default();
    f.include_pattern = vec!["LOG".to_string()];
    f.ignore_case = true;
    let tree = dir("r", vec![file("a.log"), file("notes.txt")]);
    let w = Walk::new().with_filter(f).min_depth(1);
    let evs = walk_tree(&w, &tree).expect("the walk runs");
    assert_eq!(emitted_paths(&evs), vec!["/r/a.log"]);
}

#[test]
fn time_bounds_filter_on_reported_timestamps() {
    let mut f = SearchFilter::default();
    f.change_after = Some(100);
    f.change_before = Some(200);
    let mut recent = file("recent");
    recent.metadata = meta_times(0, 150, 0);
    let mut stale = file("stale");
    stale.metadata = meta_times(0, 50, 0);
    let mut unknown = file("unknown");
    unknown.metadata = meta();
    let tree = dir("r", vec![recent, stale, unknown]);
    let tree = TreeNode { metadata: meta_times(0, 150, 0), ..tree };
    let w = Walk::new().with_filter(f);
    let evs = walk_tree(&w, &tree).expect("the walk runs");
    let paths = emitted_paths(&evs);
    assert_eq!(paths, vec!["/r", "/r/recent"]);
}

#[test]
fn symlink_children_followed_only_when_asked() {
    let link = TreeNode {
        name: "link".to_string(),
        typ: EntryType::Symlink,
        symlink_to_dir: true,
        metadata: meta(),
        readable: true,
        children: vec![file("target_child")],
    };
    let tree = dir("r", vec![link]);
    let evs = walk_tree(&Walk::new(), &tree).expect("the walk runs");
    assert!(!emitted_paths(&evs).contains(&"/r/link/target_child".to_string()));

    let link2 = TreeNode {
        name: "link".to_string(),
        typ: EntryType::Symlink,
        symlink_to_dir: true,
        metadata: meta(),
        readable: true,
        children: vec![file("target_child")],
    };
    let tree2 = dir("r", vec![link2]);
    let evs2 = walk_tree(&Walk::new().follow_symlink(true), &tree2).expect("the walk runs");
    assert!(emitted_paths(&evs2).contains(&"/r/link/target_child".to_string()));
    for ev in &evs2 {
        if let WalkEvent::Entry(e) = ev {
            if render_path(e.path(), Style::Posix) == "/r/link/target_child" {
                assert!(e.follow_link());
                assert!(e.is_symlink());
            }
        }
    }
}

#[test]
fn engine_visit_and_expand_by_hand() {
    let w = Walk::new().max_depth(1);
    let mut walker = w.start().expect("the configuration is sound");
    let root = show::path::NormalizedPath { prefix: None, segments: vec!["r".to_string()] };
    let root_info = EntryInfo {
        name: "r".to_string(),
        typ: EntryType::Directory,
        symlink_to_dir: false,
        metadata: meta(),
    };
    let evs = walker.visit_root(root, &root_info);
    assert_eq!(emitted_paths(&evs), vec!["/r"]);
    assert_eq!(walker.filter().max_depth, Some(1));
    assert_eq!(walker.pending_count(), 1);

    let pending = walker.take_pending().expect("the root was queued");
    assert_eq!(pending.depth, 0);
    let listing = vec![
        EntryInfo {
            name: "sub".to_string(),
            typ: EntryType::Directory,
            symlink_to_dir: false,
            metadata: meta(),
        },
        EntryInfo {
            name: "f".to_string(),
            typ: EntryType::RegularFile,
            symlink_to_dir: false,
            metadata: meta(),
        },
    ];
    let evs = walker.expand(&pending, &listing);
    assert_eq!(emitted_paths(&evs), vec!["/r/sub", "/r/f"]);
    // max_depth = 1: the child directory at depth 1 is not queued.
    assert!(walker.take_pending().is_none());
}

#[test]
fn engine_reports_unreadable_without_touching_the_queue() {
    let w = Walk::new();
    let mut walker = w.start().expect("the configuration is sound");
    let root = show::path::NormalizedPath { prefix: None, segments: vec!["r".to_string()] };
    let root_info = EntryInfo {
        name: "r".to_string(),
        typ: EntryType::Directory,
        symlink_to_dir: false,
        metadata: meta(),
    };
    walker.visit_root(root, &root_info);
    let pending = walker.take_pending().expect("the root was queued");
    let ev = walker.unreadable(&pending);
    match ev {
        WalkEvent::Unreadable(p) => assert_eq!(render_path(&p, Style::Posix), "/r"),
        WalkEvent::Entry(_) => panic!("a failure record was expected"),
    }
    assert!(walker.take_pending().is_none());
}

#[test]
fn entry_getters_report_the_visit() {
    let w = Walk::new();
    let mut walker = w.start().expect("the configuration is sound");
    let root = show::path::NormalizedPath { prefix: None, segments: vec!["r".to_string()] };
    let mut m = meta();
    m.size = 42;
    m.mode = 0o755;
    let root_info = EntryInfo {
        name: "r".to_string(),
        typ: EntryType::Directory,
        symlink_to_dir: false,
        metadata: m,
    };
    let evs = walker.visit_root(root, &root_info);
    match &evs[0] {
        WalkEvent::Entry(e) => {
            assert!(e.is_dir());
            assert!(!e.is_file());
            assert!(!e.is_symlink());
            assert!(!e.follow_link());
            assert_eq!(e.depth(), 0);
            assert_eq!(e.metadata().size, 42);
            assert_eq!(e.metadata().mode, 0o755);
            assert!(matches!(e.file_type(), EntryType::Directory));
        },
        WalkEvent::Unreadable(_) => panic!("the root was readable"),
    }
}

#[test]
fn print_option_bounds_and_extensions() {
    let mut o = PrintOption::new();
    assert!(o.allows_entry("anything.txt", 5));
    o.min_file_size = Some(10);
    o.max_file_size = Some(100);
    assert!(!o.allows_entry("a.txt", 5));
    assert!(o.allows_entry("a.txt", 10));
    assert!(!o.allows_entry("a.txt", 101));
    o.exclude_file_extension = vec!["tmp".to_string()];
    o.include_file_extension = vec!["txt".to_string(), "tmp".to_string()];
    assert!(o.allows_entry("a.TXT", 50));
    assert!(!o.allows_entry("a.tmp", 50));
    assert!(!o.allows_entry("a.rs", 50));
    assert!(!o.allows_entry("noext", 50));
}

#[test]
fn glob_patterns_match_the_whole_name() {
    let mut f = SearchFilter::default();
    f.include_pattern = vec!["*.log".to_string()];
    let tree = dir("r", vec![file("a.log"), file("a.log.bak"), file("log")]);
    let w = Walk::new().with_filter(f).min_depth(1);
    let evs = walk_tree(&w, &tree).expect("the walk runs");
    assert_eq!(emitted_paths(&evs), vec!["/r/a.log"]);
}

#[test]
fn substring_patterns_match_anywhere() {
    let mut f = SearchFilter::default();
    f.include_pattern = vec!["log".to_string()];
    let tree = dir("r", vec![file("a.log"), file("catalog"), file("notes")]);
    let w = Walk::new().with_filter(f).min_depth(1);
    let evs = walk_tree(&w, &tree).expect("the walk runs");
    assert_eq!(emitted_paths(&evs), vec!["/r/a.log", "/r/catalog"]);
}

#[test]
fn question_mark_matches_one_character() {
    assert!(show::strutil::str_pattern_matches("a?c", "abc", false));
    assert!(!show::strutil::str_pattern_matches("a?c", "abbc", false));
    assert!(show::strutil::str_pattern_matches("*b*", "abc", false));
    assert!(!show::strutil::str_pattern_matches("*d*", "abc", false));
    assert!(show::strutil::str_pattern_matches("A?C", "abc", true));
}
