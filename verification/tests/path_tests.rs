use show::path::{normalize, normalize_str, parse, NormalizedPath, Part, Prefix};
use show::render::{render, render_path, render_str, Style};

fn cwd_of(s: &str) -> NormalizedPath {
    let root = NormalizedPath { prefix: None, segments: vec![] };
    normalize_str(s, &root)
}

fn posix(p: &NormalizedPath) -> String {
    render_path(p, Style::Posix)
}

#[test]
fn normalize_only_dots_gives_cwd_back() {
    let cwd = cwd_of("/a/b");
    assert_eq!(posix(&normalize_str(".", &cwd)), "/a/b");
    assert_eq!(posix(&normalize_str("./.", &cwd)), "/a/b");
    assert_eq!(posix(&normalize_str("././././.", &cwd)), "/a/b");
}

#[test]
fn normalize_leaves_no_dot_segments() {
    let cwd = cwd_of("/a/b");
    for raw in ["../x/./y/..", "./..", "x/../../..", "a/b/c/../../d/."] {
        let n = normalize_str(raw, &cwd);
        for seg in &n.segments {
            assert_ne!(seg, ".");
            assert_ne!(seg, "..");
        }
    }
}

#[test]
fn normalize_parent_pops_and_root_pop_is_noop() {
    let cwd = cwd_of("/a/b");
    assert_eq!(posix(&normalize_str("../x", &cwd)), "/a/x");
    let cwd2 = cwd_of("/a");
    assert_eq!(posix(&normalize_str("../../x", &cwd2)), "/x");
    assert_eq!(posix(&normalize_str("../../../../x", &cwd2)), "/x");
}

#[test]
fn normalize_relative_appends_to_cwd() {
    let cwd = cwd_of("/a/b");
    assert_eq!(posix(&normalize_str("c/d", &cwd)), "/a/b/c/d");
    assert_eq!(posix(&normalize_str("./c", &cwd)), "/a/b/c");
}

#[test]
fn normalize_absolute_ignores_cwd() {
    let cwd = cwd_of("/a/b");
    assert_eq!(posix(&normalize_str("/x/y", &cwd)), "/x/y");
    assert_eq!(posix(&normalize_str("/x/../y", &cwd)), "/y");
}

#[test]
fn normalize_bare_root() {
    let cwd = cwd_of("/a/b");
    assert_eq!(posix(&normalize_str("/", &cwd)), "/");
    assert_eq!(posix(&normalize_str("/x/..", &cwd)), "/");
}

#[test]
fn normalize_drive_prefix_kept() {
    let cwd = cwd_of("/a");
    let n = normalize_str("c:/win/../tools", &cwd);
    assert_eq!(posix(&n), "c:/tools");
}

#[test]
fn parse_collapses_repeated_separators() {
    let cwd = cwd_of("/q");
    assert_eq!(posix(&normalize_str("//x///y//", &cwd)), "/x/y");
}

#[test]
fn parse_reads_both_separator_styles() {
    let cwd = cwd_of("/q");
    assert_eq!(posix(&normalize_str("a\\b/c", &cwd)), "/q/a/b/c");
}

#[test]
fn parse_classifies_components() {
    let raw = parse("./x/../y");
    assert!(matches!(raw.parts[0], Part::Cur));
    assert!(matches!(raw.parts[2], Part::Parent));
    match &raw.parts[1] {
        Part::Normal(s) => assert_eq!(s, "x"),
        _ => panic!("expected a named component"),
    }
    assert!(!raw.rooted);
    assert!(raw.prefix.is_none());
}

#[test]
fn parse_reads_drive_prefix() {
    let raw = parse("C:\\tools\\bin");
    match &raw.prefix {
        Some(Prefix::Disk(d)) => assert_eq!(d, "C"),
        _ => panic!("expected a drive prefix"),
    }
    assert!(raw.rooted);
    assert_eq!(raw.parts.len(), 2);
}

#[test]
fn render_posix_is_idempotent() {
    for raw in ["/a/b/c", "a/../b", "C:/x/y", "c:", "/", "", "x", "./x/..", "//srv//share//f"] {
        let once = render_str(raw, Style::Posix);
        let twice = render_str(&once, Style::Posix);
        assert_eq!(once, twice);
    }
}

#[test]
fn render_posix_idempotent_on_unc_value() {
    let raw = show::path::RawPath {
        prefix: Some(Prefix::Unc("srv".to_string(), "share".to_string())),
        rooted: true,
        parts: vec![Part::Normal("f".to_string())],
    };
    let once = render(&raw, Style::Posix);
    assert_eq!(once, "/srv/share/f");
    let twice = render_str(&once, Style::Posix);
    assert_eq!(once, twice);
}

#[test]
fn render_windows_style_spelling() {
    let raw = parse("C:/tools/bin");
    assert_eq!(render(&raw, Style::Windows), "C:\\tools\\bin");
    let unc = show::path::RawPath {
        prefix: Some(Prefix::Unc("srv".to_string(), "share".to_string())),
        rooted: true,
        parts: vec![Part::Normal("f".to_string())],
    };
    assert_eq!(render(&unc, Style::Windows), "\\\\srv\\share\\f");
}

#[test]
fn render_trims_trailing_separator_but_keeps_bare_root() {
    assert_eq!(render_str("/a/", Style::Posix), "/a");
    assert_eq!(render_str("/", Style::Posix), "/");
    assert_eq!(render_str("c:/", Style::Posix), "c:/");
}

#[test]
fn normalize_value_interface_matches_string_interface() {
    let cwd = cwd_of("/a/b");
    let raw = parse("../x");
    let n = normalize(&raw, &cwd);
    assert_eq!(posix(&n), "/a/x");
    match n.name() {
        Some(last) => assert_eq!(last, "x"),
        None => panic!("expected a last segment"),
    }
}
