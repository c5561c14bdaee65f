use show::path::{normalize_str, NormalizedPath};
use show::render::{render_path, Style};
use show::which::{executable_candidates, search_all_executables, search_executable};

fn dir(s: &str) -> NormalizedPath {
    let root = NormalizedPath { prefix: None, segments: vec![] };
    normalize_str(s, &root)
}

fn spell(p: &NormalizedPath) -> String {
    render_path(p, Style::Posix)
}

#[test]
fn candidates_fold_the_name_and_keep_directory_order() {
    let dirs = vec![dir("/usr/bin"), dir("/bin")];
    let exts: Vec<String> = vec![];
    let c = executable_candidates("GCC", &dirs, &exts, false);
    let spelled: Vec<String> = c.iter().map(spell).collect();
    assert_eq!(spelled, vec!["/usr/bin/gcc".to_string(), "/bin/gcc".to_string()]);
}

#[test]
fn candidates_extension_mode_tries_directory_then_extension() {
    let dirs = vec![dir("/w/a"), dir("/w/b")];
    let exts = vec!["COM".to_string(), "EXE".to_string()];
    let c = executable_candidates("Tool", &dirs, &exts, true);
    let spelled: Vec<String> = c.iter().map(spell).collect();
    assert_eq!(
        spelled,
        vec![
            "/w/a/tool.com".to_string(),
            "/w/a/tool.exe".to_string(),
            "/w/b/tool.com".to_string(),
            "/w/b/tool.exe".to_string(),
        ]
    );
}

#[test]
fn candidates_with_own_extension_skip_the_extension_list() {
    let dirs = vec![dir("/w/a")];
    let exts = vec!["com".to_string(), "exe".to_string()];
    let c = executable_candidates("tool.exe", &dirs, &exts, true);
    let spelled: Vec<String> = c.iter().map(spell).collect();
    assert_eq!(spelled, vec!["/w/a/tool.exe".to_string()]);
}

#[test]
fn first_is_none_exactly_when_all_is_empty() {
    let dirs = vec![dir("/a"), dir("/b"), dir("/c")];
    let exts: Vec<String> = vec![];
    let cands = executable_candidates("x", &dirs, &exts, false);

    let none = vec![false, false, false];
    assert!(search_executable(&cands, &none).is_none());
    assert!(search_all_executables(&cands, &none).is_empty());

    let some = vec![false, true, true];
    let first = search_executable(&cands, &some).expect("a candidate was accepted");
    let all = search_all_executables(&cands, &some);
    assert_eq!(all.len(), 2);
    assert_eq!(spell(&first), spell(&all[0]));
    assert_eq!(spell(&first), "/b/x");
    assert_eq!(spell(&all[1]), "/c/x");
}

#[test]
fn all_keeps_order_and_duplicates() {
    let dirs = vec![dir("/a"), dir("/a")];
    let exts: Vec<String> = vec![];
    let cands = executable_candidates("x", &dirs, &exts, false);
    let both = vec![true, true];
    let all = search_all_executables(&cands, &both);
    assert_eq!(all.len(), 2);
    assert_eq!(spell(&all[0]), "/a/x");
    assert_eq!(spell(&all[1]), "/a/x");
}
