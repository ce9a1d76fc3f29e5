use rtree::entry::{Config, EntryKind, EntryMeta, RawEntry};
use rtree::pattern::{ignore_file_patterns, user_patterns, ExclusionPattern};
use rtree::walker::{Action, Walker};
use std::collections::HashMap;

fn dir() -> Option<EntryMeta> {
    Some(EntryMeta { is_symlink: false, is_dir: true, mode: 0o755, link_target: None })
}

fn file() -> Option<EntryMeta> {
    Some(EntryMeta { is_symlink: false, is_dir: false, mode: 0o644, link_target: None })
}

fn exe() -> Option<EntryMeta> {
    Some(EntryMeta { is_symlink: false, is_dir: false, mode: 0o755, link_target: None })
}

fn link(target: &str) -> Option<EntryMeta> {
    Some(EntryMeta {
        is_symlink: true,
        is_dir: true,
        mode: 0o777,
        link_target: Some(target.to_string()),
    })
}

type Tree = HashMap<String, Vec<(String, Option<EntryMeta>)>>;

fn tree(dirs: Vec<(&str, Vec<(&str, Option<EntryMeta>)>)>) -> Tree {
    let mut t = HashMap::new();
    for (d, entries) in dirs {
        t.insert(
            d.to_string(),
            entries.into_iter().map(|(n, m)| (n.to_string(), m)).collect(),
        );
    }
    t
}

fn copy_meta(m: &Option<EntryMeta>) -> Option<EntryMeta> {
    m.as_ref().map(|m| EntryMeta {
        is_symlink: m.is_symlink,
        is_dir: m.is_dir,
        mode: m.mode,
        link_target: m.link_target.clone(),
    })
}

fn kind_text(k: &EntryKind) -> String {
    match k {
        EntryKind::Symlink(t) => format!(" -> {}", t),
        EntryKind::Directory => "/".to_string(),
        EntryKind::Executable => "*".to_string(),
        EntryKind::Regular(_) => String::new(),
    }
}

/// Runs a whole walk over the in-memory tree `t`, returning the lines (with
/// a marker for the kind), the listings requested, and the counts.
fn run(
    t: &Tree,
    root: &str,
    config: Config,
    patterns: Vec<ExclusionPattern>,
) -> (Vec<String>, Vec<String>, usize, usize) {
    let mut w = Walker::new(root.to_string(), config, patterns);
    let mut lines = Vec::new();
    let mut listed = Vec::new();
    loop {
        if let Some(p) = w.pending_dir() {
            listed.push(p.clone());
            let entries = t.get(&p).map(|es| {
                es.iter()
                    .map(|(n, m)| RawEntry { name: n.clone(), meta: copy_meta(m) })
                    .collect::<Vec<_>>()
            });
            w.enter(entries);
            continue;
        }
        match w.next() {
            Action::Show(l) => lines.push(format!("{}{}{}", l.prefix, l.name, kind_text(&l.kind))),
            Action::Skip => {}
            Action::Done => break,
        }
    }
    let s = w.stats();
    (lines, listed, s.directories, s.files)
}

fn defaults() -> Config {
    Config { max_depth: None, show_hidden: false }
}

#[test]
fn scenario_two_dirs_and_file() {
    let t = tree(vec![
        ("/tmp/t", vec![("z.txt", file()), ("y", dir()), ("x", dir())]),
        ("/tmp/t/x", vec![]),
        ("/tmp/t/y", vec![("f.txt", file())]),
    ]);
    let (lines, _, d, f) = run(&t, "/tmp/t", defaults(), vec![]);
    assert_eq!(
        lines,
        vec!["├── x/", "├── y/", "│   └── f.txt", "└── z.txt"]
    );
    assert_eq!((d, f), (2, 2));
}

#[test]
fn counts_match_rendered_lines() {
    let t = tree(vec![
        ("r", vec![("a", dir()), ("b", file()), ("c", link("a")), ("d", exe()), ("e", None)]),
        ("r/a", vec![("inner", dir()), ("k.log", file())]),
        ("r/a/inner", vec![("deep", file())]),
    ]);
    let (lines, _, d, f) = run(&t, "r", defaults(), vec![]);
    assert_eq!(d + f, lines.len());
    assert_eq!(d, 2);
    assert_eq!(f, 5);
}

#[test]
fn sort_is_by_code_point() {
    let t = tree(vec![("r", vec![("b", file()), ("a", file()), ("C", file())])]);
    let (lines, _, _, _) = run(&t, "r", defaults(), vec![]);
    assert_eq!(lines, vec!["├── C", "├── a", "└── b"]);
    let (again, _, _, _) = run(&t, "r", defaults(), vec![]);
    assert_eq!(lines, again);
}

#[test]
fn hidden_entries_follow_the_flag() {
    let t = tree(vec![("r", vec![(".env", file()), ("a", file())])]);
    let (hidden, _, _, _) = run(&t, "r", defaults(), vec![]);
    assert_eq!(hidden, vec!["└── a"]);
    let shown_cfg = Config { max_depth: None, show_hidden: true };
    let (shown, _, _, f) = run(&t, "r", shown_cfg, vec![]);
    assert_eq!(shown, vec!["├── .env", "└── a"]);
    assert_eq!(f, 2);
    let (with_pattern, _, _, _) = run(&t, "r", defaults(), user_patterns("*.txt"));
    assert_eq!(with_pattern, vec!["└── a"]);
}

#[test]
fn depth_one_lists_only_root_children() {
    let t = tree(vec![
        ("r", vec![("a", dir())]),
        ("r/a", vec![("b", dir())]),
        ("r/a/b", vec![("c", file())]),
    ]);
    let cfg = Config { max_depth: Some(1), show_hidden: false };
    let (lines, listed, d, f) = run(&t, "r", cfg, vec![]);
    assert_eq!(lines, vec!["└── a/"]);
    assert_eq!(listed, vec!["r"]);
    assert_eq!((d, f), (1, 0));
}

#[test]
fn depth_zero_lists_nothing() {
    let t = tree(vec![("r", vec![("a", dir())])]);
    let cfg = Config { max_depth: Some(0), show_hidden: false };
    let (lines, listed, d, f) = run(&t, "r", cfg, vec![]);
    assert!(lines.is_empty());
    assert!(listed.is_empty());
    assert_eq!((d, f), (0, 0));
}

#[test]
fn root_anchored_ignore_line_only_hits_root() {
    let t = tree(vec![
        ("/tmp/t", vec![("secret.txt", file()), ("sub", dir())]),
        ("/tmp/t/sub", vec![("secret.txt", file())]),
    ]);
    let pats = ignore_file_patterns("/tmp/t", &vec!["/secret.txt".to_string()]);
    assert_eq!(pats.len(), 1);
    assert!(pats[0].is_root_anchored());
    assert_eq!(pats[0].as_str(), "/tmp/t/secret.txt");
    let (lines, _, d, f) = run(&t, "/tmp/t", defaults(), pats);
    assert_eq!(lines, vec!["└── sub/", "    └── secret.txt"]);
    assert_eq!((d, f), (1, 1));
}

#[test]
fn name_anchored_pattern_hits_every_depth() {
    let t = tree(vec![
        ("r", vec![("app.log", file()), ("n", dir()), ("keep.txt", file())]),
        ("r/n", vec![("app.log", file()), ("m", dir())]),
        ("r/n/m", vec![("app.log", file())]),
    ]);
    let (lines, _, d, f) = run(&t, "r", defaults(), user_patterns("*.log"));
    assert_eq!(lines, vec!["├── keep.txt", "└── n/", "    └── m/"]);
    assert_eq!((d, f), (2, 1));
}

#[test]
fn link_to_directory_is_a_leaf() {
    let t = tree(vec![
        ("r", vec![("l", link("target")), ("target", dir())]),
        ("r/l", vec![("never", file())]),
        ("r/target", vec![]),
    ]);
    let (lines, listed, d, f) = run(&t, "r", defaults(), vec![]);
    assert_eq!(lines, vec!["├── l -> target", "└── target/"]);
    assert_eq!(listed, vec!["r", "r/target"]);
    assert_eq!((d, f), (1, 1));
}

#[test]
fn last_link_gets_the_corner() {
    let t = tree(vec![("r", vec![("a", dir()), ("z", link("a"))]), ("r/a", vec![("f", file())])]);
    let (lines, _, _, _) = run(&t, "r", defaults(), vec![]);
    assert_eq!(lines, vec!["├── a/", "│   └── f", "└── z -> a"]);
}

#[test]
fn unreadable_directory_is_empty() {
    let t = tree(vec![("r", vec![("a", dir()), ("b", file())])]);
    let (lines, _, d, f) = run(&t, "r", defaults(), vec![]);
    assert_eq!(lines, vec!["├── a/", "└── b"]);
    assert_eq!((d, f), (1, 1));
}

#[test]
fn unreadable_metadata_skips_entry_but_keeps_position() {
    let t = tree(vec![("r", vec![("a", file()), ("b", None)])]);
    let (lines, _, d, f) = run(&t, "r", defaults(), vec![]);
    assert_eq!(lines, vec!["├── a"]);
    assert_eq!((d, f), (0, 1));
}

#[test]
fn walk_twice_is_identical() {
    let t = tree(vec![
        ("r", vec![("q", dir()), ("p", exe()), (".h", file())]),
        ("r/q", vec![("x.yml", file()), ("w", link("zz"))]),
    ]);
    let first = run(&t, "r", defaults(), user_patterns("nothing"));
    let second = run(&t, "r", defaults(), user_patterns("nothing"));
    assert_eq!(first, second);
    assert_eq!(first.0, vec!["├── p*", "└── q/", "    ├── w -> zz", "    └── x.yml"]);
}
