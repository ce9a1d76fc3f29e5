use rtree::entry::{classify, is_excluded, listing, tint_of, Config, EntryKind, EntryMeta, RawEntry, Tint};
use rtree::order::name_precedes;
use rtree::pattern::{ignore_file_patterns, ignore_line_pattern, load_patterns, user_patterns};
use rtree::stats::Stats;
use rtree::text::{join, split, starts_with_char, trim, trim_leading};
use rtree::walker::{depth_allowed, render_prefix};

fn meta(is_symlink: bool, is_dir: bool, mode: u32, target: Option<&str>) -> EntryMeta {
    EntryMeta { is_symlink, is_dir, mode, link_target: target.map(|t| t.to_string()) }
}

#[test]
fn trim_strips_both_ends() {
    assert_eq!(trim("  a b \t"), "a b");
    assert_eq!(trim("   "), "");
    assert_eq!(trim("x"), "x");
}

#[test]
fn trim_leading_strips_run() {
    assert_eq!(trim_leading("//a/b", '/'), "a/b");
    assert_eq!(trim_leading("a", '/'), "a");
}

#[test]
fn split_keeps_empty_pieces() {
    assert_eq!(split("a|b||c", '|'), vec!["a", "b", "", "c"]);
    assert_eq!(split("", '|'), vec![""]);
    assert_eq!(split("|", '|'), vec!["", ""]);
}

#[test]
fn join_adds_one_separator() {
    assert_eq!(join("/tmp/t", "x"), "/tmp/t/x");
    assert_eq!(join("/tmp/t/", "x"), "/tmp/t/x");
    assert_eq!(join("", "x"), "x");
}

#[test]
fn starts_with_checks_first_char() {
    assert!(starts_with_char(".env", '.'));
    assert!(!starts_with_char("env", '.'));
    assert!(!starts_with_char("", '.'));
}

#[test]
fn name_order_is_code_point_order() {
    assert!(name_precedes("C", "a"));
    assert!(!name_precedes("a", "C"));
    assert!(name_precedes("a", "ab"));
    assert!(!name_precedes("ab", "a"));
    assert!(name_precedes("same", "same"));
    assert!(name_precedes("z", "é"));
}

#[test]
fn listing_sorts_and_filters() {
    let entries = vec![
        RawEntry { name: "b".to_string(), meta: None },
        RawEntry { name: ".h".to_string(), meta: None },
        RawEntry { name: "a".to_string(), meta: None },
        RawEntry { name: "C".to_string(), meta: None },
        RawEntry { name: "x.log".to_string(), meta: None },
    ];
    let cfg = Config { max_depth: None, show_hidden: false };
    let r = listing("d", entries, &cfg, &user_patterns("*.log"));
    let names: Vec<String> = r.into_iter().map(|e| e.name).collect();
    assert_eq!(names, vec!["C", "a", "b"]);
}

#[test]
fn exclusion_rules() {
    let cfg = Config { max_depth: None, show_hidden: false };
    let shown = Config { max_depth: None, show_hidden: true };
    let none = Vec::new();
    assert!(is_excluded(&cfg, &none, "d", ".env"));
    assert!(!is_excluded(&shown, &none, "d", ".env"));
    let pats = user_patterns("/d/secret|*.o");
    assert!(is_excluded(&shown, &pats, "/d", "secret"));
    assert!(!is_excluded(&shown, &pats, "/d/e", "secret"));
    assert!(is_excluded(&shown, &pats, "/d/e", "m.o"));
    assert!(!is_excluded(&shown, &pats, "/d/e", "m.c"));
}

#[test]
fn user_patterns_split_and_drop_malformed() {
    let pats = user_patterns("*.log|/abs/p|a***b|[");
    assert_eq!(pats.len(), 2);
    assert!(!pats[0].is_root_anchored());
    assert_eq!(pats[0].as_str(), "*.log");
    assert!(pats[1].is_root_anchored());
    assert_eq!(pats[1].as_str(), "/abs/p");
    assert!(pats[0].matches("/x/app.log", "app.log"));
    assert!(!pats[0].matches("/x/app.txt", "app.txt"));
}

#[test]
fn ignore_file_lines() {
    let lines: Vec<String> = vec![
        "# comment", "", "   ", "  target  ", "/secret.txt", "//twice", "  # late comment", "[",
    ]
    .into_iter()
    .map(|s| s.to_string())
    .collect();
    let pats = ignore_file_patterns("/r", &lines);
    assert_eq!(pats.len(), 3);
    assert!(!pats[0].is_root_anchored());
    assert_eq!(pats[0].as_str(), "target");
    assert!(pats[1].is_root_anchored());
    assert_eq!(pats[1].as_str(), "/r/secret.txt");
    assert_eq!(pats[2].as_str(), "/r/twice");
    assert!(ignore_line_pattern("/r", "#x").is_none());
}

#[test]
fn classification() {
    assert!(matches!(classify("l", &meta(true, true, 0o777, Some("t"))), EntryKind::Symlink(t) if t == "t"));
    assert!(matches!(classify("l", &meta(true, false, 0o777, None)), EntryKind::Symlink(t) if t == "unreadable"));
    assert!(matches!(classify("d", &meta(false, true, 0o755, None)), EntryKind::Directory));
    assert!(matches!(classify("x", &meta(false, false, 0o100, None)), EntryKind::Executable));
    assert!(matches!(classify("x", &meta(false, false, 0o001, None)), EntryKind::Executable));
    assert!(matches!(classify("a.png", &meta(false, false, 0o644, None)), EntryKind::Regular(Tint::Magenta)));
}

#[test]
fn tints_by_extension() {
    assert_eq!(tint_of("a.svg"), Tint::Magenta);
    assert_eq!(tint_of("a.jpg"), Tint::Magenta);
    assert_eq!(tint_of("a.b.pdf"), Tint::Red);
    assert_eq!(tint_of("a.zip"), Tint::Red);
    assert_eq!(tint_of("a.tar"), Tint::Red);
    assert_eq!(tint_of("c.yaml"), Tint::Yellow);
    assert_eq!(tint_of("c.yml"), Tint::Yellow);
    assert_eq!(tint_of("readme"), Tint::Plain);
    assert_eq!(tint_of("png"), Tint::Magenta);
    assert_eq!(tint_of("a.rs"), Tint::Plain);
}

#[test]
fn prefixes() {
    assert_eq!(render_prefix(&vec![], false), "├── ");
    assert_eq!(render_prefix(&vec![], true), "└── ");
    assert_eq!(render_prefix(&vec![false, true], true), "│       └── ");
    assert_eq!(render_prefix(&vec![true, false], false), "    │   ├── ");
}

#[test]
fn depth_guard() {
    let one = Config { max_depth: Some(1), show_hidden: false };
    assert!(depth_allowed(&one, 0));
    assert!(!depth_allowed(&one, 1));
    let unbounded = Config { max_depth: None, show_hidden: false };
    assert!(depth_allowed(&unbounded, 1000));
}

#[test]
fn stats_combine_pointwise() {
    let a = Stats { directories: 1, files: 2 };
    let b = Stats { directories: 3, files: 4 };
    assert_eq!(a.combine(&b), Stats { directories: 4, files: 6 });
    assert_eq!(Stats::zero().combine(&a), a);
}

#[test]
fn load_combines_both_sources() {
    let lines = vec!["/top".to_string(), "*.tmp".to_string()];
    let all = load_patterns("/r", Some("a|b"), Some(&lines));
    let texts: Vec<&str> = all.iter().map(|p| p.as_str()).collect();
    assert_eq!(texts, vec!["a", "b", "/r/top", "*.tmp"]);
    assert!(load_patterns("/r", None, None).is_empty());
    assert_eq!(load_patterns("/r", None, Some(&lines)).len(), 2);
    assert_eq!(load_patterns("/r", Some("x"), None).len(), 1);
}
