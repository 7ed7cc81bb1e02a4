use seek::regex_builder::build_regex;
use seek::search::{base_name, search_buffer, ObjectKind};
use seek::seek::{search_value, Seek};

fn s(text: &str) -> String {
    text.to_string()
}

fn kind(is_dir: bool, is_file: bool, is_symlink: bool) -> ObjectKind {
    ObjectKind { is_dir, is_file, is_symlink }
}

#[test]
fn exact_query_matches_whole_base_name() {
    let paths = vec![s("/a/report.txt"), s("/a/report.md"), s("/a/sub/report.txt")];
    let reg = build_regex(s("report.txt"), false, true).unwrap();
    let r = search_buffer(&paths, &[], &reg, false, false, false);
    assert_eq!(r, vec![s("/a/report.txt"), s("/a/sub/report.txt")]);
}

#[test]
fn all_flags_equal_match_every_kind() {
    let paths = vec![s("/a/x1"), s("/a/x2"), s("/a/y")];
    let kinds = vec![kind(true, false, false), kind(false, true, false), kind(false, true, true)];
    let reg = build_regex(s("x"), false, false).unwrap();
    let none = search_buffer(&paths, &kinds, &reg, false, false, false);
    let all = search_buffer(&paths, &kinds, &reg, true, true, true);
    assert_eq!(none, all);
    assert_eq!(none, vec![s("/a/x1"), s("/a/x2")]);
}

#[test]
fn type_flags_select_kinds() {
    let paths = vec![s("/a/d"), s("/a/f"), s("/a/l")];
    let kinds = vec![kind(true, false, false), kind(false, true, false), kind(false, true, true)];
    let reg = build_regex(s(""), false, false).unwrap();
    assert_eq!(search_buffer(&paths, &kinds, &reg, true, false, false), vec![s("/a/d")]);
    assert_eq!(search_buffer(&paths, &kinds, &reg, false, true, false), vec![s("/a/f")]);
    assert_eq!(search_buffer(&paths, &kinds, &reg, false, true, true), vec![s("/a/f"), s("/a/l")]);
}

#[test]
fn regex_looks_at_base_name_only() {
    let paths = vec![s("/report/a.txt"), s("/x/report")];
    let reg = build_regex(s("report"), false, false).unwrap();
    assert_eq!(search_buffer(&paths, &[], &reg, false, false, false), vec![s("/x/report")]);
}

#[test]
fn search_finds_nothing_as_empty() {
    let paths = vec![s("/a/b")];
    let reg = build_regex(s("zzz"), false, false).unwrap();
    assert!(search_buffer(&paths, &[], &reg, false, false, false).is_empty());
}

#[test]
fn exact_query_escapes_meta_characters() {
    let reg = build_regex(s("a.b"), true, true).unwrap();
    assert!(reg.is_match("a.b"));
    assert!(!reg.is_match("axb"));
    assert!(!reg.is_match("xa.b"));
}

#[test]
fn case_rule_of_queries() {
    let exact_cs = build_regex(s("Report"), true, true).unwrap();
    assert!(!exact_cs.is_match("report"));
    let exact_ci = build_regex(s("Report"), false, true).unwrap();
    assert!(exact_ci.is_match("report"));
    let loose = build_regex(s("Report"), true, false).unwrap();
    assert!(loose.is_match("my report"));
}

#[test]
fn invalid_query_is_an_error() {
    let r = build_regex(s("("), false, false);
    assert!(r.is_err());
    assert!(!r.err().unwrap().message.is_empty());
    assert!(build_regex(s("("), false, true).is_ok());
}

#[test]
fn base_name_is_last_component() {
    assert_eq!(base_name("/a/b/report.txt"), s("report.txt"));
    assert_eq!(base_name("/"), s(""));
}

fn seek_over(paths: &[&str]) -> Seek {
    let mut seek = Seek::new("/a");
    seek.set_objects(paths.iter().map(|p| s(p)).collect());
    seek
}

#[test]
fn seek_exact_search_compares_stem_and_extension() {
    let seek = seek_over(&["/a/Report.TXT", "/a/report.md", "/a/reports.txt"]);
    assert_eq!(seek.hint(), "/a");
    assert_eq!(seek.search("REPORT", "txt", true), Some(vec![s("/a/Report.TXT")]));
}

#[test]
fn seek_loose_search_looks_for_parts() {
    let seek = seek_over(&["/a/MyReport.TXT", "/a/report.md", "/a/notes.txt"]);
    assert_eq!(seek.search("Rep", "t", false), Some(vec![s("/a/MyReport.TXT")]));
    assert_eq!(seek.search("", "", false).unwrap().len(), 3);
}

#[test]
fn seek_search_without_hits_is_none() {
    let seek = seek_over(&["/a/b.txt"]);
    assert_eq!(seek.search("zzz", "", false), None);
    assert_eq!(seek.objects().len(), 1);
}

#[test]
fn search_value_skips_entries_that_are_not_texts() {
    let data = vec![Some(s("/a/report.txt")), None, Some(s("/b/report.txt")), Some(s("/b/other.txt"))];
    assert_eq!(
        search_value(&data, "report", "txt", true),
        Some(vec![s("/a/report.txt"), s("/b/report.txt")])
    );
    assert_eq!(search_value(&data, "nothing", "", false), None);
}

#[test]
fn links_are_chosen_by_the_link_flag_alone() {
    let paths = vec![s("/a/link_to_file"), s("/a/link_to_dir"), s("/a/file"), s("/a/dir")];
    let kinds = vec![kind(false, true, true), kind(true, false, true), kind(false, true, false), kind(true, false, false)];
    let reg = build_regex(s("link"), false, false).unwrap();
    assert_eq!(
        search_buffer(&paths, &kinds, &reg, false, false, true),
        vec![s("/a/link_to_file"), s("/a/link_to_dir")]
    );
    assert_eq!(search_buffer(&paths, &kinds, &reg, true, true, false), Vec::<String>::new());
    let any = build_regex(s(""), false, false).unwrap();
    assert_eq!(search_buffer(&paths, &kinds, &any, false, true, false), vec![s("/a/file")]);
    assert_eq!(search_buffer(&paths, &kinds, &any, true, false, false), vec![s("/a/dir")]);
}

#[test]
fn stem_and_extension_follow_the_last_dot() {
    let seek = seek_over(&["/a/.bashrc", "/a/x.tar.gz", "/a/y."]);
    assert_eq!(seek.search(".bashrc", "", true), Some(vec![s("/a/.bashrc")]));
    assert_eq!(seek.search("x.tar", "gz", true), Some(vec![s("/a/x.tar.gz")]));
    assert_eq!(seek.search("y", "", true), Some(vec![s("/a/y.")]));
}
