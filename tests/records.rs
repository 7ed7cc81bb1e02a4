use seek::cache::{cache_action, is_valid_record, uses_cache, Cache, CacheAction, Data};
use seek::options::Options;
use seek::tool::{is_utf8, parse_object, string_interface};
use seek::utils::{decimal_string, format_num, pretty_interface, todays_day};

fn s(text: &str) -> String {
    text.to_string()
}

#[test]
fn record_of_day_fifteen_is_valid_on_fifteen_only() {
    let data = Data { day: 15, size: 1, data: vec![s("/a")] };
    assert!(data.is_current(15));
    assert!(!data.is_current(16));
    let record = Some(data);
    assert!(is_valid_record(&record, 15));
    assert!(!is_valid_record(&record, 16));
}

#[test]
fn missing_record_is_invalid() {
    assert!(!is_valid_record(&None, 1));
}

#[test]
fn record_from_paths_is_written_today() {
    let paths = vec![s("/a"), s("/b")];
    let data = Data::from_paths(paths.clone());
    assert_eq!(data.size, 2);
    assert_eq!(data.data, paths);
    assert!(data.day >= 1 && data.day <= 31);
    assert!(data.is_current(todays_day()));
}

#[test]
fn cache_keeps_its_location() {
    let cache = Cache::new("./info.json");
    assert_eq!(cache.location(), "./info.json");
}

#[test]
fn format_num_groups_thousands() {
    assert_eq!(format_num(0), "0");
    assert_eq!(format_num(999), "999");
    assert_eq!(format_num(1000), "1,000");
    assert_eq!(format_num(1234567), "1,234,567");
    assert_eq!(format_num(usize::MAX), "18,446,744,073,709,551,615");
}

#[test]
fn decimal_string_spells_numbers() {
    assert_eq!(decimal_string(0), "0");
    assert_eq!(decimal_string(40213), "40213");
}

#[test]
fn pretty_interface_numbers_lines() {
    assert_eq!(pretty_interface(&[s("a"), s("b")]), "1.) a\n2.) b");
    assert_eq!(pretty_interface(&[]), "");
}

#[test]
fn string_interface_separates_entries() {
    assert_eq!(string_interface(&vec![s("/a"), s("/b")]), "1.) /a\n======\n2.) /b");
    assert_eq!(string_interface(&vec![s("/a")]), "1.) /a");
}

#[test]
fn options_evaluate_by_number() {
    let values = vec![s("first"), s("second")];
    let options = Options::new(&values);
    assert_eq!(options.evaluate("2"), Some(s("second")));
    assert_eq!(options.evaluate("+1"), Some(s("first")));
    assert_eq!(options.evaluate("0"), None);
    assert_eq!(options.evaluate("3"), None);
}

#[test]
fn options_evaluate_by_text() {
    let values = vec![s("first"), s("second")];
    let options = Options::new(&values);
    assert_eq!(options.evaluate("second"), Some(s("second")));
    assert_eq!(options.evaluate("third"), None);
    assert_eq!(options.evaluate(""), None);
}

#[test]
fn options_display_lists_choices() {
    let values = vec![s("x"), s("y"), s("z")];
    assert_eq!(Options::new(&values).display(), "1.) x\n2.) y\n3.) z");
}

#[test]
fn parse_object_splits_at_last_dot() {
    assert_eq!(parse_object("notes"), (s("notes"), None));
    assert_eq!(parse_object("a.txt"), (s("a"), Some(s("txt"))));
    assert_eq!(parse_object("a.tar.gz"), (s("a.tar"), Some(s("gz"))));
    assert_eq!(parse_object(".bashrc"), (s(""), Some(s("bashrc"))));
}

#[test]
fn strings_are_utf8() {
    assert!(is_utf8("héllo"));
}

#[test]
fn record_new_keeps_the_day() {
    let data = Data::new(15, vec![s("/a"), s("/b"), s("/c")]);
    assert_eq!(data.day, 15);
    assert_eq!(data.size, 3);
    assert!(data.is_current(15));
}

#[test]
fn only_cache_flags_touch_the_cache() {
    assert!(!uses_cache(false, false, false));
    assert!(uses_cache(true, false, false));
    assert!(uses_cache(false, true, false));
    assert!(uses_cache(false, false, true));
}

#[test]
fn cache_action_decides_when_to_rescan() {
    assert_eq!(cache_action(true, false, false, false), CacheAction::Read);
    assert_eq!(cache_action(true, true, false, false), CacheAction::RefreshThenRead);
    assert_eq!(cache_action(false, false, false, false), CacheAction::RefreshThenRead);
    assert_eq!(cache_action(false, false, true, false), CacheAction::Read);
    assert_eq!(cache_action(true, true, true, true), CacheAction::Read);
    assert_eq!(cache_action(false, false, false, true), CacheAction::RefreshThenStop);
}
