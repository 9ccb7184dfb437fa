use todo_app::actions::{is_mutating, parse_action, Action};
use todo_app::item::{Todo, TodoError};
use todo_app::json::{encode_item, encode_list, parse_item, parse_list};
use todo_app::ops::{
    add_items, check_items, edit_item, parse_positions, remove_items, sort_items, uncheck_items,
};
use todo_app::render::{render_line, render_list};
use todo_app::settings::{parse_settings_text, set_setting, Settings};
use todo_app::text::parse_position;

fn item(label: &str, complete: bool) -> Todo {
    Todo { label: label.to_string(), complete }
}

fn strings(params: &[&str]) -> Vec<String> {
    params.iter().map(|s| s.to_string()).collect()
}

fn pairs(data: &Vec<Todo>) -> Vec<(String, bool)> {
    data.iter().map(|t| (t.label.clone(), t.complete)).collect()
}

#[test]
fn save_and_reload_round_trip() {
    let data = vec![
        item("plain", false),
        item("with \"quotes\" and \\backslash\\", true),
        item("tab\there, newline\nthere", false),
        item("unicode: h\u{e9}llo \u{2603} \u{1f600}", true),
        item("", true),
    ];
    let text = encode_list(&data);
    let reloaded = parse_list(text.as_str()).unwrap();
    assert_eq!(pairs(&data), pairs(&reloaded));
}

#[test]
fn add_on_empty_list_appends_in_order() {
    let mut data: Vec<Todo> = Vec::new();
    add_items(&mut data, strings(&["a", "b"]));
    assert_eq!(data.len(), 2);
    assert_eq!(data[0].label, "a");
    assert!(!data[0].complete);
    assert_eq!(data[1].label, "b");
    assert!(!data[1].complete);
}

#[test]
fn remove_all_clears_the_list() {
    let mut data = vec![item("a", false), item("b", true), item("c", false)];
    remove_items(&mut data, &strings(&["all"])).unwrap();
    assert!(data.is_empty());
}

#[test]
fn remove_checked_keeps_incomplete_in_order() {
    let mut data = vec![
        item("a", true),
        item("b", false),
        item("c", true),
        item("d", false),
        item("e", false),
    ];
    remove_items(&mut data, &strings(&["checked"])).unwrap();
    assert_eq!(pairs(&data), pairs(&vec![item("b", false), item("d", false), item("e", false)]));
}

#[test]
fn remove_completed_keyword_works_too() {
    let mut data = vec![item("a", true), item("b", false)];
    remove_items(&mut data, &strings(&["completed"])).unwrap();
    assert_eq!(pairs(&data), pairs(&vec![item("b", false)]));
}

#[test]
fn remove_repeated_position_removes_once() {
    let mut data = vec![item("A", false), item("B", false), item("C", false)];
    remove_items(&mut data, &strings(&["2", "2"])).unwrap();
    assert_eq!(pairs(&data), pairs(&vec![item("A", false), item("C", false)]));
}

fn copy_list(data: &Vec<Todo>) -> Vec<Todo> {
    data.iter().map(|t| Todo { label: t.label.clone(), complete: t.complete }).collect()
}

#[test]
fn remove_positions_ignore_order_given() {
    let mut first = vec![item("A", false), item("B", false), item("C", false), item("D", false)];
    let mut second = copy_list(&first);
    remove_items(&mut first, &strings(&["1", "3"])).unwrap();
    remove_items(&mut second, &strings(&["3", "1"])).unwrap();
    assert_eq!(pairs(&first), pairs(&second));
    assert_eq!(pairs(&first), pairs(&vec![item("B", false), item("D", false)]));
}

#[test]
fn remove_out_of_range_position_is_ignored() {
    let mut data = vec![item("a", false)];
    remove_items(&mut data, &strings(&["0", "5"])).unwrap();
    assert_eq!(data.len(), 1);
    assert_eq!(data[0].label, "a");
}

#[test]
fn check_marks_and_ignores_out_of_range() {
    let mut data = vec![item("one", false), item("two", false)];
    check_items(&mut data, &strings(&["1", "99"])).unwrap();
    assert!(data[0].complete);
    assert!(!data[1].complete);
    assert_eq!(data.len(), 2);
}

#[test]
fn check_all_and_uncheck_all() {
    let mut data = vec![item("a", false), item("b", true)];
    check_items(&mut data, &strings(&["all"])).unwrap();
    assert!(data[0].complete && data[1].complete);
    uncheck_items(&mut data, &strings(&["all"])).unwrap();
    assert!(!data[0].complete && !data[1].complete);
}

#[test]
fn uncheck_single_position() {
    let mut data = vec![item("a", true), item("b", true)];
    uncheck_items(&mut data, &strings(&["2"])).unwrap();
    assert!(data[0].complete);
    assert!(!data[1].complete);
}

#[test]
fn sort_is_stable_by_completion() {
    let mut data = vec![item("a", true), item("b", false), item("c", true), item("d", false)];
    sort_items(&mut data);
    assert_eq!(
        pairs(&data),
        pairs(&vec![item("b", false), item("d", false), item("a", true), item("c", true)])
    );
}

#[test]
fn set_silent_rejects_illegal_value_and_keeps_settings() {
    let mut settings = Settings { silent: "off".to_string() };
    let r = set_setting(&mut settings, &"silent".to_string(), &"maybe".to_string());
    assert!(matches!(r, Err(TodoError::UnknownSetting)));
    assert_eq!(settings.silent, "off");
}

#[test]
fn set_silent_rejects_unknown_key() {
    let mut settings = Settings { silent: "off".to_string() };
    let r = set_setting(&mut settings, &"loud".to_string(), &"on".to_string());
    assert!(matches!(r, Err(TodoError::UnknownSetting)));
    assert_eq!(settings.silent, "off");
}

#[test]
fn set_silent_accepts_legal_values() {
    let mut settings = Settings { silent: "off".to_string() };
    set_setting(&mut settings, &"silent".to_string(), &"on".to_string()).unwrap();
    assert_eq!(settings.silent, "on");
    set_setting(&mut settings, &"silent".to_string(), &"off".to_string()).unwrap();
    assert_eq!(settings.silent, "off");
}

#[test]
fn empty_list_renders_nothing_to_do() {
    let data: Vec<Todo> = Vec::new();
    let lines = render_list(&data);
    assert_eq!(lines, vec!["Nothing to do!\n\nRun `todo help` for help.".to_string()]);
}

#[test]
fn list_renders_one_line_per_item() {
    let data = vec![item("first", false), item("second", true)];
    let lines = render_list(&data);
    assert_eq!(lines, vec!["\u{2610} 1: first".to_string(), "\u{2611} 2: second".to_string()]);
}

#[test]
fn render_line_multi_digit_position() {
    let line = render_line(12, &item("x", false));
    assert_eq!(line, "\u{2610} 12: x");
}

#[test]
fn encode_item_exact_text() {
    assert_eq!(encode_item(&item("a", false)), "{\"label\":\"a\",\"complete\":false}");
    assert_eq!(encode_item(&item("done", true)), "{\"label\":\"done\",\"complete\":true}");
}

#[test]
fn encode_item_escapes_specials() {
    assert_eq!(
        encode_item(&item("x\"y\\z", true)),
        "{\"label\":\"x\\\"y\\\\z\",\"complete\":true}"
    );
    assert_eq!(encode_item(&item("a\nb", false)), "{\"label\":\"a\\u000ab\",\"complete\":false}");
}

#[test]
fn encode_list_exact_text() {
    let data = vec![item("a", false), item("b", true)];
    assert_eq!(
        encode_list(&data),
        "{\"label\":\"a\",\"complete\":false}\n{\"label\":\"b\",\"complete\":true}\n"
    );
}

#[test]
fn parse_item_reads_escapes() {
    let t = parse_item("{\"label\":\"\\u0041\\t\\n\\\"\\\\\\/\",\"complete\":true}").unwrap();
    assert_eq!(t.label, "A\t\n\"\\/");
    assert!(t.complete);
}

#[test]
fn parse_item_rejects_malformed_lines() {
    assert!(parse_item("").is_none());
    assert!(parse_item("{\"label\":\"a\",\"complete\":false} ").is_none());
    assert!(parse_item("{\"label\":\"a\",\"complete\":maybe}").is_none());
    assert!(parse_item("{\"name\":\"a\",\"complete\":true}").is_none());
    assert!(parse_item("{\"label\":\"a\\q\",\"complete\":true}").is_none());
    assert!(parse_item("{\"label\":\"\\ud800\",\"complete\":true}").is_none());
    assert!(parse_item("{\"label\":\"a").is_none());
}

#[test]
fn parse_list_skips_empty_lines_and_final_newline() {
    let r = parse_list("\n{\"label\":\"a\",\"complete\":false}\n\n").unwrap();
    assert_eq!(pairs(&r), pairs(&vec![item("a", false)]));
    let r2 = parse_list("{\"label\":\"a\",\"complete\":false}").unwrap();
    assert_eq!(pairs(&r2), pairs(&vec![item("a", false)]));
    let r3 = parse_list("").unwrap();
    assert!(r3.is_empty());
}

#[test]
fn parse_list_reports_the_bad_line() {
    let r = parse_list("{\"label\":\"a\",\"complete\":false}\ngarbage\n");
    match r {
        Err(TodoError::MalformedRecord { line }) => assert_eq!(line, "garbage"),
        _ => panic!("expected a malformed record error"),
    }
}

#[test]
fn parse_position_values() {
    assert_eq!(parse_position("7"), Some(7));
    assert_eq!(parse_position("0"), Some(0));
    assert_eq!(parse_position("18446744073709551615"), Some(u64::MAX));
    assert_eq!(parse_position("18446744073709551616"), None);
    assert_eq!(parse_position(""), None);
    assert_eq!(parse_position("1x"), None);
    assert_eq!(parse_position("-1"), None);
}

#[test]
fn parse_positions_reports_first_bad_parameter() {
    let r = parse_positions(&strings(&["1", "x", "y"]));
    assert!(matches!(r, Err(TodoError::InvalidPosition { index: 1 })));
}

#[test]
fn selector_commands_require_selectors() {
    let mut data = vec![item("a", false)];
    assert!(matches!(remove_items(&mut data, &Vec::new()), Err(TodoError::MissingSelectors)));
    assert!(matches!(check_items(&mut data, &Vec::new()), Err(TodoError::MissingSelectors)));
    assert!(matches!(uncheck_items(&mut data, &Vec::new()), Err(TodoError::MissingSelectors)));
    assert_eq!(data.len(), 1);
}

#[test]
fn bad_position_leaves_list_unchanged() {
    let mut data = vec![item("a", false), item("b", true)];
    let r = remove_items(&mut data, &strings(&["1", "oops"]));
    assert!(matches!(r, Err(TodoError::InvalidPosition { index: 1 })));
    assert_eq!(data.len(), 2);
}

#[test]
fn edit_replaces_label_in_range_only() {
    let mut data = vec![item("old", true)];
    edit_item(&mut data, 1, "new".to_string());
    assert_eq!(data[0].label, "new");
    assert!(data[0].complete);
    edit_item(&mut data, 2, "ignored".to_string());
    edit_item(&mut data, 0, "ignored".to_string());
    assert_eq!(data[0].label, "new");
    assert_eq!(data.len(), 1);
}

#[test]
fn settings_file_round_trip() {
    let settings = Settings { silent: "on".to_string() };
    let text = settings.to_file_text();
    assert_eq!(text, "{\"silent\":\"on\"}");
    let reloaded = parse_settings_text(text.as_str()).unwrap();
    assert_eq!(reloaded.silent, "on");
}

#[test]
fn settings_default_and_bad_file() {
    let settings = Settings::new_default();
    assert_eq!(settings.silent, "off");
    assert!(matches!(parse_settings_text("junk"), Err(TodoError::MalformedSettings)));
}

#[test]
fn action_keywords() {
    assert!(matches!(parse_action("add"), Some(Action::Add)));
    assert!(matches!(parse_action("list"), Some(Action::List)));
    assert!(matches!(parse_action("set"), Some(Action::SetOption)));
    assert!(matches!(parse_action("bogus"), None));
    assert!(is_mutating(Action::Add));
    assert!(is_mutating(Action::Sort));
    assert!(!is_mutating(Action::List));
    assert!(!is_mutating(Action::Help));
}
