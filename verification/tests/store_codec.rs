use todo_list::codec::{decode, encode};
use todo_list::tasks::{add_task, complete_task, delete_task, Task};

fn sample(titles: &[(&str, u8, bool)]) -> Vec<Task> {
    let mut v: Vec<Task> = Vec::new();
    for (t, p, c) in titles {
        let mut task = Task::new(String::from(*t), *p);
        task.is_completed = *c;
        v.push(task);
    }
    v
}

fn assert_same(a: &[Task], b: &[Task]) {
    assert_eq!(a.len(), b.len());
    for (x, y) in a.iter().zip(b.iter()) {
        assert_eq!(x.priority, y.priority);
        assert_eq!(x.title, y.title);
        assert_eq!(x.is_completed, y.is_completed);
    }
}

#[test]
fn new_task_starts_not_completed() {
    let t = Task::new(String::from("a"), 9);
    assert_eq!(t.priority, 9);
    assert_eq!(t.title, "a");
    assert!(!t.is_completed);
}

#[test]
fn add_appends_at_the_end() {
    let mut tasks = sample(&[("a", 1, false)]);
    add_task(&mut tasks, String::from("b"), 2);
    assert_eq!(tasks.len(), 2);
    assert_eq!(tasks[1].title, "b");
    assert_eq!(tasks[1].priority, 2);
    assert!(!tasks[1].is_completed);
}

#[test]
fn delete_shifts_later_indices_down() {
    let mut tasks = sample(&[("a", 1, false), ("b", 2, false), ("c", 3, false)]);
    assert!(delete_task(&mut tasks, 2));
    assert_eq!(tasks.len(), 2);
    assert_eq!(tasks[0].title, "a");
    assert_eq!(tasks[1].title, "c");
}

#[test]
fn delete_out_of_range_reports_and_leaves_list_alone() {
    let mut tasks = sample(&[("a", 1, false), ("b", 2, true)]);
    assert!(!delete_task(&mut tasks, 0));
    assert!(!delete_task(&mut tasks, 3));
    assert!(!delete_task(&mut tasks, 100));
    assert_eq!(tasks.len(), 2);
    assert_eq!(tasks[0].title, "a");
    assert_eq!(tasks[1].title, "b");
    assert!(tasks[1].is_completed);
}

#[test]
fn complete_sets_the_flag_in_place() {
    let mut tasks = sample(&[("a", 1, false), ("b", 2, false)]);
    assert!(complete_task(&mut tasks, 2));
    assert!(!tasks[0].is_completed);
    assert!(tasks[1].is_completed);
}

#[test]
fn complete_is_idempotent() {
    let mut tasks = sample(&[("a", 1, false)]);
    assert!(complete_task(&mut tasks, 1));
    assert!(tasks[0].is_completed);
    assert!(complete_task(&mut tasks, 1));
    assert!(tasks[0].is_completed);
    assert_eq!(tasks.len(), 1);
    assert_eq!(tasks[0].title, "a");
    assert_eq!(tasks[0].priority, 1);
}

#[test]
fn complete_out_of_range_reports_and_mutates_nothing() {
    let mut tasks = sample(&[("a", 1, false), ("b", 2, false)]);
    assert!(!complete_task(&mut tasks, 0));
    assert!(!complete_task(&mut tasks, 5));
    assert!(!tasks[0].is_completed);
    assert!(!tasks[1].is_completed);
}

#[test]
fn display_line_shows_title_priority_and_state() {
    let t = Task::new(String::from("Buy milk"), 3);
    assert_eq!(t.display_line(), "* Buy milk(3) - not completed");
    let mut d = Task::new(String::from("Call home"), 250);
    d.is_completed = true;
    assert_eq!(d.display_line(), "* Call home(250) - completed");
}

#[test]
fn encodes_empty_list_as_bare_array() {
    let tasks: Vec<Task> = Vec::new();
    assert_eq!(encode(&tasks), "[]");
}

#[test]
fn encodes_one_task_pretty_printed() {
    let tasks = sample(&[("Buy milk", 3, false)]);
    let expected = "[\n  {\n    \"priority\": 3,\n    \"title\": \"Buy milk\",\n    \"is_completed\": false\n  }\n]";
    assert_eq!(encode(&tasks), expected);
}

#[test]
fn decode_of_encode_is_identity() {
    let tasks = sample(&[
        ("Buy milk", 3, false),
        ("pay \\ the / bill\tnow", 255, true),
        ("", 0, false),
        ("line\nbreak and \r return", 17, true),
    ]);
    let text = encode(&tasks);
    match decode(&text) {
        Ok(back) => assert_same(&tasks, &back),
        Err(_) => panic!("decoding the encoder's own output failed"),
    }
}

#[test]
fn decode_of_encode_is_identity_for_empty_list() {
    let tasks: Vec<Task> = Vec::new();
    match decode(&encode(&tasks)) {
        Ok(back) => assert_eq!(back.len(), 0),
        Err(_) => panic!("decoding the encoder's own output failed"),
    }
}

#[test]
fn whitespace_only_file_is_the_empty_list() {
    for text in ["", "   ", "\n", " \t\r\n "] {
        match decode(text) {
            Ok(back) => assert_eq!(back.len(), 0),
            Err(_) => panic!("whitespace-only input must decode as empty"),
        }
    }
}

#[test]
fn malformed_file_fails_decoding() {
    for text in [
        "not json",
        "[",
        "[\n  {\n    \"priority\": here\n  }\n]",
        "{\"priority\": 1}",
        "[\n  {\n    \"priority\": 999,\n    \"title\": \"t\",\n    \"is_completed\": false\n  }\n]",
    ] {
        assert!(decode(text).is_err());
    }
}

#[test]
fn decode_accepts_a_crafted_canonical_file() {
    let text = "[\n  {\n    \"priority\": 12,\n    \"title\": \"a \\\"quoted\\\" word\",\n    \"is_completed\": true\n  },\n  {\n    \"priority\": 0,\n    \"title\": \"plain\",\n    \"is_completed\": false\n  }\n]";
    match decode(text) {
        Ok(ts) => {
            assert_eq!(ts.len(), 2);
            assert_eq!(ts[0].priority, 12);
            assert_eq!(ts[0].title, "a \"quoted\" word");
            assert!(ts[0].is_completed);
            assert_eq!(ts[1].priority, 0);
            assert_eq!(ts[1].title, "plain");
            assert!(!ts[1].is_completed);
        }
        Err(_) => panic!("canonical text must decode"),
    }
}

#[test]
fn control_characters_in_titles_round_trip() {
    let tasks = sample(&[
        ("bell\u{0007} backspace\u{0008} formfeed\u{000C}", 1, false),
        ("esc\u{001B}up", 2, true),
    ]);
    let text = encode(&tasks);
    match decode(&text) {
        Ok(back) => assert_same(&tasks, &back),
        Err(_) => panic!("decoding the encoder's own output failed"),
    }
}

#[test]
fn decode_takes_whitespace_as_it_comes() {
    for text in [
        "[]\n",
        " [ ] ",
        "\t[\r\n]\n",
    ] {
        match decode(text) {
            Ok(back) => assert_eq!(back.len(), 0),
            Err(_) => panic!("an empty array with free whitespace must decode"),
        }
    }
    let compact = "[{\"priority\":5,\"title\":\"t\",\"is_completed\":true}]";
    match decode(compact) {
        Ok(ts) => {
            assert_eq!(ts.len(), 1);
            assert_eq!(ts[0].priority, 5);
            assert_eq!(ts[0].title, "t");
            assert!(ts[0].is_completed);
        }
        Err(_) => panic!("a compact file must decode"),
    }
}

#[test]
fn decode_takes_fields_in_any_order() {
    let text = "[\n  {\n    \"is_completed\": false,\n    \"title\": \"swapped\",\n    \"priority\": 9\n  }\n]";
    match decode(text) {
        Ok(ts) => {
            assert_eq!(ts.len(), 1);
            assert_eq!(ts[0].priority, 9);
            assert_eq!(ts[0].title, "swapped");
            assert!(!ts[0].is_completed);
        }
        Err(_) => panic!("reordered fields must decode"),
    }
}

#[test]
fn decode_takes_the_standard_escapes() {
    let text = "[{\"priority\": 0, \"title\": \"a\\u0041 \\/ \\b\\f\\n\", \"is_completed\": false}]";
    match decode(text) {
        Ok(ts) => {
            assert_eq!(ts[0].title, "aA / \u{0008}\u{000C}\n");
        }
        Err(_) => panic!("standard escapes must decode"),
    }
}

#[test]
fn repeated_missing_or_unknown_fields_fail_decoding() {
    for text in [
        "[{\"priority\": 1, \"priority\": 2, \"title\": \"t\", \"is_completed\": false}]",
        "[{\"priority\": 1, \"title\": \"t\"}]",
        "[{\"priority\": 1, \"title\": \"t\", \"is_completed\": false, \"extra\": 0}]",
        "[{\"priority\": 1, \"colour\": \"red\", \"title\": \"t\", \"is_completed\": false}]",
    ] {
        assert!(decode(text).is_err());
    }
}

#[test]
fn lone_surrogate_escapes_fail_decoding() {
    let text = "[{\"priority\": 0, \"title\": \"\\uD800\", \"is_completed\": false}]";
    assert!(decode(text).is_err());
}
