// Tests for the JSON persistence codec

use wtasks::TaskManager;

#[test]
fn empty_store_serializes_to_empty_array() {
    let manager = TaskManager::new();
    assert_eq!(manager.to_json(), "[]");
}

#[test]
fn exact_serialized_text() {
    let mut manager = TaskManager::new();
    manager.add_task("Buy milk".to_string());
    manager.add_task("Write report".to_string());
    manager.mark_done(2);
    let expected = "[\n  { \"name\": \"Buy milk\", \"done\": false },\n  { \"name\": \"Write report\", \"done\": true }\n]";
    assert_eq!(manager.to_json(), expected);
}

#[test]
fn round_trip_empty_store() {
    let manager = TaskManager::new();
    let loaded = TaskManager::from_json(&manager.to_json());
    assert_eq!(loaded.tasks.len(), 0);
}

#[test]
fn round_trip_keeps_names_and_flags() {
    let mut manager = TaskManager::new();
    manager.add_task("plain".to_string());
    manager.add_task("with \"quotes\" and \\ slash".to_string());
    manager.add_task("line\nbreak\tand tab".to_string());
    manager.add_task(format!("control {} char", '\u{1}'));
    manager.mark_done(2);
    let loaded = TaskManager::from_json(&manager.to_json());
    assert_eq!(loaded.tasks.len(), manager.tasks.len());
    for i in 0..manager.tasks.len() {
        assert_eq!(loaded.tasks[i].name, manager.tasks[i].name);
        assert_eq!(loaded.tasks[i].done, manager.tasks[i].done);
    }
}

#[test]
fn load_empty_text_yields_empty_store() {
    let loaded = TaskManager::from_json("");
    assert_eq!(loaded.tasks.len(), 0);
}

#[test]
fn load_invalid_json_yields_empty_store() {
    let loaded = TaskManager::from_json("this is not json");
    assert_eq!(loaded.tasks.len(), 0);
}

#[test]
fn load_wrong_shape_yields_empty_store() {
    assert_eq!(TaskManager::from_json("{ \"name\": \"a\", \"done\": true }").tasks.len(), 0);
    assert_eq!(TaskManager::from_json("[1, 2, 3]").tasks.len(), 0);
    assert_eq!(TaskManager::from_json("[{ \"name\": \"a\" }]").tasks.len(), 0);
    assert_eq!(TaskManager::from_json("[{ \"done\": true }]").tasks.len(), 0);
}

#[test]
fn load_extra_field_invalidates_whole_file() {
    let text = "[{ \"name\": \"a\", \"done\": true, \"extra\": 1 }]";
    assert_eq!(TaskManager::from_json(text).tasks.len(), 0);
}

#[test]
fn one_bad_record_invalidates_whole_file() {
    let text = "[\n  { \"name\": \"good\", \"done\": false },\n  { \"name\": 3, \"done\": true }\n]";
    assert_eq!(TaskManager::from_json(text).tasks.len(), 0);
}

#[test]
fn truncated_array_yields_empty_store() {
    let text = "[\n  { \"name\": \"good\", \"done\": false }";
    assert_eq!(TaskManager::from_json(text).tasks.len(), 0);
}

#[test]
fn trailing_garbage_yields_empty_store() {
    let text = "[\n  { \"name\": \"good\", \"done\": false }\n] tail";
    assert_eq!(TaskManager::from_json(text).tasks.len(), 0);
}

#[test]
fn load_tolerates_extra_whitespace() {
    let text = "  [ { \"name\" : \"x\" , \"done\" : true } ]  ";
    let loaded = TaskManager::from_json(text);
    assert_eq!(loaded.tasks.len(), 1);
    assert_eq!(loaded.tasks[0].name, "x");
    assert_eq!(loaded.tasks[0].done, true);
}

#[test]
fn load_understands_named_escapes() {
    let text = "[\n  { \"name\": \"a\\tb\\nc\\\"d\\\\e\\/f\", \"done\": false }\n]";
    let loaded = TaskManager::from_json(text);
    assert_eq!(loaded.tasks.len(), 1);
    assert_eq!(loaded.tasks[0].name, "a\tb\nc\"d\\e/f");
}

#[test]
fn load_understands_unicode_escapes() {
    let text = "[\n  { \"name\": \"bell\\u0007here\", \"done\": false }\n]";
    let loaded = TaskManager::from_json(text);
    assert_eq!(loaded.tasks.len(), 1);
    assert_eq!(loaded.tasks[0].name, format!("bell{}here", '\u{7}'));
}

#[test]
fn control_characters_are_escaped_in_output() {
    let mut manager = TaskManager::new();
    manager.add_task(format!("a{}b", '\u{1f}'));
    let text = manager.to_json();
    assert!(text.contains("\\u001f"));
    let loaded = TaskManager::from_json(&text);
    assert_eq!(loaded.tasks[0].name, manager.tasks[0].name);
}

#[test]
fn load_two_records_keeps_order() {
    let text = "[\n  { \"name\": \"Buy milk\", \"done\": false },\n  { \"name\": \"Write report\", \"done\": true }\n]";
    let loaded = TaskManager::from_json(text);
    assert_eq!(loaded.tasks.len(), 2);
    assert_eq!(loaded.tasks[0].name, "Buy milk");
    assert_eq!(loaded.tasks[0].done, false);
    assert_eq!(loaded.tasks[1].name, "Write report");
    assert_eq!(loaded.tasks[1].done, true);
}
