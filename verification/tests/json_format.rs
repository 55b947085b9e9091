//! The documents the store writes are real JSON: serde_json must accept
//! them and see the same values, and the store must read its own text back
//! even with the strings that need escaping.

use task_store::{Store, TaskEntry, Tasks, WindowPosition};

fn cs(s: &str) -> Vec<char> {
    s.chars().collect()
}

fn entry(id: i32, name: &str, description: &str, tags: &[&str], completed: bool) -> TaskEntry {
    TaskEntry {
        id,
        name: cs(name),
        description: cs(description),
        tags: tags.iter().map(|t| cs(t)).collect(),
        completed,
    }
}

fn file_text(store: &Store, file_name: &str) -> String {
    let want = cs(file_name);
    let mut i = 0;
    while i < store.file_count() {
        if store.file_name_at(i) == &want {
            return store.file_content_at(i).iter().collect();
        }
        i += 1;
    }
    panic!("file not found");
}

#[test]
fn task_documents_are_json_that_serde_agrees_with() {
    let mut store = Store::new();
    let name = cs("list");
    store.write(
        &name,
        &Tasks {
            tasks: vec![
                entry(-3, "quote \" and \\ backslash", "line\nbreak\ttab", &["a, b"], true),
                entry(4, "plain", "", &[], false),
            ],
        },
    );
    let text = file_text(&store, "list.json");
    let doc: serde_json::Value = serde_json::from_str(&text).expect("store wrote invalid JSON");
    let tasks = doc.get("tasks").unwrap().as_array().unwrap();
    assert_eq!(tasks.len(), 2);
    assert_eq!(tasks[0].get("id").unwrap().as_i64().unwrap(), -3);
    assert_eq!(tasks[0].get("name").unwrap().as_str().unwrap(), "quote \" and \\ backslash");
    assert_eq!(tasks[0].get("description").unwrap().as_str().unwrap(), "line\nbreak\ttab");
    assert_eq!(tasks[0].get("tags").unwrap().as_array().unwrap().len(), 1);
    assert_eq!(tasks[0].get("tags").unwrap()[0].as_str().unwrap(), "a, b");
    assert_eq!(tasks[0].get("completed").unwrap().as_bool().unwrap(), true);
    assert_eq!(tasks[1].get("id").unwrap().as_i64().unwrap(), 4);
    assert_eq!(tasks[1].get("completed").unwrap().as_bool().unwrap(), false);
}

#[test]
fn settings_document_is_json_that_serde_agrees_with() {
    let mut store = Store::new();
    store.write_settings(true, WindowPosition { x: -12, y: 900 });
    let text = file_text(&store, "settings.json");
    let doc: serde_json::Value = serde_json::from_str(&text).expect("store wrote invalid JSON");
    assert_eq!(doc.get("run").unwrap().as_bool().unwrap(), true);
    assert_eq!(doc.get("x").unwrap().as_i64().unwrap(), -12);
    assert_eq!(doc.get("y").unwrap().as_i64().unwrap(), 900);
}

#[test]
fn awkward_strings_round_trip_through_the_file() {
    let mut store = Store::new();
    let name = cs("tricky");
    let t = Tasks {
        tasks: vec![
            entry(0, "control \u{1} char", "bell \u{7} and null-ish \u{1f}", &["\u{8}\u{c}"], false),
            entry(1, "unicode \u{00e9}\u{6f22}\u{1f600}", "", &[""], true),
        ],
    };
    store.write(&name, &t);
    assert_eq!(store.read(&name).unwrap(), t);
    let text = file_text(&store, "tricky.json");
    let doc: serde_json::Value = serde_json::from_str(&text).expect("store wrote invalid JSON");
    let tasks = doc.get("tasks").unwrap().as_array().unwrap();
    assert_eq!(tasks[0].get("name").unwrap().as_str().unwrap(), "control \u{1} char");
    assert_eq!(tasks[1].get("name").unwrap().as_str().unwrap(), "unicode \u{00e9}\u{6f22}\u{1f600}");
}

#[test]
fn the_reader_accepts_extra_whitespace() {
    let mut store = Store::new();
    store.load_file(
        cs("spaced.json"),
        cs("  {  \"tasks\" :\t[ { \"id\" : 2 , \"name\" : \"x\" , \"description\" : \"\" , \"tags\" : [ \"t\" , \"u\" ] , \"completed\" : true } ]  }\n"),
    );
    let back = store.read(&cs("spaced")).unwrap();
    assert_eq!(back, Tasks { tasks: vec![entry(2, "x", "", &["t", "u"], true)] });
}

#[test]
fn the_reader_decodes_short_and_unicode_escapes() {
    let mut store = Store::new();
    store.load_file(
        cs("esc.json"),
        cs("{\"tasks\": [{\"id\": 0, \"name\": \"a\\u0041\\n\\t\\\"\\\\\\/\\b\\f\\u001f\", \"description\": \"\", \"tags\": [], \"completed\": false}]}"),
    );
    let back = store.read(&cs("esc")).unwrap();
    assert_eq!(
        back.tasks[0].name,
        cs("aA\n\t\"\\/\u{8}\u{c}\u{1f}")
    );
}

#[test]
fn numbers_out_of_the_stored_width_are_refused() {
    let mut store = Store::new();
    store.load_file(
        cs("big.json"),
        cs("{\"tasks\": [{\"id\": 3000000000, \"name\": \"x\", \"description\": \"\", \"tags\": [], \"completed\": false}]}"),
    );
    assert!(store.read(&cs("big")).is_err());
    store.load_file(
        cs("big2.json"),
        cs("{\"tasks\": [{\"id\": 99999999999999999999999999, \"name\": \"x\", \"description\": \"\", \"tags\": [], \"completed\": false}]}"),
    );
    assert!(store.read(&cs("big2")).is_err());
    store.load_file(
        cs("edge.json"),
        cs("{\"tasks\": [{\"id\": -2147483648, \"name\": \"x\", \"description\": \"\", \"tags\": [], \"completed\": false}]}"),
    );
    assert_eq!(store.read(&cs("edge")).unwrap().tasks[0].id, i32::MIN);
}

#[test]
fn leading_zeros_and_trailing_garbage_are_refused() {
    let mut store = Store::new();
    store.load_file(
        cs("zeros.json"),
        cs("{\"tasks\": [{\"id\": 007, \"name\": \"x\", \"description\": \"\", \"tags\": [], \"completed\": false}]}"),
    );
    assert!(store.read(&cs("zeros")).is_err());
    store.load_file(
        cs("trail.json"),
        cs("{\"tasks\": []} extra"),
    );
    assert!(store.read(&cs("trail")).is_err());
}

#[test]
fn the_empty_collection_writes_the_canonical_empty_document() {
    let mut store = Store::new();
    let name = cs("empty");
    store.write(&name, &Tasks { tasks: vec![] });
    assert_eq!(file_text(&store, "empty.json"), "{\n  \"tasks\": []\n}");
}

#[test]
fn a_one_entry_collection_writes_the_canonical_document() {
    let mut store = Store::new();
    let name = cs("one");
    store.write(&name, &Tasks { tasks: vec![entry(0, "milk", "d", &["t"], false)] });
    assert_eq!(
        file_text(&store, "one.json"),
        "{\n  \"tasks\": [\n    {\"id\": 0, \"name\": \"milk\", \"description\": \"d\", \"tags\": [\"t\"], \"completed\": false}\n  ]\n}"
    );
}

#[test]
fn settings_file_writes_the_canonical_document() {
    let mut store = Store::new();
    store.write_settings(false, WindowPosition { x: 100, y: 100 });
    assert_eq!(
        file_text(&store, "settings.json"),
        "{\n  \"run\": false,\n  \"x\": 100,\n  \"y\": 100\n}"
    );
}

#[test]
fn unicode_escapes_accept_either_hex_case() {
    let mut store = Store::new();
    store.load_file(
        cs("hexcase.json"),
        cs("{\"tasks\": [{\"id\": 0, \"name\": \"\\u001F\\u001f\\u000B\", \"description\": \"\", \"tags\": [], \"completed\": false}]}"),
    );
    let back = store.read(&cs("hexcase")).unwrap();
    assert_eq!(back.tasks[0].name, cs("\u{1f}\u{1f}\u{b}"));
}
