use task_store::{Settings, Store, StoreError, TaskEntry, Tasks, WindowPosition};

fn cs(s: &str) -> Vec<char> {
    s.chars().collect()
}

fn entry(id: i32, name: &str, description: &str, tags: &[&str], completed: bool) -> TaskEntry {
    TaskEntry {
        id,
        name: cs(name),
        description: cs(description),
        tags: tags.iter().map(|t| cs(t)).collect(),
        completed,
    }
}

fn content_string(store: &Store, file_name: &str) -> Option<String> {
    let want = cs(file_name);
    let mut i = 0;
    while i < store.file_count() {
        if store.file_name_at(i) == &want {
            return Some(store.file_content_at(i).iter().collect());
        }
        i += 1;
    }
    None
}

#[test]
fn write_then_read_on_empty_list_round_trips() {
    let mut store = Store::new();
    let name = cs("todo");
    let t = Tasks {
        tasks: vec![
            entry(0, "milk", "two litres", &["shopping"], false),
            entry(1, "eggs", "a dozen", &["shopping", "fragile"], true),
        ],
    };
    store.write(&name, &t);
    let back = store.read(&name).unwrap();
    assert_eq!(back, t);
}

#[test]
fn writing_twice_leaves_the_same_file_as_writing_once() {
    let mut store = Store::new();
    let name = cs("todo");
    let t = Tasks {
        tasks: vec![
            entry(0, "milk", "", &[""], false),
            entry(1, "eggs", "brown", &["shopping"], true),
        ],
    };
    store.write(&name, &t);
    let first = content_string(&store, "todo.json").unwrap();
    store.write(&name, &t);
    let second = content_string(&store, "todo.json").unwrap();
    assert_eq!(first, second);
    assert_eq!(store.read(&name).unwrap(), t);
}

#[test]
fn merge_updates_in_place_keeps_others_and_appends_new() {
    let mut store = Store::new();
    let name = cs("todo");
    let a = entry(0, "call plumber", "kitchen sink", &["home"], false);
    let b = entry(1, "water plants", "", &[""], false);
    store.write(&name, &Tasks { tasks: vec![a, b.clone()] });

    let a_changed = entry(0, "call plumber", "kitchen sink leaks", &["home", "urgent"], true);
    let c = entry(2, "buy stamps", "", &["errand"], false);
    store.write(&name, &Tasks { tasks: vec![a_changed.clone(), c.clone()] });

    let back = store.read(&name).unwrap();
    assert_eq!(back, Tasks { tasks: vec![a_changed, b, c] });
}

#[test]
fn merge_never_drops_entries_missing_from_the_incoming_collection() {
    let mut store = Store::new();
    let name = cs("todo");
    let kept = entry(0, "kept", "still here", &[""], false);
    store.write(&name, &Tasks { tasks: vec![kept.clone()] });
    let other = entry(5, "other", "", &[""], false);
    store.write(&name, &Tasks { tasks: vec![other.clone()] });
    assert_eq!(store.read(&name).unwrap(), Tasks { tasks: vec![kept, other] });
}

#[test]
fn delete_entry_removes_one_and_renumbers_by_position() {
    let mut store = Store::new();
    let name = cs("todo");
    store.write(
        &name,
        &Tasks {
            tasks: vec![
                entry(0, "first", "", &[""], false),
                entry(1, "second", "", &[""], false),
                entry(2, "third", "", &[""], true),
            ],
        },
    );
    store.delete_entry(1, &name);
    let back = store.read(&name).unwrap();
    assert_eq!(
        back,
        Tasks {
            tasks: vec![
                entry(0, "first", "", &[""], false),
                entry(1, "third", "", &[""], true),
            ],
        }
    );
}

#[test]
fn allocate_id_is_zero_then_one_past_the_last_id_then_zero_again() {
    let mut store = Store::new();
    let name = cs("todo");
    assert_eq!(store.allocate_id(&name), 0);
    store.write(&name, &Tasks { tasks: vec![entry(0, "a", "", &[""], false)] });
    assert_eq!(store.allocate_id(&name), 1);
    store.write(&name, &Tasks { tasks: vec![entry(7, "b", "", &[""], false)] });
    assert_eq!(store.allocate_id(&name), 8);
    store.delete_entry(0, &name);
    store.delete_entry(0, &name);
    assert_eq!(store.read(&name).unwrap(), Tasks { tasks: vec![] });
    assert_eq!(store.allocate_id(&name), 0);
}

#[test]
fn allocate_id_flips_the_first_run_latch_once() {
    let mut store = Store::new();
    let name = cs("todo");
    store.allocate_id(&name);
    let settings = store.read_settings().unwrap();
    assert!(settings.run);
    store.allocate_id(&name);
    assert!(store.read_settings().unwrap().run);
}

#[test]
fn reading_a_missing_list_yields_an_empty_collection() {
    let store = Store::new();
    assert_eq!(store.read(&cs("nope")).unwrap(), Tasks { tasks: vec![] });
}

#[test]
fn reading_a_zero_length_file_yields_an_empty_collection() {
    let mut store = Store::new();
    let name = cs("fresh");
    store.create_list(&name);
    assert_eq!(content_string(&store, "fresh.json").unwrap(), "");
    assert_eq!(store.read(&name).unwrap(), Tasks { tasks: vec![] });
}

#[test]
fn reading_invalid_json_is_a_parse_error() {
    let mut store = Store::new();
    store.load_file(cs("bad.json"), cs("{ not json ]"));
    assert_eq!(store.read(&cs("bad")), Err(StoreError::ParseError));
}

#[test]
fn reading_truncated_json_is_a_parse_error() {
    let mut store = Store::new();
    store.load_file(cs("bad.json"), cs("{\n  \"tasks\": ["));
    assert_eq!(store.read(&cs("bad")), Err(StoreError::ParseError));
}

#[test]
fn enumerate_lists_files_but_never_the_settings_store() {
    let mut store = Store::new();
    store.create_list(&cs("alpha"));
    store.read_settings().unwrap();
    store.create_list(&cs("beta"));
    let names: Vec<String> = store
        .enumerate()
        .iter()
        .map(|n| n.iter().collect())
        .collect();
    assert_eq!(names, vec!["alpha.json".to_string(), "beta.json".to_string()]);
}

#[test]
fn delete_list_removes_the_file_and_missing_lists_are_io_errors() {
    let mut store = Store::new();
    let name = cs("gone");
    store.create_list(&name);
    assert!(store.contains_list(&name));
    assert_eq!(store.delete_list(&name), Ok(()));
    assert!(!store.contains_list(&name));
    assert_eq!(store.delete_list(&name), Err(StoreError::IoError));
}

#[test]
fn settings_seed_on_first_read_then_keep_what_was_written() {
    let mut store = Store::new();
    let first = store.read_settings().unwrap();
    assert_eq!(first, Settings { run: false, x: 100, y: 100 });
    store.write_settings(true, WindowPosition { x: -7, y: 250 });
    assert_eq!(store.read_settings().unwrap(), Settings { run: true, x: -7, y: 250 });
}

#[test]
fn settings_default_matches_the_seeded_record() {
    assert_eq!(Settings::default(), Settings { run: false, x: 100, y: 100 });
}

#[test]
fn corrupt_settings_file_is_a_parse_error() {
    let mut store = Store::new();
    store.load_file(cs("settings.json"), cs("oops"));
    assert_eq!(store.read_settings(), Err(StoreError::ParseError));
}

#[test]
fn grocery_scenario_end_to_end() {
    let mut store = Store::new();
    let name = cs("groceries");
    store.create_list(&name);
    let id = store.allocate_id(&name);
    assert_eq!(id, 0);
    store.write(&name, &Tasks { tasks: vec![entry(0, "milk", "semi-skimmed", &["dairy"], false)] });
    let id = store.allocate_id(&name);
    assert_eq!(id, 1);
    store.write(&name, &Tasks {
        tasks: vec![
            entry(0, "milk", "semi-skimmed", &["dairy"], false),
            entry(1, "eggs", "free range", &["dairy"], false),
        ],
    });
    store.delete_entry(0, &name);
    let back = store.read(&name).unwrap();
    assert_eq!(back, Tasks { tasks: vec![entry(0, "eggs", "free range", &["dairy"], false)] });
}

#[test]
fn resolve_path_joins_root_tasks_directory_and_store_name() {
    let root = cs("/home/someone/.data");
    let path: String = task_store::resolve_path(&root, '/', &cs("todo.json"))
        .iter()
        .collect();
    assert_eq!(path, "/home/someone/.data/Tasks/todo.json");
}

#[test]
fn allocate_id_keeps_the_stored_window_position_when_flipping_the_latch() {
    let mut store = Store::new();
    store.write_settings(false, WindowPosition { x: 250, y: 300 });
    store.allocate_id(&cs("todo"));
    assert_eq!(store.read_settings().unwrap(), Settings { run: true, x: 250, y: 300 });
}

#[test]
fn allocate_id_on_a_fresh_store_seeds_default_position_with_the_latch_set() {
    let mut store = Store::new();
    store.allocate_id(&cs("todo"));
    assert_eq!(store.read_settings().unwrap(), Settings { run: true, x: 100, y: 100 });
}

#[test]
fn allocate_id_on_corrupt_settings_restores_the_default_position() {
    let mut store = Store::new();
    store.load_file(cs("settings.json"), cs("oops"));
    store.allocate_id(&cs("todo"));
    assert_eq!(store.read_settings().unwrap(), Settings { run: true, x: 100, y: 100 });
}
