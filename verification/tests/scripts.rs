use rustdesk_rmm::json::{json_text, parse_json, Json};
use rustdesk_rmm::rmm::scripts::{is_due, script_from, Scheduler, Script, ScriptLibrary};

fn read(text: &str) -> Option<ScriptLibrary> {
    ScriptLibrary::from_json(&parse_json(text).unwrap())
}

#[test]
fn round_trips_through_json() {
    let mut scripts = ScriptLibrary::new();
    scripts.insert(
        "disk-cleanup",
        Script { body: "cleanmgr /sagerun:1".to_owned(), schedule_secs: Some(3600) },
    );
    let json = json_text(&scripts.to_json());
    let back = read(&json).unwrap();
    assert_eq!(back.get("disk-cleanup").unwrap().body, "cleanmgr /sagerun:1");
    assert_eq!(back.get("disk-cleanup").unwrap().schedule_secs, Some(3600));
}

#[test]
fn saved_text_reads_back_as_the_library() {
    let mut scripts = ScriptLibrary::new();
    scripts.add("zeta", "echo \"z\"\n\tdone");
    scripts.insert("alpha", Script { body: "ls".to_owned(), schedule_secs: Some(60) });
    scripts.add("mid", "");
    let text = scripts.to_text();
    let back = read(&text).unwrap();
    assert_eq!(back.len(), 3);
    for i in 0..3 {
        let (name, script) = scripts.entry_at(i);
        let (back_name, back_script) = back.entry_at(i);
        assert_eq!(name, back_name);
        assert_eq!(script.body, back_script.body);
        assert_eq!(script.schedule_secs, back_script.schedule_secs);
    }
    assert_eq!(scripts.entry_at(0).0, "alpha");
    assert_eq!(scripts.entry_at(2).0, "zeta");
}

#[test]
fn unreadable_files_hold_no_scripts() {
    assert!(parse_json("not json").is_err());
    assert!(read(r#"{"a": 1}"#).is_none());
    assert_eq!(read(r#"{"a": {"body": "x"}}"#).unwrap().len(), 1);
}

#[test]
fn a_repeated_member_makes_a_script_unreadable() {
    let twice = Json::Object(vec![
        ("body".to_owned(), Json::Str("x".to_owned())),
        ("body".to_owned(), Json::Str("y".to_owned())),
    ]);
    assert!(script_from(&twice).is_none());
    let library = Json::Object(vec![("a".to_owned(), twice)]);
    assert!(ScriptLibrary::from_json(&library).is_none());
    let schedule_twice = Json::Object(vec![
        ("body".to_owned(), Json::Str("x".to_owned())),
        ("schedule_secs".to_owned(), Json::Int(1)),
        ("schedule_secs".to_owned(), Json::Null),
    ]);
    assert!(script_from(&schedule_twice).is_none());
}

#[test]
fn add_replaces_and_unschedules() {
    let mut scripts = read(r#"{"a": {"body": "old", "schedule_secs": 60}}"#).unwrap();
    scripts.add("a", "new");
    scripts.add("b", "other");
    assert_eq!(scripts.len(), 2);
    assert_eq!(scripts.get("a").unwrap().body, "new");
    assert_eq!(scripts.get("a").unwrap().schedule_secs, None);
    assert_eq!(scripts.body_to_run("b"), Ok("other".to_owned()));
}

#[test]
fn running_an_unknown_script_is_an_error() {
    let scripts = ScriptLibrary::new();
    assert_eq!(scripts.body_to_run("x"), Err("No such script: x".to_owned()));
}

#[test]
fn the_file_format_reads_what_serde_reads() {
    assert!(read(r#"{"a": {"body": "x"}}"#).unwrap().get("a").unwrap().schedule_secs.is_none());
    assert!(read(r#"{"a": {"body": "x", "schedule_secs": null, "extra": 1}}"#).is_some());
    assert_eq!(read(r#"{"a": ["x", 5]}"#).unwrap().get("a").unwrap().schedule_secs, Some(5));
    assert!(read(r#"{"a": ["x"]}"#).is_none());
    assert!(read(r#"{"a": {"body": "x", "schedule_secs": -1}}"#).is_none());
    assert!(read(r#"{"a": {"body": "x", "schedule_secs": 1.5}}"#).is_none());
    assert!(read(r#"{"a": {"schedule_secs": 5}}"#).is_none());
    assert!(read(r#"[]"#).is_none());
    assert!(script_from(&Json::Null).is_none());
}

#[test]
fn listing_names_schedules() {
    let scripts = read(r#"{"a": {"body": "x", "schedule_secs": 30}}"#).unwrap();
    match scripts.list() {
        Json::Array(items) => {
            assert_eq!(items.len(), 1);
            assert_eq!(items[0].get("name").unwrap(), &Json::Str("a".to_owned()));
            assert_eq!(items[0].get("schedule_secs").unwrap(), &Json::Int(30));
            assert!(items[0].get("body").is_none());
        }
        other => panic!("listing is not an array: {other:?}"),
    }
}

#[test]
fn scheduled_scripts_fall_due() {
    assert!(!is_due(None, None));
    assert!(is_due(Some(60), None));
    assert!(!is_due(Some(60), Some(59)));
    assert!(is_due(Some(60), Some(60)));
    let second: u128 = 1_000_000_000;
    let mut scheduler = Scheduler::new();
    assert!(!scheduler.start_if_due("b", None, 0));
    assert!(scheduler.start_if_due("a", Some(60), 5 * second));
    assert!(!scheduler.start_if_due("a", Some(60), 64 * second + second / 2));
    assert!(scheduler.start_if_due("a", Some(60), 65 * second));
    assert!(!scheduler.start_if_due("a", Some(60), 100 * second));
    assert!(scheduler.start_if_due("c", Some(10), 100 * second));
}

#[test]
fn default_script_is_empty_and_unscheduled() {
    let s = Script::default();
    assert_eq!(s.body, "");
    assert_eq!(s.schedule_secs, None);
}
