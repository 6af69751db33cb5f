use rustdesk_rmm::json::Json;
use rustdesk_rmm::rmm::inventory::{installed_software, snapshot, RegistryEntry};
use rustdesk_rmm::text::name_leq;

fn entry(hidden: Option<u32>, name: Option<&str>, version: Option<&str>) -> RegistryEntry {
    RegistryEntry {
        system_component: hidden,
        display_name: name.map(str::to_owned),
        display_version: version.map(str::to_owned),
    }
}

fn name_of(j: &Json) -> &str {
    j.get("name").unwrap().as_str().unwrap().as_str()
}

#[test]
fn hidden_and_nameless_entries_are_skipped_and_the_rest_sorted() {
    let apps = installed_software(&vec![
        entry(None, Some("Zoom"), Some("5.0")),
        entry(Some(1), Some("KB123"), None),
        entry(Some(0), Some("7-Zip"), None),
        entry(None, None, Some("1.0")),
        entry(None, Some(""), None),
        entry(None, Some("Zoom"), Some("4.0")),
        entry(None, Some("Git"), Some("2.40")),
    ]);
    let names: Vec<&str> = apps.iter().map(name_of).collect();
    assert_eq!(names, vec!["7-Zip", "Git", "Zoom", "Zoom"]);
    assert_eq!(apps[0].get("version").unwrap(), &Json::Str(String::new()));
    assert_eq!(apps[2].get("version").unwrap(), &Json::Str("5.0".to_owned()));
    assert_eq!(apps[3].get("version").unwrap(), &Json::Str("4.0".to_owned()));
}

#[test]
fn names_order_like_str() {
    for (a, b) in [("a", "b"), ("", "a"), ("ab", "abc"), ("Z", "a"), ("é", "z"), ("abc", "abd")] {
        assert_eq!(name_leq(a, b), a <= b, "{a} {b}");
        assert_eq!(name_leq(b, a), b <= a, "{b} {a}");
    }
}

#[test]
fn snapshot_adds_the_software_list() {
    let sys = Json::Object(vec![
        ("hostname".to_owned(), Json::Str("box".to_owned())),
        ("installed_software".to_owned(), Json::Null),
    ]);
    let out = snapshot(sys, vec![Json::Str("x".to_owned())]);
    match &out {
        Json::Object(fields) => assert_eq!(fields.len(), 2),
        other => panic!("not an object: {other:?}"),
    }
    assert_eq!(out.get("installed_software").unwrap(), &Json::Array(vec![Json::Str("x".to_owned())]));
    let fresh = snapshot(Json::Null, Vec::new());
    assert_eq!(fresh.get("installed_software").unwrap(), &Json::Array(Vec::new()));
}
