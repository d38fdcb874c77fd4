use streamdeck_emotes::action::{Action, Emote, Settings, State};
use streamdeck_emotes::grid::{DeviceModel, Position};
use streamdeck_emotes::manifest::ProfileManifest;
use streamdeck_emotes::merge::{merge, merge_stored, Malformation, Page, PersistedPage};
use serde_json::Value;

fn fresh_page() -> Page {
    let mut manifest = ProfileManifest::new(
        DeviceModel::Standard,
        "@(1)[4057/128/DL16K1A71331]".to_owned(),
        "Emotes".to_owned(),
    );
    let emote = Emote { name: "small9cm".to_owned(), url: String::new() };
    manifest.actions.insert(Position::new(1, 0), emote.to_action("pomu", false, None));
    manifest.actions.insert(
        Position::new(0, 2),
        Action {
            state: 0,
            states: vec![State::default()],
            name: "Create Folder".to_owned(),
            settings: Settings::BackToParent {},
            image: None,
        },
    );
    Page::fresh(manifest)
}

fn document(text: &str) -> Value {
    serde_json::from_str(text).unwrap()
}

fn kept_keys(page: &Page) -> Vec<String> {
    let mut keys: Vec<String> = page.kept.entries().iter().map(|(k, _)| k.clone()).collect();
    keys.sort();
    keys
}

const STORED: &str = r#"{
    "Actions": {
        "1,0": {"Name": "Old text"},
        "3,1": {"Name": "Website", "Settings": {"path": "https://example.com"}},
        "4,2": {"Name": "Hotkey", "State": 0}
    },
    "Name": "Emotes"
}"#;

#[test]
fn merge_without_a_stored_page_is_the_page_itself() {
    let merged = merge(fresh_page(), None).ok().unwrap();
    assert_eq!(merged.kept.len(), 0);
    assert_eq!(merged.manifest.actions.len(), 2);
    assert!(merged.manifest.actions.contains_key(Position::new(1, 0)));
    assert!(merged.manifest.actions.contains_key(Position::new(0, 2)));
    assert_eq!(merged.manifest.name, "Emotes");
}

#[test]
fn merge_keeps_stored_buttons_at_positions_the_page_lacks() {
    let stored = PersistedPage::from_json(&document(STORED));
    let merged = merge(fresh_page(), Some(stored)).ok().unwrap();
    assert_eq!(kept_keys(&merged), vec!["3,1".to_owned(), "4,2".to_owned()]);
    assert_eq!(
        merged.kept.get("3,1"),
        Some(&document(
            r#"{"Name": "Website", "Settings": {"path": "https://example.com"}}"#
        ))
    );
    assert_eq!(merged.kept.get("4,2"), Some(&document(r#"{"Name": "Hotkey", "State": 0}"#)));
    assert!(merged.contains_key("1,0"));
    assert!(merged.contains_key("0,2"));
    assert!(merged.contains_key("3,1"));
    assert!(!merged.contains_key("2,2"));
}

#[test]
fn merge_never_replaces_a_button_of_the_page() {
    let stored = PersistedPage::from_json(&document(STORED));
    let merged = merge(fresh_page(), Some(stored)).ok().unwrap();
    assert!(merged.kept.get("1,0").is_none());
    let own = merged.manifest.actions.get(Position::new(1, 0)).unwrap();
    assert_eq!(own.name, "Text");
    assert_eq!(merged.manifest.actions.len(), 2);
}

#[test]
fn merging_twice_changes_nothing() {
    let once = merge(fresh_page(), Some(PersistedPage::from_json(&document(STORED))))
        .ok()
        .unwrap();
    let keys_once = kept_keys(&once);
    let twice = merge(once, Some(PersistedPage::from_json(&document(STORED))))
        .ok()
        .unwrap();
    assert_eq!(kept_keys(&twice), keys_once);
    assert_eq!(twice.kept.len(), 2);
    assert_eq!(twice.manifest.actions.len(), 2);
    assert_eq!(
        twice.kept.get("3,1"),
        Some(&document(
            r#"{"Name": "Website", "Settings": {"path": "https://example.com"}}"#
        ))
    );
}

#[test]
fn keys_are_compared_as_text() {
    let stored = PersistedPage::from_json(&document(
        r#"{"Actions": {"01,0": 1, "1, 0": 2, "1,0": 3, "note": 4}}"#,
    ));
    let merged = merge(fresh_page(), Some(stored)).ok().unwrap();
    assert_eq!(
        kept_keys(&merged),
        vec!["01,0".to_owned(), "1, 0".to_owned(), "note".to_owned()]
    );
}

#[test]
fn stored_page_without_a_table_of_buttons_is_malformed() {
    for text in [
        r#"{"Name": "Emotes"}"#,
        r#"{"Actions": [1, 2]}"#,
        r#"{"Actions": "none"}"#,
        r#"{"Actions": null}"#,
        r#"[]"#,
        r#"3"#,
    ] {
        let stored = PersistedPage::from_json(&document(text));
        assert!(stored.actions.is_none(), "{}", text);
        let failure = merge(fresh_page(), Some(stored)).err().unwrap();
        assert_eq!(failure.reason, Malformation::InvalidActions);
        assert_eq!(
            failure.message(),
            "Existing manifest file has invalid `Actions` field"
        );
        assert_eq!(failure.fresh.manifest.actions.len(), 2);
        assert_eq!(failure.fresh.kept.len(), 0);
    }
}

#[test]
fn empty_table_of_buttons_adds_nothing() {
    let stored = PersistedPage::from_json(&document(r#"{"Actions": {}}"#));
    assert_eq!(stored.actions.as_ref().map(|records| records.len()), Some(0));
    let merged = merge(fresh_page(), Some(stored)).ok().unwrap();
    assert_eq!(merged.kept.len(), 0);
}

#[test]
fn stored_text_is_parsed_before_the_merge() {
    let merged = merge_stored(fresh_page(), Some(STORED)).ok().unwrap();
    assert_eq!(kept_keys(&merged), vec!["3,1".to_owned(), "4,2".to_owned()]);
    let untouched = merge_stored(fresh_page(), None).ok().unwrap();
    assert_eq!(untouched.kept.len(), 0);
}

#[test]
fn stored_text_that_is_not_json_is_malformed() {
    let failure = merge_stored(fresh_page(), Some("{\"Actions\": ")).err().unwrap();
    assert_eq!(failure.reason, Malformation::InvalidJson);
    assert_eq!(failure.message(), "Invalid JSON");
    assert_eq!(failure.fresh.manifest.actions.len(), 2);
    let failure = merge_stored(fresh_page(), Some("{}")).err().unwrap();
    assert_eq!(failure.reason, Malformation::InvalidActions);
}

#[test]
fn position_key_is_column_comma_row() {
    assert_eq!(Position::new(0, 0).to_string(), "0,0");
    assert_eq!(Position::new(4, 2).to_string(), "4,2");
    assert_eq!(Position::new(10, 255).to_string(), "10,255");
    assert_eq!(Position::new(200, 9).to_string(), "200,9");
}
