use bloom::settings::{import_settings, setting_text, SettingValue};
use bloom::textmap::TextMap;

#[test]
fn only_json_objects_are_imported() {
    assert!(import_settings(r#"{"bloom-scale": "1.25", "dock": true}"#).is_ok());
    assert!(import_settings("[1, 2]").is_err());
    assert!(import_settings("not json").is_err());
}

#[test]
fn settings_read_as_text() {
    assert_eq!(setting_text(SettingValue::Text("1.5".into())).as_deref(), Some("1.5"));
    assert_eq!(setting_text(SettingValue::Flag(true)).as_deref(), Some("true"));
    assert_eq!(setting_text(SettingValue::Flag(false)).as_deref(), Some("false"));
    assert_eq!(setting_text(SettingValue::Number("2".into())).as_deref(), Some("2"));
    assert_eq!(setting_text(SettingValue::Other), None);
}

#[test]
fn a_text_map_reads_back_what_was_written() {
    let mut m: TextMap<String> = TextMap::new();
    m.insert("a".into(), "1".into());
    m.insert("b".into(), "2".into());
    m.insert("a".into(), "3".into());
    assert_eq!(m.get("a").map(String::as_str), Some("3"));
    assert_eq!(m.get("b").map(String::as_str), Some("2"));
    assert_eq!(m.pairs().len(), 2);
    m.remove("a");
    assert!(m.get("a").is_none());
    m.clear();
    assert!(m.get("b").is_none());
    let later = TextMap::from_pairs(vec![("k".to_owned(), "old".to_owned()), ("k".to_owned(), "new".to_owned())]);
    assert_eq!(later.get("k").map(String::as_str), Some("new"));
}
