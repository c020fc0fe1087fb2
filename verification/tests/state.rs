use mikanplus::library::KeywordMap;
use mikanplus::network::{line_bool, line_value, system_proxy_candidates};
use mikanplus::paths::{video_dir_from_user_dirs, VideoDir};
use mikanplus::state::{
    get_field, keyword_key, load_download_dir, load_subgroup_keywords, load_theme_mode,
    parse_subgroup_keywords, read_state_text, save_download_dir, save_subgroup_keywords, set_field,
    subgroup_keywords_json, JsonValue, StateRead,
};

fn s(text: &str) -> String {
    text.to_string()
}

fn from_serde(v: serde_json::Value) -> JsonValue {
    match v {
        serde_json::Value::Null => JsonValue::Null,
        serde_json::Value::Bool(b) => JsonValue::Bool(b),
        serde_json::Value::Number(n) => JsonValue::Number(n.to_string()),
        serde_json::Value::String(s) => JsonValue::Str(s),
        serde_json::Value::Array(a) => JsonValue::Array(a.into_iter().map(from_serde).collect()),
        serde_json::Value::Object(m) => {
            JsonValue::Object(m.into_iter().map(|(k, x)| (k, from_serde(x))).collect())
        }
    }
}

/// The state read from a text, parsed as the application parses it.
fn read(text: &str) -> StateRead {
    let parsed = serde_json::from_str::<serde_json::Value>(text).ok().map(from_serde);
    read_state_text(text, parsed)
}

fn object(entries: Vec<(&str, JsonValue)>) -> JsonValue {
    JsonValue::Object(entries.into_iter().map(|(k, v)| (s(k), v)).collect())
}

#[test]
fn parse_keywords_roundtrip() {
    let value = object(vec![
        ("101:5", JsonValue::Str(s("简日"))),
        ("202:7", JsonValue::Str(s("1080"))),
        ("303:9", JsonValue::Str(s(""))),
    ]);
    let map = parse_subgroup_keywords(Some(&value));
    assert_eq!(map.len(), 2);
    assert_eq!(map.get(101, 5).as_deref(), Some("简日"));
    assert_eq!(map.get(202, 7).as_deref(), Some("1080"));
    // an empty keyword is dropped
    assert!(map.get(303, 9).is_none());
}

#[test]
fn parse_keywords_invalid_entries_ignored() {
    let value = object(vec![
        ("bad-key", JsonValue::Str(s("x"))),
        ("1:not-a-number", JsonValue::Str(s("y"))),
        ("2:3", JsonValue::Number(s("42"))),
    ]);
    assert_eq!(parse_subgroup_keywords(Some(&value)).len(), 0);
    assert_eq!(parse_subgroup_keywords(None).len(), 0);
}

#[test]
fn keywords_accept_plus_and_later_entry_wins() {
    let value = object(vec![
        ("+7:8", JsonValue::Str(s("a"))),
        ("7:08", JsonValue::Str(s("b"))),
        ("9:1:2", JsonValue::Str(s("c"))),
        ("4294967296:1", JsonValue::Str(s("d"))),
    ]);
    let map = parse_subgroup_keywords(Some(&value));
    assert_eq!(map.len(), 1);
    assert_eq!(map.get(7, 8).as_deref(), Some("b"));
    // a value that is not an object holds no keywords
    assert_eq!(parse_subgroup_keywords(Some(&JsonValue::Str(s("1:2")))).len(), 0);
}

#[test]
fn keywords_saved_then_loaded_are_the_same() {
    let mut kw = KeywordMap::new();
    kw.insert(101, 5, s("简日"));
    kw.insert(4294967295, 0, s("1080"));
    kw.apply_input(3, 4, "  HEVC ");
    kw.apply_input(101, 6, "   ");
    let mut fields = vec![(s("theme"), JsonValue::Str(s("dark")))];
    save_subgroup_keywords(&mut fields, &kw);
    let state = StateRead::Fields(fields);
    let back = load_subgroup_keywords(&state);
    assert_eq!(back.len(), 3);
    assert_eq!(back.get(101, 5).as_deref(), Some("简日"));
    assert_eq!(back.get(4294967295, 0).as_deref(), Some("1080"));
    assert_eq!(back.get(3, 4).as_deref(), Some("HEVC"));
    assert!(back.get(101, 6).is_none());
    // the other fields are kept
    assert_eq!(load_theme_mode(&state).as_deref(), Some("dark"));
}

#[test]
fn keyword_json_keys() {
    assert_eq!(keyword_key(101, 5), "101:5");
    assert_eq!(keyword_key(0, 4294967295), "0:4294967295");
    let mut kw = KeywordMap::new();
    kw.insert(1, 2, s("x"));
    match subgroup_keywords_json(&kw) {
        JsonValue::Object(e) => {
            assert_eq!(e.len(), 1);
            assert_eq!(e[0].0, "1:2");
            assert!(matches!(&e[0].1, JsonValue::Str(v) if v == "x"));
        }
        other => panic!("not an object: {:?}", other),
    }
}

#[test]
fn state_text_is_read_or_refused() {
    assert!(matches!(read(""), StateRead::Fields(f) if f.is_empty()));
    assert!(matches!(read(" \n\t"), StateRead::Fields(f) if f.is_empty()));
    assert!(matches!(read("{not-json"), StateRead::Damaged));
    assert!(matches!(read("[]"), StateRead::Damaged));
    assert!(matches!(read("\"x\""), StateRead::Damaged));
    let state = read(r#"{"theme": "light", "download_dir": "/data/v", "n": 3}"#);
    assert_eq!(load_theme_mode(&state).as_deref(), Some("light"));
    assert_eq!(load_download_dir(&state, s("/home/u/Videos")), "/data/v");
    assert!(load_theme_mode(&StateRead::Damaged).is_none());
}

#[test]
fn download_dir_falls_back_to_default() {
    let home = s("/home/u/Videos");
    let empty = read(r#"{"download_dir": ""}"#);
    assert_eq!(load_download_dir(&empty, home.clone()), home);
    let number = read(r#"{"download_dir": 5}"#);
    assert_eq!(load_download_dir(&number, home.clone()), home);
    assert_eq!(load_download_dir(&StateRead::Damaged, home.clone()), home);
    let theme = read(r#"{"theme": 1}"#);
    assert!(load_theme_mode(&theme).is_none());
}

#[test]
fn set_field_replaces_or_appends() {
    let mut fields = vec![(s("a"), JsonValue::Null), (s("b"), JsonValue::Bool(true))];
    set_field(&mut fields, "b", JsonValue::Str(s("x")));
    assert_eq!(fields.len(), 2);
    assert!(matches!(get_field(&fields, "b"), Some(JsonValue::Str(v)) if v == "x"));
    set_field(&mut fields, "c", JsonValue::Number(s("1")));
    assert_eq!(fields.len(), 3);
    assert!(matches!(get_field(&fields, "c"), Some(JsonValue::Number(v)) if v == "1"));
    assert!(matches!(get_field(&fields, "a"), Some(JsonValue::Null)));
    assert!(get_field(&fields, "d").is_none());
}

#[test]
fn videos_folder_from_user_dirs() {
    let text = "# comment\nXDG_DESKTOP_DIR=\"$HOME/Desktop\"\n  XDG_VIDEOS_DIR=\"$HOME/Movies\"\r\n";
    assert_eq!(video_dir_from_user_dirs(text), VideoDir::UnderHome(s("Movies")));
    assert_eq!(
        video_dir_from_user_dirs("XDG_VIDEOS_DIR=/mnt/video\n"),
        VideoDir::Absolute(s("/mnt/video"))
    );
    // the first setting decides, even when it is unusable
    assert_eq!(
        video_dir_from_user_dirs("XDG_VIDEOS_DIR=\"$HOME\"\nXDG_VIDEOS_DIR=/x\n"),
        VideoDir::Default
    );
    assert_eq!(video_dir_from_user_dirs(""), VideoDir::Default);
    assert_eq!(video_dir_from_user_dirs("XDG_MUSIC_DIR=/m"), VideoDir::Default);
}

#[test]
fn scutil_proxy_settings() {
    let text = "<dictionary> {\n  HTTPEnable : 1\n  HTTPPort : 8080\n  HTTPProxy : 10.0.0.1\n  HTTPSEnable : 0\n  HTTPSPort : 443\n  HTTPSProxy : 10.0.0.2\n}\n";
    assert_eq!(line_value(text, "HTTPPort").as_deref(), Some("8080"));
    assert_eq!(line_value(text, "FTPPort"), None);
    assert!(line_bool(text, "HTTPEnable"));
    assert!(!line_bool(text, "HTTPSEnable"));
    assert_eq!(system_proxy_candidates(text), vec![s("http://10.0.0.1:8080")]);
    let both = "  HTTPSEnable : 1\n  HTTPSProxy : h\n  HTTPSPort : 1\n  HTTPEnable : 1\n  HTTPProxy : g\n  HTTPPort : 2\n";
    assert_eq!(system_proxy_candidates(both), vec![s("http://h:1"), s("http://g:2")]);
    assert!(system_proxy_candidates("  HTTPSEnable : 1\n  HTTPSProxy : h\n").is_empty());
}

#[test]
fn download_dir_saved_then_loaded() {
    let mut fields = vec![(s("theme"), JsonValue::Str(s("dark")))];
    save_download_dir(&mut fields, "/data/anime");
    let state = StateRead::Fields(fields);
    assert_eq!(load_download_dir(&state, s("/home/u/Videos")), "/data/anime");
    assert_eq!(load_theme_mode(&state).as_deref(), Some("dark"));
    let mut fields = Vec::new();
    save_download_dir(&mut fields, "");
    assert_eq!(load_download_dir(&StateRead::Fields(fields), s("/home/u/Videos")), "/home/u/Videos");
}

#[test]
fn empty_keywords_do_not_come_back() {
    let mut kw = KeywordMap::new();
    kw.insert(1, 2, s(""));
    kw.insert(3, 4, s("x"));
    let mut fields = Vec::new();
    save_subgroup_keywords(&mut fields, &kw);
    let back = load_subgroup_keywords(&StateRead::Fields(fields));
    assert_eq!(back.len(), 1);
    assert!(back.get(1, 2).is_none());
    assert_eq!(back.get(3, 4).as_deref(), Some("x"));
}
