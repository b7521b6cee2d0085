use eihwaz::{
    config_dir_in, config_file_in, items_key_duplicate, parse_item, parse_items,
    resolve_user_config_dir, ConfigError, Item, ItemValue, JsonValue, DEFAULT_CONFIG,
};

fn to_model(v: &serde_json::Value) -> JsonValue {
    match v {
        serde_json::Value::Null => JsonValue::Null,
        serde_json::Value::Bool(b) => JsonValue::Bool(*b),
        serde_json::Value::Number(n) => JsonValue::Number(n.to_string()),
        serde_json::Value::String(s) => JsonValue::Str(s.clone()),
        serde_json::Value::Array(a) => JsonValue::Array(a.iter().map(to_model).collect()),
        serde_json::Value::Object(o) => JsonValue::Object(
            o.iter().map(|(k, v)| (k.clone(), to_model(v))).collect(),
        ),
    }
}

fn decode(text: &str) -> Result<Vec<Item>, ConfigError> {
    let value: serde_json::Value = serde_json::from_str(text).unwrap();
    parse_items(&to_model(&value))
}

fn item(key: char, text: &str, value: ItemValue) -> Item {
    Item { key, text: text.to_string(), value }
}

fn command(key: char, cmd: &str) -> Item {
    item(key, "t", ItemValue::Command(cmd.to_string()))
}

#[test]
fn default_document_decodes_to_submenu_with_pwd() {
    let items = decode(DEFAULT_CONFIG).unwrap();
    let expected = vec![item(
        'a',
        "test",
        ItemValue::Index(vec![item('b', "run `pwd`", ItemValue::Command("pwd".to_string()))]),
    )];
    assert_eq!(items, expected);
}

#[test]
fn duplicate_key_in_root_list_is_rejected() {
    let r = decode(
        r#"[{"key":"a","type":"command","text":"x","value":"ls"},
            {"key":"a","type":"file","text":"y","value":"/tmp"}]"#,
    );
    assert!(matches!(r, Err(ConfigError::DuplicateKey)));
}

#[test]
fn duplicate_key_in_submenu_is_rejected() {
    let r = decode(
        r#"[{"key":"a","type":"index","text":"x","value":[
              {"key":"b","type":"command","text":"1","value":"ls"},
              {"key":"b","type":"command","text":"2","value":"pwd"}]}]"#,
    );
    assert!(matches!(r, Err(ConfigError::DuplicateKey)));
}

#[test]
fn key_reused_in_submenu_is_accepted() {
    let items = decode(
        r#"[{"key":"a","type":"index","text":"x","value":[
              {"key":"a","type":"command","text":"inner","value":"ls"}]},
            {"key":"b","type":"index","text":"y","value":[
              {"key":"a","type":"command","text":"other","value":"pwd"}]}]"#,
    )
    .unwrap();
    assert_eq!(items.len(), 2);
    assert_eq!(items[0].key, 'a');
    assert_eq!(items[0].value, ItemValue::Index(vec![item('a', "inner", ItemValue::Command("ls".to_string()))]));
}

#[test]
fn keys_are_case_sensitive() {
    let items = decode(
        r#"[{"key":"a","type":"command","text":"x","value":"ls"},
            {"key":"A","type":"command","text":"y","value":"pwd"}]"#,
    )
    .unwrap();
    assert_eq!(items.len(), 2);
}

#[test]
fn unknown_type_is_rejected() {
    let r = decode(r#"[{"key":"a","type":"bogus","text":"x","value":"ls"}]"#);
    assert!(matches!(r, Err(ConfigError::UnknownItemType)));
}

#[test]
fn unknown_type_is_rejected_whatever_the_other_members() {
    let r = decode(r#"[{"type":"bogus","value":17}]"#);
    assert!(matches!(r, Err(ConfigError::UnknownItemType)));
}

#[test]
fn missing_member_is_invalid() {
    for text in [
        r#"[{"type":"command","text":"x","value":"ls"}]"#,
        r#"[{"key":"a","type":"command","value":"ls"}]"#,
        r#"[{"key":"a","type":"command","text":"x"}]"#,
        r#"[{"key":"a","text":"x","value":"ls"}]"#,
    ] {
        assert!(matches!(decode(text), Err(ConfigError::InvalidConfig)), "{}", text);
    }
}

#[test]
fn mistyped_member_is_invalid() {
    for text in [
        r#"{"key":"a"}"#,
        r#"[7]"#,
        r#"[{"key":1,"type":"command","text":"x","value":"ls"}]"#,
        r#"[{"key":"a","type":"command","text":true,"value":"ls"}]"#,
        r#"[{"key":"a","type":3,"text":"x","value":"ls"}]"#,
        r#"[{"key":"a","type":"command","text":"x","value":["ls"]}]"#,
        r#"[{"key":"a","type":"index","text":"x","value":"ls"}]"#,
        r#"[{"key":"","type":"command","text":"x","value":"ls"}]"#,
    ] {
        assert!(matches!(decode(text), Err(ConfigError::InvalidConfig)), "{}", text);
    }
}

#[test]
fn nested_error_fails_the_whole_load() {
    let r = decode(
        r#"[{"key":"a","type":"index","text":"x","value":[
              {"key":"b","type":"nope","text":"1","value":"ls"}]}]"#,
    );
    assert!(matches!(r, Err(ConfigError::UnknownItemType)));
}

#[test]
fn first_failing_entry_decides_the_error() {
    let r = decode(
        r#"[{"key":"a","type":"command","text":"x"},
            {"key":"b","type":"bogus","text":"y","value":"ls"}]"#,
    );
    assert!(matches!(r, Err(ConfigError::InvalidConfig)));
}

#[test]
fn long_key_uses_first_character() {
    let items = decode(r#"[{"key":"xyz","type":"command","text":"t","value":"ls"}]"#).unwrap();
    assert_eq!(items, vec![command('x', "ls")]);
}

#[test]
fn each_type_maps_to_its_action() {
    let items = decode(
        r#"[{"key":"f","type":"file","text":"t","value":"/etc/hosts"},
            {"key":"c","type":"command","text":"t","value":"ls -l"},
            {"key":"p","type":"application","text":"t","value":"firefox"},
            {"key":"i","type":"index","text":"t","value":[]}]"#,
    )
    .unwrap();
    assert_eq!(
        items,
        vec![
            item('f', "t", ItemValue::File("/etc/hosts".to_string())),
            command('c', "ls -l"),
            command('p', "firefox"),
            item('i', "t", ItemValue::Index(vec![])),
        ]
    );
}

#[test]
fn empty_list_decodes() {
    assert_eq!(decode("[]").unwrap(), vec![]);
}

#[test]
fn parse_item_decodes_one_object() {
    let value: serde_json::Value =
        serde_json::from_str(r#"{"key":"q","type":"command","text":"quit","value":"true"}"#).unwrap();
    let it = parse_item(&to_model(&value)).unwrap();
    assert_eq!(it, item('q', "quit", ItemValue::Command("true".to_string())));
}

#[test]
fn key_duplicate_detection() {
    assert!(!items_key_duplicate(&vec![]));
    assert!(!items_key_duplicate(&vec![command('a', "x"), command('b', "y")]));
    assert!(items_key_duplicate(&vec![command('a', "x"), command('b', "y"), command('a', "z")]));
}

#[test]
fn config_dir_prefers_platform_directory() {
    let r = resolve_user_config_dir(Some("/xdg".to_string()), Some("/home/u".to_string()));
    assert_eq!(r, Some("/xdg".to_string()));
}

#[test]
fn config_dir_falls_back_to_home() {
    let r = resolve_user_config_dir(None, Some("/home/u".to_string()));
    assert_eq!(r, Some("/home/u/.config".to_string()));
    assert_eq!(resolve_user_config_dir(None, None), None);
}

#[test]
fn config_file_path() {
    let dir = config_dir_in("/home/u/.config");
    assert_eq!(dir, "/home/u/.config/eihwaz");
    assert_eq!(config_file_in(&dir), "/home/u/.config/eihwaz/config.json");
}
