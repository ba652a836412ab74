use atrus::config::{AppConfig, StringMap};

fn value(m: &StringMap, k: &str) -> Option<String> {
    m.get(k).cloned()
}

#[test]
fn default_config_maps_extensions_and_targets() {
    let c = AppConfig::default();
    assert_eq!(c.extension_map.len(), 61);
    assert_eq!(c.sort_targets.len(), 8);
    assert_eq!(value(&c.extension_map, "jpg").as_deref(), Some("Images"));
    assert_eq!(value(&c.extension_map, "csv").as_deref(), Some("Documents"));
    assert_eq!(value(&c.extension_map, "webm").as_deref(), Some("Videos"));
    assert_eq!(value(&c.extension_map, "m4a").as_deref(), Some("Audio"));
    assert_eq!(value(&c.extension_map, "7z").as_deref(), Some("Archives"));
    assert_eq!(value(&c.extension_map, "css").as_deref(), Some("Code"));
    assert_eq!(value(&c.extension_map, "apk").as_deref(), Some("Installers"));
    assert_eq!(value(&c.extension_map, "JPG"), None);
    for cat in ["Images", "Documents", "Videos", "Audio", "Archives", "Code", "Installers", "Others"] {
        assert_eq!(value(&c.sort_targets, cat).as_deref(), Some(cat));
    }
}

#[test]
fn string_map_inserts_replaces_and_removes() {
    let mut m = StringMap::new();
    assert_eq!(m.len(), 0);
    m.insert("a".to_string(), "1".to_string());
    m.insert("b".to_string(), "2".to_string());
    m.insert("a".to_string(), "3".to_string());
    assert_eq!(m.len(), 2);
    assert_eq!(value(&m, "a").as_deref(), Some("3"));
    assert!(m.contains_key("b"));
    m.remove("b");
    m.remove("missing");
    assert!(!m.contains_key("b"));
    assert_eq!(m.len(), 1);
}

#[test]
fn string_map_lists_keys_and_filters_by_value() {
    let mut m = StringMap::new();
    for (k, v) in [("x", "A"), ("y", "B"), ("z", "A")] {
        m.insert(k.to_string(), v.to_string());
    }
    let mut keys = m.keys();
    keys.sort();
    assert_eq!(keys, vec!["x", "y", "z"]);
    let mut with_a = m.keys_with_value("A");
    with_a.sort();
    assert_eq!(with_a, vec!["x", "z"]);
    let mut all = m.pairs();
    all.sort();
    assert_eq!(all[1], ("y".to_string(), "B".to_string()));
    m.retain_other_values("A");
    assert_eq!(m.keys(), vec!["y"]);
}
