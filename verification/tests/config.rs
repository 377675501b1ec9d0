use bautista_bot::config::{types, Config, Setting, DEFAULT_BRIDGE_PATH};
use bautista_bot::str_map::StrMap;

fn table(entries: Vec<(&str, Setting)>) -> StrMap<Setting> {
    let mut t = StrMap::new();
    for (k, v) in entries {
        t.insert(String::from(k), v);
    }
    t
}

fn document(bridge_path: Option<String>) -> types::Toml {
    types::Toml {
        bautista: types::Bautista { poll_seconds: 45 },
        esios: types::Esios { token: String::from("esios") },
        meross: types::Meross {
            bridge_path,
            devices: vec![String::from("washer"), String::from("lamp"), String::from("washer")],
            password: String::from("pw"),
            user: String::from("user"),
        },
        telegram: types::Telegram { admin_user: 7, allowed_users: vec![8, 9], token: String::from("t") },
    }
}

fn devices() -> StrMap<StrMap<Setting>> {
    let mut devices = StrMap::new();
    devices.insert(
        String::from("washer"),
        table(vec![
            ("rule", Setting::Text(String::from("cheap"))),
            ("hours", Setting::Integer(4294967297)),
            ("control", Setting::Boolean(true)),
        ]),
    );
    devices.insert(String::from("oven"), table(vec![("control", Setting::Boolean(true))]));
    devices
}

#[test]
fn bridge_path_defaults_to_the_launcher() {
    let cfg = Config::from_document(document(None), &devices(), toml::Value::Table(Default::default()));
    assert_eq!(cfg.meross.bridge_path, DEFAULT_BRIDGE_PATH);
    assert_eq!(cfg.meross.bridge_path, "/usr/lib/bautista/meross-bridge-launcher");
    let cfg = Config::from_document(
        document(Some(String::from("/opt/bridge"))),
        &devices(),
        toml::Value::Table(Default::default()),
    );
    assert_eq!(cfg.meross.bridge_path, "/opt/bridge");
    assert_eq!(cfg.bautista.poll_seconds, 45);
    assert_eq!(cfg.telegram.allowed_users, vec![8, 9]);
}

#[test]
fn rules_only_for_listed_devices_with_a_table() {
    let cfg = Config::from_document(document(None), &devices(), toml::Value::Table(Default::default()));
    assert_eq!(cfg.rules.len(), 1);
    assert!(cfg.get_rule("washer").is_some());
    assert!(cfg.get_rule("lamp").is_none());
    assert!(cfg.get_rule("oven").is_none());
    assert!(cfg.is_controlled("washer"));
    assert!(!cfg.is_controlled("lamp"));
}

#[test]
fn rule_parameters() {
    let cfg = Config::from_document(document(None), &devices(), toml::Value::Table(Default::default()));
    let rule = cfg.get_rule("washer").unwrap();
    assert_eq!(rule.rule_type(), "cheap");
    assert_eq!(rule.get_string("rule"), "cheap");
    assert!(rule.get_bool("control"));
    // integers are taken modulo 2^32
    assert_eq!(rule.get_u32("hours"), 1);
    assert!(rule.get("missing").is_none());
}

#[test]
fn str_map_keeps_first_insertion_order() {
    let mut m: StrMap<u32> = StrMap::new();
    m.insert(String::from("a"), 1);
    m.insert(String::from("b"), 2);
    m.insert(String::from("a"), 3);
    assert_eq!(m.len(), 2);
    assert_eq!(m.key_at(0), "a");
    assert_eq!(m.value_at(0), &3);
    assert_eq!(m.get("b"), Some(&2));
    assert!(m.contains_key("a"));
    assert!(!m.contains_key("c"));
    assert_eq!(m.find("b"), Some(1));
}

const CONFIG_TEXT: &str = r#"
[bautista]
poll_seconds = 45

[device.washer]
rule = "cheap"
consecutive = true
hours = 3
control = true
price = 1.5

[device.oven]
control = false

[device.lamp]
"#;

#[test]
fn configuration_from_the_file_text() {
    let cfg = Config::from_text(CONFIG_TEXT, document(None)).unwrap();
    assert_eq!(cfg.rules.len(), 2);
    let washer = cfg.get_rule("washer").unwrap();
    assert_eq!(washer.rule_type(), "cheap");
    assert!(washer.get_bool("consecutive"));
    assert_eq!(washer.get_u32("hours"), 3);
    assert!(matches!(washer.get("price"), Some(Setting::Other)));
    assert!(cfg.is_controlled("washer"));
    // an entry without parameters is a rule with an empty table
    let lamp = cfg.get_rule("lamp").unwrap();
    assert!(lamp.get("control").is_none());
    // a device that is not listed gets no rule
    assert!(cfg.get_rule("oven").is_none());
    // the whole document is kept
    assert_eq!(cfg.toml.get("bautista").and_then(|b| b.get("poll_seconds")).and_then(|v| v.as_integer()), Some(45));
}

#[test]
fn configuration_text_that_is_not_toml() {
    assert!(Config::from_text("[device\nwasher = ", document(None)).is_none());
    let cfg = Config::from_text("title = 1", document(None)).unwrap();
    assert_eq!(cfg.rules.len(), 0);
}
