use bautista_bot::config::{types, Config, Setting};
use bautista_bot::devices::{command, is_reply_line, parse_reply, switch_command, Devices, DevicesError};
use bautista_bot::str_map::StrMap;

fn table(entries: Vec<(&str, Setting)>) -> StrMap<Setting> {
    let mut t = StrMap::new();
    for (k, v) in entries {
        t.insert(String::from(k), v);
    }
    t
}

fn config() -> Config {
    let toml = types::Toml {
        bautista: types::Bautista { poll_seconds: 30 },
        esios: types::Esios { token: String::new() },
        meross: types::Meross {
            bridge_path: None,
            devices: vec![String::from("washer"), String::from("boiler"), String::from("lamp")],
            password: String::from("pw"),
            user: String::from("user"),
        },
        telegram: types::Telegram { admin_user: 1, allowed_users: vec![], token: String::from("t") },
    };
    let mut devices = StrMap::new();
    devices.insert(String::from("washer"), table(vec![("control", Setting::Boolean(true))]));
    devices.insert(String::from("boiler"), table(vec![("control", Setting::Boolean(false))]));
    Config::from_document(toml, &devices, toml::Value::Table(Default::default()))
}

#[test]
fn only_controlled_devices_with_a_wished_state_are_switched() {
    let cfg = config();
    let mut devices = Devices::new(&cfg);
    assert!(devices.is_control_known());
    assert!(devices.pending().is_empty());
    let mut update = StrMap::new();
    update.insert(String::from("washer"), Some(true));
    update.insert(String::from("boiler"), Some(true));
    update.insert(String::from("lamp"), None);
    devices.update(&update);
    assert_eq!(devices.pending(), vec![(String::from("washer"), true)]);
    let mut update = StrMap::new();
    update.insert(String::from("washer"), None);
    devices.update(&update);
    // a device without a decision keeps its wished state
    assert_eq!(devices.pending(), vec![(String::from("washer"), true)]);
}

#[test]
fn bridge_commands_and_replies() {
    assert_eq!(command("STATUS", "washer"), "STATUS washer");
    assert_eq!(switch_command(true, "ON"), None);
    assert_eq!(switch_command(true, "OFF"), Some("TURNON"));
    assert_eq!(switch_command(false, "ON"), Some("TURNOFF"));
    assert_eq!(switch_command(false, "OFF"), None);
    assert!(is_reply_line("> OK ON"));
    assert!(!is_reply_line("connecting..."));
    match parse_reply("> OK ON") {
        Ok(v) => assert_eq!(v, "ON"),
        Err(_) => panic!("expected a value"),
    }
    match parse_reply("> ERROR device not found") {
        Err(DevicesError::BridgeError(m)) => assert_eq!(m, "device not found"),
        Ok(_) => panic!("expected an error"),
    }
}

#[test]
fn control_must_be_known_for_every_device_with_a_rule() {
    let toml = types::Toml {
        bautista: types::Bautista { poll_seconds: 30 },
        esios: types::Esios { token: String::new() },
        meross: types::Meross {
            bridge_path: None,
            devices: vec![String::from("washer"), String::from("lamp")],
            password: String::from("pw"),
            user: String::from("user"),
        },
        telegram: types::Telegram { admin_user: 1, allowed_users: vec![], token: String::from("t") },
    };
    let mut tables = StrMap::new();
    tables.insert(String::from("washer"), table(vec![("control", Setting::Boolean(true))]));
    tables.insert(String::from("lamp"), table(vec![("control", Setting::Integer(1))]));
    let cfg = Config::from_document(toml, &tables, toml::Value::Table(Default::default()));
    let devices = Devices::new(&cfg);
    assert!(!devices.is_control_known());
}
