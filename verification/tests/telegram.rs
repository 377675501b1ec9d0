use bautista_bot::config::{types, Config};
use bautista_bot::status::{default_parsed_status_toml, types as status_types, Status, DEFAULT_STATUS_TOML};
use bautista_bot::str_map::StrMap;
use bautista_bot::telegram::{api, Bot, Message};

fn config() -> Config {
    let toml = types::Toml {
        bautista: types::Bautista { poll_seconds: 30 },
        esios: types::Esios { token: String::new() },
        meross: types::Meross {
            bridge_path: None,
            devices: vec![],
            password: String::from("pw"),
            user: String::from("user"),
        },
        telegram: types::Telegram { admin_user: 7, allowed_users: vec![8, 9], token: String::from("TOKEN") },
    };
    Config::from_document(toml, &StrMap::new(), toml::Value::Table(Default::default()))
}

fn status(last: i64) -> Status {
    Status::from_toml(Some(status_types::Toml { telegram: status_types::Telegram { last_update_id: last } }))
}

#[test]
fn status_starts_from_the_file_or_from_zero() {
    assert_eq!(Status::from_toml(None).telegram.last_update_id(), 0);
    assert_eq!(status(41).telegram.last_update_id(), 41);
    assert_eq!(default_parsed_status_toml().telegram.last_update_id, 0);
    assert_eq!(DEFAULT_STATUS_TOML, "[telegram]\nlast_update_id = 0\n");
}

#[test]
fn last_update_id_reads_what_was_written() {
    let mut s = status(41);
    s.telegram.set_last_update_id(-3);
    assert_eq!(s.telegram.last_update_id(), -3);
    assert_eq!(s.telegram.to_toml().telegram.last_update_id, -3);
    // what is saved reads back the same
    let saved = s.telegram.to_toml();
    assert_eq!(Status::from_toml(Some(saved)).telegram.last_update_id(), -3);
}

#[test]
fn broadcast_reaches_the_admin_then_the_allowed_users() {
    let bot = Bot::new(&config(), status(0));
    assert_eq!(bot.broadcast_recipients(), vec![7, 8, 9]);
    assert_eq!(bot.admin_user(), 7);
}

#[test]
fn request_urls_encode_their_values() {
    let bot = Bot::new(&config(), status(0));
    let params = vec![(String::from("text"), String::from("a b/ñ-_.~"))];
    assert_eq!(
        bot.request_url("sendMessage", &params),
        "https://api.telegram.org/botTOKEN/sendMessage?text=a%20b%2F%C3%B1-_.~&"
    );
    assert_eq!(
        bot.send_message_url(-5, "hola"),
        "https://api.telegram.org/botTOKEN/sendMessage?chat_id=-5&text=hola&"
    );
}

#[test]
fn new_messages_are_asked_after_the_last_update() {
    let bot = Bot::new(&config(), status(41));
    assert_eq!(
        bot.updates_url(30),
        "https://api.telegram.org/botTOKEN/getUpdates?offset=42&timeout=30&allowed_updates=%5B%22message%22%5D&"
    );
}

#[test]
fn taking_an_update() {
    let mut bot = Bot::new(&config(), status(41));
    let update = api::Update {
        update_id: 42,
        message: Some(api::Message {
            message_id: 1,
            from: Some(api::User { id: 8, is_bot: false, first_name: String::from("Ana") }),
            date: 0,
            chat: api::Chat { id: 8 },
            text: None,
        }),
    };
    bot.set_last_update_id(update.update_id);
    let msg = Message::from_update(update);
    assert_eq!(bot.status().telegram.last_update_id(), 42);
    assert_eq!(msg.user_id, 8);
    assert_eq!(msg.user_name, "Ana");
    assert_eq!(msg.text, "");
}
