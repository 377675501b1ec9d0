use bautista_bot::clock::{Date, Moment};
use bautista_bot::commands::best_hours::BestHoursCommand;
use bautista_bot::commands::tides::{Datos, Dato, Mareas, Reply};
use bautista_bot::commands::{error_reply, Commands, HelloCommand, Outcome, TidesCommand};
use bautista_bot::config::{types, Config, Setting};
use bautista_bot::prices::{Price, Tranch};
use bautista_bot::rules::Rules;
use bautista_bot::str_map::StrMap;
use bautista_bot::telegram::Message;

fn config() -> Config {
    let toml = types::Toml {
        bautista: types::Bautista { poll_seconds: 30 },
        esios: types::Esios { token: String::new() },
        meross: types::Meross {
            bridge_path: None,
            devices: vec![String::from("washer")],
            password: String::from("pw"),
            user: String::from("user"),
        },
        telegram: types::Telegram { admin_user: 1, allowed_users: vec![], token: String::from("t") },
    };
    let mut washer = StrMap::new();
    washer.insert(String::from("rule"), Setting::Text(String::from("cheap")));
    washer.insert(String::from("consecutive"), Setting::Boolean(false));
    washer.insert(String::from("hours"), Setting::Integer(1));
    let mut devices = StrMap::new();
    devices.insert(String::from("washer"), washer);
    Config::from_document(toml, &devices, toml::Value::Table(Default::default()))
}

fn message(text: &str) -> Message {
    Message { user_id: 8, user_name: String::from("Ana"), text: String::from(text) }
}

fn rules(cfg: &Config) -> Rules {
    let mut rules = Rules::new(cfg);
    let day: Vec<Price> = (0..24u32).map(|h| Price::new(100 - h, Tranch::Med)).collect();
    let d = Date { year: 2022, month: 1, day: 2 };
    assert!(rules.refresh_prices(d, d, day));
    rules
}

#[test]
fn hello_greets_by_name() {
    let cfg = config();
    let r = rules(&cfg);
    assert_eq!(HelloCommand::new().run(&message("/hola"), &r), Some(String::from("Hola Ana 👋")));
    assert_eq!(HelloCommand::new().run(&message("hola"), &r), None);
}

#[test]
fn best_hours_from_the_given_hour() {
    let cfg = config();
    let r = rules(&cfg);
    let now = Moment { date: Date { year: 2022, month: 1, day: 2 }, hour: 10, minute: 20 };
    let cmd = BestHoursCommand::new();
    assert_eq!(
        cmd.reply_at(&message("/horario 5"), &r, &now),
        Some(String::from(
            "Los mejores horarios para encender cada dispositivo a partir de las 5:00 son:\n  · washer: 23:00 \n"
        ))
    );
    // without an hour: the next hour after a quarter past
    assert_eq!(
        cmd.reply_at(&message("/horario"), &r, &now),
        Some(String::from(
            "Los mejores horarios para encender cada dispositivo a partir de las 11:00 son:\n  · washer: 23:00 \n"
        ))
    );
    // not a number: from midnight; past 23: from 23
    let early = Moment { date: Date { year: 2022, month: 1, day: 2 }, hour: 10, minute: 15 };
    assert_eq!(
        cmd.reply_at(&message("/horario  x "), &r, &early),
        Some(String::from(
            "Los mejores horarios para encender cada dispositivo a partir de las 0:00 son:\n  · washer: 23:00 \n"
        ))
    );
    assert_eq!(
        cmd.reply_at(&message("/horario 99"), &r, &early),
        Some(String::from(
            "Los mejores horarios para encender cada dispositivo a partir de las 23:00 son:\n  · washer: 23:00 \n"
        ))
    );
    assert_eq!(cmd.reply_at(&message("/mareas"), &r, &early), None);
    assert!(matches!(cmd.run(&message("hello"), &r), Ok(None)));
    assert!(matches!(cmd.run(&message("/horario 3"), &r), Ok(Some(_))));
}

#[test]
fn tides_report() {
    let cmd = TidesCommand::new();
    assert!(cmd.applies(&message("/mareas")));
    assert!(!cmd.applies(&message("/hola")));
    let reply = Reply {
        mareas: Mareas {
            datos: Datos {
                marea: vec![
                    Dato { altura: String::from("3.1"), hora: String::from("04:12"), tipo: String::from("pleamar") },
                    Dato { altura: String::from("0.9"), hora: String::from("10:30"), tipo: String::from("bajamar") },
                ],
            },
            fecha: String::from("2022-11-23"),
            puerto: String::from("Vigo"),
        },
    };
    assert_eq!(
        cmd.report(&reply),
        "🌊  Mareas del 2022-11-23 en Vigo  🌊\n\n          ↗  04:12  pleamar  (3.1 m)\n          ↘  10:30  bajamar  (0.9 m)\n"
    );
}

#[test]
fn commands_answer_the_tides_only() {
    let cfg = config();
    let r = rules(&cfg);
    let commands = Commands::new();
    assert!(matches!(commands.run(&message("/mareas"), &r), Some(Outcome::FetchTides)));
    assert!(commands.run(&message("/hola"), &r).is_none());
    assert_eq!(error_reply("boom"), "Ocurrió un error:\nboom");
}
