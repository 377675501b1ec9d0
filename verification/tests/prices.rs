use bautista_bot::clock::{is_valid_date_exec, Date, Moment};
use bautista_bot::config::{types, Config};
use bautista_bot::prices::{as_date, as_date_on, Price, Prices, Tranch};
use bautista_bot::str_map::StrMap;

fn config(token: &str) -> Config {
    let toml = types::Toml {
        bautista: types::Bautista { poll_seconds: 30 },
        esios: types::Esios { token: String::from(token) },
        meross: types::Meross {
            bridge_path: None,
            devices: vec![],
            password: String::from("pw"),
            user: String::from("user"),
        },
        telegram: types::Telegram { admin_user: 1, allowed_users: vec![], token: String::from("t") },
    };
    Config::from_document(toml, &StrMap::new(), toml::Value::Table(Default::default()))
}

#[test]
fn prices_before_the_first_refresh() {
    let prices = Prices::new(&config(""));
    let today = prices.today();
    assert_eq!(today.len(), 24);
    assert!(today.iter().all(|p| *p == Price::new(0, Tranch::Med)));
    assert!(prices.tomorrow().is_none());
    assert_eq!(prices.last_update(), Date { year: 1980, month: 1, day: 1 });
    assert_eq!(prices.token(), "");
    assert_eq!(Prices::new(&config("abc")).token(), "abc");
}

#[test]
fn prices_are_due_once_a_day_after_the_first_minutes() {
    let mut prices = Prices::new(&config(""));
    let day = Date { year: 2022, month: 11, day: 23 };
    let at = |hour, minute| Moment { date: day, hour, minute };
    assert!(prices.is_due(&at(10, 0)));
    assert!(!prices.is_due(&at(0, 2)));
    assert!(prices.is_due(&at(0, 3)));
    let fresh: Vec<Price> = (0..24).map(|h| Price::new(h, Tranch::Low)).collect();
    assert!(prices.is_new(day));
    assert!(prices.refresh(day, day, fresh));
    assert!(!prices.is_due(&at(10, 0)));
    assert!(!prices.is_new(day));
    assert_eq!(prices.today()[5], Price::new(5, Tranch::Low));
}

#[test]
fn tranch_icons() {
    assert_eq!(Tranch::High.get_icon(), "🔴");
    assert_eq!(Tranch::Med.get_icon(), "🟡");
    assert_eq!(Tranch::Low.get_icon(), "🟢");
}

#[test]
fn reply_dates() {
    let today = Date { year: 2021, month: 6, day: 15 };
    assert_eq!(as_date_on("23-11-2022", today), Date { year: 2022, month: 11, day: 23 });
    assert_eq!(as_date_on("xx-11-yy", today), Date { year: 2021, month: 11, day: 15 });
    assert_eq!(as_date_on("01-02-2024-extra", today), Date { year: 2024, month: 2, day: 1 });
    assert!(as_date("23-11-2022").is_some());
    assert!(as_date("23-11").is_none());
    assert!(as_date("31-02-2022").is_none());
    assert!(is_valid_date_exec(Date { year: 2024, month: 2, day: 29 }));
    assert!(!is_valid_date_exec(Date { year: 2023, month: 2, day: 29 }));
    assert!(!is_valid_date_exec(Date { year: 1900, month: 2, day: 29 }));
    assert!(is_valid_date_exec(Date { year: 2000, month: 2, day: 29 }));
}
