use bautista_bot::clock::Date;
use bautista_bot::config::{types, Config};
use bautista_bot::prices::{Price, Prices, Tranch};
use bautista_bot::rules::util::{cheapest_hours_defined_exec, get_cheapest_hours};
use bautista_bot::str_map::StrMap;

fn config() -> Config {
    let toml = types::Toml {
        bautista: types::Bautista { poll_seconds: 30 },
        esios: types::Esios { token: String::new() },
        meross: types::Meross {
            bridge_path: None,
            devices: vec![],
            password: String::from("pw"),
            user: String::from("user"),
        },
        telegram: types::Telegram { admin_user: 1, allowed_users: vec![], token: String::from("t") },
    };
    Config::from_document(toml, &StrMap::new(), toml::Value::Table(Default::default()))
}

fn prices_of(keys: [u32; 24]) -> Prices {
    let cfg = config();
    let mut prices = Prices::new(&cfg);
    let day: Vec<Price> = keys.iter().map(|k| Price::new(*k, Tranch::Med)).collect();
    assert!(prices.refresh(Date { year: 2022, month: 11, day: 23 }, Date { year: 2022, month: 11, day: 23 }, day));
    prices
}

const DAY: [u32; 24] = [
    50, 40, 30, 30, 20, 25, 60, 70, 80, 90, 100, 110, 120, 130, 140, 150, 160, 170, 180, 190, 200,
    210, 10, 220,
];

#[test]
fn cheapest_unordered_hours_come_cheapest_first() {
    let prices = prices_of(DAY);
    assert_eq!(get_cheapest_hours(3, false, &prices, None), vec![22, 4, 5]);
}

#[test]
fn cheapest_unordered_hours_break_ties_by_hour() {
    let prices = prices_of(DAY);
    assert_eq!(get_cheapest_hours(5, false, &prices, Some(0..24)), vec![22, 4, 5, 2, 3]);
}

#[test]
fn cheapest_unordered_hours_stay_in_range() {
    let prices = prices_of(DAY);
    assert_eq!(get_cheapest_hours(2, false, &prices, Some(6..12)), vec![6, 7]);
    assert_eq!(get_cheapest_hours(0, false, &prices, Some(6..12)), Vec::<u32>::new());
}

#[test]
fn cheapest_run_is_the_first_lowest_total() {
    let prices = prices_of(DAY);
    // runs of two starting before hour 22: 2-3 (60) and 3-4 (50) and 4-5 (45)
    assert_eq!(get_cheapest_hours(2, true, &prices, None), vec![4, 5]);
}

#[test]
fn cheapest_run_skips_the_last_start_of_the_range() {
    let prices = prices_of(DAY);
    // the run 4-5 (45) would be cheaper than 3-4 (50), but runs start
    // before end - hours only
    assert_eq!(get_cheapest_hours(2, true, &prices, Some(3..6)), vec![3, 4]);
}

#[test]
fn cheapest_run_of_a_short_range_is_the_whole_range() {
    let prices = prices_of(DAY);
    assert_eq!(get_cheapest_hours(5, true, &prices, Some(10..13)), vec![10, 11, 12]);
}

#[test]
fn cheapest_run_with_no_start_begins_at_midnight() {
    let prices = prices_of(DAY);
    assert_eq!(get_cheapest_hours(3, true, &prices, Some(10..13)), vec![0, 1, 2]);
}

#[test]
fn definedness_of_the_choice() {
    let day: Vec<Price> = DAY.iter().map(|k| Price::new(*k, Tranch::Med)).collect();
    assert!(cheapest_hours_defined_exec(3, false, &day, 0, 24));
    assert!(!cheapest_hours_defined_exec(3, false, &day, 22, 30));
    assert!(!cheapest_hours_defined_exec(2, true, &day, 5, 4));
    assert!(cheapest_hours_defined_exec(2, true, &day, 5, 6));
    assert!(!cheapest_hours_defined_exec(2, true, &day, 20, 30));
    let huge: Vec<Price> = (0..24).map(|_| Price::new(u32::MAX, Tranch::High)).collect();
    assert!(!cheapest_hours_defined_exec(2, true, &huge, 0, 24));
    assert!(cheapest_hours_defined_exec(2, false, &huge, 0, 24));
}
