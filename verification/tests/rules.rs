use bautista_bot::clock::{Date, Moment};
use bautista_bot::config::{types, Config, Setting};
use bautista_bot::prices::{Price, Tranch};
use bautista_bot::report::format_on_hours;
use bautista_bot::rules::{rule_config_is_valid, OnHours, Rule, RuleCheap, RuleHeater, Rules};
use bautista_bot::str_map::StrMap;

fn table(entries: Vec<(&str, Setting)>) -> StrMap<Setting> {
    let mut t = StrMap::new();
    for (k, v) in entries {
        t.insert(String::from(k), v);
    }
    t
}

fn config() -> Config {
    let toml = types::Toml {
        bautista: types::Bautista { poll_seconds: 30 },
        esios: types::Esios { token: String::new() },
        meross: types::Meross {
            bridge_path: None,
            devices: vec![String::from("washer"), String::from("boiler"), String::from("lamp")],
            password: String::from("pw"),
            user: String::from("user"),
        },
        telegram: types::Telegram { admin_user: 1, allowed_users: vec![], token: String::from("t") },
    };
    let mut devices = StrMap::new();
    devices.insert(
        String::from("washer"),
        table(vec![
            ("rule", Setting::Text(String::from("cheap"))),
            ("consecutive", Setting::Boolean(false)),
            ("hours", Setting::Integer(2)),
            ("control", Setting::Boolean(true)),
        ]),
    );
    devices.insert(
        String::from("boiler"),
        table(vec![
            ("rule", Setting::Text(String::from("heater"))),
            ("pivot_hour", Setting::Integer(8)),
            ("hours", Setting::Integer(1)),
            ("control", Setting::Boolean(false)),
        ]),
    );
    Config::from_document(toml, &devices, toml::Value::Table(Default::default()))
}

const DAY: [u32; 24] = [
    50, 40, 30, 30, 20, 25, 60, 70, 80, 90, 100, 110, 120, 130, 140, 150, 160, 170, 180, 190, 200,
    210, 10, 220,
];

fn day() -> Vec<Price> {
    DAY.iter().map(|k| Price::new(*k, Tranch::Low)).collect()
}

fn on_list(on: &OnHours) -> Vec<u32> {
    (0..24).filter(|h| on.on_at(*h)).collect()
}

#[test]
fn on_hours_from_hours() {
    let on = OnHours::from_hours(vec![3, 1, 3, 23]);
    assert_eq!(on_list(&on), vec![1, 3, 23]);
    assert!(!on.on_at(0));
    assert_eq!(on_list(&on.copy()), vec![1, 3, 23]);
}

#[test]
fn cheap_rule_switches_on_in_its_cheapest_hours() {
    let cfg = config();
    let mut rules = Rules::new(&cfg);
    assert!(rules.refresh_prices(Date { year: 2022, month: 1, day: 2 }, Date { year: 2022, month: 1, day: 2 }, day()));
    let rule = RuleCheap::new(false, 2);
    assert_eq!(on_list(&rule.get_on_hours(rules.prices(), 0..24)), vec![4, 22]);
    let consecutive = RuleCheap::new(true, 2);
    assert_eq!(on_list(&consecutive.get_on_hours(rules.prices(), 0..24)), vec![4, 5]);
}

#[test]
fn heater_rule_adds_the_cheapest_hours_before_its_pivot() {
    let cfg = config();
    let mut rules = Rules::new(&cfg);
    assert!(rules.refresh_prices(Date { year: 2022, month: 1, day: 2 }, Date { year: 2022, month: 1, day: 2 }, day()));
    let rule = RuleHeater::new(8, 1);
    assert_eq!(on_list(&rule.get_on_hours(rules.prices(), 0..24)), vec![4, 22]);
    assert_eq!(on_list(&rule.get_on_hours(rules.prices(), 10..14)), vec![4, 10]);
}

#[test]
fn rules_of_the_configured_devices() {
    let cfg = config();
    let rules = Rules::new(&cfg);
    let on = rules.get_on_hours(0..24);
    assert_eq!(on.len(), 2);
    assert_eq!(on.key_at(0), "washer");
    assert_eq!(on.key_at(1), "boiler");
    assert!(on.get("lamp").is_none());
    // before any refresh every price is 0: the earliest hours win
    assert_eq!(on_list(on.get("washer").unwrap()), vec![0, 1]);
    assert_eq!(on_list(on.get("boiler").unwrap()), vec![0]);
}

#[test]
fn eval_answers_for_every_device_with_a_rule() {
    let cfg = config();
    let mut rules = Rules::new(&cfg);
    assert!(rules.refresh_prices(Date { year: 2022, month: 1, day: 2 }, Date { year: 2022, month: 1, day: 2 }, day()));
    let at4 = Moment { date: Date { year: 2022, month: 1, day: 2 }, hour: 4, minute: 30 };
    let result = rules.eval(&at4);
    assert_eq!(result.len(), 2);
    assert_eq!(result.get("washer"), Some(&Some(true)));
    assert_eq!(result.get("boiler"), Some(&Some(true)));
    let at5 = Moment { date: Date { year: 2022, month: 1, day: 2 }, hour: 5, minute: 0 };
    let result = rules.eval(&at5);
    assert_eq!(result.get("washer"), Some(&Some(false)));
    assert_eq!(result.get("boiler"), Some(&Some(false)));
}

#[test]
fn whole_day_patterns_follow_a_price_refresh() {
    let cfg = config();
    let mut rules = Rules::new(&cfg);
    let d = Date { year: 2022, month: 1, day: 2 };
    assert!(rules.refresh_prices(d, d, day()));
    let first = rules.get_on_hours(0..24);
    assert_eq!(on_list(first.get("washer").unwrap()), vec![4, 22]);
    // a reply for the day already held changes nothing
    let mut other = day();
    other[0] = Price::new(0, Tranch::Low);
    assert!(!rules.refresh_prices(d, d, other));
    assert_eq!(on_list(rules.get_on_hours(0..24).get("washer").unwrap()), vec![4, 22]);
    // a new day's prices are used at once
    let next = Date { year: 2022, month: 1, day: 3 };
    let mut other = day();
    other[0] = Price::new(0, Tranch::Low);
    assert!(rules.refresh_prices(next, next, other));
    assert_eq!(on_list(rules.get_on_hours(0..24).get("washer").unwrap()), vec![0, 22]);
    assert_eq!(rules.prices().last_update(), next);
}

#[test]
fn applicability_of_the_rules() {
    let cfg = config();
    let rules = Rules::new(&cfg);
    assert!(rules.can_get_on_hours(0, 24));
    assert!(rules.can_get_on_hours(22, 24));
    assert!(!rules.can_get_on_hours(23, 24));
}

#[test]
fn rule_configurations() {
    let cheap = bautista_bot::config::Rule::new(
        String::from("x"),
        table(vec![
            ("rule", Setting::Text(String::from("cheap"))),
            ("consecutive", Setting::Boolean(true)),
            ("hours", Setting::Integer(3)),
        ]),
    );
    assert!(rule_config_is_valid(&cheap));
    let unknown = bautista_bot::config::Rule::new(
        String::from("x"),
        table(vec![("rule", Setting::Text(String::from("always"))), ("hours", Setting::Integer(3))]),
    );
    assert!(!rule_config_is_valid(&unknown));
    let heater_without_pivot = bautista_bot::config::Rule::new(
        String::from("x"),
        table(vec![("rule", Setting::Text(String::from("heater"))), ("hours", Setting::Integer(3))]),
    );
    assert!(!rule_config_is_valid(&heater_without_pivot));
}

#[test]
fn report_lists_each_device_hours() {
    let mut on = StrMap::new();
    on.insert(String::from("washer"), OnHours::from_hours(vec![22, 4]));
    on.insert(String::from("boiler"), OnHours::from_hours(vec![]));
    assert_eq!(format_on_hours(&on), "  · washer: 4:00  22:00 \n  · boiler:\n");
}

#[test]
fn heater_is_on_whenever_a_cheap_rule_of_its_hours_is() {
    let cfg = config();
    let mut rules = Rules::new(&cfg);
    assert!(rules.refresh_prices(Date { year: 2022, month: 1, day: 2 }, Date { year: 2022, month: 1, day: 2 }, day()));
    let heater = RuleHeater::new(8, 3);
    let cheap = RuleCheap::new(false, 3);
    for (start, end) in [(0, 24), (10, 14), (6, 12)] {
        let heater_on = on_list(&heater.get_on_hours(rules.prices(), start..end));
        for hour in on_list(&cheap.get_on_hours(rules.prices(), start..end)) {
            assert!(heater_on.contains(&hour));
        }
        // the three cheapest hours before the pivot: 4, 5 and 2
        for hour in [2, 4, 5] {
            assert!(heater_on.contains(&hour));
        }
    }
}
