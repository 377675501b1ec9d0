use crate::clock::Moment;
use crate::config::{Config, Setting};
use crate::clock::Date;
use crate::prices::{Price, Prices, Tranch};
use crate::str_map::{keys_distinct, keys_of, lemma_map_of_entry, map_of, StrMap};
use std::ops::Range;
use vstd::prelude::*;

mod cheap;
mod heater;
pub mod util;

use util::cheapest_hours;

pub use cheap::RuleCheap;
pub use heater::RuleHeater;

verus! {

/// A rule that decides, from the day's prices, in which hours a device is on.
pub trait Rule {
    /// Whether the rule can choose hours within `[start, end)` from the
    /// prices `p`; outside these inputs choosing them is an error.
    spec fn applicable(&self, p: Seq<Price>, start: u32, end: u32) -> bool;

    /// For each hour of the day, whether the device is on, when the hours are
    /// chosen within `[start, end)` from the prices `p`.
    spec fn on_hours_spec(&self, p: Seq<Price>, start: u32, end: u32) -> Seq<bool>;

    fn get_on_hours(&self, prices: &Prices, hours: Range<u32>) -> (on_hours: OnHours)
        requires
            self.applicable(prices.today_spec(), hours.start, hours.end),
        ensures
            on_hours@ == self.on_hours_spec(prices.today_spec(), hours.start, hours.end),
    ;

    /// Whether the rule can choose hours within `[start, end)` from the day's
    /// prices `today`.
    fn is_applicable(&self, today: &Vec<Price>, start: u32, end: u32) -> (r: bool)
        requires
            today@.len() == 24,
        ensures
            r == self.applicable(today@, start, end),
    ;
}

/// The hours of a day in which a device is on.
pub struct OnHours {
    on_hours: Vec<bool>,
}

/// The day's on/off pattern of a list of hours: hour `h` is on exactly when
/// it is listed.
pub open spec fn on_pattern(hours: Seq<u32>) -> Seq<bool> {
    Seq::new(24, |h: int| hours.contains(h as u32))
}

impl View for OnHours {
    type V = Seq<bool>;

    closed spec fn view(&self) -> Seq<bool> {
        self.on_hours@
    }
}

impl OnHours {
    #[verifier::type_invariant]
    spec fn inv(&self) -> bool {
        self.on_hours@.len() == 24
    }

    /// The pattern that has exactly the given hours on.
    pub fn from_hours(hours: Vec<u32>) -> (on_hours: OnHours)
        requires
            forall|k: int| 0 <= k < hours@.len() ==> hours@[k] < 24,
        ensures
            on_hours@ == on_pattern(hours@),
            on_hours@.len() == 24,
    {
        let mut on: Vec<bool> = Vec::new();
        let mut h: usize = 0;
        while h < 24
            invariant
                h <= 24,
                on@ == Seq::new(h as nat, |i: int| false),
            decreases 24 - h,
        {
            on.push(false);
            h = h + 1;
            assert(on@ =~= Seq::new(h as nat, |i: int| false));
        }
        let mut k: usize = 0;
        while k < hours.len()
            invariant
                k <= hours@.len(),
                forall|j: int| 0 <= j < hours@.len() ==> hours@[j] < 24,
                on@ == Seq::new(24, |i: int| hours@.take(k as int).contains(i as u32)),
            decreases hours@.len() - k,
        {
            let hour = hours[k];
            on.set(hour as usize, true);
            k = k + 1;
            assert(on@ =~= Seq::new(24, |i: int| hours@.take(k as int).contains(i as u32))) by {
                assert forall|i: int| 0 <= i < 24 implies on@[i] == hours@.take(
                    k as int,
                ).contains(i as u32) by {
                    let t = hours@.take(k as int);
                    let t0 = hours@.take(k - 1);
                    assert(t =~= t0.push(hour));
                    if t0.contains(i as u32) {
                        let j = choose|j: int| 0 <= j < t0.len() && t0[j] == i as u32;
                        assert(t[j] == i as u32);
                    }
                    if t.contains(i as u32) && i as u32 != hour {
                        let j = choose|j: int| 0 <= j < t.len() && t[j] == i as u32;
                        assert(t0[j] == i as u32);
                    }
                    if i == hour {
                        assert(t[k - 1] == hour);
                    }
                }
            }
        }
        assert(hours@.take(hours@.len() as int) =~= hours@);
        OnHours { on_hours: on }
    }

    /// Whether the device is on at `hour`.
    pub fn on_at(&self, hour: u32) -> (on: bool)
        requires
            hour < 24,
        ensures
            on == self@[hour as int],
    {
        proof {
            use_type_invariant(self);
        }
        self.on_hours[hour as usize]
    }

    /// A copy of this pattern.
    pub fn copy(&self) -> (c: OnHours)
        ensures
            c@ == self@,
    {
        proof {
            use_type_invariant(self);
        }
        let mut on: Vec<bool> = Vec::new();
        let mut h: usize = 0;
        while h < 24
            invariant
                h <= 24,
                self.on_hours@.len() == 24,
                on@ == self.on_hours@.take(h as int),
            decreases 24 - h,
        {
            on.push(self.on_hours[h]);
            h = h + 1;
            assert(on@ =~= self.on_hours@.take(h as int));
        }
        assert(self.on_hours@.take(24) =~= self.on_hours@);
        OnHours { on_hours: on }
    }
}

/// A copy of a map of on/off patterns.
fn copy_on_hours(m: &StrMap<OnHours>) -> (c: StrMap<OnHours>)
    ensures
        keys_of(c.entries()) == keys_of(m.entries()),
        forall|d: Seq<char>| #[trigger] c.map().contains_key(d) <==> m.map().contains_key(d),
        forall|d: Seq<char>| #[trigger] c.map().contains_key(d) ==> c.map()[d]@ == m.map()[d]@,
{
    let mut c: StrMap<OnHours> = StrMap::new();
    let ghost src = m.entries();
    let _ = m.len();
    let mut i: usize = 0;
    while i < m.len()
        invariant
            i <= src.len(),
            src == m.entries(),
            keys_distinct(src),
            c.entries().len() == i,
            forall|j: int| 0 <= j < i ==> (#[trigger] c.entries()[j]).0@ == src[j].0@ && c.entries()[j].1@ == src[j].1@,
        decreases src.len() - i,
    {
        let key = m.key_at(i).clone();
        let value = m.value_at(i).copy();
        proof {
            if c.map().contains_key(key@) {
                let j = choose|j: int| 0 <= j < c.entries().len() && c.entries()[j].0@ == key@;
                assert(src[j].0@ == src[i as int].0@);
            }
        }
        c.insert(key, value);
        i = i + 1;
    }
    let _ = c.len();
    proof {
        lemma_same_keys(c.entries(), src);
        assert(keys_of(c.entries()) =~= keys_of(src));
        assert forall|d: Seq<char>| #[trigger] c.map().contains_key(d) implies c.map()[d]@ == m.map()[d]@ by {
            let j = choose|j: int| 0 <= j < c.entries().len() && c.entries()[j].0@ == d;
            lemma_map_of_entry(c.entries(), j);
            lemma_map_of_entry(src, j);
        }
    }
    c
}

/// Two lists of entries whose keys agree position by position stand for
/// maps with the same keys.
proof fn lemma_same_keys<V, W>(a: Seq<(String, V)>, b: Seq<(String, W)>)
    requires
        a.len() == b.len(),
        forall|j: int| 0 <= j < a.len() ==> (#[trigger] a[j]).0@ == b[j].0@,
    ensures
        forall|d: Seq<char>| #[trigger] map_of(a).contains_key(d) <==> map_of(b).contains_key(d),
{
    assert forall|d: Seq<char>| #[trigger] map_of(a).contains_key(d) <==> map_of(b).contains_key(d) by {
        if map_of(a).contains_key(d) {
            let j = choose|j: int| 0 <= j < a.len() && a[j].0@ == d;
            assert(b[j].0@ == d);
        }
        if map_of(b).contains_key(d) {
            let j = choose|j: int| 0 <= j < b.len() && b[j].0@ == d;
            assert(a[j].0@ == d);
        }
    }
}

/// `after` is `before` once `refresh_prices` took the prices `prices` of a
/// reply dated `reply_date`, fetched on day `today`, and answered `updated`:
/// the prices are taken exactly when the reply is for another day than the
/// one held, and the rules stay.
pub open spec fn refreshed(
    before: Rules,
    after: Rules,
    reply_date: Date,
    today: Date,
    prices: Seq<Price>,
    updated: bool,
) -> bool {
    &&& updated == (reply_date != before.prices_spec().last_update_spec())
    &&& updated ==> after.prices_spec().today_spec() == prices && after.prices_spec().last_update_spec()
        == today
    &&& !updated ==> after.prices_spec() == before.prices_spec()
    &&& after.prices_spec().tomorrow_spec() == before.prices_spec().tomorrow_spec()
    &&& after.prices_spec().token_spec() == before.prices_spec().token_spec()
    &&& after.rules_map() == before.rules_map()
    &&& after.device_keys() == before.device_keys()
}

/// The run of `n` hours from `c` holds exactly the hours of `[c, c + n)`.
proof fn lemma_hour_run_contains(c: int, n: int, h: int)
    requires
        0 <= c,
        0 <= n,
        c + n <= u32::MAX + 1,
        0 <= h <= u32::MAX,
    ensures
        util::hour_run(c, n).contains(h as u32) <==> c <= h < c + n,
{
    let r = util::hour_run(c, n);
    if c <= h < c + n {
        assert(r[h - c] == h as u32);
    }
    if r.contains(h as u32) {
        let i = choose|i: int| 0 <= i < r.len() && r[i] == h as u32;
        assert(r[i] == (c + i) as u32);
    }
}

/// A consecutive cheap rule over `[start, end)`, with room for its `n`
/// hours, switches its device on during exactly one run of `n` consecutive
/// hours.  When some run that starts in `[start, end - n)` totals less than
/// `u32::MAX`, the chosen run starts there, no such run has a lower total
/// price, and every run that starts earlier costs more.  Otherwise the run
/// starts at midnight.
pub proof fn law_cheap_consecutive_run(rule: RuleCheap, p: Seq<Price>, start: u32, end: u32)
    requires
        rule.consecutive_spec(),
        p.len() == 24,
        rule.applicable(p, start, end),
        end - start >= rule.hours_spec(),
    ensures
        ({
            let n = rule.hours_spec();
            let on = rule.on_hours_spec(p, start, end);
            &&& on.len() == 24
            &&& (exists|g: int| start <= g < end - n && util::window_sum(p, g, n as nat) < u32::MAX)
                ==> exists|c: int|
                #![trigger util::window_sum(p, c, n as nat)]
                start <= c < end - n && (forall|g: int|
                    start <= g < end - n ==> util::window_sum(p, c, n as nat)
                        <= #[trigger] util::window_sum(p, g, n as nat)) && (forall|g: int|
                    start <= g < c ==> util::window_sum(p, c, n as nat)
                        < #[trigger] util::window_sum(p, g, n as nat)) && forall|h: int|
                    0 <= h < 24 ==> (#[trigger] on[h] <==> c <= h < c + n)
            &&& !(exists|g: int| start <= g < end - n && util::window_sum(p, g, n as nat) < u32::MAX)
                ==> forall|h: int| 0 <= h < 24 ==> (#[trigger] on[h] <==> h < n)
        }),
{
    let n = rule.hours_spec();
    let on = rule.on_hours_spec(p, start, end);
    let c = util::cheapest_start(p, start as int, end - n, n as nat);
    assert(cheapest_hours(p, n, true, start, end) == util::hour_run(c, n as int));
    if exists|g: int| start <= g < end - n && util::window_sum(p, g, n as nat) < u32::MAX {
        let g = choose|g: int| start <= g < end - n && util::window_sum(p, g, n as nat) < u32::MAX;
        util::law_cheapest_run_is_cheapest(p, n, start, end, g);
        if n > 0 {
            let r = util::hour_run(c, n as int);
            assert(r[n - 1] < 24);
            assert(r[n - 1] == (c + n - 1) as u32);
        }
        assert forall|h: int| 0 <= h < 24 implies (#[trigger] on[h] <==> c <= h < c + n) by {
            lemma_hour_run_contains(c, n as int, h);
        }
        assert(util::window_sum(p, c, n as nat) == util::window_sum(p, c, n as nat));
    } else {
        assert(!exists|d: int| #[trigger] util::is_cheapest_start(p, start as int, end - n, n as nat, d));
        assert(c == 0);
        assert forall|h: int| 0 <= h < 24 implies (#[trigger] on[h] <==> h < n) by {
            lemma_hour_run_contains(0, n as int, h);
        }
    }
}

/// A cheap rule that is not consecutive switches its device on during `n`
/// distinct hours of `[start, end)`, and none of them costs more than an hour
/// of the range that it leaves off.
pub proof fn law_cheap_hours(rule: RuleCheap, p: Seq<Price>, start: u32, end: u32)
    requires
        !rule.consecutive_spec(),
        p.len() == 24,
        rule.applicable(p, start, end),
    ensures
        ({
            let on = rule.on_hours_spec(p, start, end);
            &&& on.len() == 24
            &&& exists|r: Seq<u32>|
                #![trigger r.len()]
                r.len() == rule.hours_spec() && r.no_duplicates() && (forall|h: int|
                    0 <= h < 24 ==> (#[trigger] on[h] <==> r.contains(h as u32))) && (forall|k: int|
                    0 <= k < r.len() ==> start <= #[trigger] r[k] < end && r[k] < 24) && forall|a: int, b: int|
                    0 <= a < 24 && 0 <= b < 24 && on[a] && !on[b] && start <= b < end
                        ==> #[trigger] p[a].micro_euros_per_kwh <= #[trigger] p[b].micro_euros_per_kwh
        }),
{
    let n = rule.hours_spec();
    let on = rule.on_hours_spec(p, start, end);
    util::law_cheapest_hours_are_cheapest(p, n, start, end);
    let r = cheapest_hours(p, n, false, start, end);
    assert forall|a: int, b: int|
        0 <= a < 24 && 0 <= b < 24 && on[a] && !on[b] && start <= b < end implies #[trigger] p[a].micro_euros_per_kwh
        <= #[trigger] p[b].micro_euros_per_kwh by {
        assert(r.contains(a as u32));
        let k = choose|k: int| 0 <= k < r.len() && r[k] == a as u32;
        assert(!r.contains(b as u32));
        assert(util::key(p, r[k] as int) <= util::key(p, b));
    }
    assert(r.len() == n);
}

/// A refresh takes the fetched prices exactly when the reply is dated another
/// day than the prices held, whatever the local date of the fetch: a reply
/// for the day held leaves the prices and their date as they were; a new one
/// becomes today's prices, dated with the day of the fetch.
pub proof fn law_refresh_ignores_the_day_held(
    before: Rules,
    after: Rules,
    reply_date: Date,
    today: Date,
    prices: Seq<Price>,
    updated: bool,
)
    requires
        refreshed(before, after, reply_date, today, prices, updated),
    ensures
        updated <==> reply_date != before.prices_spec().last_update_spec(),
        reply_date == before.prices_spec().last_update_spec() ==> after.prices_spec().today_spec()
            == before.prices_spec().today_spec() && after.prices_spec().last_update_spec()
            == before.prices_spec().last_update_spec(),
        reply_date != before.prices_spec().last_update_spec() ==> after.prices_spec().today_spec()
            == prices && after.prices_spec().last_update_spec() == today,
        after.rules_map() == before.rules_map(),
{
}

/// Taking the same day's prices twice, when the provider dates them with the
/// day of the fetch, changes nothing the second time.
pub proof fn law_refresh_twice(
    first: Rules,
    second: Rules,
    third: Rules,
    day: Date,
    prices: Seq<Price>,
    again: Seq<Price>,
    updated_first: bool,
    updated_second: bool,
)
    requires
        refreshed(first, second, day, day, prices, updated_first),
        refreshed(second, third, day, day, again, updated_second),
    ensures
        !updated_second,
        third.prices_spec() == second.prices_spec(),
        second.prices_spec().last_update_spec() == day,
{
}

/// After a refresh that takes new prices, the whole-day pattern of every
/// device (what `get_on_hours(0..24)` answers) is the one its rule chooses
/// from the new prices; after a refresh that takes nothing, the prices and
/// every pattern stay as they were.
pub proof fn law_refresh_patterns(
    before: Rules,
    after: Rules,
    reply_date: Date,
    today: Date,
    prices: Seq<Price>,
    updated: bool,
    d: Seq<char>,
)
    requires
        refreshed(before, after, reply_date, today, prices, updated),
        after.rules_map().contains_key(d),
    ensures
        before.rules_map().contains_key(d),
        updated ==> after.pattern_of(d, 0, 24) == before.rules_map()[d].on_hours_spec(prices, 0, 24),
        !updated ==> after.prices_spec() == before.prices_spec() && after.pattern_of(d, 0, 24)
            == before.pattern_of(d, 0, 24),
{
}

/// The rule of one device.
pub enum DeviceRule {
    Cheap(RuleCheap),
    Heater(RuleHeater),
}

impl Rule for DeviceRule {
    open spec fn applicable(&self, p: Seq<Price>, start: u32, end: u32) -> bool {
        match self {
            DeviceRule::Cheap(r) => r.applicable(p, start, end),
            DeviceRule::Heater(r) => r.applicable(p, start, end),
        }
    }

    open spec fn on_hours_spec(&self, p: Seq<Price>, start: u32, end: u32) -> Seq<bool> {
        match self {
            DeviceRule::Cheap(r) => r.on_hours_spec(p, start, end),
            DeviceRule::Heater(r) => r.on_hours_spec(p, start, end),
        }
    }

    fn get_on_hours(&self, prices: &Prices, hours: Range<u32>) -> (on_hours: OnHours) {
        match self {
            DeviceRule::Cheap(r) => r.get_on_hours(prices, hours),
            DeviceRule::Heater(r) => r.get_on_hours(prices, hours),
        }
    }

    fn is_applicable(&self, today: &Vec<Price>, start: u32, end: u32) -> (r: bool) {
        match self {
            DeviceRule::Cheap(r) => r.is_applicable(today, start, end),
            DeviceRule::Heater(r) => r.is_applicable(today, start, end),
        }
    }
}

/// The text parameter `rule` of a device's configuration is `name`.
pub open spec fn has_rule_type(r: crate::config::Rule, name: Seq<char>) -> bool {
    r.setting("rule"@) matches Some(Setting::Text(t)) && t@ == name
}

/// The device configuration `r` describes a rule: a `cheap` rule with a
/// boolean `consecutive` and an integer `hours`, or a `heater` rule with
/// integers `pivot_hour` and `hours`.
pub open spec fn is_valid_rule_config(r: crate::config::Rule) -> bool {
    ||| {
        &&& has_rule_type(r, "cheap"@)
        &&& r.setting("consecutive"@) matches Some(Setting::Boolean(_))
        &&& r.setting("hours"@) matches Some(Setting::Integer(_))
    }
    ||| {
        &&& has_rule_type(r, "heater"@)
        &&& r.setting("pivot_hour"@) matches Some(Setting::Integer(_))
        &&& r.setting("hours"@) matches Some(Setting::Integer(_))
    }
}

/// Whether the device configuration `r` describes a rule (see
/// `is_valid_rule_config`).
pub fn rule_config_is_valid(r: &crate::config::Rule) -> (valid: bool)
    ensures
        valid == is_valid_rule_config(*r),
{
    proof {
        assert("cheap"@ != "heater"@) by {
            reveal_strlit("cheap");
            reveal_strlit("heater");
            assert("cheap"@.len() != "heater"@.len());
        }
    }
    let integer_hours = matches!(r.get("hours"), Some(Setting::Integer(_)));
    match r.get("rule") {
        Some(Setting::Text(t)) => {
            if crate::text::str_eq(t.as_str(), "cheap") {
                matches!(r.get("consecutive"), Some(Setting::Boolean(_))) && integer_hours
            } else if crate::text::str_eq(t.as_str(), "heater") {
                matches!(r.get("pivot_hour"), Some(Setting::Integer(_))) && integer_hours
            } else {
                false
            }
        },
        _ => false,
    }
}

/// `rule` is the rule that the device configuration `r` describes (integer
/// parameters taken modulo 2^32).
pub open spec fn is_configured_as(rule: DeviceRule, r: crate::config::Rule) -> bool {
    match rule {
        DeviceRule::Cheap(c) => {
            &&& has_rule_type(r, "cheap"@)
            &&& r.setting("consecutive"@) == Some(Setting::Boolean(c.consecutive_spec()))
            &&& r.setting("hours"@) matches Some(Setting::Integer(i)) && c.hours_spec() == i as u32
        },
        DeviceRule::Heater(h) => {
            &&& has_rule_type(r, "heater"@)
            &&& !has_rule_type(r, "cheap"@)
            &&& r.setting("pivot_hour"@) matches Some(Setting::Integer(i)) && h.pivot_hour_spec()
                == i as u32
            &&& r.setting("hours"@) matches Some(Setting::Integer(i)) && h.hours_spec() == i as u32
        },
    }
}

/// The rule of each controlled device, today's prices, and the day's on/off
/// patterns once computed for the whole day.
pub struct Rules {
    device_rules: StrMap<DeviceRule>,
    get_on_hours_0_24: Option<StrMap<OnHours>>,
    prices: Prices,
}

impl Rules {
    #[verifier::type_invariant]
    spec fn inv(&self) -> bool {
        self.get_on_hours_0_24 matches Some(c) ==> {
            &&& keys_of(c.entries()) == keys_of(self.device_rules.entries())
            &&& forall|d: Seq<char>| #[trigger] c.map().contains_key(d) ==> c.map()[d]@
                == self.device_rules.map()[d].on_hours_spec(self.prices.today_spec(), 0, 24)
            &&& forall|d: Seq<char>| #[trigger] c.map().contains_key(d) <==> self.device_rules.map().contains_key(d)
        }
    }

    /// The rule of each device.
    pub closed spec fn rules_map(&self) -> Map<Seq<char>, DeviceRule> {
        self.device_rules.map()
    }

    /// The devices that have a rule, in order.
    pub closed spec fn device_keys(&self) -> Seq<Seq<char>> {
        keys_of(self.device_rules.entries())
    }

    /// The prices.
    pub closed spec fn prices_spec(&self) -> Prices {
        self.prices
    }

    /// Every device's rule can choose its hours within `[start, end)` from
    /// today's prices.
    pub open spec fn all_applicable(&self, p: Seq<Price>, start: u32, end: u32) -> bool {
        forall|d: Seq<char>| #[trigger] self.rules_map().contains_key(d) ==> self.rules_map()[d].applicable(p, start, end)
    }

    /// The on/off pattern of device `d` when its hours are chosen within
    /// `[start, end)`.
    pub open spec fn pattern_of(&self, d: Seq<char>, start: u32, end: u32) -> Seq<bool> {
        self.rules_map()[d].on_hours_spec(self.prices_spec().today_spec(), start, end)
    }

    /// The rules of the devices listed in the configuration that have a
    /// rule, and prices not fetched yet.
    pub fn new(cfg: &Config) -> (rules: Rules)
        requires
            forall|i: int|
                0 <= i < cfg.meross.devices@.len() && cfg.rules.map().contains_key(
                    #[trigger] cfg.meross.devices@[i]@,
                ) ==> is_valid_rule_config(cfg.rules.map()[cfg.meross.devices@[i]@]),
        ensures
            forall|d: Seq<char>|
                #[trigger] rules.rules_map().contains_key(d) <==> (exists|i: int|
                    0 <= i < cfg.meross.devices@.len() && cfg.meross.devices@[i]@ == d)
                    && cfg.rules.map().contains_key(d),
            forall|d: Seq<char>|
                #[trigger] rules.rules_map().contains_key(d) ==> is_configured_as(
                    rules.rules_map()[d],
                    cfg.rules.map()[d],
                ),
            rules.prices_spec().today_spec() == Seq::new(
                24,
                |h: int| Price { micro_euros_per_kwh: 0, tranch: Tranch::Med },
            ),
            rules.prices_spec().tomorrow_spec() is None,
            rules.prices_spec().last_update_spec() == (Date { year: 1980, month: 1, day: 1 }),
            rules.prices_spec().token_spec() == cfg.esios.token@,
    {
        let mut device_rules: StrMap<DeviceRule> = StrMap::new();
        let ghost names = cfg.meross.devices@;
        let mut i: usize = 0;
        while i < cfg.meross.devices.len()
            invariant
                i <= names.len(),
                names == cfg.meross.devices@,
                forall|j: int|
                    0 <= j < names.len() && cfg.rules.map().contains_key(#[trigger] names[j]@)
                        ==> is_valid_rule_config(cfg.rules.map()[names[j]@]),
                forall|d: Seq<char>|
                    #[trigger] device_rules.map().contains_key(d) <==> (exists|j: int|
                        0 <= j < i && names[j]@ == d) && cfg.rules.map().contains_key(d),
                forall|d: Seq<char>|
                    #[trigger] device_rules.map().contains_key(d) ==> is_configured_as(
                        device_rules.map()[d],
                        cfg.rules.map()[d],
                    ),
            decreases names.len() - i,
        {
            let device = &cfg.meross.devices[i];
            match cfg.get_rule(device.as_str()) {
                Some(rule) => {
                    assert(is_valid_rule_config(*rule)) by {
                        assert(cfg.rules.map().contains_key(names[i as int]@));
                    }
                    let rule_type = rule.rule_type();
                    proof {
                        assert("cheap"@ != "heater"@) by {
                            reveal_strlit("cheap");
                            reveal_strlit("heater");
                            assert("cheap"@.len() != "heater"@.len());
                        }
                    }
                    let device_rule = if crate::text::str_eq(rule_type.as_str(), "cheap") {
                        assert(has_rule_type(*rule, "cheap"@));
                        assert(!has_rule_type(*rule, "heater"@));
                        assert(rule.setting("consecutive"@) matches Some(Setting::Boolean(_)));
                        let consecutive = rule.get_bool("consecutive");
                        let hours = rule.get_u32("hours");
                        DeviceRule::Cheap(RuleCheap::new(consecutive, hours))
                    } else {
                        assert(has_rule_type(*rule, "heater"@));
                        let pivot_hour = rule.get_u32("pivot_hour");
                        let hours = rule.get_u32("hours");
                        DeviceRule::Heater(RuleHeater::new(pivot_hour, hours))
                    };
                    device_rules.insert(device.clone(), device_rule);
                },
                None => {},
            }
            i = i + 1;
            assert forall|d: Seq<char>|
                #[trigger] device_rules.map().contains_key(d) <==> (exists|j: int|
                    0 <= j < i && names[j]@ == d) && cfg.rules.map().contains_key(d) by {
                if exists|j: int| 0 <= j < i && names[j]@ == d {
                    let j = choose|j: int| 0 <= j < i && names[j]@ == d;
                    if j < i - 1 {
                        assert(exists|j2: int| 0 <= j2 < i - 1 && names[j2]@ == d);
                    }
                }
            }
        }
        Rules { device_rules, get_on_hours_0_24: None, prices: Prices::new(cfg) }
    }

    /// The on/off pattern of each device when its hours are chosen within
    /// `[hours.start, hours.end)`, from today's prices.  The whole-day
    /// patterns are kept from the last price refresh.
    pub fn get_on_hours(&self, hours: Range<u32>) -> (on_hours: StrMap<OnHours>)
        requires
            self.all_applicable(self.prices_spec().today_spec(), hours.start, hours.end),
        ensures
            keys_of(on_hours.entries()) == self.device_keys(),
            forall|d: Seq<char>| #[trigger] on_hours.map().contains_key(d) <==> self.rules_map().contains_key(d),
            forall|d: Seq<char>|
                #[trigger] on_hours.map().contains_key(d) ==> on_hours.map()[d]@ == self.pattern_of(
                    d,
                    hours.start,
                    hours.end,
                ),
            forall|j: int|
                0 <= j < on_hours.entries().len() ==> (#[trigger] on_hours.entries()[j]).1@
                    == self.pattern_of(on_hours.entries()[j].0@, hours.start, hours.end),
    {
        proof {
            use_type_invariant(self);
        }
        let on_hours = if hours.start == 0 && hours.end == 24 && self.get_on_hours_0_24.is_some() {
            match &self.get_on_hours_0_24 {
                Some(cached) => copy_on_hours(cached),
                None => self.compute_on_hours(hours.start, hours.end),
            }
        } else {
            self.compute_on_hours(hours.start, hours.end)
        };
        let _ = on_hours.len();
        proof {
            assert(forall|d: Seq<char>|
                #[trigger] on_hours.map().contains_key(d) ==> on_hours.map()[d]@ == self.pattern_of(
                    d,
                    hours.start,
                    hours.end,
                ));
            assert forall|j: int|
                0 <= j < on_hours.entries().len() implies (#[trigger] on_hours.entries()[j]).1@
                    == self.pattern_of(on_hours.entries()[j].0@, hours.start, hours.end) by {
                lemma_map_of_entry(on_hours.entries(), j);
                let d = on_hours.entries()[j].0@;
                assert(on_hours.map().contains_key(d));
                assert(on_hours.map()[d] == on_hours.entries()[j].1);
            }
        }
        on_hours
    }

    /// The patterns of `get_on_hours`, computed afresh.
    fn compute_on_hours(&self, start: u32, end: u32) -> (on_hours: StrMap<OnHours>)
        requires
            self.all_applicable(self.prices.today_spec(), start, end),
        ensures
            keys_of(on_hours.entries()) == keys_of(self.device_rules.entries()),
            forall|d: Seq<char>| #[trigger] on_hours.map().contains_key(d) <==> self.device_rules.map().contains_key(d),
            forall|d: Seq<char>|
                #[trigger] on_hours.map().contains_key(d) ==> on_hours.map()[d]@
                    == self.device_rules.map()[d].on_hours_spec(self.prices.today_spec(), start, end),
    {
        let mut result: StrMap<OnHours> = StrMap::new();
        let ghost src = self.device_rules.entries();
        let _ = self.device_rules.len();
        let mut i: usize = 0;
        while i < self.device_rules.len()
            invariant
                i <= src.len(),
                src == self.device_rules.entries(),
                keys_distinct(src),
                self.all_applicable(self.prices.today_spec(), start, end),
                result.entries().len() == i,
                forall|j: int|
                    0 <= j < i ==> (#[trigger] result.entries()[j]).0@ == src[j].0@
                        && result.entries()[j].1@ == src[j].1.on_hours_spec(self.prices.today_spec(), start, end),
            decreases src.len() - i,
        {
            let key = self.device_rules.key_at(i).clone();
            let rule = self.device_rules.value_at(i);
            proof {
                lemma_map_of_entry(src, i as int);
                assert(self.rules_map().contains_key(src[i as int].0@));
            }
            let value = rule.get_on_hours(&self.prices, start..end);
            proof {
                if result.map().contains_key(key@) {
                    let j = choose|j: int| 0 <= j < result.entries().len() && result.entries()[j].0@ == key@;
                    assert(src[j].0@ == src[i as int].0@);
                }
            }
            result.insert(key, value);
            i = i + 1;
        }
        let _ = result.len();
        proof {
            lemma_same_keys(result.entries(), src);
            assert(keys_of(result.entries()) =~= keys_of(src));
            assert forall|d: Seq<char>| #[trigger] result.map().contains_key(d) implies result.map()[d]@
                == self.device_rules.map()[d].on_hours_spec(self.prices.today_spec(), start, end) by {
                let j = choose|j: int| 0 <= j < result.entries().len() && result.entries()[j].0@ == d;
                lemma_map_of_entry(result.entries(), j);
                lemma_map_of_entry(src, j);
            }
        }
        result
    }

    /// The wished state of each device at `now`: on when the current hour is
    /// one of its chosen hours of the day.
    ///
    /// Every device that has a rule gets an answer.
    pub fn eval(&self, now: &Moment) -> (result: StrMap<Option<bool>>)
        requires
            now.hour < 24,
            self.all_applicable(self.prices_spec().today_spec(), 0, 24),
        ensures
            forall|d: Seq<char>| #[trigger] result.map().contains_key(d) <==> self.rules_map().contains_key(d),
            forall|d: Seq<char>|
                #[trigger] result.map().contains_key(d) ==> result.map()[d] == Some(
                    self.pattern_of(d, 0, 24)[now.hour as int],
                ),
    {
        let on_hours = self.get_on_hours(0..24);
        let mut result: StrMap<Option<bool>> = StrMap::new();
        let ghost src = on_hours.entries();
        let _ = on_hours.len();
        let mut i: usize = 0;
        while i < on_hours.len()
            invariant
                i <= src.len(),
                src == on_hours.entries(),
                keys_distinct(src),
                now.hour < 24,
                forall|d: Seq<char>| #[trigger] on_hours.map().contains_key(d) ==> on_hours.map()[d]@.len() == 24,
                result.entries().len() == i,
                forall|j: int|
                    0 <= j < i ==> (#[trigger] result.entries()[j]).0@ == src[j].0@
                        && result.entries()[j].1 == Some(src[j].1@[now.hour as int]),
            decreases src.len() - i,
        {
            let key = on_hours.key_at(i).clone();
            let on = on_hours.value_at(i).on_at(now.hour);
            proof {
                if result.map().contains_key(key@) {
                    let j = choose|j: int| 0 <= j < result.entries().len() && result.entries()[j].0@ == key@;
                    assert(src[j].0@ == src[i as int].0@);
                }
            }
            result.insert(key, Some(on));
            i = i + 1;
        }
        let _ = result.len();
        proof {
            lemma_same_keys(result.entries(), src);
            assert(on_hours.map() == map_of(src));
            assert forall|d: Seq<char>| #[trigger] result.map().contains_key(d) <==> self.rules_map().contains_key(d) by {
                assert(result.map().contains_key(d) <==> map_of(src).contains_key(d));
                assert(on_hours.map().contains_key(d) <==> self.rules_map().contains_key(d));
            }
            assert forall|d: Seq<char>| #[trigger] result.map().contains_key(d) implies result.map()[d] == Some(
                self.pattern_of(d, 0, 24)[now.hour as int]) by {
                let j = choose|j: int| 0 <= j < result.entries().len() && result.entries()[j].0@ == d;
                lemma_map_of_entry(result.entries(), j);
                lemma_map_of_entry(src, j);
                assert(map_of(src).contains_key(d));
                assert(on_hours.map().contains_key(d));
                assert(on_hours.map()[d] == src[j].1);
            }
        }
        result
    }

    /// Whether every device's rule can choose its hours within `[start, end)`
    /// from the day's prices `today`.
    pub fn rules_applicable(&self, today: &Vec<Price>, start: u32, end: u32) -> (r: bool)
        requires
            today@.len() == 24,
        ensures
            r == self.all_applicable(today@, start, end),
    {
        let ghost src = self.device_rules.entries();
        let _ = self.device_rules.len();
        let mut i: usize = 0;
        while i < self.device_rules.len()
            invariant
                i <= src.len(),
                src == self.device_rules.entries(),
                keys_distinct(src),
                today@.len() == 24,
                forall|j: int| 0 <= j < i ==> (#[trigger] src[j]).1.applicable(today@, start, end),
            decreases src.len() - i,
        {
            if !self.device_rules.value_at(i).is_applicable(today, start, end) {
                proof {
                    lemma_map_of_entry(src, i as int);
                    assert(self.rules_map().contains_key(src[i as int].0@));
                }
                return false;
            }
            i = i + 1;
        }
        proof {
            assert forall|d: Seq<char>| #[trigger] self.rules_map().contains_key(d) implies self.rules_map()[d].applicable(today@, start, end) by {
                let j = choose|j: int| 0 <= j < src.len() && src[j].0@ == d;
                lemma_map_of_entry(src, j);
            }
        }
        true
    }

    /// Whether `get_on_hours` can choose every device's hours within
    /// `[start, end)` from today's prices.
    pub fn can_get_on_hours(&self, start: u32, end: u32) -> (r: bool)
        ensures
            r == self.all_applicable(self.prices_spec().today_spec(), start, end),
    {
        self.rules_applicable(self.prices.today_prices(), start, end)
    }

    /// The prices.
    pub fn prices(&self) -> (prices: &Prices)
        ensures
            *prices == self.prices_spec(),
    {
        &self.prices
    }

    /// Takes a fetched day of prices (see `Prices::refresh`); when they
    /// replace today's, the whole-day patterns are computed again.
    pub fn refresh_prices(&mut self, reply_date: Date, today: Date, prices: Vec<Price>) -> (updated: bool)
        requires
            prices@.len() == 24,
            reply_date != old(self).prices_spec().last_update_spec() ==> old(self).all_applicable(prices@, 0, 24),
        ensures
            refreshed(*old(self), *final(self), reply_date, today, prices@, updated),
    {
        proof {
            use_type_invariant(&*self);
        }
        if reply_date == self.prices.last_update() {
            return false;
        }
        let mut cache: Option<StrMap<OnHours>> = None;
        std::mem::swap(&mut cache, &mut self.get_on_hours_0_24);
        let ghost rules_before = self.device_rules;
        let updated = self.prices.refresh(reply_date, today, prices);
        assert(self.device_rules == rules_before);
        assert(self.rules_map() == old(self).rules_map());
        assert(self.prices.today_spec() == prices@);
        assert(self.all_applicable(self.prices.today_spec(), 0, 24)) by {
            assert forall|d: Seq<char>| #[trigger] self.rules_map().contains_key(d) implies self.rules_map()[d].applicable(prices@, 0, 24) by {
                assert(old(self).rules_map().contains_key(d));
            }
        }
        let fresh = self.compute_on_hours(0, 24);
        self.get_on_hours_0_24 = Some(fresh);
        updated
    }

    /// The devices that have a rule.
    fn devices(&self) -> (devices: Vec<String>)
        ensures
            devices@.map_values(|d: String| d@) == self.device_keys(),
    {
        let mut devices: Vec<String> = Vec::new();
        let mut i: usize = 0;
        while i < self.device_rules.len()
            invariant
                i <= self.device_rules.entries().len(),
                devices@.len() == i,
                devices@.map_values(|d: String| d@) == keys_of(self.device_rules.entries()).take(i as int),
            decreases self.device_rules.entries().len() - i,
        {
            let ghost before = devices@;
            devices.push(self.device_rules.key_at(i).clone());
            i = i + 1;
            assert forall|j: int| 0 <= j < i implies devices@.map_values(|d: String| d@)[j] == keys_of(self.device_rules.entries()).take(i as int)[j] by {
                if j < i - 1 {
                    assert(devices@[j] == before[j]);
                    assert(before.map_values(|d: String| d@)[j] == keys_of(self.device_rules.entries()).take(i - 1)[j]);
                }
            }
            assert(devices@.map_values(|d: String| d@) =~= keys_of(self.device_rules.entries()).take(i as int));
        }
        assert(keys_of(self.device_rules.entries()).take(i as int) =~= keys_of(self.device_rules.entries()));
        devices
    }
}

/// A heater is on in every hour in which a `cheap` rule with the same number
/// of hours (not consecutive) over the same range would switch its device on,
/// and also in each of its cheapest hours before the pivot hour, whatever the
/// range.
pub proof fn law_heater_covers_cheap(
    heater: RuleHeater,
    cheap: RuleCheap,
    p: Seq<Price>,
    start: u32,
    end: u32,
    h: int,
)
    requires
        heater.hours_spec() == cheap.hours_spec(),
        !cheap.consecutive_spec(),
        0 <= h < 24,
    ensures
        cheap.on_hours_spec(p, start, end)[h] ==> heater.on_hours_spec(p, start, end)[h],
        cheapest_hours(p, heater.hours_spec(), false, 0, heater.pivot_hour_spec()).contains(h as u32)
            ==> heater.on_hours_spec(p, start, end)[h],
{
}

} // verus!
