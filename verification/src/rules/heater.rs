use super::util::{cheapest_hours, cheapest_hours_defined, cheapest_hours_defined_exec, cheapest_hours_of, get_cheapest_hours};
use super::{on_pattern, OnHours, Rule};
use crate::prices::{Price, Prices};
use std::ops::Range;
use vstd::prelude::*;

verus! {

/// Switches a water heater on during its `hours` cheapest hours of the
/// requested range, and also during its `hours` cheapest hours before
/// `pivot_hour`, the hour after which the water must be hot.
pub struct RuleHeater {
    hours: u32,
    pivot_hour: u32,
}

impl RuleHeater {
    pub fn new(pivot_hour: u32, hours: u32) -> (rule: RuleHeater)
        ensures
            rule.pivot_hour_spec() == pivot_hour,
            rule.hours_spec() == hours,
    {
        RuleHeater { hours, pivot_hour }
    }

    pub closed spec fn pivot_hour_spec(&self) -> u32 {
        self.pivot_hour
    }

    pub closed spec fn hours_spec(&self) -> u32 {
        self.hours
    }
}

/// Whether `hour` is listed in `hours`.
fn contains_hour(hours: &Vec<u32>, hour: u32) -> (found: bool)
    ensures
        found == hours@.contains(hour),
{
    let mut i: usize = 0;
    while i < hours.len()
        invariant
            i <= hours@.len(),
            forall|j: int| 0 <= j < i ==> hours@[j] != hour,
        decreases hours@.len() - i,
    {
        if hours[i] == hour {
            return true;
        }
        i = i + 1;
    }
    false
}

impl Rule for RuleHeater {
    open spec fn applicable(&self, p: Seq<Price>, start: u32, end: u32) -> bool {
        &&& cheapest_hours_defined(p, self.hours_spec(), false, start, end)
        &&& cheapest_hours_defined(p, self.hours_spec(), false, 0, self.pivot_hour_spec())
    }

    open spec fn on_hours_spec(&self, p: Seq<Price>, start: u32, end: u32) -> Seq<bool> {
        Seq::new(
            24,
            |h: int|
                cheapest_hours(p, self.hours_spec(), false, start, end).contains(h as u32)
                    || cheapest_hours(p, self.hours_spec(), false, 0, self.pivot_hour_spec()).contains(
                    h as u32,
                ),
        )
    }

    fn get_on_hours(&self, prices: &Prices, hours: Range<u32>) -> (on_hours: OnHours) {
        let ghost p = prices.today_spec();
        let ghost a = cheapest_hours(p, self.hours, false, hours.start, hours.end);
        let ghost b = cheapest_hours(p, self.hours, false, 0, self.pivot_hour);
        let mut cheapest_hours = get_cheapest_hours(self.hours, false, prices, Some(hours));
        let before_pivot = get_cheapest_hours(self.hours, false, prices, Some(0..self.pivot_hour));
        let mut i: usize = 0;
        while i < before_pivot.len()
            invariant
                i <= before_pivot@.len(),
                before_pivot@ == b,
                p.len() == 24,
                forall|k: int| 0 <= k < b.len() ==> #[trigger] b[k] < 24,
                forall|k: int| 0 <= k < cheapest_hours@.len() ==> #[trigger] cheapest_hours@[k] < 24,
                forall|h: u32|
                    #[trigger] cheapest_hours@.contains(h) <==> a.contains(h) || b.take(
                        i as int,
                    ).contains(h),
            decreases before_pivot@.len() - i,
        {
            let hour = before_pivot[i];
            let ghost prev = cheapest_hours@;
            if !contains_hour(&cheapest_hours, hour) {
                cheapest_hours.push(hour);
                assert(cheapest_hours@ == prev.push(hour));
            }
            assert forall|h: u32| #[trigger] cheapest_hours@.contains(h) <==> prev.contains(h) || h == hour by {
                if prev.contains(h) {
                    let j = choose|j: int| 0 <= j < prev.len() && prev[j] == h;
                    assert(cheapest_hours@[j] == h);
                }
                if cheapest_hours@.contains(h) && !prev.contains(h) {
                    let j = choose|j: int| 0 <= j < cheapest_hours@.len() && cheapest_hours@[j] == h;
                    if j < prev.len() {
                        assert(prev[j] == h);
                    }
                }
                if h == hour && cheapest_hours@ != prev {
                    assert(cheapest_hours@[prev.len() as int] == hour);
                }
            }
            i = i + 1;
            assert forall|h: u32|
                #[trigger] cheapest_hours@.contains(h) <==> a.contains(h) || b.take(
                    i as int,
                ).contains(h) by {
                let t = b.take(i as int);
                let t0 = b.take(i - 1);
                assert(prev.contains(h) <==> a.contains(h) || t0.contains(h));
                assert(t =~= t0.push(hour));
                if t0.contains(h) {
                    let j = choose|j: int| 0 <= j < t0.len() && t0[j] == h;
                    assert(t[j] == h);
                }
                if t.contains(h) && h != hour {
                    let j = choose|j: int| 0 <= j < t.len() && t[j] == h;
                    assert(t0[j] == h);
                }
                if h == hour {
                    assert(t[i - 1] == hour);
                }
            }
        }
        assert(b.take(b.len() as int) =~= b);
        let on_hours = OnHours::from_hours(cheapest_hours);
        assert(on_hours@ =~= self.on_hours_spec(p, hours.start, hours.end));
        on_hours
    }

    fn is_applicable(&self, today: &Vec<Price>, start: u32, end: u32) -> (r: bool) {
        cheapest_hours_defined_exec(self.hours, false, today, start, end)
            && cheapest_hours_defined_exec(self.hours, false, today, 0, self.pivot_hour)
    }
}

} // verus!
