use super::util::{cheapest_hours, cheapest_hours_defined, cheapest_hours_defined_exec, cheapest_hours_of, get_cheapest_hours};
use super::{on_pattern, OnHours, Rule};
use crate::prices::{Price, Prices};
use std::ops::Range;
use vstd::prelude::*;

verus! {

/// Switches a device on during its `hours` cheapest hours, or during its
/// cheapest run of `hours` consecutive hours.
pub struct RuleCheap {
    consecutive: bool,
    hours: u32,
}

impl RuleCheap {
    pub fn new(consecutive: bool, hours: u32) -> (rule: RuleCheap)
        ensures
            rule.consecutive_spec() == consecutive,
            rule.hours_spec() == hours,
    {
        RuleCheap { consecutive, hours }
    }

    pub closed spec fn consecutive_spec(&self) -> bool {
        self.consecutive
    }

    pub closed spec fn hours_spec(&self) -> u32 {
        self.hours
    }
}

impl Rule for RuleCheap {
    open spec fn applicable(&self, p: Seq<Price>, start: u32, end: u32) -> bool {
        &&& cheapest_hours_defined(p, self.hours_spec(), self.consecutive_spec(), start, end)
        &&& forall|k: int|
            0 <= k < cheapest_hours(p, self.hours_spec(), self.consecutive_spec(), start, end).len()
                ==> #[trigger] cheapest_hours(
                p,
                self.hours_spec(),
                self.consecutive_spec(),
                start,
                end,
            )[k] < 24
    }

    open spec fn on_hours_spec(&self, p: Seq<Price>, start: u32, end: u32) -> Seq<bool> {
        on_pattern(cheapest_hours(p, self.hours_spec(), self.consecutive_spec(), start, end))
    }

    fn get_on_hours(&self, prices: &Prices, hours: Range<u32>) -> (on_hours: OnHours) {
        OnHours::from_hours(get_cheapest_hours(self.hours, self.consecutive, prices, Some(hours)))
    }

    fn is_applicable(&self, today: &Vec<Price>, start: u32, end: u32) -> (r: bool) {
        if !cheapest_hours_defined_exec(self.hours, self.consecutive, today, start, end) {
            return false;
        }
        let chosen = cheapest_hours_of(self.hours, self.consecutive, today, start, end);
        let mut k: usize = 0;
        while k < chosen.len()
            invariant
                k <= chosen@.len(),
                chosen@ == cheapest_hours(today@, self.hours, self.consecutive, start, end),
                forall|j: int| 0 <= j < k ==> #[trigger] chosen@[j] < 24,
            decreases chosen@.len() - k,
        {
            if chosen[k] >= 24 {
                return false;
            }
            k = k + 1;
        }
        true
    }
}

} // verus!
