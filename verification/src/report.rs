//! The text that lists the hours in which each device is on.
use crate::rules::OnHours;
use crate::str_map::StrMap;
use crate::text::{decimal, push_decimal};
use vstd::prelude::*;
use vstd::string::*;

verus! {

/// The hours among the first `n` of the day in which the pattern is on,
/// each written as ` H:00 `.
pub open spec fn hours_text(on: Seq<bool>, n: nat) -> Seq<char>
    decreases n,
{
    if n == 0 {
        Seq::empty()
    } else if on[n - 1] {
        hours_text(on, (n - 1) as nat) + " "@ + decimal((n - 1) as nat) + ":00 "@
    } else {
        hours_text(on, (n - 1) as nat)
    }
}

/// The line of one device: `  · NAME:` followed by its hours and a newline.
pub open spec fn device_line(name: Seq<char>, on: Seq<bool>) -> Seq<char> {
    "  · "@ + name + ":"@ + hours_text(on, 24) + "\n"@
}

/// The lines of the given devices and patterns, in order.
pub open spec fn report_lines(entries: Seq<(Seq<char>, Seq<bool>)>) -> Seq<char>
    decreases entries.len(),
{
    if entries.len() == 0 {
        Seq::empty()
    } else {
        report_lines(entries.drop_last()) + device_line(entries.last().0, entries.last().1)
    }
}

/// The devices and patterns of a map's entries.
pub open spec fn entry_views(entries: Seq<(String, OnHours)>) -> Seq<(Seq<char>, Seq<bool>)> {
    entries.map_values(|e: (String, OnHours)| (e.0@, e.1@))
}

/// One line per device, in the order of the map, listing the hours in which
/// the device is on.
pub fn format_on_hours(on_hours: &StrMap<OnHours>) -> (report: String)
    ensures
        report@ == report_lines(entry_views(on_hours.entries())),
{
    let mut report = String::new();
    let ghost entries = on_hours.entries();
    let mut i: usize = 0;
    while i < on_hours.len()
        invariant
            i <= entries.len(),
            entries == on_hours.entries(),
            report@ == report_lines(entry_views(entries).take(i as int)),
        decreases entries.len() - i,
    {
        let device = on_hours.key_at(i);
        let pattern = on_hours.value_at(i);
        let ghost before = report@;
        report.append("  · ");
        report.append(device.as_str());
        report.append(":");
        let mut hour: u32 = 0;
        while hour < 24
            invariant
                hour <= 24,
                report@ == before + "  · "@ + device@ + ":"@ + hours_text(pattern@, hour as nat),
            decreases 24 - hour,
        {
            if pattern.on_at(hour) {
                report.append(" ");
                push_decimal(&mut report, hour as u64);
                report.append(":00 ");
            }
            hour = hour + 1;
            assert(report@ =~= before + "  · "@ + device@ + ":"@ + hours_text(pattern@, hour as nat));
        }
        report.append("\n");
        i = i + 1;
        assert(entry_views(entries).take(i as int).drop_last() =~= entry_views(entries).take(i - 1));
        assert(report@ =~= report_lines(entry_views(entries).take(i as int)));
    }
    assert(entry_views(entries).take(i as int) =~= entry_views(entries));
    report
}

} // verus!
