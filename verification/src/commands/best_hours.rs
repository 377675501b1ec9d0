//! `/horario [HOUR]`: the best hours to switch each device on, from a given
//! hour (or from the coming hour) to the end of the day.
use crate::clock::{is_valid_moment, now, Moment};
use crate::report::{entry_views, format_on_hours, report_lines};
use crate::rules::Rules;
use crate::telegram::Message;
use crate::text::{decimal, parse_u32, parse_u32_spec, push_decimal, starts_with, trim, trimmed};
use vstd::prelude::*;
use vstd::string::*;

verus! {

/// Why the command could not answer.
pub enum Error {
    /// A device's rule cannot choose its hours from the requested hour on.
    NoHoursLeft,
}

pub struct BestHoursCommand {}

/// The first hour of the answer: the number after `/horario` (0 when it is
/// not a number), or, without one, the current hour until a quarter past and
/// the next hour after that; never later than 23.
pub open spec fn from_hour(text: Seq<char>, now: Moment) -> u32 {
    let arg = trimmed(text.subrange(8, text.len() as int));
    let h: u32 = if arg.len() > 0 {
        match parse_u32_spec(arg) {
            Some(v) => v,
            None => 0,
        }
    } else if now.minute <= 15 {
        now.hour
    } else {
        (now.hour + 1) as u32
    };
    if h < 23 {
        h
    } else {
        23
    }
}

/// The answer: the first hour, and the line of each device.
pub open spec fn best_hours_reply(from: u32, lines: Seq<char>) -> Seq<char> {
    "Los mejores horarios para encender cada dispositivo a partir de las "@ + decimal(from as nat)
        + ":00 son:\n"@ + lines
}

/// The lines of the devices' patterns from hour `from` to the end of the day.
pub open spec fn best_hours_lines(rules: Rules, from: u32) -> Seq<char> {
    report_lines(
        rules.device_keys().map_values(|d: Seq<char>| (d, rules.pattern_of(d, from, 24))),
    )
}

impl BestHoursCommand {
    pub fn new() -> (cmd: BestHoursCommand) {
        BestHoursCommand {}
    }

    /// The answer at `now`, when the message is the `/horario` command;
    /// `None` otherwise.
    pub fn reply_at(&self, msg: &Message, rules: &Rules, now: &Moment) -> (reply: Option<String>)
        requires
            now.hour < 24,
            "/horario"@.is_prefix_of(msg.text@) ==> rules.all_applicable(
                rules.prices_spec().today_spec(),
                from_hour(msg.text@, *now),
                24,
            ),
        ensures
            reply is Some <==> "/horario"@.is_prefix_of(msg.text@),
            reply matches Some(r) ==> r@ == best_hours_reply(
                from_hour(msg.text@, *now),
                best_hours_lines(*rules, from_hour(msg.text@, *now)),
            ),
    {
        let text = msg.text.as_str();
        if !starts_with(text, "/horario") {
            return None;
        }
        let from = self.first_hour(text, now);
        let on_hours = rules.get_on_hours(from..24);
        let lines = format_on_hours(&on_hours);
        let mut reply = String::new();
        reply.append("Los mejores horarios para encender cada dispositivo a partir de las ");
        push_decimal(&mut reply, from as u64);
        reply.append(":00 son:\n");
        reply.append(lines.as_str());
        proof {
            assert(entry_views(on_hours.entries()) =~= rules.device_keys().map_values(
                |d: Seq<char>| (d, rules.pattern_of(d, from, 24)),
            )) by {
                assert forall|j: int| 0 <= j < on_hours.entries().len() implies entry_views(on_hours.entries())[j]
                    == rules.device_keys().map_values(|d: Seq<char>| (d, rules.pattern_of(d, from, 24)))[j] by {
                    assert(crate::str_map::keys_of(on_hours.entries())[j] == on_hours.entries()[j].0@);
                }
            }
        }
        Some(reply)
    }

    /// The first hour of the answer (see `from_hour`).
    fn first_hour(&self, text: &str, now: &Moment) -> (h: u32)
        requires
            "/horario"@.is_prefix_of(text@),
            now.hour < 24,
        ensures
            h == from_hour(text@, *now),
    {
        proof {
            reveal_strlit("/horario");
        }
        let arg = trim(text.substring_char(8, text.unicode_len()));
        let h: u32 = if arg.unicode_len() > 0 {
            match parse_u32(arg) {
                Some(v) => v,
                None => 0,
            }
        } else if now.minute <= 15 {
            now.hour
        } else {
            now.hour + 1
        };
        if h < 23 {
            h
        } else {
            23
        }
    }

    /// The answer now (the clock is read), when the message is the
    /// `/horario` command.  When a device's rule cannot choose its hours from
    /// the requested hour on, the answer is `NoHoursLeft`.
    pub fn run(&self, msg: &Message, rules: &Rules) -> (reply: Result<Option<String>, Error>)
        ensures
            !"/horario"@.is_prefix_of(msg.text@) ==> reply matches Ok(None),
            "/horario"@.is_prefix_of(msg.text@) ==> exists|m: Moment|
                #![trigger from_hour(msg.text@, m)]
                is_valid_moment(m) && match reply {
                    Ok(Some(r)) => rules.all_applicable(
                        rules.prices_spec().today_spec(),
                        from_hour(msg.text@, m),
                        24,
                    ) && r@ == best_hours_reply(
                        from_hour(msg.text@, m),
                        best_hours_lines(*rules, from_hour(msg.text@, m)),
                    ),
                    Ok(None) => false,
                    Err(Error::NoHoursLeft) => !rules.all_applicable(
                        rules.prices_spec().today_spec(),
                        from_hour(msg.text@, m),
                        24,
                    ),
                },
    {
        let text = msg.text.as_str();
        if !starts_with(text, "/horario") {
            return Ok(None);
        }
        let now = now();
        let from = self.first_hour(text, &now);
        if !rules.can_get_on_hours(from, 24) {
            return Err(Error::NoHoursLeft);
        }
        Ok(self.reply_at(msg, rules, &now))
    }
}

} // verus!
