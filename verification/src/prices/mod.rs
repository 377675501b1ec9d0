use crate::clock::{is_valid_date, is_valid_date_exec, is_valid_moment, now, Date, Moment};
use crate::text::{parse_i32, parse_i32_spec, parse_u32, parse_u32_spec, split, split_on};
use crate::config::Config;
use vstd::prelude::*;

verus! {

/// Price band of an hour within its day: the lower quarter of the day's
/// price span is `Low`, the upper quarter `High`, the rest `Med`.
#[derive(Clone, Copy, Debug, PartialEq, Eq, Structural)]
pub enum Tranch {
    High,
    Med,
    Low,
}

/// Price of one hour.
///
/// `micro_euros_per_kwh` is the price in millionths of a euro per kWh; hours
/// are ordered by it when the cheapest hours of a day are chosen.
#[derive(Clone, Copy, Debug, PartialEq, Eq, Structural)]
pub struct Price {
    pub micro_euros_per_kwh: u32,
    pub tranch: Tranch,
}

impl Tranch {
    /// The coloured dot that shows the band.
    pub fn get_icon(&self) -> (icon: &'static str)
        ensures
            icon@ == tranch_icon(*self),
    {
        match self {
            Tranch::High => "🔴",
            Tranch::Med => "🟡",
            Tranch::Low => "🟢",
        }
    }
}

/// The coloured dot of each band: red for high, yellow for medium, green for
/// low prices.
pub open spec fn tranch_icon(t: Tranch) -> Seq<char> {
    match t {
        Tranch::High => "🔴"@,
        Tranch::Med => "🟡"@,
        Tranch::Low => "🟢"@,
    }
}

impl Price {
    pub fn new(micro_euros_per_kwh: u32, tranch: Tranch) -> (price: Price)
        ensures
            price.micro_euros_per_kwh == micro_euros_per_kwh,
            price.tranch == tranch,
    {
        Price { micro_euros_per_kwh, tranch }
    }
}

} // verus!

verus! {

/// Hourly electricity prices of the current day, and the date they were
/// last refreshed.
///
/// A day always has 24 prices, one per hour, starting at midnight.
pub struct Prices {
    last_update: Date,
    today_prices: Vec<Price>,
    token: String,
    tomorrow_prices: Option<Vec<Price>>,
}

impl Prices {
    #[verifier::type_invariant]
    spec fn inv(&self) -> bool {
        &&& self.today_prices@.len() == 24
        &&& self.tomorrow_prices matches Some(t) ==> t@.len() == 24
    }

    /// Prices of today, hour by hour.
    pub closed spec fn today_spec(&self) -> Seq<Price> {
        self.today_prices@
    }

    /// Prices of tomorrow, hour by hour, when known.
    pub closed spec fn tomorrow_spec(&self) -> Option<Seq<Price>> {
        match self.tomorrow_prices {
            Some(t) => Some(t@),
            None => None,
        }
    }

    /// The day on which the prices were last refreshed.
    pub closed spec fn last_update_spec(&self) -> Date {
        self.last_update
    }

    /// Token of the e·sios price service (empty when the public price
    /// service is used instead).
    pub closed spec fn token_spec(&self) -> Seq<char> {
        self.token@
    }

    /// The prices before the first refresh: every hour at price 0 in the
    /// medium band, dated 1 January 1980, with the e·sios token of the
    /// configuration.
    pub fn new(cfg: &Config) -> (prices: Prices)
        ensures
            prices.today_spec() == Seq::new(24, |h: int| Price { micro_euros_per_kwh: 0, tranch: Tranch::Med }),
            prices.tomorrow_spec() is None,
            prices.last_update_spec() == (Date { year: 1980, month: 1, day: 1 }),
            prices.token_spec() == cfg.esios.token@,
    {
        let mut today_prices: Vec<Price> = Vec::new();
        let mut h: usize = 0;
        while h < 24
            invariant
                h <= 24,
                today_prices@ == Seq::new(h as nat, |i: int| Price { micro_euros_per_kwh: 0, tranch: Tranch::Med }),
            decreases 24 - h,
        {
            today_prices.push(Price::new(0, Tranch::Med));
            h = h + 1;
            assert(today_prices@ =~= Seq::new(h as nat, |i: int| Price { micro_euros_per_kwh: 0, tranch: Tranch::Med }));
        }
        Prices {
            last_update: Date { year: 1980, month: 1, day: 1 },
            today_prices,
            token: cfg.esios.token.clone(),
            tomorrow_prices: None,
        }
    }

    /// Today's prices, hour by hour.
    pub fn today(&self) -> (today: Vec<Price>)
        ensures
            today@ == self.today_spec(),
    {
        copy_prices(&self.today_prices)
    }

    /// Tomorrow's prices, hour by hour, when known.
    pub fn tomorrow(&self) -> (tomorrow: Option<Vec<Price>>)
        ensures
            match tomorrow {
                Some(t) => self.tomorrow_spec() == Some(t@),
                None => self.tomorrow_spec() is None,
            },
    {
        match &self.tomorrow_prices {
            Some(t) => Some(copy_prices(t)),
            None => None,
        }
    }

    /// Whether the prices should be fetched again at `now`: not when they
    /// were refreshed today already, and not in the first three minutes after
    /// midnight, while the provider publishes the new day.
    ///
    /// Only the public price provider is supported: an e·sios token is not
    /// implemented, and such a configuration stops the assistant.
    pub fn is_due(&self, now: &Moment) -> (due: bool)
        requires
            self.token_spec().len() == 0,
        ensures
            due == !(self.last_update_spec() == now.date || (now.hour == 0 && now.minute < 3)),
    {
        !(self.last_update == now.date || (now.hour == 0 && now.minute < 3))
    }

    /// Takes the prices of a fetched day: `reply_date` is the date that the
    /// provider reported for them, `today` the local date of the fetch.  A
    /// reply for the day already held changes nothing; otherwise the prices
    /// replace today's and are dated `today`.
    pub fn refresh(&mut self, reply_date: Date, today: Date, prices: Vec<Price>) -> (updated: bool)
        requires
            prices@.len() == 24,
        ensures
            updated == (reply_date != old(self).last_update_spec()),
            updated ==> final(self).today_spec() == prices@ && final(self).last_update_spec() == today,
            !updated ==> final(self).today_spec() == old(self).today_spec()
                && final(self).last_update_spec() == old(self).last_update_spec(),
            final(self).tomorrow_spec() == old(self).tomorrow_spec(),
            final(self).token_spec() == old(self).token_spec(),
        no_unwind
    {
        proof {
            use_type_invariant(&*self);
        }
        if reply_date == self.last_update {
            return false;
        }
        self.today_prices = prices;
        self.last_update = today;
        true
    }

    /// The e·sios token (empty when the public price provider is used).
    pub fn token(&self) -> (token: &str)
        ensures
            token@ == self.token_spec(),
    {
        self.token.as_str()
    }

    /// Whether a reply dated `reply_date` brings a day not held yet.
    pub fn is_new(&self, reply_date: Date) -> (new: bool)
        ensures
            new == (reply_date != self.last_update_spec()),
    {
        reply_date != self.last_update
    }

    /// The day on which the prices were last refreshed.
    pub fn last_update(&self) -> (d: Date)
        ensures
            d == self.last_update_spec(),
    {
        self.last_update
    }

    /// Today's prices, as a reference.
    pub fn today_prices(&self) -> (r: &Vec<Price>)
        ensures
            r@ == self.today_spec(),
            r@.len() == 24,
    {
        proof {
            use_type_invariant(self);
        }
        &self.today_prices
    }
}


/// A copy of a list of prices.
fn copy_prices(prices: &Vec<Price>) -> (c: Vec<Price>)
    ensures
        c@ == prices@,
{
    let mut c: Vec<Price> = Vec::new();
    let mut i: usize = 0;
    while i < prices.len()
        invariant
            i <= prices@.len(),
            c@ == prices@.take(i as int),
        decreases prices@.len() - i,
    {
        c.push(prices[i]);
        i = i + 1;
        assert(c@ =~= prices@.take(i as int));
    }
    assert(prices@.take(prices@.len() as int) =~= prices@);
    c
}

/// The date of a price reply, written `DAY-MONTH-YEAR`; a field that is not
/// a number is taken from `today`.
pub open spec fn reply_date(text: Seq<char>, today: Date) -> Date {
    let parts = split_on(text, '-');
    Date {
        day: match parse_u32_spec(parts[0]) {
            Some(v) => v,
            None => today.day,
        },
        month: match parse_u32_spec(parts[1]) {
            Some(v) => v,
            None => today.month,
        },
        year: match parse_i32_spec(parts[2]) {
            Some(v) => v,
            None => today.year,
        },
    }
}

/// The date of a price reply, on day `today` (see `reply_date`).  The text
/// has at least three fields and names a date that exists.
pub fn as_date_on(pdll_date: &str, today: Date) -> (d: Date)
    requires
        split_on(pdll_date@, '-').len() >= 3,
        is_valid_date(reply_date(pdll_date@, today)),
    ensures
        d == reply_date(pdll_date@, today),
{
    let parts = split(pdll_date, '-');
    let day: u32 = match parse_u32(parts[0]) {
        Some(v) => v,
        None => today.day,
    };
    let month: u32 = match parse_u32(parts[1]) {
        Some(v) => v,
        None => today.month,
    };
    let year: i32 = match parse_i32(parts[2]) {
        Some(v) => v,
        None => today.year,
    };
    Date { year, month, day }
}

/// `d` is what `as_date` gives for `text` on day `today`: the date, or
/// `None` when the text has fewer than three fields or names no date.
pub open spec fn as_date_outcome(text: Seq<char>, today: Date, d: Option<Date>) -> bool {
    match d {
        Some(d) => split_on(text, '-').len() >= 3 && is_valid_date(reply_date(text, today)) && d
            == reply_date(text, today),
        None => split_on(text, '-').len() < 3 || !is_valid_date(reply_date(text, today)),
    }
}

/// The date of a price reply, today (the clock is read).  `None` when the
/// text has fewer than three fields or names no date.
pub fn as_date(pdll_date: &str) -> (d: Option<Date>)
    ensures
        exists|m: Moment| is_valid_moment(m) && #[trigger] as_date_outcome(pdll_date@, m.date, d),
{
    let m = now();
    let parts = split(pdll_date, '-');
    if parts.len() < 3 {
        let r: Option<Date> = None;
        assert(as_date_outcome(pdll_date@, m.date, r));
        return r;
    }
    let day: u32 = match parse_u32(parts[0]) {
        Some(v) => v,
        None => m.date.day,
    };
    let month: u32 = match parse_u32(parts[1]) {
        Some(v) => v,
        None => m.date.month,
    };
    let year: i32 = match parse_i32(parts[2]) {
        Some(v) => v,
        None => m.date.year,
    };
    let d = Date { year, month, day };
    assert(d == reply_date(pdll_date@, m.date));
    let r = if is_valid_date_exec(d) {
        Some(d)
    } else {
        None
    };
    assert(as_date_outcome(pdll_date@, m.date, r));
    r
}

} // verus!
