use crate::prices::{Price, Prices};
use std::ops::Range;
use vstd::prelude::*;
use vstd::set_lib::*;

verus! {

/// The number by which an hour's price is ordered.
pub open spec fn key(p: Seq<Price>, h: int) -> int {
    p[h].micro_euros_per_kwh as int
}

/// Hour `a` comes before hour `b` when hours are ordered by price, and hours
/// of equal price by the hour itself.
pub open spec fn cheaper(p: Seq<Price>, a: int, b: int) -> bool {
    key(p, a) < key(p, b) || (key(p, a) == key(p, b) && a < b)
}

/// Hour `h` lies in the half-open range `[start, end)` and has a price.
pub open spec fn in_window(p: Seq<Price>, start: int, end: int, h: int) -> bool {
    start <= h < end && 0 <= h < p.len()
}

/// How many hours with a price lie in `[start, end)`.
pub open spec fn window_len(len: int, start: int, end: int) -> int {
    let hi = if end < len { end } else { len };
    if start < hi { hi - start } else { 0 }
}

/// `r` lists the `n` cheapest hours of `[start, end)`, cheapest first, ties
/// broken by the earlier hour.
pub open spec fn is_cheapest_selection(
    p: Seq<Price>,
    start: int,
    end: int,
    n: int,
    r: Seq<u32>,
) -> bool {
    &&& r.len() == n
    &&& forall|k: int| 0 <= k < r.len() ==> in_window(p, start, end, #[trigger] r[k] as int)
    &&& forall|i: int, j: int|
        0 <= i < j < r.len() ==> cheaper(p, #[trigger] r[i] as int, #[trigger] r[j] as int)
    &&& forall|h: int|
        #[trigger] in_window(p, start, end, h) ==> (exists|j: int| 0 <= j < r.len() && r[j] == h)
            || (forall|k: int| 0 <= k < r.len() ==> cheaper(p, #[trigger] r[k] as int, h))
}

/// The `n` cheapest hours of `[start, end)`, cheapest first.
pub open spec fn cheapest_selection(p: Seq<Price>, start: int, end: int, n: int) -> Seq<u32> {
    choose|r: Seq<u32>| is_cheapest_selection(p, start, end, n, r)
}

/// Sum of the prices of the `n` hours that start at hour `h`.
pub open spec fn window_sum(p: Seq<Price>, h: int, n: nat) -> int
    decreases n,
{
    if n == 0 {
        0
    } else {
        window_sum(p, h, (n - 1) as nat) + key(p, h + n - 1)
    }
}

/// `c` is the first hour of `[start, stop)` whose run of `n` hours has the
/// lowest total price, and that total is below `u32::MAX`.
pub open spec fn is_cheapest_start(p: Seq<Price>, start: int, stop: int, n: nat, c: int) -> bool {
    &&& start <= c < stop
    &&& window_sum(p, c, n) < u32::MAX
    &&& forall|h: int| start <= h < stop ==> window_sum(p, c, n) <= #[trigger] window_sum(p, h, n)
    &&& forall|h: int| start <= h < c ==> window_sum(p, c, n) < #[trigger] window_sum(p, h, n)
}

/// The start of the cheapest run of `n` hours among the starts in
/// `[start, stop)`; hour 0 when no run totals less than `u32::MAX`.
pub open spec fn cheapest_start(p: Seq<Price>, start: int, stop: int, n: nat) -> int {
    if exists|c: int| is_cheapest_start(p, start, stop, n, c) {
        choose|c: int| is_cheapest_start(p, start, stop, n, c)
    } else {
        0
    }
}

/// The hours `from, from + 1, ..., from + count - 1`.
pub open spec fn hour_run(from: int, count: int) -> Seq<u32> {
    Seq::new(count as nat, |i: int| (from + i) as u32)
}

/// The hours chosen for a device that must run `n` hours within
/// `[start, end)`.
///
/// Without `consecutive`: the `n` cheapest hours of the range, cheapest
/// first.  With `consecutive`: when the range is shorter than `n`, all of
/// it; otherwise the run of `n` hours with the lowest total price among the
/// runs that start in `[start, end - n)`.
pub open spec fn cheapest_hours(p: Seq<Price>, n: u32, consecutive: bool, start: u32, end: u32) -> Seq<u32> {
    if consecutive {
        if end - start < n {
            hour_run(start as int, end - start)
        } else {
            hour_run(cheapest_start(p, start as int, end - n, n as nat), n as int)
        }
    } else {
        cheapest_selection(p, start as int, end as int, n as int)
    }
}

/// The inputs on which the choice of cheapest hours is defined: the range is
/// not reversed and every run that is summed has its prices and a total that
/// fits in `u32` (consecutive), or the range holds at least `n` hours with a
/// price (not consecutive).
pub open spec fn cheapest_hours_defined(
    p: Seq<Price>,
    n: u32,
    consecutive: bool,
    start: u32,
    end: u32,
) -> bool {
    if consecutive {
        &&& start <= end
        &&& end - start >= n ==> forall|h: int|
            start <= h < end - n ==> (n > 0 ==> h + n <= p.len()) && #[trigger] window_sum(
                p,
                h,
                n as nat,
            ) <= u32::MAX
    } else {
        n <= window_len(p.len() as int, start as int, end as int)
    }
}

proof fn lemma_defined_window(p: Seq<Price>, n: u32, start: u32, end: u32, h: int)
    requires
        cheapest_hours_defined(p, n, true, start, end),
        start <= h < end - n,
    ensures
        n > 0 ==> h + n <= p.len(),
        window_sum(p, h, n as nat) <= u32::MAX,
{
}

proof fn lemma_window_sum_monotonic(p: Seq<Price>, h: int, i: nat, j: nat)
    requires
        i <= j,
    ensures
        window_sum(p, h, i) <= window_sum(p, h, j),
    decreases j,
{
    if i < j {
        lemma_window_sum_monotonic(p, h, i, (j - 1) as nat);
    }
}

proof fn lemma_cheapest_start_unique(p: Seq<Price>, start: int, stop: int, n: nat, c: int)
    requires
        is_cheapest_start(p, start, stop, n, c),
    ensures
        cheapest_start(p, start, stop, n) == c,
{
    let d = choose|c: int| is_cheapest_start(p, start, stop, n, c);
    assert(is_cheapest_start(p, start, stop, n, d));
    if d < c {
        assert(window_sum(p, c, n) < window_sum(p, d, n));
    } else if c < d {
        assert(window_sum(p, d, n) < window_sum(p, c, n));
    }
}

proof fn lemma_selection_unique(p: Seq<Price>, start: int, end: int, n: int, r: Seq<u32>)
    requires
        is_cheapest_selection(p, start, end, n, r),
    ensures
        cheapest_selection(p, start, end, n) == r,
{
    let s = cheapest_selection(p, start, end, n);
    assert(is_cheapest_selection(p, start, end, n, s));
    assert forall|i: int| 0 <= i < n implies s[i] == r[i] by {
        lemma_selections_agree(p, start, end, n, r, s, i);
    }
    assert(s =~= r);
}

proof fn lemma_selections_agree(
    p: Seq<Price>,
    start: int,
    end: int,
    n: int,
    r: Seq<u32>,
    s: Seq<u32>,
    i: int,
)
    requires
        is_cheapest_selection(p, start, end, n, r),
        is_cheapest_selection(p, start, end, n, s),
        0 <= i < n,
    ensures
        r[i] == s[i],
    decreases i,
{
    if i > 0 {
        lemma_selections_agree(p, start, end, n, r, s, i - 1);
    }
    assert forall|j: int| 0 <= j < i implies r[j] == s[j] by {
        if j < i {
            lemma_selections_agree(p, start, end, n, r, s, j);
        }
    }
    let a = r[i] as int;
    let b = s[i] as int;
    if a != b {
        assert(in_window(p, start, end, a));
        assert(in_window(p, start, end, b));
        if cheaper(p, a, b) {
            // `a` is not chosen by `s` before position i, nor at or after it
            if exists|j: int| 0 <= j < s.len() && s[j] == a {
                let j = choose|j: int| 0 <= j < s.len() && s[j] == a;
                if j < i {
                    assert(r[j] == s[j]);
                    assert(cheaper(p, r[j] as int, r[i] as int));
                } else if j > i {
                    assert(cheaper(p, s[i] as int, s[j] as int));
                }
            } else {
                assert(cheaper(p, s[i] as int, a));
            }
        } else {
            assert(cheaper(p, b, a));
            if exists|j: int| 0 <= j < r.len() && r[j] == b {
                let j = choose|j: int| 0 <= j < r.len() && r[j] == b;
                if j < i {
                    assert(r[j] == s[j]);
                    assert(cheaper(p, s[j] as int, s[i] as int));
                } else if j > i {
                    assert(cheaper(p, r[i] as int, r[j] as int));
                }
            } else {
                assert(cheaper(p, r[i] as int, b));
            }
        }
    }
}

/// Hour `g` comes after every hour chosen so far.
spec fn comes_after(p: Seq<Price>, r: Seq<u32>, g: int) -> bool {
    r.len() == 0 || cheaper(p, r[r.len() - 1] as int, g)
}

/// The cheapest hour of `[start, upto)` that comes after every hour of `r`.
spec fn best_after(p: Seq<Price>, r: Seq<u32>, start: int, upto: int) -> Option<int>
    decreases upto - start,
{
    if upto <= start {
        None
    } else {
        let b = best_after(p, r, start, upto - 1);
        let h = upto - 1;
        if comes_after(p, r, h) && (b is None || cheaper(p, h, b->0)) {
            Some(h)
        } else {
            b
        }
    }
}

proof fn lemma_best_after(p: Seq<Price>, r: Seq<u32>, start: int, upto: int)
    ensures
        match best_after(p, r, start, upto) {
            Some(b) => start <= b < upto && comes_after(p, r, b) && forall|g: int|
                start <= g < upto && comes_after(p, r, g) ==> g == b || cheaper(p, b, g),
            None => forall|g: int| start <= g < upto ==> !comes_after(p, r, g),
        },
    decreases upto - start,
{
    if upto > start {
        lemma_best_after(p, r, start, upto - 1);
    }
}

/// A selection of the `k` cheapest hours extends to one of `k + 1` hours
/// while the window has more hours.
proof fn lemma_selection_extends(p: Seq<Price>, start: u32, end: u32, r: Seq<u32>)
    requires
        p.len() == 24,
        is_cheapest_selection(p, start as int, end as int, r.len() as int, r),
        r.len() < window_len(24, start as int, end as int),
    ensures
        exists|b: u32| #[trigger] is_cheapest_selection(p, start as int, end as int, (r.len() + 1) as int, r.push(b)),
{
    let k = r.len() as int;
    let hi: int = if end < 24 { end as int } else { 24 };
    lemma_best_after(p, r, start as int, hi);
    match best_after(p, r, start as int, hi) {
        None => {
            let s = r.map_values(|x: u32| x as int);
            let w = set_int_range(start as int, hi);
            assert forall|g: int| w.contains(g) implies s.to_set().contains(g) by {
                assert(in_window(p, start as int, end as int, g));
                assert(!comes_after(p, r, g));
                let j = choose|j: int| 0 <= j < r.len() && r[j] == g;
                assert(s[j] == g);
                assert(s.contains(g));
            }
            s.lemma_cardinality_of_set();
            lemma_int_range(start as int, hi);
            lemma_len_subset(w, s.to_set());
        },
        Some(b) => {
            let rb = r.push(b as u32);
            assert(is_cheapest_selection(p, start as int, end as int, k + 1, rb)) by {
                assert forall|k2: int| 0 <= k2 < rb.len() implies in_window(
                    p,
                    start as int,
                    end as int,
                    #[trigger] rb[k2] as int,
                ) by {
                    if k2 < k {
                        assert(rb[k2] == r[k2]);
                    }
                }
                assert forall|i: int, j: int|
                    0 <= i < j < rb.len() implies cheaper(p, #[trigger] rb[i] as int, #[trigger] rb[j] as int) by {
                    if j < k {
                        assert(rb[i] == r[i] && rb[j] == r[j]);
                    } else if i < k - 1 {
                        assert(rb[i] == r[i]);
                        assert(cheaper(p, r[i] as int, r[k - 1] as int));
                    } else if i == k - 1 {
                        assert(rb[i] == r[i]);
                    }
                }
                assert forall|g: int|
                    #[trigger] in_window(p, start as int, end as int, g) implies (exists|j: int|
                    0 <= j < rb.len() && rb[j] == g) || (forall|k2: int|
                    0 <= k2 < rb.len() ==> cheaper(p, #[trigger] rb[k2] as int, g)) by {
                    if exists|j: int| 0 <= j < r.len() && r[j] == g {
                        let j = choose|j: int| 0 <= j < r.len() && r[j] == g;
                        assert(rb[j] == g);
                    } else if g == b {
                        assert(rb[k] == g);
                    } else {
                        assert(forall|k2: int| 0 <= k2 < r.len() ==> cheaper(p, #[trigger] r[k2] as int, g));
                        if k > 0 {
                            assert(cheaper(p, r[k - 1] as int, g));
                        }
                        assert(comes_after(p, r, g));
                        assert(cheaper(p, b, g));
                        assert forall|k2: int| 0 <= k2 < rb.len() implies cheaper(p, #[trigger] rb[k2] as int, g) by {
                            if k2 < k {
                                assert(rb[k2] == r[k2]);
                            }
                        }
                    }
                }
            }
        },
    }
}

proof fn lemma_selection_exists(p: Seq<Price>, start: u32, end: u32, n: nat)
    requires
        p.len() == 24,
        n <= window_len(24, start as int, end as int),
    ensures
        exists|r: Seq<u32>| #[trigger] is_cheapest_selection(p, start as int, end as int, n as int, r),
    decreases n,
{
    if n == 0 {
        assert(is_cheapest_selection(p, start as int, end as int, 0, Seq::<u32>::empty()));
    } else {
        lemma_selection_exists(p, start, end, (n - 1) as nat);
        let r = choose|r: Seq<u32>| #[trigger] is_cheapest_selection(p, start as int, end as int, n - 1, r);
        lemma_selection_extends(p, start, end, r);
        let b = choose|b: u32| #[trigger] is_cheapest_selection(p, start as int, end as int, (r.len() + 1) as int, r.push(b));
        assert(is_cheapest_selection(p, start as int, end as int, n as int, r.push(b)));
    }
}

/// The first start of `[start, stop)` with the lowest run total, found by
/// scanning the starts in order.
spec fn scan_start(p: Seq<Price>, start: int, stop: int, n: nat) -> Option<int>
    decreases stop - start,
{
    if stop <= start {
        None
    } else {
        let b = scan_start(p, start, stop - 1, n);
        let h = stop - 1;
        let best_sum = match b {
            Some(c) => window_sum(p, c, n),
            None => u32::MAX as int,
        };
        if window_sum(p, h, n) < best_sum {
            Some(h)
        } else {
            b
        }
    }
}

proof fn lemma_scan_start(p: Seq<Price>, start: int, stop: int, n: nat)
    ensures
        match scan_start(p, start, stop, n) {
            Some(c) => is_cheapest_start(p, start, stop, n, c),
            None => forall|h: int| start <= h < stop ==> window_sum(p, h, n) >= u32::MAX,
        },
    decreases stop - start,
{
    if stop > start {
        lemma_scan_start(p, start, stop - 1, n);
    }
}

/// Without `consecutive`, the chosen hours are the cheapest ones: `n`
/// distinct hours of the range, none of them dearer than any hour of the
/// range that was not chosen.
pub proof fn law_cheapest_hours_are_cheapest(p: Seq<Price>, n: u32, start: u32, end: u32)
    requires
        p.len() == 24,
        cheapest_hours_defined(p, n, false, start, end),
    ensures
        ({
            let r = cheapest_hours(p, n, false, start, end);
            &&& r.len() == n
            &&& r.no_duplicates()
            &&& forall|k: int| 0 <= k < r.len() ==> start <= #[trigger] r[k] < end && r[k] < 24
            &&& forall|k: int, h: int|
                0 <= k < r.len() && start <= h < end && 0 <= h < 24 && !r.contains(h as u32)
                    ==> key(p, #[trigger] r[k] as int) <= #[trigger] key(p, h)
        }),
{
    lemma_selection_exists(p, start, end, n as nat);
    let r = cheapest_hours(p, n, false, start, end);
    assert(is_cheapest_selection(p, start as int, end as int, n as int, r));
    assert forall|i: int, j: int| 0 <= i < r.len() && 0 <= j < r.len() && i != j implies r[i] != r[j] by {
        if i < j {
            assert(cheaper(p, r[i] as int, r[j] as int));
        } else {
            assert(cheaper(p, r[j] as int, r[i] as int));
        }
    }
    assert forall|k: int, h: int|
        0 <= k < r.len() && start <= h < end && 0 <= h < 24 && !r.contains(h as u32) implies key(
        p,
        #[trigger] r[k] as int,
    ) <= #[trigger] key(p, h) by {
        assert(in_window(p, start as int, end as int, h));
        if exists|j: int| 0 <= j < r.len() && r[j] == h {
            let j = choose|j: int| 0 <= j < r.len() && r[j] == h;
            assert(r[j] == h as u32);
        }
        assert(cheaper(p, r[k] as int, h));
    }
}

/// With `consecutive`, the chosen run is a cheapest one: when some run that
/// starts in `[start, end - n)` totals less than `u32::MAX`, the chosen run
/// starts there, no considered run is cheaper, and every earlier start is
/// dearer.
pub proof fn law_cheapest_run_is_cheapest(p: Seq<Price>, n: u32, start: u32, end: u32, h: int)
    requires
        start <= end,
        end - start >= n,
        start <= h < end - n,
        window_sum(p, h, n as nat) < u32::MAX,
    ensures
        ({
            let c = cheapest_start(p, start as int, end - n, n as nat);
            &&& cheapest_hours(p, n, true, start, end) == hour_run(c, n as int)
            &&& start <= c < end - n
            &&& forall|g: int|
                start <= g < end - n ==> window_sum(p, c, n as nat) <= #[trigger] window_sum(p, g, n as nat)
            &&& forall|g: int|
                start <= g < c ==> window_sum(p, c, n as nat) < #[trigger] window_sum(p, g, n as nat)
        }),
{
    lemma_scan_start(p, start as int, end - n, n as nat);
    match scan_start(p, start as int, end - n, n as nat) {
        Some(c) => {
            lemma_cheapest_start_unique(p, start as int, end - n, n as nat, c);
        },
        None => {
            assert(window_sum(p, h, n as nat) >= u32::MAX);
        },
    }
}

/// The hours of `[start, end)`, in order.
fn all_hours(start: u32, end: u32) -> (r: Vec<u32>)
    requires
        start <= end,
    ensures
        r@ == hour_run(start as int, end - start),
{
    let mut r: Vec<u32> = Vec::new();
    let mut hour: u32 = start;
    while hour < end
        invariant
            start <= hour <= end,
            r@ == hour_run(start as int, hour - start),
        decreases end - hour,
    {
        r.push(hour);
        hour = hour + 1;
        assert(r@ =~= hour_run(start as int, hour - start));
    }
    r
}

/// The cheapest run of `n` hours whose start lies in `[start, end - n)`.
fn cheapest_run(today: &Vec<Price>, n: u32, start: u32, end: u32) -> (r: Vec<u32>)
    requires
        start <= end,
        end - start >= n,
        cheapest_hours_defined(today@, n, true, start, end),
    ensures
        r@ == hour_run(cheapest_start(today@, start as int, end - n, n as nat), n as int),
{
    let ghost p = today@;
    let stop = end - n;
    let mut cheapest_hour: u32 = 0;
    let mut cheapest_sum: u32 = u32::MAX;
    let mut hour: u32 = start;
    while hour < stop
        invariant
            start <= hour <= stop,
            stop == end - n,
            p == today@,
            cheapest_hours_defined(p, n, true, start, end),
            cheapest_sum < u32::MAX ==> is_cheapest_start(
                p,
                start as int,
                hour as int,
                n as nat,
                cheapest_hour as int,
            ) && cheapest_sum == window_sum(p, cheapest_hour as int, n as nat),
            cheapest_sum == u32::MAX ==> cheapest_hour == 0 && forall|h: int|
                start <= h < hour ==> #[trigger] window_sum(p, h, n as nat) >= u32::MAX,
        decreases stop - hour,
    {
        assert(window_sum(p, hour as int, n as nat) <= u32::MAX);
        let mut sum: u32 = 0;
        let mut i: u32 = 0;
        while i < n
            invariant
                i <= n,
                start <= hour < stop,
                stop == end - n,
                p == today@,
                n > 0 ==> hour + n <= p.len(),
                window_sum(p, hour as int, n as nat) <= u32::MAX,
                sum == window_sum(p, hour as int, i as nat),
            decreases n - i,
        {
            proof {
                lemma_window_sum_monotonic(p, hour as int, (i + 1) as nat, n as nat);
            }
            sum = sum + today[(hour + i) as usize].micro_euros_per_kwh;
            i = i + 1;
        }
        if sum < cheapest_sum {
            cheapest_hour = hour;
            cheapest_sum = sum;
        }
        hour = hour + 1;
    }
    proof {
        if cheapest_sum < u32::MAX {
            lemma_cheapest_start_unique(p, start as int, stop as int, n as nat, cheapest_hour as int);
        } else {
            assert(!exists|c: int| is_cheapest_start(p, start as int, stop as int, n as nat, c));
        }
    }
    let mut r: Vec<u32> = Vec::new();
    let mut i: u32 = 0;
    while i < n
        invariant
            i <= n,
            cheapest_hour < stop || cheapest_hour == 0,
            stop == end - n,
            r@ == hour_run(cheapest_hour as int, i as int),
        decreases n - i,
    {
        r.push(cheapest_hour + i);
        i = i + 1;
        assert(r@ =~= hour_run(cheapest_hour as int, i as int));
    }
    r
}

/// The `n` cheapest hours of `[start, end)`, cheapest first.
fn cheapest_selection_of(today: &Vec<Price>, n: u32, start: u32, end: u32) -> (r: Vec<u32>)
    requires
        today@.len() == 24,
        n <= window_len(24, start as int, end as int),
    ensures
        is_cheapest_selection(today@, start as int, end as int, n as int, r@),
{
    let ghost p = today@;
    let hi: u32 = if end < 24 { end } else { 24 };
    let mut r: Vec<u32> = Vec::new();
    while r.len() < n as usize
        invariant
            p == today@,
            p.len() == 24,
            hi == (if end < 24 { end } else { 24 }),
            n <= window_len(24, start as int, end as int),
            r@.len() <= n,
            is_cheapest_selection(p, start as int, end as int, r@.len() as int, r@),
        decreases n - r@.len(),
    {
        let k = r.len();
        let mut found = false;
        let mut best: u32 = 0;
        let mut h: u32 = start;
        while h < hi
            invariant
                p == today@,
                p.len() == 24,
                k == r@.len(),
                is_cheapest_selection(p, start as int, end as int, k as int, r@),
                hi <= 24,
                hi == (if end < 24 { end } else { 24 }),
                start <= h,
                h <= hi || h == start,
                found ==> in_window(p, start as int, end as int, best as int) && comes_after(
                    p,
                    r@,
                    best as int,
                ),
                forall|g: int|
                    start <= g < h && g < hi && #[trigger] comes_after(p, r@, g) ==> found && (g
                        == best || cheaper(p, best as int, g)),
            decreases hi - h,
        {
            let after_last = if k == 0 {
                true
            } else {
                let last = r[k - 1];
                today[last as usize].micro_euros_per_kwh < today[h as usize].micro_euros_per_kwh
                    || (today[last as usize].micro_euros_per_kwh
                    == today[h as usize].micro_euros_per_kwh && last < h)
            };
            assert(after_last == comes_after(p, r@, h as int));
            if after_last {
                if !found || today[h as usize].micro_euros_per_kwh
                    < today[best as usize].micro_euros_per_kwh
                    || (today[h as usize].micro_euros_per_kwh
                    == today[best as usize].micro_euros_per_kwh && h < best) {
                    best = h;
                    found = true;
                }
            }
            h = h + 1;
        }
        proof {
            if !found {
                // every hour of the window is already chosen, so the window
                // holds at most k hours: impossible, since k < n
                let s = r@.map_values(|x: u32| x as int);
                let w = set_int_range(start as int, hi as int);
                assert forall|g: int| w.contains(g) implies s.to_set().contains(g) by {
                    assert(in_window(p, start as int, end as int, g));
                    assert(start <= g < h && g < hi);
                    assert(!comes_after(p, r@, g));
                    if !(exists|j: int| 0 <= j < r@.len() && r@[j] == g) {
                        assert(cheaper(p, r@[k - 1] as int, g));
                    }
                    let j = choose|j: int| 0 <= j < r@.len() && r@[j] == g;
                    assert(s[j] == g);
                    assert(s.contains(g));
                }
                s.lemma_cardinality_of_set();
                lemma_int_range(start as int, hi as int);
                lemma_len_subset(w, s.to_set());
                assert(false);
            }
        }
        let ghost old_r = r@;
        r.push(best);
        proof {
            let n1 = r@.len() as int;
            assert forall|k2: int| 0 <= k2 < r@.len() implies in_window(
                p,
                start as int,
                end as int,
                #[trigger] r@[k2] as int,
            ) by {
                if k2 < k {
                    assert(r@[k2] == old_r[k2]);
                }
            }
            assert forall|i: int, j: int|
                0 <= i < j < r@.len() implies cheaper(p, #[trigger] r@[i] as int, #[trigger] r@[j] as int) by {
                if j < k {
                    assert(r@[i] == old_r[i] && r@[j] == old_r[j]);
                } else if i < k - 1 {
                    assert(cheaper(p, old_r[i] as int, old_r[k - 1] as int));
                }
            }
            assert forall|g: int|
                #[trigger] in_window(p, start as int, end as int, g) implies (exists|j: int|
                0 <= j < r@.len() && r@[j] == g) || (forall|k2: int|
                0 <= k2 < r@.len() ==> cheaper(p, #[trigger] r@[k2] as int, g)) by {
                if exists|j: int| 0 <= j < old_r.len() && old_r[j] == g {
                    let j = choose|j: int| 0 <= j < old_r.len() && old_r[j] == g;
                    assert(r@[j] == g);
                } else if g == best {
                    assert(r@[k as int] == g);
                } else {
                    assert(forall|k2: int| 0 <= k2 < old_r.len() ==> cheaper(p, #[trigger] old_r[k2] as int, g));
                    if k > 0 {
                        assert(cheaper(p, old_r[k - 1] as int, g));
                    }
                    assert(g < hi);
                    assert(comes_after(p, old_r, g));
                    assert(cheaper(p, best as int, g));
                    assert forall|k2: int| 0 <= k2 < r@.len() implies cheaper(p, #[trigger] r@[k2] as int, g) by {
                        if k2 < k {
                            assert(r@[k2] == old_r[k2]);
                        }
                    }
                }
            }
        }
    }
    r
}

/// The hours chosen among `[start, end)` from the day's prices `today` (see
/// `cheapest_hours`).
pub fn cheapest_hours_of(hours: u32, consecutive: bool, today: &Vec<Price>, start: u32, end: u32) -> (on_hours: Vec<u32>)
    requires
        today@.len() == 24,
        cheapest_hours_defined(today@, hours, consecutive, start, end),
    ensures
        on_hours@ == cheapest_hours(today@, hours, consecutive, start, end),
        !consecutive ==> is_cheapest_selection(today@, start as int, end as int, hours as int, on_hours@),
{
    if consecutive {
        if end - start < hours {
            all_hours(start, end)
        } else {
            cheapest_run(today, hours, start, end)
        }
    } else {
        let r = cheapest_selection_of(today, hours, start, end);
        proof {
            lemma_selection_unique(today@, start as int, end as int, hours as int, r@);
        }
        r
    }
}

/// Whether the hours can be chosen among `[start, end)` from the day's prices
/// `today` (see `cheapest_hours_defined`).
pub fn cheapest_hours_defined_exec(hours: u32, consecutive: bool, today: &Vec<Price>, start: u32, end: u32) -> (r: bool)
    requires
        today@.len() == 24,
    ensures
        r == cheapest_hours_defined(today@, hours, consecutive, start, end),
{
    let ghost p = today@;
    if consecutive {
        if start > end {
            return false;
        }
        if end - start < hours || hours == 0 {
            assert(forall|h: int| #[trigger] window_sum(p, h, 0) == 0);
            return true;
        }
        let stop = end - hours;
        let mut h: u32 = start;
        while h < stop
            invariant
                p == today@,
                p.len() == 24,
                consecutive,
                hours > 0,
                start <= h <= stop,
                stop == end - hours,
                forall|g: int|
                    start <= g < h ==> g + hours <= p.len() && #[trigger] window_sum(p, g, hours as nat)
                        <= u32::MAX,
            decreases stop - h,
        {
            if h as u64 + hours as u64 > 24 {
                assert(!cheapest_hours_defined(p, hours, consecutive, start, end)) by {
                    assert(start <= h < end - hours);
                    assert(!(h + hours <= p.len()));
                    if cheapest_hours_defined(p, hours, consecutive, start, end) {
                        lemma_defined_window(p, hours, start, end, h as int);
                    }
                    assert(!((hours > 0 ==> h + hours <= p.len()) && window_sum(p, h as int, hours as nat) <= u32::MAX));
                }
                return false;
            }
            let mut sum: u64 = 0;
            let mut i: u32 = 0;
            while i < hours
                invariant
                    p == today@,
                    p.len() == 24,
                    h + hours <= 24,
                    i <= hours,
                    sum == window_sum(p, h as int, i as nat),
                    sum <= i * 0x1_0000_0000,
                decreases hours - i,
            {
                sum = sum + today[(h + i) as usize].micro_euros_per_kwh as u64;
                i = i + 1;
            }
            if sum > u32::MAX as u64 {
                assert(!cheapest_hours_defined(p, hours, consecutive, start, end)) by {
                    assert(start <= h < end - hours);
                    assert(!((hours > 0 ==> h + hours <= p.len()) && window_sum(p, h as int, hours as nat) <= u32::MAX));
                }
                return false;
            }
            h = h + 1;
        }
        true
    } else {
        let hi: u32 = if end < 24 {
            end
        } else {
            24
        };
        let w: u32 = if start < hi {
            hi - start
        } else {
            0
        };
        hours <= w
    }
}

/// The hours on which a device that must run `hours` hours is switched on,
/// chosen among the hours of `range` (all day when `None`) by today's prices.
pub fn get_cheapest_hours(
    hours: u32,
    consecutive: bool,
    prices: &Prices,
    range: Option<Range<u32>>,
) -> (on_hours: Vec<u32>)
    requires
        ({
            let (start, end) = match range {
                Some(r) => (r.start, r.end),
                None => (0u32, 24u32),
            };
            cheapest_hours_defined(prices.today_spec(), hours, consecutive, start, end)
        }),
    ensures
        ({
            let (start, end) = match range {
                Some(r) => (r.start, r.end),
                None => (0u32, 24u32),
            };
            &&& prices.today_spec().len() == 24
            &&& on_hours@ == cheapest_hours(prices.today_spec(), hours, consecutive, start, end)
            &&& !consecutive ==> is_cheapest_selection(
                prices.today_spec(),
                start as int,
                end as int,
                hours as int,
                on_hours@,
            )
        }),
{
    let (start, end) = match range {
        Some(r) => (r.start, r.end),
        None => (0u32, 24u32),
    };
    cheapest_hours_of(hours, consecutive, prices.today_prices(), start, end)
}

} // verus!
