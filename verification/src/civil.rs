use vstd::prelude::*;

verus! {

/// Largest epoch second the calendar functions accept:
/// the last second of year 9999 UTC.
pub const MAX_CALENDAR_EPOCH: u64 = 253402300799;

/// Whether `y` is a leap year in the proleptic Gregorian calendar.
pub open spec fn spec_is_leap(y: nat) -> bool {
    y % 4 == 0 && (y % 100 != 0 || y % 400 == 0)
}

/// Days in month `m` (1-based) of year `y`.
pub open spec fn spec_days_in_month(y: nat, m: nat) -> nat {
    if m == 2 {
        if spec_is_leap(y) { 29 } else { 28 }
    } else if m == 4 || m == 6 || m == 9 || m == 11 {
        30
    } else {
        31
    }
}

/// Year of the calendar month `k` months after January 1970.
pub open spec fn spec_year_of_index(k: nat) -> nat {
    1970 + k / 12
}

/// Month (1-based) of the calendar month `k` months after January 1970.
pub open spec fn spec_month_of_index(k: nat) -> nat {
    1 + k % 12
}

/// Days from the epoch to the first day of the calendar month `k` months
/// after January 1970.
pub open spec fn spec_month_start_days(k: nat) -> nat
    decreases k,
{
    if k == 0 {
        0
    } else {
        spec_month_start_days((k - 1) as nat)
            + spec_days_in_month(spec_year_of_index((k - 1) as nat), spec_month_of_index((k - 1) as nat))
    }
}

/// Whether epoch second `t` falls inside calendar month `k`.
pub open spec fn spec_in_month(t: u64, k: nat) -> bool {
    spec_month_start_days(k) <= t as nat / 86400 < spec_month_start_days(k + 1)
}

/// Every month has between 28 and 31 days.
pub proof fn lemma_days_in_month_bounds(y: nat, m: nat)
    ensures
        28 <= spec_days_in_month(y, m) <= 31,
{
}

/// Month starts increase strictly with the month index.
pub proof fn lemma_month_start_increases(k1: nat, k2: nat)
    requires
        k1 <= k2,
    ensures
        spec_month_start_days(k1) <= spec_month_start_days(k2),
        k1 < k2 ==> spec_month_start_days(k1) < spec_month_start_days(k2),
    decreases k2,
{
    if k1 < k2 {
        lemma_month_start_increases(k1, (k2 - 1) as nat);
    }
}

/// The index of the calendar month `t` lies in.
pub open spec fn spec_month_of(t: u64) -> nat {
    choose|k: nat| spec_in_month(t, k)
}

/// Any month `t` lies in is the month of `t`.
pub proof fn lemma_month_of(t: u64, k: nat)
    requires
        spec_in_month(t, k),
    ensures
        spec_month_of(t) == k,
{
    assert(spec_in_month(t, spec_month_of(t))) by {
        assert(exists|k2: nat| spec_in_month(t, k2));
    };
    lemma_month_unique(t, k, spec_month_of(t));
}

/// A second can lie in only one calendar month.
pub proof fn lemma_month_unique(t: u64, k1: nat, k2: nat)
    requires
        spec_in_month(t, k1),
        spec_in_month(t, k2),
    ensures
        k1 == k2,
{
    if k1 < k2 {
        lemma_month_start_increases(k1 + 1, k2);
        assert(false);
    }
    if k2 < k1 {
        lemma_month_start_increases(k2 + 1, k1);
        assert(false);
    }
}

/// Whether `y` is a leap year.
pub fn is_leap_year(y: u64) -> (r: bool)
    ensures
        r == spec_is_leap(y as nat),
{
    y % 4 == 0 && (y % 100 != 0 || y % 400 == 0)
}

/// Days in the calendar month `k` months after January 1970.
fn days_in_month_index(k: u64) -> (d: u64)
    requires
        k <= u64::MAX - 23640,
    ensures
        d == spec_days_in_month(spec_year_of_index(k as nat), spec_month_of_index(k as nat)),
{
    let y: u64 = 1970 + k / 12;
    let m: u64 = 1 + k % 12;
    if m == 2 {
        if is_leap_year(y) { 29 } else { 28 }
    } else if m == 4 || m == 6 || m == 9 || m == 11 {
        30
    } else {
        31
    }
}

/// Month index of epoch second `t` together with the day offset inside
/// that month: `start(k) + rem == t / 86400` and `rem` is below the month's
/// length.
fn month_cursor(t: u64) -> (r: (u64, u64))
    requires
        t <= MAX_CALENDAR_EPOCH,
    ensures
        spec_month_start_days(r.0 as nat) + r.1 == t as nat / 86400,
        r.1 < spec_days_in_month(spec_year_of_index(r.0 as nat), spec_month_of_index(r.0 as nat)),
        r.0 < 104747,
{
    let days: u64 = t / 86400;
    proof {
        assert(days < 2932897) by (nonlinear_arith)
            requires days == t / 86400, t <= 253402300799u64;
    }
    let mut k: u64 = 0;
    let mut rem: u64 = days;
    let mut dim: u64 = days_in_month_index(k);
    while rem >= dim
        invariant
            spec_month_start_days(k as nat) + rem == days,
            dim == spec_days_in_month(spec_year_of_index(k as nat), spec_month_of_index(k as nat)),
            days < 2932897,
            k < 104747,
        decreases rem,
    {
        proof {
            lemma_month_start_low_bound((k + 1) as nat);
            assert(spec_month_start_days((k + 1) as nat)
                == spec_month_start_days(k as nat)
                    + spec_days_in_month(spec_year_of_index(k as nat), spec_month_of_index(k as nat)));
        }
        rem = rem - dim;
        k = k + 1;
        proof {
            lemma_days_in_month_bounds(spec_year_of_index((k - 1) as nat), spec_month_of_index((k - 1) as nat));
        }
        dim = days_in_month_index(k);
    }
    proof {
        lemma_month_start_low_bound(k as nat);
        assert(28 * k as nat <= spec_month_start_days(k as nat));
    }
    (k, rem)
}

/// The calendar month of epoch second `t`: its index since January 1970,
/// its year, and its 1-based month.
pub fn month_of_epoch(t: u64) -> (r: (u64, u64, u64))
    requires
        t <= MAX_CALENDAR_EPOCH,
    ensures
        spec_in_month(t, r.0 as nat),
        r.0 == spec_month_of(t),
        r.1 == spec_year_of_index(r.0 as nat),
        r.2 == spec_month_of_index(r.0 as nat),
{
    let (k, _rem) = month_cursor(t);
    proof {
        assert(spec_month_start_days((k + 1) as nat)
            == spec_month_start_days(k as nat)
                + spec_days_in_month(spec_year_of_index(k as nat), spec_month_of_index(k as nat)));
        lemma_month_of(t, k as nat);
    }
    proof {
        assert(spec_month_start_days((k + 1) as nat)
            == spec_month_start_days(k as nat)
                + spec_days_in_month(spec_year_of_index(k as nat), spec_month_of_index(k as nat)));
    }
    let y: u64 = 1970 + k / 12;
    let m: u64 = 1 + k % 12;
    (k, y, m)
}

/// Months of at least 28 days each accumulate at least 28 days apiece.
pub proof fn lemma_month_start_low_bound(k: nat)
    ensures
        spec_month_start_days(k) >= 28 * k,
    decreases k,
{
    if k > 0 {
        lemma_month_start_low_bound((k - 1) as nat);
        lemma_days_in_month_bounds(spec_year_of_index((k - 1) as nat), spec_month_of_index((k - 1) as nat));
    }
}

/// First epoch second of the calendar month after the one `now` lies in:
/// the moment the monthly quota window rolls over.
pub fn quota_reset_epoch(now: u64) -> (r: u64)
    requires
        now <= MAX_CALENDAR_EPOCH,
    ensures
        r == spec_month_start_days(spec_month_of(now) + 1) * 86400,
        spec_in_month(now, spec_month_of(now)),
        r > now,
        r <= now + 31 * 86400,
{
    let (k, rem) = month_cursor(now);
    proof {
        assert(spec_month_start_days((k + 1) as nat)
            == spec_month_start_days(k as nat)
                + spec_days_in_month(spec_year_of_index(k as nat), spec_month_of_index(k as nat)));
        assert(spec_in_month(now, k as nat));
        lemma_month_of(now, k as nat);
    }
    let days: u64 = now / 86400;
    let dim: u64 = days_in_month_index(k);
    proof {
        assert(spec_month_start_days((k + 1) as nat)
            == spec_month_start_days(k as nat)
                + spec_days_in_month(spec_year_of_index(k as nat), spec_month_of_index(k as nat)));
        lemma_days_in_month_bounds(spec_year_of_index(k as nat), spec_month_of_index(k as nat));
        assert(days < 2932897) by (nonlinear_arith)
            requires days == now / 86400, now <= 253402300799u64;
    }
    let next_start: u64 = days - rem + dim;
    let r: u64 = next_start * 86400;
    proof {
        assert(spec_in_month(now, k as nat));
        assert(r == spec_month_start_days((k + 1) as nat) * 86400);
        assert(now < next_start * 86400 && next_start * 86400 <= now + 31 * 86400)
            by (nonlinear_arith)
            requires
                days == now / 86400,
                next_start >= days + 1,
                next_start <= days + 31,
                next_start < 3000000u64,
        ;
    }
    r
}

/// The month that begins at the quota reset instant lies strictly after the
/// month the reset was computed from: once the reset second is reached, the
/// counter key belongs to a later month.
pub proof fn lemma_reset_starts_new_month(now: u64, k: nat, r: u64, t2: u64, k2: nat)
    requires
        spec_in_month(now, k),
        r == spec_month_start_days(k + 1) * 86400,
        t2 >= r,
        spec_in_month(t2, k2),
    ensures
        k2 > k,
{
    assert(t2 as nat / 86400 >= spec_month_start_days(k + 1)) by (nonlinear_arith)
        requires t2 >= spec_month_start_days(k + 1) * 86400;
    assert(spec_month_start_days(k2 + 1) > spec_month_start_days(k + 1));
    if k2 + 1 <= k + 1 {
        lemma_month_start_increases(k2 + 1, k + 1);
        assert(false);
    }
}

} // verus!
