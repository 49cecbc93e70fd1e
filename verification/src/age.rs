//! Human-readable session age, for the end-of-session log marker.

use crate::text::{decimal, push_decimal};
use vstd::prelude::*;
use vstd::string::*;

verus! {

/// Whole days in a number of seconds.
pub open spec fn days(total: nat) -> nat {
    total / 86400
}

/// Whole hours beyond the days.
pub open spec fn hours(total: nat) -> nat {
    total % 86400 / 3600
}

/// Whole minutes beyond the hours.
pub open spec fn minutes(total: nat) -> nat {
    total % 3600 / 60
}

/// Seconds beyond the minutes.
pub open spec fn seconds(total: nat) -> nat {
    total % 60
}

/// The age as text: days, hours, minutes and seconds, without the leading
/// units that are zero.
pub open spec fn age_text(total: nat) -> Seq<char> {
    let s = decimal(seconds(total)) + "s"@;
    let ms = decimal(minutes(total)) + "m "@ + s;
    let hms = decimal(hours(total)) + "h "@ + ms;
    if days(total) > 0 {
        decimal(days(total)) + "d "@ + hms
    } else if hours(total) > 0 {
        hms
    } else if minutes(total) > 0 {
        ms
    } else {
        s
    }
}

/// Formats a duration in whole seconds, such as `"1d 2h 3m 4s"`, `"2h 3m 4s"`,
/// `"3m 4s"` or `"5s"`.
pub fn format_age(total_secs: u64) -> (r: String)
    ensures
        r@ == age_text(total_secs as nat),
{
    let d: u64 = total_secs / 86400;
    let h: u64 = (total_secs % 86400) / 3600;
    let m: u64 = (total_secs % 3600) / 60;
    let s: u64 = total_secs % 60;
    let mut r = String::new();
    if d > 0 {
        push_decimal(&mut r, d);
        r.append("d ");
    }
    if d > 0 || h > 0 {
        push_decimal(&mut r, h);
        r.append("h ");
    }
    if d > 0 || h > 0 || m > 0 {
        push_decimal(&mut r, m);
        r.append("m ");
    }
    push_decimal(&mut r, s);
    r.append("s");
    assert(r@ =~= age_text(total_secs as nat));
    r
}

/// The units that are shown add up to the duration, and each is below the
/// next larger one.
pub proof fn law_age_units_add_up(total: nat)
    ensures
        days(total) * 86400 + hours(total) * 3600 + minutes(total) * 60 + seconds(total) == total,
        hours(total) < 24,
        minutes(total) < 60,
        seconds(total) < 60,
{
}

/// A duration of so many days, hours, minutes and seconds is shown with those
/// numbers, from the first that is not zero on; the seconds are always there.
pub proof fn law_age_shows_its_units(
    total_secs: u64,
    r: String,
    d: nat,
    h: nat,
    m: nat,
    s: nat,
)
    requires
        call_ensures(format_age, (total_secs,), r),
        total_secs == d * 86400 + h * 3600 + m * 60 + s,
        h < 24,
        m < 60,
        s < 60,
    ensures
        d > 0 ==> r@ == decimal(d) + "d "@ + (decimal(h) + "h "@ + (decimal(m) + "m "@ + (decimal(s)
            + "s"@))),
        d == 0 && h > 0 ==> r@ == decimal(h) + "h "@ + (decimal(m) + "m "@ + (decimal(s) + "s"@)),
        d == 0 && h == 0 && m > 0 ==> r@ == decimal(m) + "m "@ + (decimal(s) + "s"@),
        d == 0 && h == 0 && m == 0 ==> r@ == decimal(s) + "s"@,
{
    let total = total_secs as nat;
    assert(days(total) == d);
    assert(hours(total) == h);
    assert(minutes(total) == m);
    assert(seconds(total) == s);
}

} // verus!
