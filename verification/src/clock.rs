//! The time of day as text.

use vstd::prelude::*;

use crate::number::{decimal, decimal_text, law_digits_are_written_in_order};

verus! {

/// A number with at least two places, filled up with a zero.
pub open spec fn two_places(n: int) -> Seq<char> {
    if n < 0 {
        "-"@ + decimal_text((-n) as nat)
    } else if n < 10 {
        "0"@ + decimal_text(n as nat)
    } else {
        decimal_text(n as nat)
    }
}

fn padded(n: i32) -> (r: String)
    ensures
        r@ == two_places(n as int),
{
    if n < 0 {
        let mut r = "-".to_owned();
        let magnitude: u64 = (-(n as i64)) as u64;
        r.append(decimal(magnitude).as_str());
        r
    } else if n < 10 {
        let mut r = "0".to_owned();
        r.append(decimal(n as u64).as_str());
        r
    } else {
        decimal(n as u64)
    }
}

/// The time of day: hour and minute with two places each.
pub fn now(hour: i32, minute: i32) -> (r: String)
    ensures
        r@ == two_places(hour as int) + ":"@ + two_places(minute as int),
{
    let mut r = padded(hour);
    r.append(":");
    r.append(padded(minute).as_str());
    r
}

/// The text of a time of day has five characters, so that it keeps its width through the day.
pub proof fn law_time_keeps_its_width(hour: int, minute: int)
    requires
        0 <= hour < 24,
        0 <= minute < 60,
    ensures
        (two_places(hour) + ":"@ + two_places(minute)).len() == 5,
{
    reveal_strlit("0");
    reveal_strlit(":");
    lemma_two_places(hour);
    lemma_two_places(minute);
}

proof fn lemma_two_places(n: int)
    requires
        0 <= n < 100,
    ensures
        two_places(n).len() == 2,
{
    reveal_strlit("0");
    reveal_with_fuel(crate::number::digits, 3);
}

/// The time is written as two places for the hour, a colon and two places for the minute.
pub proof fn law_time_is_written_in_places(hour: int, minute: int)
    requires
        0 <= hour < 24,
        0 <= minute < 60,
    ensures
        two_places(hour) + ":"@ + two_places(minute) == seq![
            ('0' as int + hour / 10) as char,
            ('0' as int + hour % 10) as char,
            ':',
            ('0' as int + minute / 10) as char,
            ('0' as int + minute % 10) as char,
        ],
{
    reveal_strlit("0");
    reveal_strlit(":");
    law_digits_are_written_in_order(hour as nat);
    law_digits_are_written_in_order(minute as nat);
    law_digits_are_written_in_order((hour / 10) as nat);
    law_digits_are_written_in_order((minute / 10) as nat);
    law_digits_are_written_in_order((hour % 10) as nat);
    law_digits_are_written_in_order((minute % 10) as nat);
    assert(two_places(hour) =~= seq![
        ('0' as int + hour / 10) as char,
        ('0' as int + hour % 10) as char,
    ]);
    assert(two_places(minute) =~= seq![
        ('0' as int + minute / 10) as char,
        ('0' as int + minute % 10) as char,
    ]);
    assert(two_places(hour) + ":"@ + two_places(minute) =~= seq![
        ('0' as int + hour / 10) as char,
        ('0' as int + hour % 10) as char,
        ':',
        ('0' as int + minute / 10) as char,
        ('0' as int + minute % 10) as char,
    ]);
}

} // verus!
