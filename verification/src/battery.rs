//! The battery, as the kernel reports it in text files.

use vstd::prelude::*;

use crate::number::{digits_value, parse_u8, unsigned_value};
use crate::search::{first_where, lemma_is_first, lemma_none_first};
use crate::text::{same, trim, trimmed};

verus! {

/// The state of the battery.
#[derive(Clone, Copy, Debug, PartialEq, Eq, Structural)]
pub struct BatteryInfo {
    /// How full it is, in percent.
    pub capacity: u8,
    /// Whether it is charging or full.
    pub charging: bool,
}

/// A power supply: its directory, what its file `type` holds, and whether it has a file `capacity`.
pub struct PowerSupply {
    pub path: String,
    pub supply_type: Option<String>,
    pub has_capacity: bool,
}

/// Whether a power supply is a battery that reports its capacity.
pub open spec fn is_battery(supply: PowerSupply) -> bool {
    supply.has_capacity && supply.supply_type is Some && trimmed(supply.supply_type->0@)
        == "Battery"@
}

/// The directory of the first battery among the power supplies.
pub fn find_battery(supplies: &Vec<PowerSupply>) -> (r: Option<String>)
    ensures
        match first_where(supplies@, |s: PowerSupply| is_battery(s)) {
            Some(k) => r is Some && r->0@ == supplies@[k].path@,
            None => r is None,
        },
{
    let ghost p = |s: PowerSupply| is_battery(s);
    let mut i: usize = 0;
    while i < supplies.len()
        invariant
            i <= supplies@.len(),
            p == (|s: PowerSupply| is_battery(s)),
            forall|j: int| 0 <= j < i ==> !p(#[trigger] supplies@[j]),
        decreases supplies@.len() - i,
    {
        let is_one = match &supplies[i].supply_type {
            Some(kind) => supplies[i].has_capacity && same(trim(kind.as_str()).as_str(), "Battery"),
            None => false,
        };
        if is_one {
            proof {
                lemma_is_first(supplies@, p, 0, i as int);
            }
            return Some(supplies[i].path.clone());
        }
        i += 1;
    }
    proof {
        lemma_none_first(supplies@, p, 0);
    }
    None
}

/// The capacity that a text stands for: a number that fits a byte, with white space around it.
pub open spec fn capacity_of(text: Seq<char>) -> Option<int> {
    match unsigned_value(trimmed(text)) {
        Some(n) => if n <= 255 {
            Some(n)
        } else {
            None
        },
        None => None,
    }
}

/// Whether the text of a status says that the battery is charging or full.
pub open spec fn is_charging(text: Seq<char>) -> bool {
    trimmed(text) == "Charging"@ || trimmed(text) == "Full"@
}

/// The state of a battery from what its files `capacity` and `status` hold. Without a readable
/// capacity there is none; a missing status counts as not charging.
pub fn read(capacity: Option<&str>, status: Option<&str>) -> (r: Option<BatteryInfo>)
    ensures
        match r {
            Some(info) => {
                &&& capacity is Some
                &&& capacity_of(capacity->0@) == Some(info.capacity as int)
                &&& info.charging == (status is Some && is_charging(status->0@))
            },
            None => capacity is None || capacity_of(capacity->0@) is None,
        },
{
    let text = match capacity {
        Some(text) => text,
        None => {
            return None;
        },
    };
    let charging = match status {
        Some(s) => {
            let word = trim(s);
            same(word.as_str(), "Charging") || same(word.as_str(), "Full")
        },
        None => false,
    };
    match parse_u8(trim(text).as_str()) {
        Some(capacity) => Some(BatteryInfo { capacity, charging }),
        None => None,
    }
}

/// A power supply is a battery exactly if its type, without the white space around it, is `Battery` and
/// it reports a capacity.
pub proof fn law_batteries(supply: PowerSupply)
    ensures
        is_battery(supply) <==> supply.has_capacity && (supply.supply_type matches Some(kind) && trimmed(
            kind@,
        ) == "Battery"@),
{
}

/// A capacity is a number of one byte; white space around it does not count. A battery charges where its
/// status is `Charging` or `Full`, and with no other.
pub proof fn law_what_a_battery_says(text: Seq<char>)
    ensures
        match capacity_of(text) {
            Some(n) => 0 <= n <= 255 && unsigned_value(trimmed(text)) == Some(n),
            None => unsigned_value(trimmed(text)) matches Some(n) ==> n > 255,
        },
        is_charging(text) <==> trimmed(text) == "Charging"@ || trimmed(text) == "Full"@,
{
    let t = trimmed(text);
    if let Some(n) = unsigned_value(t) {
        lemma_not_negative(t);
        lemma_not_negative(t.drop_first());
    }
}

proof fn lemma_not_negative(s: Seq<char>)
    ensures
        (forall|i: int| 0 <= i < s.len() ==> '0' <= #[trigger] s[i] <= '9') ==> digits_value(s) >= 0,
    decreases s.len(),
{
    if s.len() > 0 {
        let r = s.drop_last();
        lemma_not_negative(r);
        if forall|i: int| 0 <= i < s.len() ==> '0' <= #[trigger] s[i] <= '9' {
            assert forall|i: int| 0 <= i < r.len() implies '0' <= #[trigger] r[i] <= '9' by {
                assert(r[i] == s[i]);
            }
            assert('0' <= s[s.len() - 1] <= '9');
        }
    }
}

} // verus!
