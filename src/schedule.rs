//! Decisions of the bus-arrival display: when to fetch predictions again,
//! what to show meanwhile, and when the sign sleeps.

use vstd::prelude::*;

verus! {

/// Hour of day from which the sign switches off for the night.
pub const NIGHT_HOUR: u8 = 19;

/// Shortest wait, in seconds, before predictions are fetched again.
pub const MIN_REFETCH_SECS: u64 = 60;

/// A bus route shown on the sign.
#[derive(Clone, Copy, Debug, PartialEq, Eq, Structural)]
pub enum Route {
    EightySeven,
    EightyEight,
}

pub open spec fn route_number(r: Route) -> u8 {
    match r {
        Route::EightySeven => 87,
        Route::EightyEight => 88,
    }
}

impl From<Route> for u8 {
    fn from(val: Route) -> (r: u8)
        ensures
            r == route_number(val),
    {
        match val {
            Route::EightySeven => 87,
            Route::EightyEight => 88,
        }
    }
}

impl vstd::std_specs::convert::FromSpecImpl<Route> for u8 {
    open spec fn obeys_from_spec() -> bool {
        true
    }

    open spec fn from_spec(v: Route) -> u8 {
        route_number(v)
    }
}

/// `a - b`, or zero when `b` is later.
pub open spec fn secs_until(a: u64, b: u64) -> nat {
    if a >= b {
        (a - b) as nat
    } else {
        0
    }
}

/// When to fetch again, in seconds: after half the time left until the bus,
/// but at least a minute from `now_secs`, saturating at the largest value.
pub open spec fn refetch_at_spec(now_secs: u64, bus_secs: u64) -> nat {
    let half = secs_until(bus_secs, now_secs) / 2;
    let wait = if half >= MIN_REFETCH_SECS {
        half
    } else {
        MIN_REFETCH_SECS as nat
    };
    if now_secs + wait <= u64::MAX {
        (now_secs + wait) as nat
    } else {
        u64::MAX as nat
    }
}

pub fn refetch_at(now_secs: u64, bus_secs: u64) -> (r: u64)
    ensures
        r == refetch_at_spec(now_secs, bus_secs),
{
    let until = if bus_secs >= now_secs {
        bus_secs - now_secs
    } else {
        0
    };
    let half = until / 2;
    let wait = if half >= MIN_REFETCH_SECS {
        half
    } else {
        MIN_REFETCH_SECS
    };
    if now_secs <= u64::MAX - wait {
        now_secs + wait
    } else {
        u64::MAX
    }
}

/// What the sign does on one tick of its update loop.
#[derive(Clone, Copy, Debug, PartialEq, Eq, Structural)]
pub enum SignAction {
    /// Switch the display off for the night.
    Sleep,
    /// Fetch new predictions.
    Refetch,
    /// Show the minutes left until the bus.
    ShowMinutes(u8),
}

pub open spec fn action_spec(hour: u8, now_secs: u64, next_fetch_secs: u64, bus_secs: u64) -> SignAction {
    if hour >= NIGHT_HOUR {
        SignAction::Sleep
    } else if now_secs > next_fetch_secs {
        SignAction::Refetch
    } else {
        SignAction::ShowMinutes(((secs_until(bus_secs, now_secs) / 60) % 256) as u8)
    }
}

/// The action for the current `hour` and time `now_secs`, given when to fetch
/// again and when the bus arrives. The minutes shown wrap modulo 256.
pub fn next_action(hour: u8, now_secs: u64, next_fetch_secs: u64, bus_secs: u64) -> (r: SignAction)
    ensures
        r == action_spec(hour, now_secs, next_fetch_secs, bus_secs),
{
    if hour >= NIGHT_HOUR {
        SignAction::Sleep
    } else if now_secs > next_fetch_secs {
        SignAction::Refetch
    } else {
        let until = if bus_secs >= now_secs {
            bus_secs - now_secs
        } else {
            0
        };
        SignAction::ShowMinutes(((until / 60) % 256) as u8)
    }
}

/// Column at which the minutes are drawn: two-digit values start further left.
pub fn minutes_column(value: u8) -> (r: i32)
    ensures
        r == (if value > 9 {
            32i32
        } else {
            36i32
        }),
{
    if value > 9 {
        32
    } else {
        36
    }
}

/// Top row of the area where a route's minutes are drawn, and the text
/// baseline within it: the first route on the upper line, the second below.
pub open spec fn minutes_area_spec(route: Route) -> (i32, i32) {
    match route {
        Route::EightySeven => (0, 4),
        Route::EightyEight => (6, 10),
    }
}

pub fn minutes_area(route: Route) -> (r: (i32, i32))
    ensures
        r == minutes_area_spec(route),
{
    match route {
        Route::EightySeven => (0, 4),
        Route::EightyEight => (6, 10),
    }
}

} // verus!
