//! Builds the display-ready departure board from transit records: route
//! names and modes, per-direction departure minutes, and an optional
//! stored message reflowed to the display width.

use vstd::prelude::*;
use crate::fmt::{lines, string_of_chars, string_views, wrap_lines};
use crate::transit::{Itinerary, Route as TransitRoute, ScheduleItem};

verus! {

/// Default search radius around the queried coordinates, in meters.
pub const DEFAULT_DISTANCE: u32 = 500;

/// Width of the display that stored messages are reflowed for, in
/// codepoints per line.
pub const MAX_MESSAGE_WIDTH: usize = 16;

/// A single departure, in minutes from now, either scheduled or live.
#[derive(Debug, Clone, PartialEq, Eq, Structural)]
pub enum Departure {
    Scheduled(u16),
    RealTime(u16),
}

/// One direction of travel of a route, with its coming departures.
#[derive(Debug, Clone)]
pub struct Direction {
    pub headsign: String,
    pub departures: Vec<Departure>,
}

/// A route of the departure board.
#[derive(Debug, Clone)]
pub struct Route {
    pub name: String,
    pub mode: String,
    pub color: String,
    pub directions: Vec<Direction>,
}

/// The whole departure board: the nearby routes and, when any message is
/// stored, one of them reflowed for the display.
#[derive(Debug, Clone)]
pub struct Departures {
    pub routes: Vec<Route>,
    pub message: Option<Vec<String>>,
}

/// Whole minutes from `now` until `departure_time` (both in seconds),
/// zero for departures already past, and capped at `u16::MAX`.
pub open spec fn spec_departure_minutes(departure_time: u64, now: u64) -> u16 {
    if departure_time > now {
        if (departure_time - now) / 60 < 65535 {
            (((departure_time - now) / 60) as u16)
        } else {
            65535u16
        }
    } else {
        0u16
    }
}

pub fn departure_minutes(departure_time: u64, now: u64) -> (m: u16)
    ensures
        m == spec_departure_minutes(departure_time, now),
{
    if departure_time > now {
        let mins = (departure_time - now) / 60;
        if mins < 65535 {
            mins as u16
        } else {
            65535
        }
    } else {
        0
    }
}

/// The board entry for one scheduled departure: its minutes from now,
/// marked live or scheduled, and dropped entirely when more than 99
/// minutes away.
pub open spec fn spec_departure(item: ScheduleItem, now: u64) -> Option<Departure> {
    let m = spec_departure_minutes(item.departure_time, now);
    if m > 99 {
        None
    } else if item.is_real_time {
        Some(Departure::RealTime(m))
    } else {
        Some(Departure::Scheduled(m))
    }
}

pub fn make_departure(item: &ScheduleItem, now: u64) -> (d: Option<Departure>)
    ensures
        d == spec_departure(*item, now),
{
    let m = departure_minutes(item.departure_time, now);
    if m > 99 {
        None
    } else if item.is_real_time {
        Some(Departure::RealTime(m))
    } else {
        Some(Departure::Scheduled(m))
    }
}

/// The board entries for a list of scheduled departures, in order, with
/// the too-distant ones dropped.
pub open spec fn spec_departure_list(items: Seq<ScheduleItem>, now: u64) -> Seq<Departure>
    decreases items.len(),
{
    if items.len() == 0 {
        Seq::empty()
    } else {
        let prefix = spec_departure_list(items.drop_last(), now);
        match spec_departure(items.last(), now) {
            Some(d) => prefix.push(d),
            None => prefix,
        }
    }
}

pub open spec fn direction_matches(d: Direction, itinerary: Itinerary, now: u64) -> bool {
    d.headsign == itinerary.headsign && d.departures@ == spec_departure_list(
        itinerary.schedule_items@,
        now,
    )
}

pub fn make_direction(itinerary: &Itinerary, now: u64) -> (d: Direction)
    ensures
        direction_matches(d, *itinerary, now),
{
    let items = &itinerary.schedule_items;
    let mut departures: Vec<Departure> = Vec::new();
    let mut i: usize = 0;
    proof {
        assert(items@.take(0) =~= Seq::<ScheduleItem>::empty());
    }
    while i < items.len()
        invariant
            i <= items@.len(),
            departures@ == spec_departure_list(items@.take(i as int), now),
        decreases items@.len() - i,
    {
        proof {
            assert(items@.take(i as int + 1).drop_last() =~= items@.take(i as int));
            assert(items@.take(i as int + 1).last() == items@[i as int]);
        }
        match make_departure(&items[i], now) {
            Some(d) => departures.push(d),
            None => (),
        }
        i = i + 1;
    }
    proof {
        assert(items@.take(items@.len() as int) =~= items@);
    }
    Direction { headsign: itinerary.headsign.clone(), departures }
}

pub open spec fn digit_char(d: int) -> char {
    if d == 0 {
        '0'
    } else if d == 1 {
        '1'
    } else if d == 2 {
        '2'
    } else if d == 3 {
        '3'
    } else if d == 4 {
        '4'
    } else if d == 5 {
        '5'
    } else if d == 6 {
        '6'
    } else if d == 7 {
        '7'
    } else if d == 8 {
        '8'
    } else {
        '9'
    }
}

fn digit_char_exec(d: u8) -> (c: char)
    requires
        d < 10,
    ensures
        c == digit_char(d as int),
{
    if d == 0 {
        '0'
    } else if d == 1 {
        '1'
    } else if d == 2 {
        '2'
    } else if d == 3 {
        '3'
    } else if d == 4 {
        '4'
    } else if d == 5 {
        '5'
    } else if d == 6 {
        '6'
    } else if d == 7 {
        '7'
    } else if d == 8 {
        '8'
    } else {
        '9'
    }
}

/// The decimal digits of `n`, most significant first.
pub open spec fn decimal_chars(n: int) -> Seq<char>
    decreases n,
{
    if n < 10 {
        seq![digit_char(n)]
    } else {
        decimal_chars(n / 10).push(digit_char(n % 10))
    }
}

fn push_decimal_u8(v: &mut Vec<char>, n: u8)
    ensures
        final(v)@ == old(v)@ + decimal_chars(n as int),
{
    if n < 10 {
        v.push(digit_char_exec(n));
        proof {
            assert(v@ =~= old(v)@ + decimal_chars(n as int));
        }
    } else if n < 100 {
        v.push(digit_char_exec(n / 10));
        v.push(digit_char_exec(n % 10));
        proof {
            reveal_with_fuel(decimal_chars, 2);
            assert(decimal_chars(n as int) == seq![digit_char(n as int / 10)].push(
                digit_char(n as int % 10),
            ));
            assert(v@ =~= old(v)@ + decimal_chars(n as int));
        }
    } else {
        v.push(digit_char_exec(n / 100));
        v.push(digit_char_exec((n / 10) % 10));
        v.push(digit_char_exec(n % 10));
        proof {
            reveal_with_fuel(decimal_chars, 3);
            assert(n as int / 10 / 10 == n as int / 100);
            assert(decimal_chars(n as int) == seq![digit_char(n as int / 100)].push(
                digit_char((n as int / 10) % 10),
            ).push(digit_char(n as int % 10)));
            assert(v@ =~= old(v)@ + decimal_chars(n as int));
        }
    }
}

/// The fallback mode label, `type_` followed by the numeric route type.
pub open spec fn mode_prefix() -> Seq<char> {
    seq!['t', 'y', 'p', 'e', '_']
}

/// The mode shown for a route: its mode name when the feed gives one,
/// else `type_` followed by the numeric route type.
pub open spec fn spec_route_mode(mode_name: Option<String>, route_type: u8) -> Seq<char> {
    match mode_name {
        Some(m) => m@,
        None => mode_prefix() + decimal_chars(route_type as int),
    }
}

pub fn route_mode(mode_name: &Option<String>, route_type: u8) -> (r: String)
    ensures
        r@ == spec_route_mode(*mode_name, route_type),
{
    match mode_name {
        Some(m) => m.clone(),
        None => {
            let mut v: Vec<char> = Vec::new();
            v.push('t');
            v.push('y');
            v.push('p');
            v.push('e');
            v.push('_');
            proof {
                assert(v@ =~= mode_prefix());
            }
            push_decimal_u8(&mut v, route_type);
            string_of_chars(&v)
        },
    }
}

/// The name shown for a route: the short name when it is non-empty, else
/// the long name.
pub open spec fn spec_route_name(short_name: String, long_name: String) -> Seq<char> {
    if short_name@.len() > 0 {
        short_name@
    } else {
        long_name@
    }
}

pub fn route_display_name(short_name: &String, long_name: &String) -> (r: String)
    ensures
        r@ == spec_route_name(*short_name, *long_name),
{
    if !short_name.as_str().is_empty() {
        short_name.clone()
    } else {
        long_name.clone()
    }
}

pub open spec fn route_matches(r: Route, t: TransitRoute, now: u64) -> bool {
    &&& r.name@ == spec_route_name(t.route_short_name, t.route_long_name)
    &&& r.mode@ == spec_route_mode(t.mode_name, t.route_type)
    &&& r.color == t.route_color
    &&& r.directions@.len() == t.itineraries@.len()
    &&& forall|i: int|
        0 <= i < t.itineraries@.len() ==> direction_matches(
            #[trigger] r.directions@[i],
            t.itineraries@[i],
            now,
        )
}

pub fn build_route(route: &TransitRoute, now: u64) -> (r: Route)
    ensures
        route_matches(r, *route, now),
{
    let mut directions: Vec<Direction> = Vec::new();
    let mut i: usize = 0;
    while i < route.itineraries.len()
        invariant
            i <= route.itineraries@.len(),
            directions@.len() == i,
            forall|k: int|
                0 <= k < i as int ==> direction_matches(
                    #[trigger] directions@[k],
                    route.itineraries@[k],
                    now,
                ),
        decreases route.itineraries@.len() - i,
    {
        let d = make_direction(&route.itineraries[i], now);
        directions.push(d);
        i = i + 1;
    }
    Route {
        name: route_display_name(&route.route_short_name, &route.route_long_name),
        mode: route_mode(&route.mode_name, route.route_type),
        color: route.route_color.clone(),
        directions,
    }
}

/// Relies on rand's `Rng::gen_range` over `0..len`: it returns a value of
/// the range, and panics only on an empty range, which the precondition
/// rules out.
#[verifier::external_body]
fn random_index(len: usize) -> (r: usize)
    requires
        len >= 1,
    ensures
        r < len,
{
    rand::Rng::gen_range(&mut rand::thread_rng(), 0..len)
}

/// Picks one of the stored messages at random — when there is any — and
/// reflows it to `max_width`-codepoint lines for the display.
pub fn select_message(messages: &Vec<String>, max_width: usize) -> (r: Option<Vec<String>>)
    requires
        max_width >= 1,
    ensures
        (r is Some) <==> messages@.len() > 0,
        r matches Some(ls) ==> exists|i: int|
            0 <= i < messages@.len() && string_views(ls@) == wrap_lines(
                (#[trigger] messages@[i])@,
                max_width as nat,
            ),
{
    if messages.len() == 0 {
        None
    } else {
        let i = random_index(messages.len());
        let ls = lines(messages[i].clone(), max_width);
        proof {
            assert(string_views(ls@) == wrap_lines(messages@[i as int]@, max_width as nat));
        }
        Some(ls)
    }
}

/// Assembles the departure board: every transit route mapped to its
/// display form, and a randomly chosen stored message — when any exists —
/// reflowed to the display width.
pub fn build_departures(routes: &Vec<TransitRoute>, messages: &Vec<String>, now: u64) -> (d:
    Departures)
    ensures
        d.routes@.len() == routes@.len(),
        forall|i: int|
            0 <= i < routes@.len() ==> route_matches(#[trigger] d.routes@[i], routes@[i], now),
        (d.message is Some) <==> messages@.len() > 0,
        d.message matches Some(ls) ==> exists|i: int|
            0 <= i < messages@.len() && string_views(ls@) == wrap_lines(
                (#[trigger] messages@[i])@,
                MAX_MESSAGE_WIDTH as nat,
            ),
{
    let mut out: Vec<Route> = Vec::new();
    let mut i: usize = 0;
    while i < routes.len()
        invariant
            i <= routes@.len(),
            out@.len() == i,
            forall|k: int|
                0 <= k < i as int ==> route_matches(#[trigger] out@[k], routes@[k], now),
        decreases routes@.len() - i,
    {
        let r = build_route(&routes[i], now);
        out.push(r);
        i = i + 1;
    }
    let message = select_message(messages, MAX_MESSAGE_WIDTH);
    Departures { routes: out, message }
}

} // verus!
