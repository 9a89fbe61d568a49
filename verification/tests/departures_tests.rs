use foamer::departures::{
    build_departures, build_route, departure_minutes, make_departure, make_direction,
    route_display_name, route_mode, select_message, Departure, MAX_MESSAGE_WIDTH,
};
use foamer::transit::{Itinerary, Route, ScheduleItem};

fn item(departure_time: u64, is_real_time: bool) -> ScheduleItem {
    ScheduleItem {
        departure_time,
        is_cancelled: false,
        is_real_time,
        scheduled_departure_time: departure_time,
        rt_trip_id: None,
        wheelchair_accessible: None,
        trip_search_key: None,
    }
}

fn route(itineraries: Vec<Itinerary>) -> Route {
    Route {
        global_route_id: "R1".to_string(),
        itineraries,
        route_long_name: "Crosstown Local".to_string(),
        route_short_name: "7".to_string(),
        route_type: 3,
        route_color: "ff0000".to_string(),
        route_text_color: "ffffff".to_string(),
        alerts: None,
        route_timezone: None,
        route_display_short_name: None,
        compact_display_short_name: None,
        route_network_name: None,
        route_network_id: None,
        tts_long_name: None,
        tts_short_name: None,
        sorting_key: None,
        mode_name: Some("bus".to_string()),
        real_time_route_id: None,
        vehicle: None,
    }
}

#[test]
fn minutes_round_down_and_clamp_at_zero() {
    assert_eq!(departure_minutes(1_600, 1_000), 10);
    assert_eq!(departure_minutes(1_059, 1_000), 0);
    assert_eq!(departure_minutes(1_060, 1_000), 1);
    assert_eq!(departure_minutes(1_000, 1_000), 0);
    assert_eq!(departure_minutes(400, 1_000), 0);
}

#[test]
fn minutes_cap_at_u16_max() {
    assert_eq!(departure_minutes(1_000 + 60 * 70_000, 1_000), u16::MAX);
}

#[test]
fn departures_more_than_99_minutes_out_are_dropped() {
    assert_eq!(make_departure(&item(1_000 + 60 * 99, false), 1_000), Some(Departure::Scheduled(99)));
    assert_eq!(make_departure(&item(1_000 + 60 * 100, false), 1_000), None);
    assert_eq!(make_departure(&item(1_000 + 60 * 5, true), 1_000), Some(Departure::RealTime(5)));
}

#[test]
fn direction_keeps_order_and_drops_distant_departures() {
    let it = Itinerary {
        direction_id: 0,
        headsign: "Downtown".to_string(),
        schedule_items: vec![
            item(1_000 + 60, true),
            item(1_000 + 60 * 100, false),
            item(1_000 + 120, false),
        ],
        direction_headsign: None,
        merged_headsign: None,
        branch_code: None,
    };
    let d = make_direction(&it, 1_000);
    assert_eq!(d.headsign, "Downtown");
    assert_eq!(d.departures, vec![Departure::RealTime(1), Departure::Scheduled(2)]);
}

#[test]
fn route_name_prefers_the_short_name() {
    assert_eq!(route_display_name(&"7".to_string(), &"Crosstown Local".to_string()), "7");
    assert_eq!(route_display_name(&"".to_string(), &"Crosstown Local".to_string()), "Crosstown Local");
}

#[test]
fn missing_mode_name_falls_back_to_the_route_type() {
    assert_eq!(route_mode(&Some("bus".to_string()), 3), "bus");
    assert_eq!(route_mode(&None, 3), "type_3");
    assert_eq!(route_mode(&None, 0), "type_0");
    assert_eq!(route_mode(&None, 42), "type_42");
    assert_eq!(route_mode(&None, 255), "type_255");
}

#[test]
fn built_route_carries_name_mode_color_and_directions() {
    let it = Itinerary {
        direction_id: 1,
        headsign: "Uptown".to_string(),
        schedule_items: vec![item(2_060, false)],
        direction_headsign: None,
        merged_headsign: None,
        branch_code: None,
    };
    let r = build_route(&route(vec![it]), 2_000);
    assert_eq!(r.name, "7");
    assert_eq!(r.mode, "bus");
    assert_eq!(r.color, "ff0000");
    assert_eq!(r.directions.len(), 1);
    assert_eq!(r.directions[0].headsign, "Uptown");
    assert_eq!(r.directions[0].departures, vec![Departure::Scheduled(1)]);
}

#[test]
fn no_stored_messages_means_no_display_message() {
    assert_eq!(select_message(&Vec::new(), MAX_MESSAGE_WIDTH), None);
    let d = build_departures(&vec![route(Vec::new())], &Vec::new(), 1_000);
    assert_eq!(d.routes.len(), 1);
    assert!(d.message.is_none());
}

#[test]
fn the_single_stored_message_comes_back_wrapped() {
    let msgs = vec!["This is a multiline string".to_string()];
    let d = build_departures(&Vec::new(), &msgs, 1_000);
    assert_eq!(
        d.message,
        Some(vec!["This is a".to_string(), "multiline string".to_string()])
    );
}

#[test]
fn a_chosen_message_is_always_one_of_the_stored_ones() {
    let msgs = vec!["alpha".to_string(), "beta".to_string(), "gamma".to_string()];
    for _ in 0..20 {
        let got = select_message(&msgs, MAX_MESSAGE_WIDTH).expect("some message");
        assert_eq!(got.len(), 1);
        assert!(msgs.contains(&got[0]));
    }
}
