//! Plain records for the transit data that the departures logic reads:
//! routes, their itineraries, and scheduled departures. Geographic fields
//! that the logic never reads (stop coordinates, fare prices) are left to
//! the callers that do the fetching.

use vstd::prelude::*;

verus! {

#[derive(Debug, Clone)]
pub struct ParentStation {
    pub city_name: String,
    pub global_stop_id: String,
    pub location_type: u8,
    pub rt_stop_id: String,
    pub station_code: String,
    pub station_name: String,
}

#[derive(Debug, Clone)]
pub struct DisplayShortName {
    pub elements: Vec<Option<String>>,
    pub route_name_redundancy: bool,
    pub boxed_text: String,
}

#[derive(Debug, Clone)]
pub struct Vehicle {
    pub name: Option<String>,
    pub name_inflection: Option<String>,
    pub image: Option<String>,
}

#[derive(Debug, Clone)]
pub struct InformedEntity {
    pub global_route_id: Option<String>,
    pub global_stop_id: Option<String>,
    pub rt_trip_id: Option<String>,
}

#[derive(Debug, Clone)]
pub struct ServiceAlert {
    pub effect: String,
    pub severity: String,
    pub description: String,
    pub created_at: u64,
    pub informed_entities: Vec<InformedEntity>,
    pub title: Option<String>,
}

#[derive(Debug, Clone)]
pub struct ScheduleItem {
    pub departure_time: u64,
    pub is_cancelled: bool,
    pub is_real_time: bool,
    pub scheduled_departure_time: u64,
    pub rt_trip_id: Option<String>,
    pub wheelchair_accessible: Option<u8>,
    pub trip_search_key: Option<String>,
}

#[derive(Debug, Clone)]
pub struct Itinerary {
    pub direction_id: u8,
    pub headsign: String,
    pub schedule_items: Vec<ScheduleItem>,
    pub direction_headsign: Option<String>,
    pub merged_headsign: Option<String>,
    pub branch_code: Option<String>,
}

#[derive(Debug, Clone)]
pub struct Route {
    pub global_route_id: String,
    pub itineraries: Vec<Itinerary>,
    pub route_long_name: String,
    pub route_short_name: String,
    pub route_type: u8,
    pub route_color: String,
    pub route_text_color: String,
    pub alerts: Option<Vec<ServiceAlert>>,
    pub route_timezone: Option<String>,
    pub route_display_short_name: Option<DisplayShortName>,
    pub compact_display_short_name: Option<DisplayShortName>,
    pub route_network_name: Option<String>,
    pub route_network_id: Option<String>,
    pub tts_long_name: Option<String>,
    pub tts_short_name: Option<String>,
    pub sorting_key: Option<String>,
    pub mode_name: Option<String>,
    pub real_time_route_id: Option<String>,
    pub vehicle: Option<Vehicle>,
}

} // verus!
