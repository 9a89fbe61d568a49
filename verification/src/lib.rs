pub mod departures;
pub mod fmt;
pub mod messages;
pub mod svc;
pub mod transit;
