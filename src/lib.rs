//! Departure boards scraped from a timetable web service: station search,
//! station overview, per-departure detail, and the bounded detail fetch.

pub mod choices;
pub mod detail;
pub mod display;
pub mod errors;
pub mod extract;
pub mod fetch;
pub mod html;
pub mod models;
pub mod overview;
pub mod pipeline;
pub mod sorted;
pub mod text;
