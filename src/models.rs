//! The records handed from one stage of the pipeline to the next.
use vstd::prelude::*;

verus! {

/// A search result: a station name and the absolute link to its timetable.
pub struct StationSearch {
    pub name: String,
    pub link_to_station_overview: String,
}

/// One departure as listed on a station's timetable page.
pub struct DepartureOverview {
    pub time: String,
    pub line: String,
    pub direction: String,
    pub platform: Option<String>,
    pub link_to_departure_detail: String,
}

/// A station and its listed departures, in page order.
pub struct StationOverview {
    pub name: String,
    pub departures: Vec<DepartureOverview>,
}

/// One departure with its live status and service notices.
pub struct DepartureDetail {
    pub time: String,
    pub line: String,
    pub direction: String,
    pub platform: Option<String>,
    pub status: String,
    pub information: Vec<String>,
}

/// The departures of one line, and every notice among them once, sorted.
pub struct StationDetail {
    pub departures: Vec<DepartureDetail>,
    pub disruptions: Vec<String>,
}

pub open spec fn strings_view(v: Seq<String>) -> Seq<Seq<char>> {
    v.map_values(|s: String| s@)
}

pub fn clone_option(o: &Option<String>) -> (r: Option<String>)
    ensures
        r == *o,
{
    match o {
        Some(s) => Some(s.clone()),
        None => None,
    }
}

} // verus!
