//! A station's timetable page: one departure per three-cell row.
use vstd::prelude::*;
use crate::errors::ZbbError;
use crate::extract::{absolute_link, base_url, line_of, platform_of, split_line_platform};
use crate::html::{opt_view, overview_rows, overview_rows_of, row_view, rows_view, RawCell};
use crate::models::{DepartureOverview, StationOverview, StationSearch};
use crate::text::{sanitize, sanitized};

verus! {

/// The text of a cell and the link of its first anchor.
pub type CellView = (Seq<char>, Option<Seq<char>>);

/// The rows of exactly three cells, in order: the departure rows. Rows of
/// any other shape carry notices and are left out.
pub open spec fn departure_rows(rows: Seq<Seq<CellView>>) -> Seq<Seq<CellView>>
    decreases rows.len(),
{
    if rows.len() == 0 {
        Seq::empty()
    } else if rows.last().len() == 3 {
        departure_rows(rows.drop_last()).push(rows.last())
    } else {
        departure_rows(rows.drop_last())
    }
}

/// `d` is what a three-cell row lists: time, line and platform, direction,
/// and the detail link.
pub open spec fn summarises(d: DepartureOverview, row: Seq<CellView>) -> bool {
    &&& d.time@ == sanitized(row[0].0)
    &&& d.line@ == line_of(sanitized(row[1].0))
    &&& opt_view(d.platform) == platform_of(sanitized(row[1].0))
    &&& d.direction@ == sanitized(row[2].0)
    &&& d.link_to_departure_detail@ == base_url() + row[1].1->Some_0
}

/// A departure row without a detail link in its line cell.
pub open spec fn lacks_link(row: Seq<CellView>) -> bool {
    row.len() == 3 && row[1].1 is None
}

/// One departure from a three-cell row; nothing from a row of another shape.
pub fn extract_overview_row(row: &Vec<RawCell>) -> (r: Result<Option<DepartureOverview>, ZbbError>)
    ensures
        row@.len() != 3 ==> r matches Ok(None),
        row@.len() == 3 ==> (r is Err <==> row@[1].link is None),
        r matches Err(e) ==> e is ExtractionError,
        row@.len() == 3 && r is Ok ==> (r matches Ok(Some(d)) && summarises(d, row_view(*row))),
{
    if row.len() != 3 {
        return Ok(None);
    }
    let href = match &row[1].link {
        Some(h) => h,
        None => return Err(ZbbError::extraction("expected an href in the line cell")),
    };
    let time = sanitize(row[0].text.clone());
    let full_line = sanitize(row[1].text.clone());
    let (line, platform) = split_line_platform(&full_line);
    let direction = sanitize(row[2].text.clone());
    let d = DepartureOverview {
        time,
        line,
        direction,
        platform,
        link_to_departure_detail: absolute_link(href.as_str()),
    };
    proof {
        let rv = row_view(*row);
        assert(rv[0] == row@[0]@ && rv[1] == row@[1]@ && rv[2] == row@[2]@);
    }
    Ok(Some(d))
}

/// The departures listed by a timetable's rows, in row order. A departure
/// row without a detail link is an error.
pub fn overview_from_rows(station: &StationSearch, raw: &Vec<Vec<RawCell>>) -> (r: Result<StationOverview, ZbbError>)
    ensures
        r is Err <==> exists|i: int| 0 <= i < raw@.len() && lacks_link(#[trigger] row_view(raw@[i])),
        r matches Err(e) ==> e is ExtractionError,
        r matches Ok(o) ==> o.name@ == station.name@
            && o.departures@.len() == departure_rows(rows_view(raw@)).len()
            && forall|k: int| 0 <= k < o.departures@.len()
                ==> summarises(#[trigger] o.departures@[k], departure_rows(rows_view(raw@))[k]),
{
    let ghost rows = rows_view(raw@);
    let mut out: Vec<DepartureOverview> = Vec::new();
    let mut i: usize = 0;
    while i < raw.len()
        invariant
            i <= raw@.len() == rows.len(),
            rows == rows_view(raw@),
            forall|k: int| 0 <= k < i ==> !lacks_link(#[trigger] row_view(raw@[k])),
            out@.len() == departure_rows(rows.subrange(0, i as int)).len(),
            forall|k: int| 0 <= k < out@.len()
                ==> summarises(#[trigger] out@[k], departure_rows(rows.subrange(0, i as int))[k]),
        decreases raw@.len() - i,
    {
        let ghost before = rows.subrange(0, i as int);
        let ghost after = rows.subrange(0, i + 1);
        assert(after.drop_last() == before);
        assert(rows[i as int] == row_view(raw@[i as int]));
        match extract_overview_row(&raw[i]) {
            Ok(Some(d)) => {
                let ghost prev = out@;
                out.push(d);
                assert(departure_rows(after) == departure_rows(before).push(rows[i as int]));
                assert forall|k: int| 0 <= k < out@.len()
                    implies summarises(#[trigger] out@[k], departure_rows(after)[k]) by {
                    if k < out@.len() - 1 {
                        assert(out@[k] == prev[k]);
                    }
                }
            },
            Ok(None) => {
                assert(departure_rows(after) == departure_rows(before));
            },
            Err(e) => {
                return Err(e);
            },
        }
        i = i + 1;
    }
    assert(rows.subrange(0, rows.len() as int) == rows);
    Ok(StationOverview { name: station.name.clone(), departures: out })
}

/// The departures a station's timetable page lists, in page order. A
/// departure row without a detail link is an error.
pub fn station_overview_from_page(station: &StationSearch, page: &str) -> (r: Result<StationOverview, ZbbError>)
    ensures
        r is Err <==> exists|i: int|
            0 <= i < overview_rows_of(page@).len() && lacks_link(#[trigger] overview_rows_of(page@)[i]),
        r matches Err(e) ==> e is ExtractionError,
        r matches Ok(o) ==> o.name@ == station.name@
            && o.departures@.len() == departure_rows(overview_rows_of(page@)).len()
            && forall|k: int| 0 <= k < o.departures@.len()
                ==> summarises(#[trigger] o.departures@[k], departure_rows(overview_rows_of(page@))[k]),
{
    let raw = overview_rows(page);
    let ghost rows = overview_rows_of(page@);
    assert(rows == rows_view(raw@));
    let r = overview_from_rows(station, &raw);
    proof {
        if r is Err {
            let i = choose|i: int| 0 <= i < raw@.len() && lacks_link(#[trigger] row_view(raw@[i]));
            assert(rows[i] == row_view(raw@[i]));
        } else {
            assert forall|i: int| 0 <= i < rows.len() implies !lacks_link(#[trigger] rows[i]) by {
                assert(rows[i] == row_view(raw@[i]));
            }
        }
    }
    r
}

} // verus!
