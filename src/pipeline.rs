//! The steps between the pages: the search address, the lines a station
//! offers, the departures of one line, and the merged station detail.
use vstd::prelude::*;
use vstd::string::*;
use crate::extract::BASE_URL;
use crate::models::{clone_option, strings_view, DepartureDetail, DepartureOverview, StationDetail, StationOverview};
use crate::sorted::{insert_sorted, lemma_concat_contains, lemma_prefix_contains, strictly_sorted};

verus! {

/// Path and fixed parameters of the station search.
pub const SEARCH_URL: &'static str = "Fahrinfo/bin/stboard.bin/eox?ld=0.1&rt=0&start=suchen";

/// The parameter that carries the query.
pub const INPUT_PARAM: &'static str = "&input=";

pub open spec fn search_url_of(query: Seq<char>) -> Seq<char> {
    BASE_URL@ + SEARCH_URL@ + INPUT_PARAM@ + query
}

/// The address of the search page for `query`, which the caller has escaped.
pub fn search_url(query: &str) -> (r: String)
    ensures
        r@ == search_url_of(query@),
{
    String::from_str(BASE_URL).concat(SEARCH_URL).concat(INPUT_PARAM).concat(query)
}

/// The lines of `ds`, one per departure, in order.
pub open spec fn lines_of(ds: Seq<DepartureOverview>) -> Seq<Seq<char>> {
    ds.map_values(|d: DepartureOverview| d.line@)
}

/// Every line that a departure of the station runs on, once, sorted.
pub fn available_lines(overview: &StationOverview) -> (r: Vec<String>)
    ensures
        strictly_sorted(strings_view(r@)),
        forall|x: Seq<char>| strings_view(r@).contains(x) <==> lines_of(overview.departures@).contains(x),
{
    let ghost ls = lines_of(overview.departures@);
    let mut out: Vec<String> = Vec::new();
    let mut i: usize = 0;
    while i < overview.departures.len()
        invariant
            i <= overview.departures@.len() == ls.len(),
            ls == lines_of(overview.departures@),
            strictly_sorted(strings_view(out@)),
            forall|x: Seq<char>| strings_view(out@).contains(x) <==> ls.subrange(0, i as int).contains(x),
        decreases overview.departures@.len() - i,
    {
        let ghost before = strings_view(out@);
        insert_sorted(&mut out, overview.departures[i].line.clone());
        assert(ls[i as int] == overview.departures@[i as int].line@);
        proof {
            lemma_prefix_contains(ls, i as int);
        }
        i = i + 1;
    }
    assert(ls.subrange(0, ls.len() as int) == ls);
    out
}

/// Whether `line` is one of `lines`.
pub fn line_is_available(lines: &Vec<String>, line: &String) -> (r: bool)
    ensures
        r == strings_view(lines@).contains(line@),
{
    let ghost ls = strings_view(lines@);
    let mut i: usize = 0;
    while i < lines.len()
        invariant
            i <= lines@.len() == ls.len(),
            ls == strings_view(lines@),
            forall|k: int| 0 <= k < i ==> ls[k] != line@,
        decreases lines@.len() - i,
    {
        if lines[i] == *line {
            assert(ls[i as int] == line@);
            return true;
        }
        i = i + 1;
    }
    false
}

/// The departures of `ds` on `line`, in order.
pub open spec fn on_line(ds: Seq<DepartureOverview>, line: Seq<char>) -> Seq<DepartureOverview>
    decreases ds.len(),
{
    if ds.len() == 0 {
        Seq::empty()
    } else if ds.last().line@ == line {
        on_line(ds.drop_last(), line).push(ds.last())
    } else {
        on_line(ds.drop_last(), line)
    }
}

pub fn clone_departure(d: &DepartureOverview) -> (r: DepartureOverview)
    ensures
        r == *d,
{
    DepartureOverview {
        time: d.time.clone(),
        line: d.line.clone(),
        direction: d.direction.clone(),
        platform: clone_option(&d.platform),
        link_to_departure_detail: d.link_to_departure_detail.clone(),
    }
}

/// The departures of the station that run on `line`, in page order.
pub fn departures_for_line(overview: &StationOverview, line: &String) -> (r: Vec<DepartureOverview>)
    ensures
        r@ == on_line(overview.departures@, line@),
{
    let ghost ds = overview.departures@;
    let mut out: Vec<DepartureOverview> = Vec::new();
    let mut i: usize = 0;
    while i < overview.departures.len()
        invariant
            i <= ds.len(),
            ds == overview.departures@,
            out@ == on_line(ds.subrange(0, i as int), line@),
        decreases ds.len() - i,
    {
        assert(ds.subrange(0, i + 1).drop_last() == ds.subrange(0, i as int));
        if overview.departures[i].line == *line {
            out.push(clone_departure(&overview.departures[i]));
        }
        i = i + 1;
    }
    assert(ds.subrange(0, ds.len() as int) == ds);
    out
}

/// The notices of every departure, in order, repeats kept.
pub open spec fn all_notices(ds: Seq<DepartureDetail>) -> Seq<Seq<char>>
    decreases ds.len(),
{
    if ds.len() == 0 {
        Seq::empty()
    } else {
        all_notices(ds.drop_last()) + strings_view(ds.last().information@)
    }
}

/// The station detail for the fetched departures: the departures as given,
/// and every notice among them once, sorted.
pub fn station_detail_from(departures: Vec<DepartureDetail>) -> (r: StationDetail)
    ensures
        r.departures@ == departures@,
        strictly_sorted(strings_view(r.disruptions@)),
        forall|x: Seq<char>| strings_view(r.disruptions@).contains(x) <==> all_notices(departures@).contains(x),
{
    let ghost ds = departures@;
    let mut disruptions: Vec<String> = Vec::new();
    let mut i: usize = 0;
    while i < departures.len()
        invariant
            i <= ds.len(),
            ds == departures@,
            strictly_sorted(strings_view(disruptions@)),
            forall|x: Seq<char>| #[trigger] strings_view(disruptions@).contains(x) <==> all_notices(ds.subrange(0, i as int)).contains(x),
        decreases ds.len() - i,
    {
        let info = &departures[i].information;
        let ghost done = all_notices(ds.subrange(0, i as int));
        let ghost iv = strings_view(info@);
        assert(ds.subrange(0, i + 1).drop_last() == ds.subrange(0, i as int));
        assert(all_notices(ds.subrange(0, i + 1)) == done + iv);
        let mut j: usize = 0;
        while j < info.len()
            invariant
                j <= info@.len() == iv.len(),
                iv == strings_view(info@),
                strictly_sorted(strings_view(disruptions@)),
                forall|x: Seq<char>| #[trigger] strings_view(disruptions@).contains(x) <==> (done.contains(x) || iv.subrange(0, j as int).contains(x)),
            decreases info@.len() - j,
        {
            let ghost before = strings_view(disruptions@);
            let item = info[j].clone();
            assert(iv[j as int] == item@);
            insert_sorted(&mut disruptions, item);
            proof {
                lemma_prefix_contains(iv, j as int);
                assert forall|x: Seq<char>| strings_view(disruptions@).contains(x)
                    <==> (done.contains(x) || iv.subrange(0, j + 1).contains(x)) by {
                    assert(strings_view(disruptions@).contains(x) <==> (before.contains(x) || x == item@));
                    assert(before.contains(x) <==> (done.contains(x) || iv.subrange(0, j as int).contains(x)));
                }
            }
            j = j + 1;
        }
        assert(iv.subrange(0, iv.len() as int) == iv);
        proof {
            lemma_concat_contains(done, iv);
            assert forall|x: Seq<char>| strings_view(disruptions@).contains(x)
                <==> all_notices(ds.subrange(0, i + 1)).contains(x) by {
                assert((done + iv).contains(x) <==> (done.contains(x) || iv.contains(x)));
            }
        }
        i = i + 1;
    }
    assert(ds.subrange(0, ds.len() as int) == ds);
    StationDetail { departures, disruptions }
}

} // verus!
