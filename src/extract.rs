//! Turning the raw query results of each page into the pipeline's records.
use vstd::prelude::*;
use vstd::string::*;
use crate::errors::ZbbError;
use crate::html::{opt_view, search_anchors, search_anchors_of, RawAnchor};
use crate::models::StationSearch;
use crate::text::{chars_of, sanitize, sanitized, string_of};

verus! {

/// Prefix of every link the service hands out.
pub const BASE_URL: &'static str = "http://mobil.bvg.de/";

pub open spec fn base_url() -> Seq<char> {
    BASE_URL@
}

/// Prefixes `path` with the service's base address.
pub fn absolute_link(path: &str) -> (r: String)
    ensures
        r@ == base_url() + path@,
{
    String::from_str(BASE_URL).concat(path)
}

/// A search result built from one anchor of the search page.
pub fn station_from_anchor(anchor: &RawAnchor) -> (r: Result<StationSearch, ZbbError>)
    ensures
        anchor.href is None <==> r is Err,
        r matches Err(e) ==> e is ExtractionError,
        r matches Ok(st) ==> st.name@ == sanitized(anchor.text@)
            && st.link_to_station_overview@ == base_url() + anchor.href->Some_0@,
{
    match &anchor.href {
        Some(h) => Ok(StationSearch {
            name: sanitize(anchor.text.clone()),
            link_to_station_overview: absolute_link(h.as_str()),
        }),
        None => Err(ZbbError::extraction("expected an href on a station anchor")),
    }
}

/// The station candidates of a search page's anchors, in order. An anchor
/// without a link is an error.
pub fn stations_from_anchors(anchors: &Vec<RawAnchor>) -> (r: Result<Vec<StationSearch>, ZbbError>)
    ensures
        r is Err <==> exists|i: int| 0 <= i < anchors@.len() && (#[trigger] anchors@[i]).href is None,
        r matches Err(e) ==> e is ExtractionError,
        r matches Ok(v) ==> v@.len() == anchors@.len() && forall|i: int|
            0 <= i < v@.len() ==> (#[trigger] v@[i]).name@ == sanitized(anchors@[i].text@)
                && v@[i].link_to_station_overview@ == base_url() + anchors@[i].href->Some_0@,
{
    let mut out: Vec<StationSearch> = Vec::new();
    let mut i: usize = 0;
    while i < anchors.len()
        invariant
            i <= anchors@.len(),
            out@.len() == i,
            forall|k: int| 0 <= k < i ==> (#[trigger] anchors@[k]).href is Some,
            forall|k: int| 0 <= k < i ==> (#[trigger] out@[k]).name@ == sanitized(anchors@[k].text@)
                && out@[k].link_to_station_overview@ == base_url() + anchors@[k].href->Some_0@,
        decreases anchors@.len() - i,
    {
        match station_from_anchor(&anchors[i]) {
            Ok(st) => out.push(st),
            Err(e) => {
                assert(anchors@[i as int].href is None);
                return Err(e);
            },
        }
        i = i + 1;
    }
    Ok(out)
}

/// Every station candidate listed on a search page, in page order. A page
/// without candidates gives an empty list; an anchor without a link is an error.
pub fn stations_from_page(page: &str) -> (r: Result<Vec<StationSearch>, ZbbError>)
    ensures
        r is Err <==> exists|i: int|
            0 <= i < search_anchors_of(page@).len() && (#[trigger] search_anchors_of(page@)[i]).1 is None,
        r matches Err(e) ==> e is ExtractionError,
        r matches Ok(v) ==> v@.len() == search_anchors_of(page@).len() && forall|i: int|
            0 <= i < v@.len() ==> (#[trigger] v@[i]).name@ == sanitized(search_anchors_of(page@)[i].0)
                && v@[i].link_to_station_overview@ == base_url() + search_anchors_of(page@)[i].1->Some_0,
{
    let anchors = search_anchors(page);
    let ghost av = search_anchors_of(page@);
    assert forall|i: int| 0 <= i < anchors@.len() implies (#[trigger] av[i]) == anchors@[i]@ by {
        assert(anchors@.map_values(|a: RawAnchor| a@)[i] == anchors@[i]@);
    }
    let r = stations_from_anchors(&anchors);
    proof {
        if r is Err {
            let i = choose|i: int| 0 <= i < anchors@.len() && (#[trigger] anchors@[i]).href is None;
            assert(av[i].1 is None);
        } else {
            assert forall|i: int| 0 <= i < av.len() implies (#[trigger] av[i]).1 is Some by {
                assert(anchors@[i].href is Some);
            }
        }
    }
    r
}

/// The marker that introduces a platform inside a line cell.
pub open spec fn platform_marker() -> Seq<char> {
    seq!['p', 'l', 'a', 't', 'f', '.']
}

pub open spec fn marker_at(s: Seq<char>, i: int) -> bool {
    0 <= i && i + 6 <= s.len() && s.subrange(i, i + 6) == platform_marker()
}

/// Position of the first platform marker at or after `i`.
pub open spec fn marker_from(s: Seq<char>, i: int) -> Option<int>
    decreases s.len() - i,
{
    if i < 0 || i + 6 > s.len() {
        None
    } else if marker_at(s, i) {
        Some(i)
    } else {
        marker_from(s, i + 1)
    }
}

/// What follows the last `.` of `t`, or all of `t` when it holds none.
pub open spec fn after_last_dot(t: Seq<char>) -> Seq<char>
    decreases t.len(),
{
    if t.len() == 0 || t.last() == '.' {
        Seq::empty()
    } else {
        after_last_dot(t.drop_last()).push(t.last())
    }
}

/// The line named in a line cell's text.
pub open spec fn line_of(full: Seq<char>) -> Seq<char> {
    match marker_from(full, 0) {
        Some(i) => full.subrange(0, i),
        None => full,
    }
}

/// The platform named in a line cell's text: between the last `.` and the
/// final character, when the text holds the marker.
pub open spec fn platform_of(full: Seq<char>) -> Option<Seq<char>> {
    match marker_from(full, 0) {
        Some(i) => Some(sanitized(after_last_dot(full.drop_last()))),
        None => None,
    }
}

proof fn lemma_no_marker_from(s: Seq<char>, i: int)
    requires
        0 <= i,
        forall|j: int| i <= j ==> !marker_at(s, j),
    ensures
        marker_from(s, i) is None,
    decreases s.len() - i,
{
    if i + 6 <= s.len() {
        lemma_no_marker_from(s, i + 1);
    }
}

/// A line cell's text without the platform marker is the line itself, and
/// names no platform.
pub proof fn lemma_no_marker_keeps_line(full: Seq<char>)
    requires
        forall|j: int| !marker_at(full, j),
    ensures
        line_of(full) == full,
        platform_of(full) is None,
{
    lemma_no_marker_from(full, 0);
}

fn marker_at_exec(v: &Vec<char>, i: usize) -> (r: bool)
    requires
        i <= v@.len(),
    ensures
        r == marker_at(v@, i as int),
{
    if v.len() - i < 6 {
        return false;
    }
    let r = v[i] == 'p' && v[i + 1] == 'l' && v[i + 2] == 'a' && v[i + 3] == 't' && v[i + 4] == 'f'
        && v[i + 5] == '.';
    proof {
        let sub = v@.subrange(i as int, i + 6);
        if r {
            assert(sub =~= platform_marker());
        } else if sub == platform_marker() {
            assert(sub[0] == v@[i as int] && sub[1] == v@[i + 1] && sub[2] == v@[i + 2]);
            assert(sub[3] == v@[i + 3] && sub[4] == v@[i + 4] && sub[5] == v@[i + 5]);
        }
    }
    r
}

proof fn lemma_after_last_dot_split(t: Seq<char>, k: int)
    requires
        0 <= k < t.len(),
        t[k] != '.',
    ensures
        after_last_dot(t.subrange(0, k + 1)) == after_last_dot(t.subrange(0, k)).push(t[k]),
{
    assert(t.subrange(0, k + 1).drop_last() == t.subrange(0, k));
}

/// Splits a line cell's text into the line and, when the marker is present,
/// the platform.
pub fn split_line_platform(full: &String) -> (r: (String, Option<String>))
    ensures
        r.0@ == line_of(full@),
        opt_view(r.1) == platform_of(full@),
{
    let v = chars_of(full.as_str());
    let n = v.len();
    let mut i: usize = 0;
    let mut found = false;
    while n >= 6 && i <= n - 6 && !found
        invariant
            n == v@.len(),
            found ==> i + 6 <= n && marker_at(v@, i as int) && marker_from(v@, 0) == Some(i as int),
            !found ==> marker_from(v@, 0) == marker_from(v@, i as int),
        decreases n + 1 - i - (if found { 1int } else { 0int }),
    {
        if marker_at_exec(&v, i) {
            found = true;
        } else {
            i = i + 1;
        }
    }
    if !found {
        return (full.clone(), None);
    }
    let mut line: Vec<char> = Vec::new();
    let mut j: usize = 0;
    while j < i
        invariant
            i <= n == v@.len(),
            j <= i,
            line@ == v@.subrange(0, j as int),
        decreases i - j,
    {
        line.push(v[j]);
        j = j + 1;
    }
    let ghost t = v@.drop_last();
    let last = n - 1;
    let mut k: usize = last;
    proof {
        assert(t.subrange(0, last as int) == t);
        assert(t.subrange(last as int, last as int) + Seq::<char>::empty() == Seq::<char>::empty());
        assert(t + t.subrange(last as int, last as int) == t);
    }
    while k > 0 && v[k - 1] != '.'
        invariant
            k <= last == t.len(),
            last + 1 == n == v@.len(),
            t == v@.drop_last(),
            after_last_dot(t) == after_last_dot(t.subrange(0, k as int)) + t.subrange(k as int, last as int),
        decreases k,
    {
        proof {
            lemma_after_last_dot_split(t, k - 1);
            assert(t.subrange(k - 1, last as int) == seq![t[k - 1]] + t.subrange(k as int, last as int));
        }
        k = k - 1;
    }
    proof {
        if k > 0 {
            assert(t.subrange(0, k as int).last() == '.');
        }
        assert(after_last_dot(t.subrange(0, k as int)) == Seq::<char>::empty());
    }
    let mut raw: Vec<char> = Vec::new();
    let mut m: usize = k;
    while m < last
        invariant
            k <= m <= last == t.len(),
            last + 1 == n == v@.len(),
            t == v@.drop_last(),
            raw@ == t.subrange(k as int, m as int),
        decreases last - m,
    {
        raw.push(v[m]);
        m = m + 1;
    }
    assert(raw@ == after_last_dot(t));
    (string_of(&line), Some(sanitize(string_of(&raw))))
}

} // verus!
