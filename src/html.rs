//! Queries over the service's HTML pages. Each page is parsed by the `select`
//! crate and answers one fixed query; the texts and links come back raw.
use vstd::prelude::*;
use select::document::Document;
use select::predicate::{Attr, Class, Name, Predicate};

verus! {

/// One table cell: its whole text, and the `href` of its first anchor, if
/// that anchor has one.
pub struct RawCell {
    pub text: String,
    pub link: Option<String>,
}

/// An anchor: its whole text and its `href`, if it has one.
pub struct RawAnchor {
    pub text: String,
    pub href: Option<String>,
}

pub open spec fn opt_view(o: Option<String>) -> Option<Seq<char>> {
    match o {
        Some(s) => Some(s@),
        None => None,
    }
}

impl View for RawCell {
    type V = (Seq<char>, Option<Seq<char>>);

    open spec fn view(&self) -> (Seq<char>, Option<Seq<char>>) {
        (self.text@, opt_view(self.link))
    }
}

impl View for RawAnchor {
    type V = (Seq<char>, Option<Seq<char>>);

    open spec fn view(&self) -> (Seq<char>, Option<Seq<char>>) {
        (self.text@, opt_view(self.href))
    }
}

pub open spec fn row_view(row: Vec<RawCell>) -> Seq<(Seq<char>, Option<Seq<char>>)> {
    row@.map_values(|c: RawCell| c@)
}

pub open spec fn rows_view(rows: Seq<Vec<RawCell>>) -> Seq<Seq<(Seq<char>, Option<Seq<char>>)>> {
    rows.map_values(|row: Vec<RawCell>| row_view(row))
}

/// Text and `href` of every `a` inside an element of class `select`, in
/// document order.
pub uninterp spec fn search_anchors_of(page: Seq<char>) -> Seq<(Seq<char>, Option<Seq<char>>)>;

/// The `td` cells of every `tr` inside a `tbody` inside an element of class
/// `ivu_table`, rows and cells in document order.
pub uninterp spec fn overview_rows_of(page: Seq<char>) -> Seq<Seq<(Seq<char>, Option<Seq<char>>)>>;

/// Text of every element of class `journeyMessageHIM`, in document order.
pub uninterp spec fn journey_messages_of(page: Seq<char>) -> Seq<Seq<char>>;

/// Text of every element of class `tqTime` inside a `tr` inside the element
/// with id `ivu_trainroute_table`, in document order.
pub uninterp spec fn route_times_of(page: Seq<char>) -> Seq<Seq<char>>;

/// Relies on `select`'s `Document::from` and `Document::find` with the query
/// `Class("select").descendant(Name("a"))`, and on `Node::text` and `Node::attr`.
#[verifier::external_body]
pub(crate) fn search_anchors(page: &str) -> (r: Vec<RawAnchor>)
    ensures
        r@.map_values(|a: RawAnchor| a@) == search_anchors_of(page@),
{
    let doc = Document::from(page);
    doc.find(Class("select").descendant(Name("a")))
        .map(|n| RawAnchor { text: n.text(), href: n.attr("href").map(|h| h.to_string()) })
        .collect()
}

/// Relies on `select`'s `Document::from`, `Document::find` with the query
/// `Class("ivu_table").descendant(Name("tbody")).descendant(Name("tr"))`,
/// `Node::find(Name("td"))` and `Node::find(Name("a"))` for each row and cell,
/// and on `Node::text` and `Node::attr`.
#[verifier::external_body]
pub(crate) fn overview_rows(page: &str) -> (r: Vec<Vec<RawCell>>)
    ensures
        rows_view(r@) == overview_rows_of(page@),
{
    let doc = Document::from(page);
    let query = Class("ivu_table").descendant(Name("tbody")).descendant(Name("tr"));
    doc.find(query).map(|row| row.find(Name("td")).map(|cell| RawCell {
        text: cell.text(),
        link: cell.find(Name("a")).next().and_then(|a| a.attr("href")).map(|h| h.to_string()),
    }).collect()).collect()
}

/// Relies on `select`'s `Document::from`, `Document::find` with the query
/// `Class("journeyMessageHIM")`, and on `Node::text`.
#[verifier::external_body]
pub(crate) fn journey_messages(page: &str) -> (r: Vec<String>)
    ensures
        r@.map_values(|s: String| s@) == journey_messages_of(page@),
{
    let doc = Document::from(page);
    doc.find(Class("journeyMessageHIM")).map(|n| n.text()).collect()
}

/// Relies on `select`'s `Document::from`, `Document::find` with the query
/// `Attr("id", "ivu_trainroute_table").descendant(Name("tr")).descendant(Class("tqTime"))`,
/// and on `Node::text`.
#[verifier::external_body]
pub(crate) fn route_times(page: &str) -> (r: Vec<String>)
    ensures
        r@.map_values(|s: String| s@) == route_times_of(page@),
{
    let doc = Document::from(page);
    let query = Attr("id", "ivu_trainroute_table").descendant(Name("tr")).descendant(Class("tqTime"));
    doc.find(query).map(|n| n.text()).collect()
}

} // verus!
