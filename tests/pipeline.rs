use zbb::choices::{choice_label, parse_choice};
use zbb::detail::{delay_status, departure_detail_from_page, notices_of};
use zbb::display::{column_padding, departure_table, disruption_banner, padding_for_header, sentence_chunks, Column};
use zbb::errors::ZbbError;
use zbb::extract::{absolute_link, split_line_platform, station_from_anchor, stations_from_page};
use zbb::fetch::{DetailFetch, DETAIL_CONCURRENCY};
use zbb::html::{RawAnchor, RawCell};
use zbb::models::{DepartureDetail, DepartureOverview, StationSearch};
use zbb::overview::{extract_overview_row, station_overview_from_page};
use zbb::pipeline::{available_lines, departures_for_line, line_is_available, search_url, station_detail_from};
use zbb::text::sanitize;

fn s(x: &str) -> String {
    x.to_string()
}

fn cell(text: &str, link: Option<&str>) -> RawCell {
    RawCell { text: s(text), link: link.map(s) }
}

fn detail(line: &str, information: Vec<&str>) -> DepartureDetail {
    DepartureDetail {
        time: s("12:30"),
        line: s(line),
        direction: s("Hauptbahnhof"),
        platform: None,
        status: s("on time"),
        information: information.into_iter().map(s).collect(),
    }
}

const SEARCH_PAGE: &str = "<html><body><div class=\"select\">\
    <a href=\"Fahrinfo/station?id=1\">\n  Alexanderplatz (Berlin)\n</a>\
    <a href=\"Fahrinfo/station?id=2\"> Alexanderplatz Bhf </a></div>\
    <a href=\"elsewhere\">Not a result</a></body></html>";

const OVERVIEW_PAGE: &str = "<html><body><table class=\"ivu_table\"><tbody>\
    <tr><td>12:30</td><td><a href=\"detail?1\">M4</a></td><td>Hackescher Markt</td></tr>\
    <tr><td colspan=\"3\">Construction works</td></tr>\
    <tr><td>12:35</td><td><a href=\"detail?2\">M5</a></td><td>Zingster Str.</td></tr>\
    <tr><td>12:40</td><td><a href=\"detail?3\">M4</a></td><td>Falkenberg</td></tr>\
    <tr><td>12:50</td><td><a href=\"detail?4\">M4</a></td><td>Hackescher Markt</td></tr>\
    </tbody></table></body></html>";

fn detail_page(step: &str, notices: &[&str]) -> String {
    let mut page = String::from("<html><body>");
    for n in notices {
        page.push_str(&format!("<div class=\"journeyMessageHIM\">{}</div>", n));
    }
    page.push_str("<table id=\"ivu_trainroute_table\"><tbody>");
    page.push_str("<tr><td class=\"tqTime\">11:00</td></tr>");
    page.push_str(&format!("<tr><td class=\"tqTime\">{}</td></tr>", step));
    page.push_str("</tbody></table></body></html>");
    page
}

#[test]
fn sanitize_removes_newlines_and_trims() {
    assert_eq!(sanitize(s("  Alexander\nplatz \n\t")), "Alexanderplatz");
    assert_eq!(sanitize(s("")), "");
    assert_eq!(sanitize(s("\n\n")), "");
    assert_eq!(sanitize(s(" a b ")), "a b");
}

#[test]
fn sanitize_is_idempotent_and_newline_free() {
    for x in ["  x\n y  ", "\u{a0}\n z\u{3000}", "plain", "\r\n"] {
        let once = sanitize(s(x));
        assert!(!once.contains('\n'));
        assert_eq!(sanitize(once.clone()), once);
    }
}

#[test]
fn search_url_holds_the_query() {
    assert_eq!(
        search_url("Alexanderplatz"),
        "http://mobil.bvg.de/Fahrinfo/bin/stboard.bin/eox?ld=0.1&rt=0&start=suchen&input=Alexanderplatz"
    );
}

#[test]
fn absolute_link_prefixes_the_base() {
    assert_eq!(absolute_link("a?b=1"), "http://mobil.bvg.de/a?b=1");
}

#[test]
fn stations_are_read_from_the_search_page() {
    let stations = stations_from_page(SEARCH_PAGE).ok().unwrap();
    assert_eq!(stations.len(), 2);
    assert_eq!(stations[0].name, "Alexanderplatz (Berlin)");
    assert_eq!(stations[0].link_to_station_overview, "http://mobil.bvg.de/Fahrinfo/station?id=1");
    assert_eq!(stations[1].name, "Alexanderplatz Bhf");
}

#[test]
fn empty_search_page_gives_no_station() {
    let stations = stations_from_page("<html><body><p>nothing</p></body></html>").ok().unwrap();
    assert!(stations.is_empty());
}

#[test]
fn anchor_without_href_is_an_extraction_error() {
    let page = "<div class=\"select\"><a href=\"x\">A</a><a>B</a></div>";
    assert!(matches!(stations_from_page(page), Err(ZbbError::ExtractionError { .. })));
    let anchor = RawAnchor { text: s("B"), href: None };
    assert!(matches!(station_from_anchor(&anchor), Err(ZbbError::ExtractionError { .. })));
}

#[test]
fn three_cell_row_gives_one_departure() {
    let row = vec![cell(" 12:30\n", None), cell("M4", Some("d?1")), cell(" Falkenberg ", None)];
    let d = extract_overview_row(&row).ok().unwrap().unwrap();
    assert_eq!(d.time, "12:30");
    assert_eq!(d.line, "M4");
    assert_eq!(d.platform, None);
    assert_eq!(d.direction, "Falkenberg");
    assert_eq!(d.link_to_departure_detail, "http://mobil.bvg.de/d?1");
}

#[test]
fn other_rows_give_no_departure() {
    let two = vec![cell("12:30", None), cell("M4", Some("d"))];
    let four = vec![cell("a", None), cell("b", Some("d")), cell("c", None), cell("d", None)];
    assert!(matches!(extract_overview_row(&two), Ok(None)));
    assert!(matches!(extract_overview_row(&four), Ok(None)));
    assert!(matches!(extract_overview_row(&vec![]), Ok(None)));
}

#[test]
fn departure_row_without_link_is_an_extraction_error() {
    let row = vec![cell("12:30", None), cell("M4", None), cell("Falkenberg", None)];
    assert!(matches!(extract_overview_row(&row), Err(ZbbError::ExtractionError { .. })));
}

#[test]
fn line_without_marker_is_kept_whole() {
    let (line, platform) = split_line_platform(&s("S5 Strausberg"));
    assert_eq!(line, "S5 Strausberg");
    assert_eq!(platform, None);
}

#[test]
fn platform_is_split_from_the_line() {
    let (line, platform) = split_line_platform(&s("S5 (platf. 3)"));
    assert_eq!(line, "S5 (");
    assert_eq!(platform, Some(s("3")));
    let (line, platform) = split_line_platform(&s("RE1 platf.12a)"));
    assert_eq!(line, "RE1 ");
    assert_eq!(platform, Some(s("12a")));
}

#[test]
fn overview_keeps_departure_rows_in_order() {
    let station = StationSearch { name: s("Alexanderplatz"), link_to_station_overview: s("x") };
    let overview = station_overview_from_page(&station, OVERVIEW_PAGE).ok().unwrap();
    assert_eq!(overview.name, "Alexanderplatz");
    let times: Vec<&str> = overview.departures.iter().map(|d| d.time.as_str()).collect();
    assert_eq!(times, vec!["12:30", "12:35", "12:40", "12:50"]);
    assert_eq!(overview.departures[1].line, "M5");
    assert_eq!(overview.departures[1].direction, "Zingster Str.");
    assert_eq!(overview.departures[2].link_to_departure_detail, "http://mobil.bvg.de/detail?3");
}

#[test]
fn lines_are_sorted_and_distinct() {
    let station = StationSearch { name: s("A"), link_to_station_overview: s("x") };
    let overview = station_overview_from_page(&station, OVERVIEW_PAGE).ok().unwrap();
    let lines = available_lines(&overview);
    assert_eq!(lines, vec![s("M4"), s("M5")]);
    assert!(line_is_available(&lines, &s("M5")));
    assert!(!line_is_available(&lines, &s("M6")));
    let on_m4 = departures_for_line(&overview, &s("M4"));
    let times: Vec<&str> = on_m4.iter().map(|d| d.time.as_str()).collect();
    assert_eq!(times, vec!["12:30", "12:40", "12:50"]);
}

#[test]
fn sentinel_token_means_on_time() {
    let steps = vec![s("11:00+3'"), s(" 12:30\u{b1}0'\\x ")];
    assert_eq!(delay_status(&s("12:30"), &steps), "on time");
}

#[test]
fn other_token_means_delayed() {
    let steps = vec![s("11:00+3'"), s("12:30+2'\\later")];
    assert_eq!(delay_status(&s("12:30"), &steps), "delayed +2'");
    let steps = vec![s("12:30+7'")];
    assert_eq!(delay_status(&s("12:30"), &steps), "delayed +7'");
}

#[test]
fn no_matching_step_means_on_time() {
    assert_eq!(delay_status(&s("12:30"), &vec![]), "on time");
    assert_eq!(delay_status(&s("12:30"), &vec![s("12:30")]), "on time");
    assert_eq!(delay_status(&s("12:30"), &vec![s("13:30+1'")]), "on time");
}

#[test]
fn empty_notices_are_dropped() {
    let texts = vec![s(" b \n"), s("  "), s("\n"), s("a")];
    assert_eq!(notices_of(&texts), vec![s("b"), s("a")]);
}

#[test]
fn detail_page_gives_status_and_notices() {
    let dep = DepartureOverview {
        time: s("12:30"),
        line: s("M4"),
        direction: s("Falkenberg"),
        platform: Some(s("2")),
        link_to_departure_detail: s("x"),
    };
    let page = detail_page("12:30+4'", &["Lift out of order", " "]);
    let d = departure_detail_from_page(&dep, &page);
    assert_eq!(d.time, "12:30");
    assert_eq!(d.line, "M4");
    assert_eq!(d.platform, Some(s("2")));
    assert_eq!(d.status, "delayed +4'");
    assert_eq!(d.information, vec![s("Lift out of order")]);
    let plain = departure_detail_from_page(&dep, "<html><body></body></html>");
    assert_eq!(plain.status, "on time");
    assert!(plain.information.is_empty());
}

#[test]
fn disruptions_are_merged_sorted_and_distinct() {
    let sd = station_detail_from(vec![detail("M4", vec!["b", "a"]), detail("M4", vec!["a"])]);
    assert_eq!(sd.disruptions, vec![s("a"), s("b")]);
    assert_eq!(sd.departures.len(), 2);
}

#[test]
fn bounded_fetch_never_exceeds_the_ceiling() {
    let mut fetch = DetailFetch::new(5, 2);
    let mut running: Vec<usize> = Vec::new();
    let mut started: Vec<usize> = Vec::new();
    let mut most = 0;
    loop {
        while fetch.can_dispatch() {
            let i = fetch.dispatch();
            started.push(i);
            running.push(i);
            most = most.max(running.len());
        }
        if fetch.is_done() {
            break;
        }
        // the most recently started fetch answers first
        let i = running.pop().unwrap();
        fetch.complete(Ok(detail("M4", vec![if i % 2 == 0 { "even" } else { "odd" }])));
    }
    assert!(most <= 2);
    assert_eq!(started, vec![0, 1, 2, 3, 4]);
    let sd = fetch.finish().ok().unwrap();
    assert_eq!(sd.departures.len(), 5);
    assert_eq!(sd.disruptions, vec![s("even"), s("odd")]);
}

#[test]
fn bounded_fetch_reports_the_first_failure() {
    let mut fetch = DetailFetch::new(5, 2);
    fetch.dispatch();
    fetch.dispatch();
    assert!(!fetch.can_dispatch());
    fetch.complete(Ok(detail("M4", vec![])));
    fetch.dispatch();
    fetch.complete(Err(ZbbError::network(s("first"))));
    assert!(!fetch.can_dispatch());
    assert!(!fetch.is_done());
    fetch.complete(Err(ZbbError::network(s("second"))));
    assert!(fetch.is_done());
    match fetch.finish() {
        Err(ZbbError::NetworkError { message }) => assert_eq!(message, "first"),
        _ => panic!("expected the first failure"),
    }
}

#[test]
fn search_overview_detail_scenario() {
    let stations = stations_from_page(SEARCH_PAGE).ok().unwrap();
    assert_eq!(stations.len(), 2);
    let overview = station_overview_from_page(&stations[0], OVERVIEW_PAGE).ok().unwrap();
    let lines = available_lines(&overview);
    assert_eq!(lines, vec![s("M4"), s("M5")]);
    let wanted = departures_for_line(&overview, &s("M4"));
    assert_eq!(wanted.len(), 3);
    let pages = vec![detail_page("12:30\u{b1}0'", &[]), detail_page("12:40+3'", &[]), detail_page("12:50", &[])];
    let mut fetch = DetailFetch::new(wanted.len(), DETAIL_CONCURRENCY);
    let mut running: Vec<usize> = Vec::new();
    while !fetch.is_done() {
        while fetch.can_dispatch() {
            running.push(fetch.dispatch());
        }
        let i = running.remove(0);
        fetch.complete(Ok(departure_detail_from_page(&wanted[i], &pages[i])));
    }
    let sd = fetch.finish().ok().unwrap();
    assert_eq!(sd.departures.len(), 3);
    assert!(sd.disruptions.is_empty());
    let statuses: Vec<&str> = sd.departures.iter().map(|d| d.status.as_str()).collect();
    assert_eq!(statuses, vec!["on time", "delayed +3'", "on time"]);
}

fn table_detail(line: &str, time: &str, status: &str, direction: &str, platform: Option<&str>) -> DepartureDetail {
    DepartureDetail {
        time: s(time),
        line: s(line),
        direction: s(direction),
        platform: platform.map(s),
        status: s(status),
        information: vec![],
    }
}

#[test]
fn column_padding_reaches_the_width() {
    assert_eq!(column_padding("Line", 10, false), "      ");
    assert_eq!(column_padding("Line", 10, true), "         ");
    assert_eq!(column_padding("Departure", 3, false), "");
    assert_eq!(column_padding("Departure", 3, true), "   ");
}

#[test]
fn header_padding_follows_the_widest_field() {
    let ds = vec![
        table_detail("M4", "12:30", "on time", "Hackescher Markt", None),
        table_detail("RE1", "12:40", "delayed +3'", "Falkenberg", None),
    ];
    assert_eq!(padding_for_header(&ds, Column::Status, "Status"), " ".repeat(5 + 3));
    assert_eq!(padding_for_header(&ds, Column::Line, "Line"), "   ");
}

#[test]
fn departure_table_lays_out_columns() {
    let ds = vec![
        table_detail("M4", "12:30", "on time", "Hackescher Markt", Some("2")),
        table_detail("M4", "12:40", "delayed +3'", "Falkenberg", None),
    ];
    let lines = departure_table(&ds);
    assert_eq!(lines.len(), 5);
    let header = "Line   Departure   Status        Direction          Platform";
    assert_eq!(lines[0], header);
    assert_eq!(lines[1], "-".repeat(header.chars().count()));
    assert_eq!(lines[2], "M4     12:30       on time       Hackescher Markt   2");
    assert_eq!(lines[3], "M4     12:40       delayed +3'   Falkenberg         ");
    assert_eq!(lines[4], lines[1]);
}

#[test]
fn long_notices_are_cut() {
    assert_eq!(sentence_chunks("short", 10), "short");
    assert_eq!(sentence_chunks("abcdef", 3), "abc-\ndef");
    assert_eq!(sentence_chunks("abcdefgh", 3), "abc-\ndef-\ngh");
    assert_eq!(sentence_chunks("abc", 3), "abc-\n");
}

#[test]
fn banner_lists_each_notice() {
    assert_eq!(disruption_banner(&vec![]), "");
    assert_eq!(disruption_banner(&vec![s("a"), s("b")]), "- a\n\n- b");
    let long = "x".repeat(150);
    assert_eq!(disruption_banner(&vec![long.clone()]), format!("- {}-\n{}", &long[..100], &long[100..]));
}

#[test]
fn choice_labels_are_numbered_from_one() {
    assert_eq!(choice_label(0, 2, &s("Alexanderplatz")), "[1] Alexanderplatz");
    assert_eq!(choice_label(1, 2, &s("M5")), "[2] M5");
    assert_eq!(choice_label(8, 12, &s("x")), "[9]  x");
    assert_eq!(choice_label(9, 12, &s("y")), "[10] y");
    assert_eq!(choice_label(119, 120, &s("z")), "[120] z");
}

#[test]
fn typed_choices_are_checked_against_the_menu() {
    assert_eq!(parse_choice("2\n", 3), Some(2));
    assert_eq!(parse_choice("+3 \r\n", 3), Some(3));
    assert_eq!(parse_choice("007", 10), Some(7));
    assert_eq!(parse_choice("0", 3), None);
    assert_eq!(parse_choice("4", 3), None);
    assert_eq!(parse_choice(" 2", 3), None);
    assert_eq!(parse_choice("", 3), None);
    assert_eq!(parse_choice("+", 3), None);
    assert_eq!(parse_choice("2a", 3), None);
    assert_eq!(parse_choice("99999999999999999999999", 3), None);
    assert_eq!(parse_choice("18446744073709551615", usize::MAX), Some(usize::MAX));
}
