//! The text of the departure table and of the notice banner. Printing,
//! colour and style are left to the caller.
use vstd::prelude::*;
use vstd::string::*;
use crate::models::{strings_view, DepartureDetail};
use crate::text::{chars_of, string_of};

verus! {

pub const LINE_COLUMN: &'static str = "Line";
pub const DEPARTURE_COLUMN: &'static str = "Departure";
pub const DIRECTION_COLUMN: &'static str = "Direction";
pub const STATUS_COLUMN: &'static str = "Status";
pub const PLATFORM_COLUMN: &'static str = "Platform";

/// Widest field a table is laid out for.
pub const MAX_WIDTH: usize = 0x1000_0000;

/// Longest line of a notice before it is cut.
pub const NOTICE_WIDTH: usize = 100;

pub open spec fn spaces(n: nat) -> Seq<char> {
    Seq::new(n, |_i: int| ' ')
}

pub open spec fn dashes(n: nat) -> Seq<char> {
    Seq::new(n, |_i: int| '-')
}

/// Spaces that bring a label of `label_len` characters to `width`, and three
/// more after a header.
pub open spec fn padding_len(label_len: int, width: int, header: bool) -> nat {
    ((if width > label_len { width - label_len } else { 0 }) + (if header { 3int } else { 0int })) as nat
}

fn repeat_char(c: char, n: usize) -> (r: String)
    ensures
        r@ == Seq::new(n as nat, |_i: int| c),
{
    let mut v: Vec<char> = Vec::new();
    let mut i: usize = 0;
    while i < n
        invariant
            i <= n,
            v@ == Seq::new(i as nat, |_i: int| c),
        decreases n - i,
    {
        v.push(c);
        i = i + 1;
        assert(v@ =~= Seq::new(i as nat, |_i: int| c));
    }
    string_of(&v)
}

/// The spaces that follow `column_name` in a column `max_item_length` wide.
pub fn column_padding(column_name: &str, max_item_length: usize, header_mode: bool) -> (r: String)
    requires
        max_item_length <= usize::MAX - 3,
    ensures
        r@ == spaces(padding_len(column_name@.len() as int, max_item_length as int, header_mode)),
{
    let label_len = column_name.unicode_len();
    let padding_size = if max_item_length > label_len {
        max_item_length - label_len
    } else {
        0
    };
    let extra: usize = if header_mode { 3 } else { 0 };
    repeat_char(' ', padding_size + extra)
}

/// A column of the departure table.
pub enum Column {
    Line,
    Departure,
    Status,
    Direction,
}

pub open spec fn field_of(d: DepartureDetail, c: Column) -> Seq<char> {
    match c {
        Column::Line => d.line@,
        Column::Departure => d.time@,
        Column::Status => d.status@,
        Column::Direction => d.direction@,
    }
}

pub fn field<'a>(d: &'a DepartureDetail, c: &Column) -> (r: &'a String)
    ensures
        r@ == field_of(*d, *c),
{
    match c {
        Column::Line => &d.line,
        Column::Departure => &d.time,
        Column::Status => &d.status,
        Column::Direction => &d.direction,
    }
}

/// The most characters a departure of `ds` has in column `c`.
pub open spec fn widest(ds: Seq<DepartureDetail>, c: Column) -> nat
    decreases ds.len(),
{
    if ds.len() == 0 {
        0
    } else {
        let w = field_of(ds.last(), c).len();
        let rest = widest(ds.drop_last(), c);
        if w > rest {
            w
        } else {
            rest
        }
    }
}

/// Every field of every departure fits the table.
pub open spec fn fits(ds: Seq<DepartureDetail>) -> bool {
    forall|k: int, c: Column| 0 <= k < ds.len() ==> (#[trigger] field_of(ds[k], c)).len() <= MAX_WIDTH
}

proof fn lemma_widest_fits(ds: Seq<DepartureDetail>, c: Column)
    requires
        fits(ds),
    ensures
        widest(ds, c) <= MAX_WIDTH,
    decreases ds.len(),
{
    if ds.len() > 0 {
        assert(field_of(ds[ds.len() - 1], c).len() <= MAX_WIDTH);
        lemma_widest_fits(ds.drop_last(), c);
    }
}

/// The padding after a header, sized for the widest departure in its column.
pub fn padding_for_header(departures: &Vec<DepartureDetail>, column: Column, header_label: &str) -> (r: String)
    requires
        departures@.len() > 0,
        fits(departures@),
    ensures
        r@ == spaces(padding_len(header_label@.len() as int, widest(departures@, column) as int, true)),
{
    let ghost ds = departures@;
    let mut most: usize = 0;
    let mut i: usize = 0;
    while i < departures.len()
        invariant
            i <= ds.len(),
            ds == departures@,
            fits(ds),
            most == widest(ds.subrange(0, i as int), column),
            most <= MAX_WIDTH,
        decreases ds.len() - i,
    {
        assert(ds.subrange(0, i + 1).drop_last() == ds.subrange(0, i as int));
        assert(field_of(ds[i as int], column).len() <= MAX_WIDTH);
        let w = field(&departures[i], &column).as_str().unicode_len();
        if w > most {
            most = w;
        }
        i = i + 1;
    }
    assert(ds.subrange(0, ds.len() as int) == ds);
    column_padding(header_label, most, true)
}

/// Width of a column: its header and the padding after it.
pub open spec fn column_width(ds: Seq<DepartureDetail>, c: Column, label: Seq<char>) -> nat {
    label.len() + padding_len(label.len() as int, widest(ds, c) as int, true)
}

pub open spec fn header_of(ds: Seq<DepartureDetail>) -> Seq<char> {
    LINE_COLUMN@ + spaces(padding_len(LINE_COLUMN@.len() as int, widest(ds, Column::Line) as int, true))
        + DEPARTURE_COLUMN@ + spaces(padding_len(DEPARTURE_COLUMN@.len() as int, widest(ds, Column::Departure) as int, true))
        + STATUS_COLUMN@ + spaces(padding_len(STATUS_COLUMN@.len() as int, widest(ds, Column::Status) as int, true))
        + DIRECTION_COLUMN@ + spaces(padding_len(DIRECTION_COLUMN@.len() as int, widest(ds, Column::Direction) as int, true))
        + PLATFORM_COLUMN@
}

pub open spec fn platform_text(d: DepartureDetail) -> Seq<char> {
    match d.platform {
        Some(p) => p@,
        None => Seq::empty(),
    }
}

/// One row: each field, padded to its column's width, then the platform.
pub open spec fn row_of(d: DepartureDetail, ds: Seq<DepartureDetail>) -> Seq<char> {
    d.line@ + spaces(padding_len(d.line@.len() as int, column_width(ds, Column::Line, LINE_COLUMN@) as int, false))
        + d.time@ + spaces(padding_len(d.time@.len() as int, column_width(ds, Column::Departure, DEPARTURE_COLUMN@) as int, false))
        + d.status@ + spaces(padding_len(d.status@.len() as int, column_width(ds, Column::Status, STATUS_COLUMN@) as int, false))
        + d.direction@ + spaces(padding_len(d.direction@.len() as int, column_width(ds, Column::Direction, DIRECTION_COLUMN@) as int, false))
        + platform_text(d)
}

/// The lines of the departure table: the header, a rule as long as the
/// header, one row per departure in order, and the rule again.
pub fn departure_table(departures: &Vec<DepartureDetail>) -> (r: Vec<String>)
    requires
        departures@.len() > 0,
        fits(departures@),
    ensures
        r@.len() == departures@.len() + 3,
        r@[0]@ == header_of(departures@),
        r@[1]@ == dashes(header_of(departures@).len()),
        r@[r@.len() - 1]@ == dashes(header_of(departures@).len()),
        forall|k: int| 0 <= k < departures@.len() ==> (#[trigger] r@[k + 2])@ == row_of(departures@[k], departures@),
{
    let ghost ds = departures@;
    proof {
        reveal_strlit("Line");
        reveal_strlit("Departure");
        reveal_strlit("Status");
        reveal_strlit("Direction");
        reveal_strlit("Platform");
        lemma_widest_fits(ds, Column::Line);
        lemma_widest_fits(ds, Column::Departure);
        lemma_widest_fits(ds, Column::Status);
        lemma_widest_fits(ds, Column::Direction);
    }
    let line_pad = padding_for_header(departures, Column::Line, LINE_COLUMN);
    let line_len = LINE_COLUMN.unicode_len() + line_pad.as_str().unicode_len();
    let departure_pad = padding_for_header(departures, Column::Departure, DEPARTURE_COLUMN);
    let departure_len = DEPARTURE_COLUMN.unicode_len() + departure_pad.as_str().unicode_len();
    let status_pad = padding_for_header(departures, Column::Status, STATUS_COLUMN);
    let status_len = STATUS_COLUMN.unicode_len() + status_pad.as_str().unicode_len();
    let direction_pad = padding_for_header(departures, Column::Direction, DIRECTION_COLUMN);
    let direction_len = DIRECTION_COLUMN.unicode_len() + direction_pad.as_str().unicode_len();
    let header = String::from_str(LINE_COLUMN).concat(line_pad.as_str()).concat(DEPARTURE_COLUMN).concat(
        departure_pad.as_str(),
    ).concat(STATUS_COLUMN).concat(status_pad.as_str()).concat(DIRECTION_COLUMN).concat(
        direction_pad.as_str(),
    ).concat(PLATFORM_COLUMN);
    let header_len = header.as_str().unicode_len();
    let mut lines: Vec<String> = Vec::new();
    lines.push(header);
    lines.push(repeat_char('-', header_len));
    let mut i: usize = 0;
    while i < departures.len()
        invariant
            i <= ds.len(),
            ds == departures@,
            fits(ds),
            line_len == column_width(ds, Column::Line, LINE_COLUMN@),
            departure_len == column_width(ds, Column::Departure, DEPARTURE_COLUMN@),
            status_len == column_width(ds, Column::Status, STATUS_COLUMN@),
            direction_len == column_width(ds, Column::Direction, DIRECTION_COLUMN@),
            line_len <= MAX_WIDTH + 16 && departure_len <= MAX_WIDTH + 16,
            status_len <= MAX_WIDTH + 16 && direction_len <= MAX_WIDTH + 16,
            lines@.len() == i + 2,
            lines@[0]@ == header_of(ds),
            lines@[1]@ == dashes(header_of(ds).len()),
            forall|k: int| 0 <= k < i ==> (#[trigger] lines@[k + 2])@ == row_of(ds[k], ds),
        decreases ds.len() - i,
    {
        let d = &departures[i];
        proof {
            reveal_strlit("");
        }
        let platform = match &d.platform {
            Some(p) => p.as_str(),
            None => "",
        };
        let row = d.line.clone().concat(column_padding(d.line.as_str(), line_len, false).as_str()).concat(
            d.time.as_str(),
        ).concat(column_padding(d.time.as_str(), departure_len, false).as_str()).concat(
            d.status.as_str(),
        ).concat(column_padding(d.status.as_str(), status_len, false).as_str()).concat(
            d.direction.as_str(),
        ).concat(column_padding(d.direction.as_str(), direction_len, false).as_str()).concat(platform);
        assert(platform@ == platform_text(ds[i as int]));
        assert(row@ == row_of(ds[i as int], ds));
        let ghost prev = lines@;
        lines.push(row);
        assert forall|k: int| 0 <= k < i + 1 implies (#[trigger] lines@[k + 2])@ == row_of(ds[k], ds) by {
            if k < i {
                assert(lines@[k + 2] == prev[k + 2]);
            }
        }
        i = i + 1;
    }
    lines.push(repeat_char('-', header_len));
    lines
}

/// `s` cut into lines of `n` characters, each cut marked by `-` and a line
/// break, once `s` holds at least `n` characters.
pub open spec fn chunks(s: Seq<char>, n: nat) -> Seq<char>
    decreases s.len(),
{
    if n == 0 || s.len() < n {
        s
    } else {
        let head = s.subrange(0, n as int);
        let tail = s.subrange(n as int, s.len() as int);
        if tail.len() > n {
            head + seq!['-', '\n'] + chunks(tail, n)
        } else {
            head + seq!['-', '\n'] + tail
        }
    }
}

fn chunk_chars(v: &Vec<char>, start: usize, n: usize) -> (r: Vec<char>)
    requires
        n > 0,
        start <= v@.len(),
    ensures
        r@ == chunks(v@.subrange(start as int, v@.len() as int), n as nat),
    decreases v@.len() - start,
{
    let ghost s = v@.subrange(start as int, v@.len() as int);
    let len = v.len() - start;
    let mut out: Vec<char> = Vec::new();
    if len < n {
        let mut j: usize = start;
        while j < v.len()
            invariant
                start <= j <= v@.len(),
                out@ == v@.subrange(start as int, j as int),
            decreases v@.len() - j,
        {
            out.push(v[j]);
            j = j + 1;
        }
        return out;
    }
    let end = start + n;
    let mut j: usize = start;
    while j < end
        invariant
            end == start + n,
            start <= j <= start + n <= v@.len(),
            out@ == v@.subrange(start as int, j as int),
        decreases start + n - j,
    {
        out.push(v[j]);
        j = j + 1;
    }
    assert(out@ == s.subrange(0, n as int));
    out.push('-');
    out.push('\n');
    let ghost tail = s.subrange(n as int, s.len() as int);
    assert(tail == v@.subrange(start + n, v@.len() as int));
    let rest = if len - n > n {
        chunk_chars(v, start + n, n)
    } else {
        let mut t: Vec<char> = Vec::new();
        let mut k: usize = start + n;
        while k < v.len()
            invariant
                start + n <= k <= v@.len(),
                t@ == v@.subrange(start + n, k as int),
            decreases v@.len() - k,
        {
            t.push(v[k]);
            k = k + 1;
        }
        t
    };
    let ghost pre = out@;
    let mut k: usize = 0;
    while k < rest.len()
        invariant
            k <= rest@.len(),
            out@ == pre + rest@.subrange(0, k as int),
        decreases rest@.len() - k,
    {
        out.push(rest[k]);
        k = k + 1;
        assert(out@ =~= pre + rest@.subrange(0, k as int));
    }
    assert(rest@.subrange(0, rest@.len() as int) == rest@);
    assert(pre =~= s.subrange(0, n as int) + seq!['-', '\n']);
    out
}

/// A notice cut into lines of `max_line_len` characters.
pub fn sentence_chunks(s: &str, max_line_len: usize) -> (r: String)
    requires
        max_line_len > 0,
    ensures
        r@ == chunks(s@, max_line_len as nat),
{
    let v = chars_of(s);
    assert(v@.subrange(0, v@.len() as int) == v@);
    string_of(&chunk_chars(&v, 0, max_line_len))
}

/// The notices, each on its own paragraph after `- `, cut to the notice width.
pub open spec fn banner_of(notices: Seq<Seq<char>>) -> Seq<char>
    decreases notices.len(),
{
    if notices.len() == 0 {
        Seq::empty()
    } else if notices.len() == 1 {
        seq!['-', ' '] + chunks(notices[0], NOTICE_WIDTH as nat)
    } else {
        banner_of(notices.drop_last()) + seq!['\n', '\n', '-', ' '] + chunks(notices.last(), NOTICE_WIDTH as nat)
    }
}

/// The banner text for the station's notices.
pub fn disruption_banner(disruptions: &Vec<String>) -> (r: String)
    ensures
        r@ == banner_of(strings_view(disruptions@)),
{
    let ghost all = strings_view(disruptions@);
    proof {
        reveal_strlit("- ");
        reveal_strlit("\n\n- ");
    }
    let mut out = String::new();
    let mut i: usize = 0;
    while i < disruptions.len()
        invariant
            i <= all.len(),
            all == strings_view(disruptions@),
            out@ == banner_of(all.subrange(0, i as int)),
        decreases all.len() - i,
    {
        let ghost pre = all.subrange(0, i + 1);
        assert(pre.drop_last() == all.subrange(0, i as int));
        assert(pre.last() == disruptions@[i as int]@);
        let chunked = sentence_chunks(disruptions[i].as_str(), NOTICE_WIDTH);
        proof {
            reveal_strlit("- ");
            reveal_strlit("\n\n- ");
        }
        if i == 0 {
            assert(pre[0] == pre.last());
            out = String::from_str("- ").concat(chunked.as_str());
            assert("- "@ =~= seq!['-', ' ']);
        } else {
            out = out.concat("\n\n- ").concat(chunked.as_str());
            assert("\n\n- "@ =~= seq!['\n', '\n', '-', ' ']);
        }
        i = i + 1;
    }
    assert(all.subrange(0, all.len() as int) == all);
    out
}

} // verus!
