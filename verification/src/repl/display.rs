//! Tables in the terminal.
use vstd::prelude::*;

use crate::json::{json_member, json_string, json_text, member, string_of, value_text};
use crate::text::{decimal, decimal_text, signed_decimal, signed_decimal_text, texts};

verus! {

/// The rows of a table, as text.
pub open spec fn row_texts(rows: Seq<Vec<String>>) -> Seq<Seq<Seq<char>>> {
    Seq::new(rows.len(), |i: int| texts(rows[i]@))
}

/// The table that is drawn for headers and rows.
pub uninterp spec fn drawn(headers: Seq<Seq<char>>, rows: Seq<Seq<Seq<char>>>) -> Seq<char>;

/// Draws a table.
///
/// Calls `comfy_table::Table` for a table in its default style, with a header
/// and rows added, and its `to_string`. Claims that what is drawn depends on the
/// texts of the headers and of the rows alone: the default arrangement does not
/// look at the terminal.
#[verifier::external_body]
pub(crate) fn draw(headers: Vec<String>, rows: Vec<Vec<String>>) -> (r: String)
    ensures
        r@ == drawn(texts(headers@), row_texts(rows@)),
{
    let mut t = comfy_table::Table::new();
    t.set_header(headers);
    t.add_rows(rows);
    t.to_string()
}

fn owned(v: &[&str]) -> (r: Vec<String>)
    ensures
        texts(r@) == crate::repl::flags::word_texts(v@),
{
    let n: usize = v.len();
    let mut out: Vec<String> = Vec::new();
    let mut i: usize = 0;
    let ghost all = crate::repl::flags::word_texts(v@);
    while i < n
        invariant
            n == v@.len(),
            i <= n,
            all == crate::repl::flags::word_texts(v@),
            texts(out@) == all.take(i as int),
        decreases n - i,
    {
        let ghost before = out@;
        out.push(v[i].to_owned());
        assert(texts(out@) =~= texts(before).push(v@[i as int]@));
        i += 1;
        assert(all.take(i as int) =~= all.take(i - 1).push(all[i - 1]));
    }
    assert(all.take(i as int) =~= all);
    out
}

/// A table with the given headers and rows.
pub fn table(headers: &[&str], rows: Vec<Vec<String>>) -> (r: String)
    ensures
        r@ == drawn(crate::repl::flags::word_texts(headers@), row_texts(rows@)),
{
    draw(owned(headers), rows)
}

/// A value of a data frame.
#[derive(Debug)]
pub enum CellValue {
    Null,
    Int(i64),
    /// A number that is not whole, written with six decimals.
    Float(String),
    Bool(bool),
    Text(String),
    /// A value of any other type.
    Opaque,
}

impl CellValue {
    /// What is shown of a value.
    pub open spec fn shown(self) -> Seq<char> {
        match self {
            CellValue::Null => "\u{2205}"@,
            CellValue::Int(n) => signed_decimal(n as int),
            CellValue::Float(s) => s@,
            CellValue::Bool(b) => if b {
                "true"@
            } else {
                "false"@
            },
            CellValue::Text(s) => s@,
            CellValue::Opaque => "<opaque>"@,
        }
    }

    /// What is shown of a value.
    pub fn show(&self) -> (r: String)
        ensures
            r@ == self.shown(),
    {
        match self {
            CellValue::Null => "\u{2205}".to_owned(),
            CellValue::Int(n) => signed_decimal_text(*n),
            CellValue::Float(s) => s.as_str().to_owned(),
            CellValue::Bool(b) => if *b {
                "true".to_owned()
            } else {
                "false".to_owned()
            },
            CellValue::Text(s) => s.as_str().to_owned(),
            CellValue::Opaque => "<opaque>".to_owned(),
        }
    }
}

/// A data frame, by columns.
#[derive(Debug)]
pub struct Frame {
    pub headers: Vec<String>,
    pub columns: Vec<Vec<CellValue>>,
    pub num_rows: usize,
}

impl Frame {
    /// Every column has a header and as many values as there are rows.
    pub open spec fn inv(self) -> bool {
        &&& self.headers@.len() == self.columns@.len()
        &&& forall|c: int| 0 <= c < self.columns@.len() ==> (#[trigger] self.columns@[c])@.len() == self.num_rows
    }

    /// What is shown of a row.
    pub open spec fn row_shown(self, r: int) -> Seq<Seq<char>> {
        Seq::new(self.columns@.len(), |c: int| self.columns@[c]@[r].shown())
    }

    /// How many rows are shown.
    pub open spec fn shown_rows(self, max_rows: usize) -> nat {
        if self.num_rows <= max_rows {
            self.num_rows as nat
        } else {
            max_rows as nat
        }
    }
}

/// What is shown of the value at a column and a row.
pub fn cell(frame: &Frame, col: usize, row: usize) -> (r: String)
    requires
        frame.inv(),
        col < frame.columns@.len(),
        row < frame.num_rows,
    ensures
        r@ == frame.columns@[col as int]@[row as int].shown(),
{
    assert(frame.columns@[col as int]@.len() == frame.num_rows);
    frame.columns[col][row].show()
}

/// The first rows of a data frame, as they are shown.
pub fn preview_rows(frame: &Frame, max_rows: usize) -> (r: Vec<Vec<String>>)
    requires
        frame.inv(),
    ensures
        row_texts(r@) == Seq::new(frame.shown_rows(max_rows), |i: int| frame.row_shown(i)),
{
    let shown: usize = if frame.num_rows <= max_rows { frame.num_rows } else { max_rows };
    let cols: usize = frame.columns.len();
    let mut out: Vec<Vec<String>> = Vec::new();
    let mut i: usize = 0;
    while i < shown
        invariant
            frame.inv(),
            i <= shown <= frame.num_rows,
            cols == frame.columns@.len(),
            row_texts(out@) == Seq::new(i as nat, |k: int| frame.row_shown(k)),
        decreases shown - i,
    {
        let mut row: Vec<String> = Vec::new();
        let mut c: usize = 0;
        while c < cols
            invariant
                frame.inv(),
                i < frame.num_rows,
                c <= cols == frame.columns@.len(),
                texts(row@) == frame.row_shown(i as int).take(c as int),
            decreases cols - c,
        {
            let ghost before = row@;
            let s = cell(frame, c, i);
            let ghost t = s@;
            row.push(s);
            assert(texts(row@) =~= texts(before).push(t));
            c += 1;
            assert(texts(row@) =~= frame.row_shown(i as int).take(c as int));
        }
        assert(frame.row_shown(i as int).take(c as int) =~= frame.row_shown(i as int));
        let ghost before = out@;
        let ghost rt = texts(row@);
        out.push(row);
        assert(row_texts(out@) =~= row_texts(before).push(rt));
        i += 1;
        assert(row_texts(out@) =~= Seq::new(i as nat, |k: int| frame.row_shown(k)));
    }
    out
}

/// What follows a preview: how many rows are not shown, where there are any.
pub open spec fn more_rows(hidden: nat) -> Seq<char> {
    if hidden == 0 {
        Seq::empty()
    } else {
        "\n\u{2026} "@ + decimal(hidden) + " more rows"@
    }
}

fn copied(v: &Vec<String>) -> (r: Vec<String>)
    ensures
        texts(r@) == texts(v@),
{
    let mut out: Vec<String> = Vec::new();
    let mut i: usize = 0;
    let ghost all = texts(v@);
    while i < v.len()
        invariant
            i <= v@.len(),
            all == texts(v@),
            texts(out@) == all.take(i as int),
        decreases v@.len() - i,
    {
        let ghost before = out@;
        out.push(v[i].as_str().to_owned());
        assert(texts(out@) =~= texts(before).push(v@[i as int]@));
        i += 1;
        assert(all.take(i as int) =~= all.take(i - 1).push(all[i - 1]));
    }
    assert(all.take(i as int) =~= all);
    out
}

/// The first rows of a data frame as a table, and how many more there are.
pub fn dataframe_preview(frame: &Frame, max_rows: usize) -> (r: String)
    requires
        frame.inv(),
    ensures
        r@ == drawn(
            texts(frame.headers@),
            Seq::new(frame.shown_rows(max_rows), |i: int| frame.row_shown(i)),
        ) + more_rows((frame.num_rows - frame.shown_rows(max_rows)) as nat),
{
    let shown: usize = if frame.num_rows <= max_rows { frame.num_rows } else { max_rows };
    let mut out = draw(copied(&frame.headers), preview_rows(frame, max_rows));
    let ghost head = out@;
    if frame.num_rows > shown {
        out.append("\n\u{2026} ");
        out.append(&decimal_text((frame.num_rows - shown) as u64));
        out.append(" more rows");
        assert(out@ =~= head + more_rows((frame.num_rows - shown) as nat));
    } else {
        assert(out@ =~= head + more_rows(0));
    }
    out
}

/// What is known of a station.
#[derive(Debug)]
pub struct StationInfo {
    /// The kind of its store, where it says so.
    pub backend: Option<String>,
    /// Its latest values, in JSON.
    pub latest_raw: String,
    pub latest_processed: String,
}

/// Reads what is known of a station from its description.
pub fn station_info(description: &serde_json::Value) -> (r: StationInfo)
    ensures
        ({
            let backend = json_string(json_member(*description, "backend"@));
            &&& r.backend is Some <==> backend is Some
            &&& r.backend matches Some(b) ==> backend == Some(b@)
            &&& r.latest_raw@ == json_text(json_member(*description, "latest_raw"@))
            &&& r.latest_processed@ == json_text(json_member(*description, "latest_processed"@))
        }),
{
    let backend: Option<String> = match string_of(member(description, "backend")) {
        Some(s) => Some(s.to_owned()),
        None => None,
    };
    StationInfo {
        backend,
        latest_raw: value_text(member(description, "latest_raw")),
        latest_processed: value_text(member(description, "latest_processed")),
    }
}

/// The row of a station in a list: question marks for what is not known.
pub open spec fn station_row_text(id: Seq<char>, info: Option<StationInfo>) -> Seq<Seq<char>> {
    match info {
        Some(i) => seq![
            id,
            match i.backend {
                Some(b) => b@,
                None => "?"@,
            },
            i.latest_raw@,
            i.latest_processed@,
        ],
        None => seq![id, "?"@, "?"@, "?"@],
    }
}

/// The row of a station in a list.
pub fn station_row(id: &str, info: &Option<StationInfo>) -> (r: Vec<String>)
    ensures
        texts(r@) == station_row_text(id@, *info),
{
    let mut row: Vec<String> = Vec::new();
    row.push(id.to_owned());
    match info {
        Some(i) => {
            match &i.backend {
                Some(b) => row.push(b.as_str().to_owned()),
                None => row.push("?".to_owned()),
            }
            row.push(i.latest_raw.as_str().to_owned());
            row.push(i.latest_processed.as_str().to_owned());
        },
        None => {
            row.push("?".to_owned());
            row.push("?".to_owned());
            row.push("?".to_owned());
        },
    }
    assert(texts(row@) =~= station_row_text(id@, *info));
    row
}

/// The list of stations.
pub fn station_table(rows: Vec<Vec<String>>) -> (r: String)
    ensures
        r@ == drawn(seq!["station"@, "backend"@, "latest_raw"@, "latest_processed"@], row_texts(rows@)),
{
    let mut headers: Vec<String> = Vec::new();
    headers.push("station".to_owned());
    headers.push("backend".to_owned());
    headers.push("latest_raw".to_owned());
    headers.push("latest_processed".to_owned());
    assert(texts(headers@) =~= seq!["station"@, "backend"@, "latest_raw"@, "latest_processed"@]);
    draw(headers, rows)
}

/// A line that says that a command succeeded.
pub fn ok(msg: &str) -> (r: String)
    ensures
        r@ == msg@,
{
    msg.to_owned()
}

} // verus!
