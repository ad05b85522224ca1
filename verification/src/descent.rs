//! Importing descent (and climb) values for activities from a table of
//! comma-separated values exported by a device vendor.

use vstd::prelude::*;
use crate::activity::{Activity, Factor, registered, can_register, registrable, started_at};
use crate::error::Error;
use crate::session::Session;
use crate::store::MemStore;
use crate::summary::{Summary, Keyed, has_key};
use crate::timestamp::Timestamp;
use crate::usage::fits_i32;
use crate::seqs::first_where;

verus! {

/// Whether `c` is a decimal digit.
pub open spec fn is_digit(c: char) -> bool {
    '0' <= c && c <= '9'
}

/// The value of the decimal digits `s` (most significant first).
pub open spec fn digits_value(s: Seq<char>) -> int
    decreases s.len(),
{
    if s.len() == 0 {
        0
    } else {
        digits_value(s.drop_last()) * 10 + (s.last() as int - '0' as int)
    }
}

/// Every character of `s` is a decimal digit.
pub open spec fn all_digits(s: Seq<char>) -> bool {
    forall|i: int| 0 <= i < s.len() ==> is_digit(#[trigger] s[i])
}

/// The integer written in `s`: an optional `+` or `-` followed by at least
/// one decimal digit, nothing else; `None` for any other text.
pub open spec fn int_text_value(s: Seq<char>) -> Option<int> {
    if s.len() > 0 && (s[0] == '-' || s[0] == '+') {
        let d = s.skip(1);
        if d.len() > 0 && all_digits(d) {
            Some(if s[0] == '-' { -digits_value(d) } else { digits_value(d) })
        } else {
            None
        }
    } else if s.len() > 0 && all_digits(s) {
        Some(digits_value(s))
    } else {
        None
    }
}

/// The `i32` written in `s` (see `int_text_value`), `None` when there is
/// none or it does not fit.
pub open spec fn i32_text_value(s: Seq<char>) -> Option<i32> {
    match int_text_value(s) {
        Some(v) => if fits_i32(v) { Some(v as i32) } else { None },
        None => None,
    }
}

/// `s` without its dots (thousands separators).
pub open spec fn without_dots(s: Seq<char>) -> Seq<char> {
    s.filter(|c: char| c != '.')
}

/// The smaller of two integers.
pub open spec fn min_int(a: int, b: int) -> int {
    if a < b { a } else { b }
}

/// A digit value capped at `cap` keeps being capped when a digit is appended.
proof fn lemma_capped_step(x: int, d: int, cap: int)
    requires
        x >= 0,
        0 <= d <= 9,
        cap >= 0,
    ensures
        min_int(min_int(x, cap) * 10 + d, cap) == min_int(x * 10 + d, cap),
{
    if x >= cap {
        assert(cap * 10 + d >= cap);
        assert(x * 10 + d >= cap) by (nonlinear_arith)
            requires x >= cap, cap >= 0, d >= 0;
    }
}

/// Digit values are not negative.
proof fn lemma_digits_nonneg(s: Seq<char>)
    requires
        all_digits(s),
    ensures
        digits_value(s) >= 0,
    decreases s.len(),
{
    if s.len() > 0 {
        assert(all_digits(s.drop_last())) by {
            assert forall|i: int| 0 <= i < s.drop_last().len() implies is_digit(#[trigger] s.drop_last()[i]) by {
                assert(s.drop_last()[i] == s[i]);
            }
        }
        lemma_digits_nonneg(s.drop_last());
        assert(is_digit(s[s.len() - 1]));
    }
}

/// The characters of `s` other than dots, in order.
fn strip_dots(s: &str) -> (r: Vec<char>)
    ensures
        r@ == without_dots(s@),
{
    broadcast use vstd::string::axiom_spec_iter;
    let ghost p = |c: char| c != '.';
    let mut r: Vec<char> = Vec::new();
    for c in it: s.chars()
        invariant
            p == (|c: char| c != '.'),
            it.seq() == s@,
            r@ == s@.take(it.index()).filter(p),
    {
        proof {
            let s1 = s@.take(it.index() + 1);
            assert(s1.drop_last() =~= s@.take(it.index()));
            assert(s1.last() == c);
            reveal_with_fuel(Seq::filter, 1);
            if c != '.' {
                assert(s1.filter(p) =~= s@.take(it.index()).filter(p).push(c));
            } else {
                assert(s1.filter(p) =~= s@.take(it.index()).filter(p));
            }
        }
        if c != '.' {
            r.push(c);
        }
    }
    proof { assert(s@.take(s@.len() as int) =~= s@); }
    r
}

/// The `i32` written in `s` once its dots are removed (see
/// `i32_text_value`); `None` when there is none.
pub fn parse_dotted_i32(s: &str) -> (r: Option<i32>)
    ensures
        r == i32_text_value(without_dots(s@)),
{
    let t = strip_dots(s);
    let n: usize = t.len();
    if n == 0 {
        return None;
    }
    let negative: bool = t[0] == '-';
    let start: usize = if t[0] == '-' || t[0] == '+' { 1 } else { 0 };
    if start == n {
        proof { assert(t@.skip(1).len() == 0); }
        return None;
    }
    let cap: i64 = 2_147_483_649i64;
    let mut v: i64 = 0;
    let mut i: usize = start;
    while i < n
        invariant
            start <= i <= n,
            n == t@.len(),
            t@ == without_dots(s@),
            n > 0,
            start == 0 || start == 1,
            (start == 1) == (t@[0] == '-' || t@[0] == '+'),
            negative == (t@[0] == '-'),
            cap == 2_147_483_649i64,
            all_digits(t@.subrange(start as int, i as int)),
            v as int == min_int(digits_value(t@.subrange(start as int, i as int)), cap as int),
            0 <= v <= cap,
        decreases n - i,
    {
        let c = t[i];
        if !('0' <= c && c <= '9') {
            proof {
                let d = t@.skip(start as int);
                assert(d[i - start] == c);
                assert(!is_digit(d[i - start]));
                assert(!all_digits(d));
                if start == 0 {
                    assert(d =~= t@);
                    assert(!(t@[0] == '-' || t@[0] == '+'));
                    assert(int_text_value(t@) is None);
                } else {
                    assert(t@[0] == '-' || t@[0] == '+');
                    assert(int_text_value(t@) is None);
                }
            }
            return None;
        }
        let dv: i64 = (c as i64) - ('0' as i64);
        proof {
            let sub = t@.subrange(start as int, i as int);
            let sub1 = t@.subrange(start as int, i + 1);
            assert(sub1.drop_last() =~= sub);
            assert(sub1.last() == c);
            assert(all_digits(sub1)) by {
                assert forall|k: int| 0 <= k < sub1.len() implies is_digit(#[trigger] sub1[k]) by {
                    if k < sub.len() {
                        assert(sub1[k] == sub[k]);
                    }
                }
            }
            lemma_digits_nonneg(sub);
            lemma_capped_step(digits_value(sub), dv as int, cap as int);
        }
        let next: i64 = v * 10 + dv;
        v = if next < cap { next } else { cap };
        i = i + 1;
    }
    proof {
        let d = t@.subrange(start as int, n as int);
        assert(d =~= t@.skip(start as int));
        if start == 0 {
            assert(d =~= t@);
        }
        lemma_digits_nonneg(d);
    }
    if negative {
        if v > 2_147_483_648i64 {
            return None;
        }
        Some((-v) as i32)
    } else {
        if v > 2_147_483_647i64 {
            return None;
        }
        Some(v as i32)
    }
}


/// The header row and the rows of comma-separated values `data` as the
/// `csv` crate reads them with its default settings (the first row holds
/// the headers; every row must be as long as it): each as its fields,
/// `None` for a row it could not read.
pub uninterp spec fn csv_rows(data: Seq<u8>) -> (Option<Seq<Seq<char>>>, Seq<Option<Seq<Seq<char>>>>);

/// The texts of some strings.
pub open spec fn texts(v: Seq<String>) -> Seq<Seq<char>> {
    v.map_values(|s: String| s@)
}

/// The texts of an optional row of strings.
pub open spec fn opt_texts(v: Option<Vec<String>>) -> Option<Seq<Seq<char>>> {
    match v {
        Some(x) => Some(texts(x@)),
        None => None,
    }
}

/// Read the header row and the rows of comma-separated values with the
/// `csv` crate (`Reader::from_reader`, `headers`, `records`); the fields
/// are handed back as strings, a row the crate reports an error for as `None`.
#[verifier::external_body]
fn read_csv(data: &[u8]) -> (r: (Option<Vec<String>>, Vec<Option<Vec<String>>>))
    ensures
        (opt_texts(r.0), r.1@.map_values(|x: Option<Vec<String>>| opt_texts(x))) == csv_rows(data@),
{
    let mut rdr = csv::Reader::from_reader(data);
    let headers = rdr.headers().ok().map(|h| h.iter().map(|f| f.to_owned()).collect());
    let rows = rdr.records().map(|rec| rec.ok().map(|r| r.iter().map(|f| f.to_owned()).collect())).collect();
    (headers, rows)
}

/// The instant (in nanoseconds since the unix epoch) of the date and time
/// `s`, read in UTC as the format description `format` (version 1) of the
/// `time` crate describes; `None` when `s` does not match it.
pub uninterp spec fn utc_datetime_nanos(s: Seq<char>, format: Seq<char>) -> Option<i128>;

/// Parse a date and time with the `time` crate
/// (`format_description::parse_borrowed::<1>`, `PrimitiveDateTime::parse`,
/// `assume_utc`, `unix_timestamp_nanos`) and read it as an instant in UTC.
#[verifier::external_body]
fn parse_utc_datetime(s: &str, format: &str) -> (r: Option<Timestamp>)
    ensures
        r == match utc_datetime_nanos(s@, format@) {
            Some(n) => Some(Timestamp { nanos: n, offset: 0 }),
            None => None,
        },
{
    let items = time::format_description::parse_borrowed::<1>(format).ok()?;
    let dt = time::PrimitiveDateTime::parse(s, &items).ok()?;
    Some(Timestamp { nanos: dt.assume_utc().unix_timestamp_nanos(), offset: 0 })
}

/// How many headers of `h` are one of `names`, and the index of the last.
pub open spec fn col_scan(h: Seq<Seq<char>>, names: Seq<Seq<char>>) -> (nat, int)
    decreases h.len(),
{
    if h.len() == 0 {
        (0, -1)
    } else {
        let (n, i) = col_scan(h.drop_last(), names);
        if names.contains(h.last()) { (n + 1, h.len() - 1) } else { (n, i) }
    }
}

/// The column of a field known by `names`: `Some(None)` when no header
/// names it, `Some(Some(i))` when exactly header `i` does, `None` when
/// several do.
pub open spec fn column_of(h: Seq<Seq<char>>, names: Seq<Seq<char>>) -> Option<Option<int>> {
    let (n, i) = col_scan(h, names);
    if n == 0 { Some(None) } else if n == 1 { Some(Some(i)) } else { None }
}

fn names_contain(names: &Vec<String>, h: &String) -> (r: bool)
    ensures
        r == texts(names@).contains(h@),
{
    let mut i: usize = 0;
    while i < names.len()
        invariant
            0 <= i <= names@.len(),
            forall|k: int| 0 <= k < i ==> names@[k]@ != h@,
        decreases names@.len() - i,
    {
        if names[i] == *h {
            proof { assert(texts(names@)[i as int] == h@); }
            return true;
        }
        i = i + 1;
    }
    proof {
        assert forall|k: int| 0 <= k < texts(names@).len() implies texts(names@)[k] != h@ by {
            assert(texts(names@)[k] == names@[k]@);
        }
    }
    false
}

/// The column of the field known by `names` (see `column_of`).
fn column(headers: &Vec<String>, names: &Vec<String>) -> (r: Option<Option<usize>>)
    ensures
        r == match column_of(texts(headers@), texts(names@)) {
            None => None,
            Some(None) => Some(None),
            Some(Some(i)) => Some(Some(i as usize)),
        },
{
    let ghost h = texts(headers@);
    let ghost nm = texts(names@);
    let mut count: usize = 0;
    let mut last: usize = 0;
    let mut i: usize = 0;
    while i < headers.len()
        invariant
            0 <= i <= headers@.len(),
            h == texts(headers@),
            nm == texts(names@),
            count as nat == col_scan(h.take(i as int), nm).0,
            count > 0 ==> last as int == col_scan(h.take(i as int), nm).1,
            count <= i,
        decreases headers@.len() - i,
    {
        let hit = names_contain(names, &headers[i]);
        proof {
            assert(h.take(i + 1).drop_last() =~= h.take(i as int));
            assert(h.take(i + 1).last() == headers@[i as int]@);
        }
        if hit {
            count = count + 1;
            last = i;
        }
        i = i + 1;
    }
    proof { assert(h.take(h.len() as int) =~= h); }
    if count == 0 {
        Some(None)
    } else if count == 1 {
        Some(Some(last))
    } else {
        None
    }
}

/// The header names of the fields of a record: start, title, descend, climb.
pub open spec fn field_names() -> Seq<Seq<Seq<char>>> {
    seq![
        seq!["Datum"@, "Date"@],
        seq!["Titel"@, "Title"@],
        seq!["descend"@, "Negativer Höhenunterschied"@, "Abstieg gesamt"@, "Total Descent"@],
        seq!["climb"@],
    ]
}

fn names(a: &str, b: &str, c: &str, d: &str, n: usize) -> (r: Vec<String>)
    requires
        1 <= n <= 4,
    ensures
        texts(r@) == seq![a@, b@, c@, d@].take(n as int),
{
    let mut r: Vec<String> = Vec::new();
    r.push(a.to_owned());
    if n > 1 {
        r.push(b.to_owned());
    }
    if n > 2 {
        r.push(c.to_owned());
    }
    if n > 3 {
        r.push(d.to_owned());
    }
    proof { assert(texts(r@) =~= seq![a@, b@, c@, d@].take(n as int)); }
    r
}

/// The columns of the fields of a record, start, title, descend and
/// optionally climb; `None` when a required field has no column or a field
/// has several.
pub open spec fn record_columns(h: Seq<Seq<char>>) -> Option<(int, int, int, Option<int>)> {
    match (column_of(h, field_names()[0]), column_of(h, field_names()[1]), column_of(h, field_names()[2]),
        column_of(h, field_names()[3])) {
        (Some(Some(a)), Some(Some(b)), Some(Some(c)), Some(d)) => Some((a, b, c, d)),
        _ => None,
    }
}

/// The date and time format of the start field.
pub open spec fn start_format() -> Seq<char> {
    "[year]-[month]-[day] [hour]:[minute]:[second]"@
}

/// A record of the table read: its start (in UTC), its climb when given,
/// its descend, and its description "title at start".
pub struct DescentRecord {
    pub start: Timestamp,
    pub climb: Option<i32>,
    pub descend: i32,
    pub description: String,
}

/// The value of the optional climb field: `None` when there is no column or
/// the field is empty, else the number in it (`None` inside when it is not one).
pub open spec fn climb_value(row: Seq<Seq<char>>, col: Option<int>) -> Option<Option<i32>> {
    match col {
        None => Some(None),
        Some(c) => if row[c].len() == 0 {
            Some(None)
        } else {
            match i32_text_value(without_dots(row[c])) {
                Some(v) => Some(Some(v)),
                None => None,
            }
        },
    }
}

/// What a row of the table says, when it can be read with the columns
/// `cols`: `None` when a field is missing or cannot be parsed.
pub open spec fn row_record(row: Seq<Seq<char>>, cols: (int, int, int, Option<int>)) -> Option<(Timestamp, Option<i32>, i32, Seq<char>)> {
    let (a, b, c, d) = cols;
    if !(0 <= a < row.len() && 0 <= b < row.len() && 0 <= c < row.len()
        && (d matches Some(x) ==> 0 <= x < row.len())) {
        None
    } else {
        match (utc_datetime_nanos(row[a], start_format()), i32_text_value(without_dots(row[c])), climb_value(row, d)) {
            (Some(n), Some(desc), Some(cl)) => Some((Timestamp { nanos: n, offset: 0 }, cl, desc, row[b] + " at "@ + row[a])),
            _ => None,
        }
    }
}

/// Read one row with the given columns (see `row_record`).
fn read_record(row: &Vec<String>, a: usize, b: usize, c: usize, d: Option<usize>) -> (r: Option<DescentRecord>)
    ensures
        r matches Some(x) ==> row_record(texts(row@), (a as int, b as int, c as int, match d { Some(x) => Some(x as int), None => None }))
            == Some((x.start, x.climb, x.descend, x.description@)),
        r is None ==> row_record(texts(row@), (a as int, b as int, c as int, match d { Some(x) => Some(x as int), None => None })) is None,
{
    proof { reveal_strlit(" at "); reveal_strlit("[year]-[month]-[day] [hour]:[minute]:[second]"); }
    let ghost t = texts(row@);
    if !(a < row.len() && b < row.len() && c < row.len()) {
        return None;
    }
    if let Some(x) = d {
        if x >= row.len() {
            return None;
        }
    }
    proof {
        assert(t[a as int] == row@[a as int]@);
        assert(t[b as int] == row@[b as int]@);
        assert(t[c as int] == row@[c as int]@);
    }
    let start = parse_utc_datetime(row[a].as_str(), "[year]-[month]-[day] [hour]:[minute]:[second]");
    let descend = parse_dotted_i32(row[c].as_str());
    let climb: Option<Option<i32>> = match d {
        None => Some(None),
        Some(x) => {
            proof { assert(t[x as int] == row@[x as int]@); }
            if row[x].as_str().is_empty() {
                Some(None)
            } else {
                match parse_dotted_i32(row[x].as_str()) {
                    Some(v) => Some(Some(v)),
                    None => None,
                }
            }
        },
    };
    match (start, descend, climb) {
        (Some(st), Some(de), Some(cl)) => {
            let mut description = String::new();
            crate::text::append_text(&mut description, row[b].as_str());
            crate::text::append_text(&mut description, " at ");
            crate::text::append_text(&mut description, row[a].as_str());
            Some(DescentRecord { start: st, climb: cl, descend: de, description })
        },
        _ => None,
    }
}


/// The index `col_scan` reports is that of a header, when there is a match.
pub proof fn lemma_col_scan_range(h: Seq<Seq<char>>, names: Seq<Seq<char>>)
    ensures
        col_scan(h, names).0 > 0 ==> 0 <= col_scan(h, names).1 < h.len(),
    decreases h.len(),
{
    if h.len() > 0 {
        lemma_col_scan_range(h.drop_last(), names);
    }
}

/// The columns of a record are columns of the header row.
pub proof fn lemma_record_columns_range(h: Seq<Seq<char>>)
    ensures
        record_columns(h) matches Some((a, b, c, d)) ==> 0 <= a < h.len() && 0 <= b < h.len() && 0 <= c < h.len()
            && (d matches Some(x) ==> 0 <= x < h.len()),
{
    lemma_col_scan_range(h, field_names()[0]);
    lemma_col_scan_range(h, field_names()[1]);
    lemma_col_scan_range(h, field_names()[2]);
    lemma_col_scan_range(h, field_names()[3]);
}

/// The columns of a record, computed from the header row.
fn record_cols(headers: &Vec<String>) -> (r: Option<(usize, usize, usize, Option<usize>)>)
    ensures
        r == match record_columns(texts(headers@)) {
            None => None,
            Some((a, b, c, d)) => Some((a as usize, b as usize, c as usize, match d {
                Some(x) => Some(x as usize),
                None => None,
            })),
        },
{
    proof {
        reveal_strlit("Datum");
        reveal_strlit("Date");
        reveal_strlit("Titel");
        reveal_strlit("Title");
        reveal_strlit("descend");
        reveal_strlit("Negativer Höhenunterschied");
        reveal_strlit("Abstieg gesamt");
        reveal_strlit("Total Descent");
        reveal_strlit("climb");
    }
    let start = column(headers, &names("Datum", "Date", "", "", 2));
    let title = column(headers, &names("Titel", "Title", "", "", 2));
    let descend = column(headers, &names("descend", "Negativer Höhenunterschied", "Abstieg gesamt", "Total Descent", 4));
    let climb = column(headers, &names("climb", "", "", "", 1));
    proof {
        assert(seq!["Datum"@, "Date"@, ""@, ""@].take(2) =~= field_names()[0]);
        assert(seq!["Titel"@, "Title"@, ""@, ""@].take(2) =~= field_names()[1]);
        assert(seq!["descend"@, "Negativer Höhenunterschied"@, "Abstieg gesamt"@, "Total Descent"@].take(4) =~= field_names()[2]);
        assert(seq!["climb"@, ""@, ""@, ""@].take(1) =~= field_names()[3]);
    }
    match (start, title, descend, climb) {
        (Some(Some(a)), Some(Some(b)), Some(Some(c)), Some(d)) => Some((a, b, c, d)),
        _ => None,
    }
}

/// The descriptions of `s` whose mask entry is `b`, in order.
pub open spec fn select(s: Seq<Seq<char>>, mask: Seq<bool>, b: bool) -> Seq<Seq<char>>
    decreases s.len(),
{
    if s.len() == 0 || mask.len() == 0 {
        Seq::empty()
    } else {
        let rest = select(s.drop_last(), mask.drop_last(), b);
        if mask.last() == b { rest.push(s.last()) } else { rest }
    }
}

/// The header row `h` and the rows `rows` can be imported: every row could
/// be read and, when there are rows, the header row names every required
/// field once and each row's fields parse.
pub open spec fn rows_ok(h: Option<Seq<Seq<char>>>, rows: Seq<Option<Seq<Seq<char>>>>) -> bool {
    &&& forall|i: int| 0 <= i < rows.len() ==> (#[trigger] rows[i]) is Some
    &&& rows.len() > 0 ==> (h matches Some(hs) && record_columns(hs) matches Some(cols)
        && forall|i: int| 0 <= i < rows.len() ==> row_record((#[trigger] rows[i]).unwrap(), cols) is Some)
}

/// The table `data` can be imported (see `rows_ok`).
pub open spec fn table_ok(data: Seq<u8>) -> bool {
    let (h, rows) = csv_rows(data);
    rows_ok(h, rows)
}

/// The records of the rows of an importable table, in order.
pub open spec fn rows_records(h: Option<Seq<Seq<char>>>, rows: Seq<Option<Seq<Seq<char>>>>)
    -> Seq<(Timestamp, Option<i32>, i32, Seq<char>)> {
    let cols = record_columns(h.unwrap()).unwrap();
    rows.map_values(|r: Option<Seq<Seq<char>>>| row_record(r.unwrap(), cols).unwrap())
}

/// The descriptions of the rows of an importable table, in order.
pub open spec fn rows_descriptions(h: Option<Seq<Seq<char>>>, rows: Seq<Option<Seq<Seq<char>>>>) -> Seq<Seq<char>> {
    rows_records(h, rows).map_values(|r: (Timestamp, Option<i32>, i32, Seq<char>)| r.3)
}

/// The descriptions of the rows of the importable table `data`, in order.
pub open spec fn table_descriptions(data: Seq<u8>) -> Seq<Seq<char>> {
    let (h, rows) = csv_rows(data);
    rows_descriptions(h, rows)
}

/// Store `k + 1` of `stores` comes from store `k` by applying row `k` of
/// the importable table with header row `h` and rows `rows` for `uid` (see
/// `row_step`); entry `k` of `mask` tells whether that row went through.
pub open spec fn rows_applied(h: Option<Seq<Seq<char>>>, rows: Seq<Option<Seq<Seq<char>>>>,
    uid: crate::user::UserId, stores: Seq<MemStore>, mask: Seq<bool>) -> bool {
    let recs = rows_records(h, rows);
    &&& stores.len() == recs.len() + 1
    &&& mask.len() == recs.len()
    &&& forall|k: int| 0 <= k < recs.len() ==>
        #[trigger] row_step(stores[k], stores[k + 1], uid, recs[k].0, recs[k].1, recs[k].2, mask[k])
}

/// The activity `a` with the descend `rdescend` and, when given, the climb `rclimb`.
pub open spec fn with_descent(a: Activity, rclimb: Option<i32>, rdescend: i32) -> Activity {
    Activity {
        climb: match rclimb { Some(c) => Some(c), None => a.climb },
        descend: Some(rdescend),
        ..a
    }
}

/// One row of descent values applied to `old`, giving `new`; `ok` tells
/// whether it went through. Without an activity of `uid` started at
/// `rstart` nothing changes and it does not go through. With one, `a`, the
/// stored activity with its id, `prev`, is replaced by `a` with the row's
/// values and the usage moved from the one to the other when it goes
/// through; and it does go through when `prev` belongs to `uid`, both are
/// registrable and the counters stay in range.
pub open spec fn row_step(old: MemStore, new: MemStore, uid: crate::user::UserId, rstart: Timestamp,
    rclimb: Option<i32>, rdescend: i32, ok: bool) -> bool {
    &&& new.wf()
    &&& new.next_part_id == old.next_part_id
    &&& new.dir == old.dir
    &&& match first_where(old.activities@, started_at(uid, rstart)) {
        None => !ok && new == old,
        Some(a) => {
            let nw = with_descent(a, rclimb, rdescend);
            &&& ok ==> new.activities@ == crate::activity::replaced(old.activities@, nw)
            &&& ok ==> exists|mid: MemStore, prev: Activity|
                #[trigger] registered(old, mid, prev, Factor::Sub)
                    && crate::store::activity_by_id(old.activities@, a.id) == Some(prev)
                    && registered(mid, new, nw, Factor::Add)
            &&& (crate::store::activity_by_id(old.activities@, a.id) matches Some(prev)
                && prev.user_id == uid && crate::activity::replace_fits(old, prev, nw)
                && registrable(old, prev) && registrable(old, nw)) ==> ok
        },
    }
}

/// `acts` mentions (by its id) the activity of `uid` that started at
/// `rstart` in `old`.
pub open spec fn mentions_row(acts: Seq<Activity>, old: MemStore, uid: crate::user::UserId, rstart: Timestamp) -> bool {
    first_where(old.activities@, started_at(uid, rstart)) matches Some(a)
        && has_key(acts, a.key_of())
}

/// Update the descend (and the climb, when given) of the session user's
/// activity that started at `rstart`, and move the usage accordingly.
pub fn match_and_update<S: Session>(
    store: &mut MemStore,
    user: &S,
    rstart: Timestamp,
    rclimb: Option<i32>,
    rdescend: i32,
) -> (r: Result<Summary, Error>)
    requires
        old(store).wf(),
    ensures
        row_step(*old(store), *final(store), user.session_user(), rstart, rclimb, rdescend, r is Ok),
        first_where(old(store).activities@, started_at(user.session_user(), rstart)) is None
            ==> (r matches Err(e) && e is NotFound),
        r matches Ok(s) ==> mentions_row(s.activities@, *old(store), user.session_user(), rstart),
        r matches Err(e) ==> e is NotFound || e is Forbidden || e is AnyFailure,
{
    let uid = user.user_id();
    let mut act = store.get_by_user_and_time(uid, rstart)?;
    if let Some(c) = rclimb {
        act.climb = Some(c);
    }
    act.descend = Some(rdescend);
    let ghost act_v = act;
    let r = act.update_checked(user, store);
    proof {
        if r is Ok {
            let sa = r->Ok_0.activities@;
            let prev = crate::store::activity_by_id(old(store).activities@, act_v.id).unwrap();
            assert(crate::summary::merged(seq![prev, act_v], sa));
            assert(seq![prev, act_v][1].key_of() == act_v.key_of());
            assert(crate::summary::has_key(seq![prev, act_v], act_v.key_of()));
        }
    }
    r
}

/// Import descend (and climb) values from a table of comma-separated
/// values: each row names an activity of the session user by its start,
/// which gets the values of the row. Returns all affected entities, the
/// descriptions of the rows applied and those of the rows whose activity
/// could not be updated. `AnyFailure` when the table cannot be imported
/// (see `table_ok`); rows before the first that cannot be read are applied.
pub fn csv2descend<S: Session>(data: &[u8], user: &S, store: &mut MemStore)
    -> (r: Result<(Summary, Vec<String>, Vec<String>), Error>)
    requires
        old(store).wf(),
    ensures
        final(store).wf(),
        final(store).next_part_id == old(store).next_part_id,
        final(store).dir == old(store).dir,
        r is Ok <==> table_ok(data@),
        r matches Err(e) ==> e is AnyFailure,
        r matches Ok((s, good, bad)) ==> exists|stores: Seq<MemStore>, mask: Seq<bool>|
            #[trigger] rows_applied(csv_rows(data@).0, csv_rows(data@).1, user.session_user(), stores, mask)
            && stores[0] == *old(store) && stores.last() == *final(store)
            && texts(good@) == select(table_descriptions(data@), mask, true)
            && texts(bad@) == select(table_descriptions(data@), mask, false)
            && forall|k: int| 0 <= k < mask.len() && #[trigger] mask[k] ==> mentions_row(s.activities@, stores[k],
                user.session_user(), rows_records(csv_rows(data@).0, csv_rows(data@).1)[k].0),
        r matches Ok((s, good, _)) ==> (good@.len() == 0 ==> s.is_empty()),
{
    let (headers, rows) = read_csv(data);
    let r = import_table(&headers, &rows, user, store);
    proof {
        let h = opt_texts(headers);
        let rs = rows@.map_values(|x: Option<Vec<String>>| opt_texts(x));
        assert(csv_rows(data@).0 == h && csv_rows(data@).1 == rs);
        if r is Ok {
            let sm = r->Ok_0.0;
            let good = r->Ok_0.1;
            let bad = r->Ok_0.2;
            let (stores, mask) = choose|stores: Seq<MemStore>, mask: Seq<bool>|
                #[trigger] rows_applied(h, rs, user.session_user(), stores, mask)
                && stores[0] == *old(store) && stores.last() == *store
                && texts(good@) == select(rows_descriptions(h, rs), mask, true)
                && texts(bad@) == select(rows_descriptions(h, rs), mask, false)
                && forall|k: int| 0 <= k < mask.len() && #[trigger] mask[k]
                    ==> mentions_row(sm.activities@, stores[k], user.session_user(), rows_records(h, rs)[k].0);
            assert(rows_applied(csv_rows(data@).0, csv_rows(data@).1, user.session_user(), stores, mask));
        }
    }
    r
}

/// Import the header row `headers` and the rows `rows` of a table of
/// descend values (see `csv2descend`); a row that could not be read is
/// `None`.
pub fn import_table<S: Session>(headers: &Option<Vec<String>>, rows: &Vec<Option<Vec<String>>>, user: &S,
    store: &mut MemStore) -> (r: Result<(Summary, Vec<String>, Vec<String>), Error>)
    requires
        old(store).wf(),
    ensures
        final(store).wf(),
        final(store).next_part_id == old(store).next_part_id,
        final(store).dir == old(store).dir,
        ({
            let h = opt_texts(*headers);
            let rs = rows@.map_values(|x: Option<Vec<String>>| opt_texts(x));
            &&& r is Ok <==> rows_ok(h, rs)
            &&& r matches Ok((s, good, bad)) ==> exists|stores: Seq<MemStore>, mask: Seq<bool>|
                #[trigger] rows_applied(h, rs, user.session_user(), stores, mask)
                && stores[0] == *old(store) && stores.last() == *final(store)
                && texts(good@) == select(rows_descriptions(h, rs), mask, true)
                && texts(bad@) == select(rows_descriptions(h, rs), mask, false)
                && forall|k: int| 0 <= k < mask.len() && #[trigger] mask[k]
                    ==> mentions_row(s.activities@, stores[k], user.session_user(), rows_records(h, rs)[k].0)
        }),
        r matches Err(e) ==> e is AnyFailure,
        r matches Ok((s, good, _)) ==> (good@.len() == 0 ==> s.is_empty()),
{
    let ghost h = opt_texts(*headers);
    let ghost rs = rows@.map_values(|x: Option<Vec<String>>| opt_texts(x));
    let mut good: Vec<String> = Vec::new();
    let mut bad: Vec<String> = Vec::new();
    let mut summary = Summary::empty();
    let ghost mut mask: Seq<bool> = Seq::empty();
    let ghost mut descs: Seq<Seq<char>> = Seq::empty();
    let ghost mut stores: Seq<MemStore> = seq![*store];
    let mut i: usize = 0;
    while i < rows.len()
        invariant
            0 <= i <= rows@.len(),
            h == opt_texts(*headers),
            rs == rows@.map_values(|x: Option<Vec<String>>| opt_texts(x)),
            store.wf(),
            store.next_part_id == old(store).next_part_id,
            store.dir == old(store).dir,
            mask.len() == i,
            descs.len() == i,
            stores.len() == i + 1,
            stores[0] == *old(store),
            stores.last() == *store,
            forall|k: int| 0 <= k < i ==> (#[trigger] rs[k]) is Some,
            i > 0 ==> (h matches Some(hs) && record_columns(hs) matches Some(cols)
                && forall|k: int| 0 <= k < i ==> row_record((#[trigger] rs[k]).unwrap(), cols) is Some
                    && descs[k] == row_record(rs[k].unwrap(), cols).unwrap().3
                    && row_step(stores[k], stores[k + 1], user.session_user(), row_record(rs[k].unwrap(), cols).unwrap().0,
                        row_record(rs[k].unwrap(), cols).unwrap().1, row_record(rs[k].unwrap(), cols).unwrap().2, mask[k])),
            texts(good@) == select(descs, mask, true),
            texts(bad@) == select(descs, mask, false),
            good@.len() == 0 ==> summary.is_empty(),
            i > 0 ==> (h matches Some(hs) && record_columns(hs) matches Some(cols)
                && forall|k: int| 0 <= k < i && #[trigger] mask[k] ==> mentions_row(summary.activities@, stores[k],
                    user.session_user(), row_record(rs[k].unwrap(), cols).unwrap().0)),
        decreases rows@.len() - i,
    {
        proof { assert(rs[i as int] == opt_texts(rows@[i as int])); }
        let row = match &rows[i] {
            Some(r) => r,
            None => {
                return Err(Error::AnyFailure("record".to_owned()));
            },
        };
        let ghost before = *store;
        let (applied, description, res) = import_row(row, headers, user, store)?;
        let ghost prev = summary;
        summary = summary.merge(res);
        proof {
            if good@.len() == 0 && !applied {
                crate::summary::lemma_merge_empties(prev, res, summary);
            }
            let cols = record_columns(h.unwrap()).unwrap();
            assert forall|k: int| 0 <= k < i + 1 && #[trigger] mask.push(applied)[k] implies mentions_row(summary.activities@,
                stores.push(*store)[k], user.session_user(), row_record(rs[k].unwrap(), cols).unwrap().0) by {
                if k < i {
                    assert(mask.push(applied)[k] == mask[k]);
                    assert(stores.push(*store)[k] == stores[k]);
                    let a = first_where(stores[k].activities@, started_at(user.session_user(), row_record(rs[k].unwrap(), cols).unwrap().0)).unwrap();
                    crate::summary::lemma_merge_keeps_keys(prev.activities@, res.activities@, summary.activities@, a.key_of());
                } else {
                    assert(stores.push(*store)[k] == before);
                    let a = first_where(before.activities@, started_at(user.session_user(), row_record(rs[k].unwrap(), cols).unwrap().0)).unwrap();
                    crate::summary::lemma_merge_keeps_keys(prev.activities@, res.activities@, summary.activities@, a.key_of());
                }
            }
        }
        let ghost dsc = description@;
        let ghost good_before = good@;
        let ghost bad_before = bad@;
        if applied {
            good.push(description);
        } else {
            bad.push(description);
        }
        proof {
            let m2 = mask.push(applied);
            let d2 = descs.push(dsc);
            assert(d2.drop_last() =~= descs);
            assert(m2.drop_last() =~= mask);
            if applied {
                assert(texts(good@) =~= texts(good_before).push(dsc));
                assert(texts(bad@) =~= texts(bad_before));
            } else {
                assert(texts(bad@) =~= texts(bad_before).push(dsc));
                assert(texts(good@) =~= texts(good_before));
            }
            let s2 = stores.push(*store);
            assert forall|k: int| 0 <= k < i + 1 implies s2[k] == stores[k] by {}
            mask = m2;
            descs = d2;
            stores = s2;
        }
        i = i + 1;
    }
    proof {
        if rows@.len() > 0 {
            let cols = record_columns(h.unwrap()).unwrap();
            assert(descs =~= rows_descriptions(h, rs));
        }
        if rows@.len() == 0 {
            assert(descs =~= rows_descriptions(h, rs));
        }
        assert(rows_applied(h, rs, user.session_user(), stores, mask));
    }
    Ok((summary, good, bad))
}


/// Import one row: read it with the columns of the header row and apply it
/// (see `match_and_update`); hands back whether it was applied, its
/// description and the entities affected. `AnyFailure` (and no change) when
/// it cannot be read.
fn import_row<S: Session>(row: &Vec<String>, headers: &Option<Vec<String>>, user: &S, store: &mut MemStore)
    -> (r: Result<(bool, String, Summary), Error>)
    requires
        old(store).wf(),
    ensures
        final(store).wf(),
        final(store).next_part_id == old(store).next_part_id,
        final(store).dir == old(store).dir,
        r is Ok <==> (opt_texts(*headers) matches Some(hs) && record_columns(hs) matches Some(cols)
            && row_record(texts(row@), cols) is Some),
        r matches Ok((ok, _, s)) ==> (!ok ==> s.is_empty()),
        r matches Ok((ok, _, s)) ==> (ok ==> mentions_row(s.activities@, *old(store), user.session_user(),
            row_record(texts(row@), record_columns(opt_texts(*headers).unwrap()).unwrap()).unwrap().0)),
        r matches Ok((ok, d, _)) ==> {
            let rec = row_record(texts(row@), record_columns(opt_texts(*headers).unwrap()).unwrap()).unwrap();
            &&& d@ == rec.3
            &&& row_step(*old(store), *final(store), user.session_user(), rec.0, rec.1, rec.2, ok)
        },
        r matches Err(e) ==> e is AnyFailure && *final(store) == *old(store),
{
    let hs = match headers {
        Some(x) => x,
        None => {
            return Err(Error::AnyFailure("record".to_owned()));
        },
    };
    let (a, b, c, d) = match record_cols(hs) {
        Some(x) => x,
        None => {
            return Err(Error::AnyFailure("record".to_owned()));
        },
    };
    let hn: usize = hs.len();
    proof {
        lemma_record_columns_range(texts(hs@));
        let cols = record_columns(texts(hs@)).unwrap();
        assert(texts(hs@).len() == hs@.len());
        assert(hs@.len() == hn);
        assert(a as int == cols.0);
        assert(b as int == cols.1);
        assert(c as int == cols.2);
        if let Some(x) = d {
            assert(x as int == cols.3.unwrap());
        }
        assert(cols == (a as int, b as int, c as int, match d { Some(x) => Some(x as int), None => None }));
    }
    let rec = match read_record(row, a, b, c, d) {
        Some(x) => x,
        None => {
            return Err(Error::AnyFailure("Could not parse record".to_owned()));
        },
    };
    let (applied, res) = match match_and_update(store, user, rec.start, rec.climb, rec.descend) {
        Ok(res) => (true, res),
        Err(_) => (false, Summary::empty()),
    };
    Ok((applied, rec.description, res))
}

} // verus!
