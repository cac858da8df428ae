//! CSV export of finished rows, written by the `csv` crate.

use vstd::prelude::*;

use crate::text::{i64_to_string, int_decimal, join};
use crate::types::{opt_text, RowView, TournamentRow};

verus! {

/// A `csv::Writer` (default configuration) writing into memory. Verus
/// cannot take the writer type itself (its parameter is bound by
/// `std::io::Write`), so it is held here, out of Verus's sight.
#[verifier::external_body]
pub struct CsvSink {
    writer: ::csv::Writer<Vec<u8>>,
}

#[verifier::external_type_specification]
#[verifier::external_body]
pub struct ExCsvError(::csv::Error);

#[verifier::external_type_specification]
#[verifier::external_body]
pub struct ExFromUtf8Error(std::string::FromUtf8Error);

/// The bytes that a csv writer (default configuration) has been given so
/// far, buffered or not.
pub uninterp spec fn csv_written(w: CsvSink) -> Seq<u8>;

/// The field count of the first record a csv writer wrote, once it wrote
/// one; later records must have as many fields.
pub uninterp spec fn csv_width(w: CsvSink) -> Option<nat>;

/// A field's text with every `"` doubled.
pub open spec fn double_quotes(f: Seq<char>) -> Seq<char>
    decreases f.len(),
{
    if f.len() == 0 {
        Seq::empty()
    } else {
        (if f[0] == '"' {
            seq!['"', '"']
        } else {
            seq![f[0]]
        }) + double_quotes(f.drop_first())
    }
}

/// A field as a default csv writer writes it: in quotes, with its quotes
/// doubled, when it holds a comma, a quote, a carriage return or a line
/// feed; as it is otherwise.
pub open spec fn field_text(f: Seq<char>) -> Seq<char> {
    if f.contains(',') || f.contains('"') || f.contains('\n') || f.contains('\r') {
        seq!['"'] + double_quotes(f) + seq!['"']
    } else {
        f
    }
}

/// A record as a default csv writer writes it: the fields joined by
/// commas (`""` when that gives nothing at all), then a line feed.
pub open spec fn record_line(fields: Seq<Seq<char>>) -> Seq<char> {
    let body = join(fields.map_values(|f: Seq<char>| field_text(f)), seq![',']);
    (if body.len() == 0 {
        seq!['"', '"']
    } else {
        body
    }) + seq!['\n']
}

/// The bytes that a default csv writer writes for one record: the UTF-8
/// encoding of its line.
pub open spec fn csv_record(fields: Seq<Seq<char>>) -> Seq<u8> {
    vstd::utf8::encode_utf8(record_line(fields))
}

/// `csv::Writer::from_writer(Vec::new())`: a writer into memory with the
/// default configuration; it has written nothing and expects no width yet.
#[verifier::external_body]
fn csv_writer_new() -> (w: CsvSink)
    ensures
        csv_written(w) == Seq::<u8>::empty(),
        csv_width(w) is None,
{
    CsvSink { writer: ::csv::Writer::from_writer(Vec::new()) }
}

/// `csv::Writer::write_record`: fails exactly when the writer already
/// wrote a record with another field count (its source checks this, and
/// writing to memory cannot fail); otherwise the record's bytes are added
/// and the first record's field count is kept. A writer that failed is
/// dropped here: its source leaves it with a half-written record.
#[verifier::external_body]
fn csv_write_record(w: CsvSink, record: &Vec<String>) -> (res: Result<CsvSink, ::csv::Error>)
    ensures
        match csv_width(w) {
            Some(n) if n != record@.len() => res is Err,
            _ => {
                &&& res is Ok
                &&& res matches Ok(after) ==> {
                    &&& csv_written(after) == csv_written(w) + csv_record(record.deep_view())
                    &&& csv_width(after) == Some(
                        match csv_width(w) {
                            Some(n) => n,
                            None => record@.len(),
                        },
                    )
                }
            },
        },
{
    let mut w = w;
    match w.writer.write_record(record) {
        Ok(()) => Ok(w),
        Err(e) => Err(e),
    }
}

/// `csv::Writer::into_inner`: flushes into the vector and hands it back;
/// a failure comes back as its `Display` text. Flushing into memory cannot
/// fail, so the source always returns `Ok`.
#[verifier::external_body]
fn csv_into_bytes(w: CsvSink) -> (res: Result<Vec<u8>, String>)
    ensures
        res is Ok,
        res matches Ok(b) ==> b@ == csv_written(w),
{
    match w.writer.into_inner() {
        Ok(bytes) => Ok(bytes),
        Err(e) => Err(format!("{}", e)),
    }
}

/// The `Display` text of a csv error (no claim on its content).
#[verifier::external_body]
fn csv_error_text(e: &::csv::Error) -> String {
    format!("{}", e)
}

/// `String::from_utf8`: `Ok` exactly for valid UTF-8, with the decoded
/// characters.
#[verifier::external_body]
fn string_from_utf8(bytes: Vec<u8>) -> (res: Result<String, std::string::FromUtf8Error>)
    ensures
        res is Ok <==> vstd::utf8::valid_utf8(bytes@),
        res matches Ok(s) ==> s@ == vstd::utf8::decode_utf8(bytes@),
{
    String::from_utf8(bytes)
}

/// The `Display` text of a UTF-8 error (no claim on its content).
#[verifier::external_body]
fn utf8_error_text(e: &std::string::FromUtf8Error) -> String {
    format!("{}", e)
}

/// The header record: the field names of a row.
pub open spec fn header_fields() -> Seq<Seq<char>> {
    seq![
        "tournament_slug"@,
        "tournament_id"@,
        "event_id"@,
        "event_name"@,
        "event_date"@,
        "entrant_id"@,
        "player_id"@,
        "placement"@,
        "wins"@,
        "losses"@,
        "player_name"@,
        "player_prefix"@,
        "player_discriminator"@,
        "discord_usernames"@,
    ]
}

/// A missing value is an empty field.
pub open spec fn opt_field(o: Option<Seq<char>>) -> Seq<char> {
    match o {
        Some(s) => s,
        None => Seq::empty(),
    }
}

/// The record of a row, field by field in header order; numbers in decimal.
pub open spec fn row_fields(r: RowView) -> Seq<Seq<char>> {
    seq![
        r.tournament_slug,
        opt_field(r.tournament_id),
        opt_field(r.event_id),
        r.event_name,
        opt_field(r.event_date),
        r.entrant_id,
        opt_field(r.player_id),
        match r.placement {
            Some(p) => int_decimal(p as int),
            None => Seq::empty(),
        },
        int_decimal(r.wins),
        int_decimal(r.losses),
        r.player_name,
        r.player_prefix,
        r.player_discriminator,
        r.discord_usernames,
    ]
}

/// The bytes of the records, one after another.
pub open spec fn records_bytes(rows: Seq<RowView>) -> Seq<u8>
    decreases rows.len(),
{
    if rows.len() == 0 {
        Seq::empty()
    } else {
        records_bytes(rows.drop_last()) + csv_record(row_fields(rows.last()))
    }
}

/// The CSV bytes of the rows: nothing for no rows, else the header record
/// followed by one record per row.
pub open spec fn csv_bytes(rows: Seq<RowView>) -> Seq<u8> {
    if rows.len() == 0 {
        Seq::empty()
    } else {
        csv_record(header_fields()) + records_bytes(rows)
    }
}

/// The lines of the records, one after another.
pub open spec fn records_text(rows: Seq<RowView>) -> Seq<char>
    decreases rows.len(),
{
    if rows.len() == 0 {
        Seq::empty()
    } else {
        records_text(rows.drop_last()) + record_line(row_fields(rows.last()))
    }
}

/// The CSV text of the rows: nothing for no rows, else the header line
/// followed by one line per row.
pub open spec fn csv_text(rows: Seq<RowView>) -> Seq<char> {
    if rows.len() == 0 {
        Seq::empty()
    } else {
        record_line(header_fields()) + records_text(rows)
    }
}

/// Encoding text piece by piece gives the encoding of the whole.
proof fn lemma_encode_concat(a: Seq<char>, b: Seq<char>)
    ensures
        vstd::utf8::encode_utf8(a + b) == vstd::utf8::encode_utf8(a) + vstd::utf8::encode_utf8(b),
    decreases a.len(),
{
    if a.len() > 0 {
        assert((a + b).drop_first() =~= a.drop_first() + b);
        assert((a + b)[0] == a[0]);
        lemma_encode_concat(a.drop_first(), b);
        assert(vstd::utf8::encode_utf8(a + b) =~= vstd::utf8::encode_utf8(a) + vstd::utf8::encode_utf8(b));
    } else {
        assert(a + b =~= b);
        assert(vstd::utf8::encode_utf8(a) + vstd::utf8::encode_utf8(b) =~= vstd::utf8::encode_utf8(b));
    }
}

proof fn lemma_records_encode(rows: Seq<RowView>)
    ensures
        records_bytes(rows) == vstd::utf8::encode_utf8(records_text(rows)),
    decreases rows.len(),
{
    if rows.len() == 0 {
        assert(vstd::utf8::encode_utf8(Seq::<char>::empty()) =~= Seq::<u8>::empty());
    } else {
        lemma_records_encode(rows.drop_last());
        lemma_encode_concat(records_text(rows.drop_last()), record_line(row_fields(rows.last())));
    }
}

/// The CSV bytes of the rows are the UTF-8 encoding of their CSV text.
proof fn lemma_csv_bytes_text(rows: Seq<RowView>)
    ensures
        csv_bytes(rows) == vstd::utf8::encode_utf8(csv_text(rows)),
{
    if rows.len() == 0 {
        assert(vstd::utf8::encode_utf8(Seq::<char>::empty()) =~= Seq::<u8>::empty());
    } else {
        lemma_records_encode(rows);
        lemma_encode_concat(record_line(header_fields()), records_text(rows));
    }
}

fn opt_field_text(o: &Option<String>) -> (res: String)
    ensures
        res@ == opt_field(opt_text(*o)),
{
    match o {
        Some(s) => s.clone(),
        None => String::new(),
    }
}

fn header_record() -> (res: Vec<String>)
    ensures
        res.deep_view() == header_fields(),
{
    let mut v: Vec<String> = Vec::new();
    v.push(String::from_str("tournament_slug"));
    v.push(String::from_str("tournament_id"));
    v.push(String::from_str("event_id"));
    v.push(String::from_str("event_name"));
    v.push(String::from_str("event_date"));
    v.push(String::from_str("entrant_id"));
    v.push(String::from_str("player_id"));
    v.push(String::from_str("placement"));
    v.push(String::from_str("wins"));
    v.push(String::from_str("losses"));
    v.push(String::from_str("player_name"));
    v.push(String::from_str("player_prefix"));
    v.push(String::from_str("player_discriminator"));
    v.push(String::from_str("discord_usernames"));
    assert(v.deep_view() =~= header_fields());
    v
}

fn row_record(row: &TournamentRow) -> (res: Vec<String>)
    ensures
        res.deep_view() == row_fields(row@),
{
    let mut v: Vec<String> = Vec::new();
    v.push(row.tournament_slug.clone());
    v.push(opt_field_text(&row.tournament_id));
    v.push(opt_field_text(&row.event_id));
    v.push(row.event_name.clone());
    v.push(opt_field_text(&row.event_date));
    v.push(row.entrant_id.clone());
    v.push(opt_field_text(&row.player_id));
    v.push(
        match row.placement {
            Some(p) => i64_to_string(p as i64),
            None => String::new(),
        },
    );
    v.push(i64_to_string(row.wins as i64));
    v.push(i64_to_string(row.losses as i64));
    v.push(row.player_name.clone());
    v.push(row.player_prefix.clone());
    v.push(row.player_discriminator.clone());
    v.push(row.discord_usernames.clone());
    assert(v.deep_view() =~= row_fields(row@));
    v
}

/// Renders rows as CSV text: a header line and one line per row (no
/// output at all for no rows). It always succeeds.
pub fn rows_to_csv(rows: &[TournamentRow]) -> (res: Result<String, String>)
    ensures
        res matches Ok(s) && s@ == csv_text(rows@.map_values(|r: TournamentRow| r@)),
{
    let ghost views = rows@.map_values(|r: TournamentRow| r@);
    let mut writer = csv_writer_new();
    let mut i: usize = 0;
    while i < rows.len()
        invariant
            i <= rows@.len(),
            views == rows@.map_values(|r: TournamentRow| r@),
            i == 0 ==> csv_written(writer) == Seq::<u8>::empty() && csv_width(writer) is None,
            i > 0 ==> csv_written(writer) == csv_record(header_fields()) + records_bytes(views.take(i as int))
                && csv_width(writer) == Some(14nat),
        decreases rows@.len() - i,
    {
        if i == 0 {
            let header = header_record();
            assert(header.deep_view().len() == header@.len());
            assert(header@.len() == 14);
            writer = match csv_write_record(writer, &header) {
                Ok(after) => after,
                Err(e) => {
                    assert(false);
                    let mut m = String::from_str("Failed to write CSV row: ");
                    m.append(csv_error_text(&e).as_str());
                    return Err(m);
                },
            };
        }
        let record = row_record(&rows[i]);
        assert(record.deep_view().len() == record@.len());
        assert(record@.len() == 14);
        let ghost before = csv_written(writer);
        writer = match csv_write_record(writer, &record) {
            Ok(after) => after,
            Err(e) => {
                assert(false);
                let mut m = String::from_str("Failed to write CSV row: ");
                m.append(csv_error_text(&e).as_str());
                return Err(m);
            },
        };
        proof {
            assert(views.take(i + 1).drop_last() =~= views.take(i as int));
            assert(views.take(i + 1).last() == rows@[i as int]@);
            assert(views.take(0) =~= Seq::<RowView>::empty());
            assert(before =~= csv_record(header_fields()) + records_bytes(views.take(i as int)));
            assert(records_bytes(views.take(i + 1)) == records_bytes(views.take(i as int)) + csv_record(
                row_fields(views[i as int]),
            ));
            assert(csv_written(writer) =~= csv_record(header_fields()) + records_bytes(views.take(i + 1)));
        }
        i = i + 1;
    }
    proof {
        assert(views.take(rows@.len() as int) =~= views);
    }
    let bytes = match csv_into_bytes(writer) {
        Ok(b) => b,
        Err(e) => {
            let mut m = String::from_str("Failed to finalize CSV output: ");
            m.append(e.as_str());
            return Err(m);
        },
    };
    proof {
        lemma_csv_bytes_text(views);
        vstd::utf8::encode_utf8_valid_utf8(csv_text(views));
        vstd::utf8::encode_utf8_decode_utf8(csv_text(views));
    }
    match string_from_utf8(bytes) {
        Ok(s) => Ok(s),
        Err(e) => {
            assert(false);
            let mut m = String::from_str("CSV output is not valid UTF-8: ");
            m.append(utf8_error_text(&e).as_str());
            Err(m)
        },
    }
}

} // verus!
