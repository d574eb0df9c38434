//! The quote file: a CSV text with the header `strike,tau,implied_vol` and
//! one line per quote. The CSV syntax itself is the `csv` crate's; this module
//! picks and cleans the fields of each record and lays the records out.

use vstd::prelude::*;
use crate::text::{trimmed, trim_text};

verus! {

#[verifier::external_type_specification]
#[verifier::external_body]
pub struct ExCsvError(csv::Error);

/// What `csv::Reader`, with its default settings, makes of `bytes`: the
/// records it yields before its first error (the first record is the header
/// and is not among them), each as its list of fields, and whether an error
/// ended the reading.
pub uninterp spec fn csv_read(bytes: Seq<u8>) -> (Seq<Seq<Seq<char>>>, bool);

/// Whether a field holds a character that the CSV writer must quote: the
/// delimiter `,`, the quote `"`, or a line break `\r` or `\n`.
pub open spec fn needs_quotes(field: Seq<char>) -> bool {
    exists|i: int|
        0 <= i < field.len() && (#[trigger] field[i] == ',' || field[i] == '"' || field[i] == '\r'
            || field[i] == '\n')
}

/// `field` with every quote doubled.
pub open spec fn doubled_quotes(field: Seq<char>) -> Seq<char>
    decreases field.len(),
{
    if field.len() == 0 {
        seq![]
    } else {
        (if field[0] == '"' {
            seq!['"', '"']
        } else {
            seq![field[0]]
        }) + doubled_quotes(field.drop_first())
    }
}

/// A field as the CSV writer lays it out: between quotes, with its quotes
/// doubled, when it needs quotes; as it is otherwise.
pub open spec fn field_text(field: Seq<char>) -> Seq<char> {
    if needs_quotes(field) {
        seq!['"'] + doubled_quotes(field) + seq!['"']
    } else {
        field
    }
}

/// The fields of a record laid out and separated by commas.
pub open spec fn joined_fields(fields: Seq<Seq<char>>) -> Seq<char>
    decreases fields.len(),
{
    if fields.len() == 0 {
        seq![]
    } else if fields.len() == 1 {
        field_text(fields[0])
    } else {
        joined_fields(fields.drop_last()) + seq![','] + field_text(fields.last())
    }
}

/// A record as the CSV writer lays it out: its fields, then a line feed; a
/// record that would otherwise be an empty line (no field, or one empty
/// field) is written as `""`.
pub open spec fn record_text(fields: Seq<Seq<char>>) -> Seq<char> {
    (if joined_fields(fields).len() == 0 {
        seq!['"', '"']
    } else {
        joined_fields(fields)
    }) + seq!['\n']
}

/// The records laid out one after the other.
pub open spec fn records_text(records: Seq<Seq<Seq<char>>>) -> Seq<char>
    decreases records.len(),
{
    if records.len() == 0 {
        seq![]
    } else {
        records_text(records.drop_last()) + record_text(records.last())
    }
}

/// The bytes that `csv::Writer`, with its default settings, produces for
/// these records written one after the other: their text in UTF-8.
pub open spec fn csv_text(records: Seq<Seq<Seq<char>>>) -> Seq<u8> {
    vstd::utf8::encode_utf8(records_text(records))
}

/// Runs `csv::Reader::from_reader` over `bytes` and collects the fields of
/// the records that `records()` yields, up to its first error, which it
/// returns beside them. Claims that the records and whether an error came are
/// `csv_read(bytes)`.
#[verifier::external_body]
fn read_records(bytes: &[u8]) -> (read: (Vec<Vec<String>>, Option<csv::Error>))
    ensures
        csv_read(bytes@) == (read.0.deep_view(), read.1 is Some),
{
    let mut rows: Vec<Vec<String>> = Vec::new();
    for record in csv::Reader::from_reader(bytes).records() {
        match record {
            Ok(r) => rows.push(r.iter().map(|field| field.to_string()).collect()),
            Err(e) => return (rows, Some(e)),
        }
    }
    (rows, None)
}

/// Writes the records with `csv::Writer::from_writer` into a byte vector
/// (`write_record` for each, then `into_inner`). Claims that the bytes are
/// `csv_text(rows)` (default settings: delimiter `,`, quote `"` doubled
/// inside quotes, terminator `\n`, quotes only where needed, `""` for a record
/// with no bytes); that there is no error when all records have the same
/// number of fields (the writer only refuses records of unequal lengths, and
/// writing into a vector does not fail); and that when they all have the same
/// number of fields, at least two, `csv::Reader` reads the bytes back without
/// error as the same records after the first, which it takes as the header
/// (the writer quotes exactly the fields holding a comma, a quote, `\r` or
/// `\n`, which the reader unquotes; the reader's removal of a leading
/// byte-order mark can only touch the header).
#[verifier::external_body]
fn write_records(rows: &Vec<Vec<String>>) -> (out: Result<Vec<u8>, csv::Error>)
    ensures
        (forall|i: int| 0 <= i < rows.len() ==> #[trigger] rows[i].len() == rows[0].len()) ==> out is Ok,
        out matches Ok(b) ==> b@ == csv_text(rows.deep_view()),
        out matches Ok(b) ==> (rows.len() >= 1 && rows[0].len() >= 2 && (forall|i: int|
            0 <= i < rows.len() ==> #[trigger] rows[i].len() == rows[0].len()) ==> csv_read(b@) == (
        rows.deep_view().drop_first(), false)),
{
    let mut writer = csv::Writer::from_writer(Vec::new());
    for row in rows.iter() {
        writer.write_record(row)?;
    }
    writer.into_inner().map_err(|e| csv::Error::from(e.into_error()))
}

/// The three fields of one quote as text, trimmed.
pub struct QuoteFields {
    pub strike: String,
    pub tau: String,
    pub implied_vol: String,
}

/// How the reading of a quote file ended.
pub enum ReadEnd {
    /// Every record was read.
    Complete,
    /// The CSV reader reported an error after the records read so far.
    Malformed,
    /// The next record has fewer than three fields.
    ShortRecord,
}

/// The quotes read from a quote file, in file order, and how the reading
/// ended.
pub struct QuoteRead {
    pub quotes: Vec<QuoteFields>,
    pub end: ReadEnd,
}

/// The fields of `quote` are the first three fields of `record`, trimmed.
pub open spec fn fields_match(quote: QuoteFields, record: Seq<Seq<char>>) -> bool {
    &&& quote.strike@ == trimmed(record[0])
    &&& quote.tau@ == trimmed(record[1])
    &&& quote.implied_vol@ == trimmed(record[2])
}

/// The quotes of a file whose records all have at least three fields: the
/// first three fields of each record, trimmed; later fields are ignored.
pub fn quote_fields(rows: &Vec<Vec<String>>) -> (quotes: Vec<QuoteFields>)
    requires
        forall|i: int| 0 <= i < rows.len() ==> #[trigger] rows[i].len() >= 3,
    ensures
        quotes.len() == rows.len(),
        forall|i: int| 0 <= i < rows.len() ==> fields_match(#[trigger] quotes[i], rows.deep_view()[i]),
{
    let mut quotes: Vec<QuoteFields> = Vec::new();
    let mut i: usize = 0;
    while i < rows.len()
        invariant
            i <= rows.len(),
            quotes.len() == i,
            forall|t: int| 0 <= t < rows.len() ==> #[trigger] rows[t].len() >= 3,
            forall|t: int| 0 <= t < i ==> fields_match(#[trigger] quotes[t], rows.deep_view()[t]),
        decreases rows.len() - i,
    {
        let row = &rows[i];
        assert(rows[i as int].len() >= 3);
        let strike = trim_text(row[0].as_str());
        let tau = trim_text(row[1].as_str());
        let implied_vol = trim_text(row[2].as_str());
        assert(rows.deep_view()[i as int] == row.deep_view());
        quotes.push(QuoteFields { strike, tau, implied_vol });
        i += 1;
    }
    quotes
}

/// Index of the first record with fewer than three fields, if any.
fn first_short_record(rows: &Vec<Vec<String>>) -> (short: Option<usize>)
    ensures
        short is None ==> forall|i: int| 0 <= i < rows.len() ==> #[trigger] rows[i].len() >= 3,
        short matches Some(i) ==> i < rows.len() && rows[i as int].len() < 3 && forall|t: int|
            0 <= t < i ==> #[trigger] rows[t].len() >= 3,
{
    let mut i: usize = 0;
    while i < rows.len()
        invariant
            i <= rows.len(),
            forall|t: int| 0 <= t < i ==> #[trigger] rows[t].len() >= 3,
        decreases rows.len() - i,
    {
        if rows[i].len() < 3 {
            return Some(i);
        }
        i += 1;
    }
    None
}

/// Whether the first `k` records have at least three fields each.
pub open spec fn long_records(rows: Seq<Seq<Seq<char>>>, k: int) -> bool {
    forall|t: int| 0 <= t < k ==> #[trigger] rows[t].len() >= 3
}

/// `read` is what reading the quote file `bytes` gives: the trimmed first
/// three fields of each record, record by record, as long as records come and
/// have at least three fields; the reading ends `ShortRecord` at the first
/// record with fewer fields, else `Malformed` when the CSV reader stopped on
/// an error, else `Complete`.
pub open spec fn reads_as(bytes: Seq<u8>, read: QuoteRead) -> bool {
    let (rows, failed) = csv_read(bytes);
    &&& read.quotes.len() <= rows.len()
    &&& long_records(rows, read.quotes.len() as int)
    &&& forall|t: int|
        0 <= t < read.quotes.len() ==> fields_match(#[trigger] read.quotes[t], rows[t])
    &&& read.end is ShortRecord <==> read.quotes.len() < rows.len()
    &&& read.end is ShortRecord ==> rows[read.quotes.len() as int].len() < 3
    &&& read.end is Malformed <==> read.quotes.len() == rows.len() && failed
    &&& read.end is Complete <==> read.quotes.len() == rows.len() && !failed
}

/// Reads a quote file record by record (see `reads_as`).
pub fn read_quote_fields(bytes: &[u8]) -> (read: QuoteRead)
    ensures
        reads_as(bytes@, read),
{
    let (rows, error) = read_records(bytes);
    let ghost view = rows.deep_view();
    assert forall|t: int| 0 <= t < rows.len() implies #[trigger] view[t].len() == rows[t].len() by {}
    match first_short_record(&rows) {
        Some(k) => {
            let mut prefix: Vec<Vec<String>> = Vec::new();
            let mut i: usize = 0;
            while i < k
                invariant
                    k < rows.len(),
                    i <= k,
                    prefix.len() == i,
                    forall|t: int| 0 <= t < k ==> #[trigger] rows[t].len() >= 3,
                    forall|t: int| 0 <= t < i ==> #[trigger] prefix[t]@ == rows[t]@,
                decreases k - i,
            {
                let row = rows[i].clone();
                assert(row@ =~= rows[i as int]@);
                prefix.push(row);
                i += 1;
            }
            proof {
                assert forall|t: int| 0 <= t < k implies #[trigger] prefix.deep_view()[t] == view[t] by {
                    assert(prefix[t]@ == rows[t]@);
                    assert(prefix[t].deep_view() =~= rows[t].deep_view());
                }
                assert forall|t: int| 0 <= t < prefix.len() implies #[trigger] prefix[t].len() >= 3 by {
                    assert(prefix[t]@ == rows[t]@);
                    assert(rows[t].len() >= 3);
                    assert(prefix[t]@.len() == rows[t]@.len());
                }
            }
            QuoteRead { quotes: quote_fields(&prefix), end: ReadEnd::ShortRecord }
        },
        None => {
            let quotes = quote_fields(&rows);
            match error {
                Some(_) => QuoteRead { quotes, end: ReadEnd::Malformed },
                None => QuoteRead { quotes, end: ReadEnd::Complete },
            }
        },
    }
}

/// The records of a quote file: the header, then the three fields of each
/// quote.
pub open spec fn surface_records(quotes: Seq<QuoteFields>) -> Seq<Seq<Seq<char>>> {
    seq![seq!["strike"@, "tau"@, "implied_vol"@]] + quotes.map_values(
        |q: QuoteFields| seq![q.strike@, q.tau@, q.implied_vol@],
    )
}

/// The text of the quote file that holds these quotes.
pub fn surface_text(quotes: &Vec<QuoteFields>) -> (bytes: Vec<u8>)
    ensures
        bytes@ == csv_text(surface_records(quotes@)),
        csv_read(bytes@) == (surface_records(quotes@).drop_first(), false),
        bytes@ == vstd::utf8::encode_utf8(header_line()) + vstd::utf8::encode_utf8(
            records_text(surface_records(quotes@).drop_first()),
        ),
        (forall|i: int| 0 <= i < quotes.len() ==> plain_quote(#[trigger] quotes@[i])) ==> bytes@
            == vstd::utf8::encode_utf8(header_line() + plain_lines(quotes@)),
{
    proof {
        saved_text_starts_with_header(quotes@);
        if forall|i: int| 0 <= i < quotes.len() ==> plain_quote(#[trigger] quotes@[i]) {
            saved_text_layout(quotes@);
        }
    }
    let mut rows: Vec<Vec<String>> = Vec::new();
    let mut header: Vec<String> = Vec::new();
    header.push(String::from_str("strike"));
    header.push(String::from_str("tau"));
    header.push(String::from_str("implied_vol"));
    rows.push(header);
    let ghost head: Seq<Seq<char>> = seq!["strike"@, "tau"@, "implied_vol"@];
    assert(rows.deep_view()[0] =~= head);
    let mut i: usize = 0;
    while i < quotes.len()
        invariant
            i <= quotes.len(),
            rows.len() == i + 1,
            head == seq!["strike"@, "tau"@, "implied_vol"@],
            forall|t: int| 0 <= t < rows.len() ==> #[trigger] rows[t].len() == 3,
            rows.deep_view()[0] == head,
            forall|t: int|
                0 <= t < i ==> #[trigger] rows.deep_view()[t + 1] == seq![
                    quotes[t].strike@,
                    quotes[t].tau@,
                    quotes[t].implied_vol@,
                ],
        decreases quotes.len() - i,
    {
        let q = &quotes[i];
        let mut row: Vec<String> = Vec::new();
        row.push(q.strike.clone());
        row.push(q.tau.clone());
        row.push(q.implied_vol.clone());
        let ghost before = rows.deep_view();
        let ghost before_rows = rows@;
        rows.push(row);
        assert forall|t: int| 0 <= t <= i implies #[trigger] rows.deep_view()[t] == before[t] by {
            assert(rows@[t] == before_rows[t]);
        }
        assert(rows.deep_view()[i + 1] =~= seq![
            quotes[i as int].strike@,
            quotes[i as int].tau@,
            quotes[i as int].implied_vol@,
        ]);
        i += 1;
    }
    let ghost records = surface_records(quotes@);
    assert(records.len() == rows.len());
    assert forall|t: int| 0 <= t < rows.len() implies #[trigger] rows.deep_view()[t] == records[t] by {
        if t > 0 {
            let u = t - 1;
            assert(rows.deep_view()[u + 1] == seq![
                quotes[u].strike@,
                quotes[u].tau@,
                quotes[u].implied_vol@,
            ]);
        }
    }
    assert(rows.deep_view() =~= records);
    match write_records(&rows) {
        Ok(bytes) => bytes,
        Err(_) => {
            assert(false);
            Vec::new()
        },
    }
}

/// Reading back a saved quote file gives the saved quotes: the text that
/// `surface_text` writes reads, completely, as one quote per saved quote, in
/// order, with each field as saved, trimmed.
pub proof fn saved_quotes_read_back(saved: Seq<QuoteFields>, bytes: Seq<u8>, read: QuoteRead)
    requires
        csv_read(bytes) == (surface_records(saved).drop_first(), false),
        reads_as(bytes, read),
    ensures
        read.end is Complete,
        read.quotes.len() == saved.len(),
        forall|i: int|
            0 <= i < saved.len() ==> {
                &&& (#[trigger] read.quotes[i]).strike@ == trimmed(saved[i].strike@)
                &&& read.quotes[i].tau@ == trimmed(saved[i].tau@)
                &&& read.quotes[i].implied_vol@ == trimmed(saved[i].implied_vol@)
            },
{
    let rows = surface_records(saved).drop_first();
    assert forall|t: int| 0 <= t < saved.len() implies #[trigger] rows[t] == seq![
        saved[t].strike@,
        saved[t].tau@,
        saved[t].implied_vol@,
    ] by {}
    assert(rows.len() == saved.len());
    if read.quotes.len() < rows.len() {
        let k = read.quotes.len() as int;
        assert(rows[k].len() == 3);
    }
}

/// The first line of every quote file.
pub open spec fn header_line() -> Seq<char> {
    "strike,tau,implied_vol\n"@
}

proof fn lemma_encode_concat(a: Seq<char>, b: Seq<char>)
    ensures
        vstd::utf8::encode_utf8(a + b) == vstd::utf8::encode_utf8(a) + vstd::utf8::encode_utf8(b),
    decreases a.len(),
{
    if a.len() == 0 {
        assert(a + b =~= b);
        assert(vstd::utf8::encode_utf8(a) =~= seq![]);
        assert(vstd::utf8::encode_utf8(a) + vstd::utf8::encode_utf8(b) =~= vstd::utf8::encode_utf8(b));
    } else {
        assert((a + b).drop_first() =~= a.drop_first() + b);
        assert((a + b)[0] == a[0]);
        lemma_encode_concat(a.drop_first(), b);
        let e = vstd::utf8::encode_scalar(a[0] as u32);
        assert(vstd::utf8::encode_utf8(a + b) == e + vstd::utf8::encode_utf8((a + b).drop_first()));
        assert(vstd::utf8::encode_utf8(a) == e + vstd::utf8::encode_utf8(a.drop_first()));
        assert(e + (vstd::utf8::encode_utf8(a.drop_first()) + vstd::utf8::encode_utf8(b)) =~= (e
            + vstd::utf8::encode_utf8(a.drop_first())) + vstd::utf8::encode_utf8(b));
    }
}

proof fn lemma_records_text_first(records: Seq<Seq<Seq<char>>>)
    requires
        records.len() >= 1,
    ensures
        records_text(records) == record_text(records[0]) + records_text(records.drop_first()),
    decreases records.len(),
{
    if records.len() == 1 {
        assert(records.drop_last().len() == 0);
        assert(records.drop_first().len() == 0);
        assert(records_text(records.drop_last()) =~= seq![]);
        assert(records_text(records.drop_first()) =~= seq![]);
        assert(records_text(records) =~= record_text(records[0]) + records_text(records.drop_first()));
    } else {
        let init = records.drop_last();
        lemma_records_text_first(init);
        assert(init.drop_first() =~= records.drop_first().drop_last());
        assert(records.drop_first().last() == records.last());
        assert(init[0] == records[0]);
        assert(records_text(records) =~= record_text(records[0]) + records_text(records.drop_first()));
    }
}

proof fn lemma_header_record()
    ensures
        record_text(seq!["strike"@, "tau"@, "implied_vol"@]) == header_line(),
{
    reveal_strlit("strike");
    reveal_strlit("tau");
    reveal_strlit("implied_vol");
    reveal_strlit("strike,tau,implied_vol\n");
    let fields = seq!["strike"@, "tau"@, "implied_vol"@];
    assert(!needs_quotes("strike"@));
    assert(!needs_quotes("tau"@));
    assert(!needs_quotes("implied_vol"@));
    assert(fields.drop_last() =~= seq!["strike"@, "tau"@]);
    assert(seq!["strike"@, "tau"@].drop_last() =~= seq!["strike"@]);
    assert(joined_fields(seq!["strike"@]) == "strike"@);
    assert(joined_fields(seq!["strike"@, "tau"@]) == "strike"@ + seq![','] + "tau"@);
    assert(joined_fields(fields) == "strike"@ + seq![','] + "tau"@ + seq![','] + "implied_vol"@);
    assert(record_text(fields) =~= header_line());
}

/// Every saved quote file, whatever the quotes, begins with the header line
/// `strike,tau,implied_vol`: its text is that line followed by the lines of the
/// quotes, and its bytes are those of that line followed by those of the rest.
pub proof fn saved_text_starts_with_header(quotes: Seq<QuoteFields>)
    ensures
        records_text(surface_records(quotes)) == header_line() + records_text(
            surface_records(quotes).drop_first(),
        ),
        csv_text(surface_records(quotes)) == vstd::utf8::encode_utf8(header_line())
            + vstd::utf8::encode_utf8(records_text(surface_records(quotes).drop_first())),
{
    let records = surface_records(quotes);
    lemma_records_text_first(records);
    lemma_header_record();
    lemma_encode_concat(header_line(), records_text(records.drop_first()));
}

/// The lines of quotes written plainly: strike, maturity and volatility,
/// separated by commas, one quote per line.
pub open spec fn plain_lines(quotes: Seq<QuoteFields>) -> Seq<char>
    decreases quotes.len(),
{
    if quotes.len() == 0 {
        seq![]
    } else {
        plain_lines(quotes.drop_last()) + quotes.last().strike@ + seq![','] + quotes.last().tau@
            + seq![','] + quotes.last().implied_vol@ + seq!['\n']
    }
}

/// A quote whose fields hold no comma, quote or line break.
pub open spec fn plain_quote(q: QuoteFields) -> bool {
    !needs_quotes(q.strike@) && !needs_quotes(q.tau@) && !needs_quotes(q.implied_vol@)
}

proof fn lemma_plain_record(a: Seq<char>, b: Seq<char>, c: Seq<char>)
    requires
        !needs_quotes(a),
        !needs_quotes(b),
        !needs_quotes(c),
    ensures
        record_text(seq![a, b, c]) == a + seq![','] + b + seq![','] + c + seq!['\n'],
{
    let fields = seq![a, b, c];
    assert(fields.drop_last() =~= seq![a, b]);
    assert(seq![a, b].drop_last() =~= seq![a]);
    assert(joined_fields(seq![a]) == a);
    assert(joined_fields(seq![a, b]) == a + seq![','] + b);
    assert(joined_fields(fields) == a + seq![','] + b + seq![','] + c);
    assert(joined_fields(fields).len() > 0);
}

proof fn lemma_plain_records(quotes: Seq<QuoteFields>)
    requires
        forall|i: int| 0 <= i < quotes.len() ==> plain_quote(#[trigger] quotes[i]),
    ensures
        records_text(surface_records(quotes)) == header_line() + plain_lines(quotes),
    decreases quotes.len(),
{
    if quotes.len() == 0 {
        let records = surface_records(quotes);
        assert(records =~= seq![seq!["strike"@, "tau"@, "implied_vol"@]]);
        lemma_records_text_first(records);
        lemma_header_record();
        assert(records.drop_first().len() == 0);
        assert(records_text(records.drop_first()) =~= seq![]);
        assert(records_text(records) =~= header_line() + plain_lines(quotes));
    } else {
        let init = quotes.drop_last();
        let q = quotes.last();
        assert(plain_quote(quotes[quotes.len() - 1]));
        lemma_plain_records(init);
        let records = surface_records(quotes);
        assert(records.drop_last() =~= surface_records(init));
        assert(records.last() == seq![q.strike@, q.tau@, q.implied_vol@]);
        lemma_plain_record(q.strike@, q.tau@, q.implied_vol@);
        assert(records_text(records) == records_text(surface_records(init)) + record_text(
            records.last(),
        ));
        assert(records_text(records) =~= header_line() + plain_lines(quotes));
    }
}

/// Layout of a saved quote file whose fields hold no comma, quote or line
/// break: the header line `strike,tau,implied_vol`, then for each quote, in
/// order, its strike, maturity and volatility separated by commas, on a line
/// of its own; the bytes are that text in UTF-8.
pub proof fn saved_text_layout(quotes: Seq<QuoteFields>)
    requires
        forall|i: int| 0 <= i < quotes.len() ==> plain_quote(#[trigger] quotes[i]),
    ensures
        records_text(surface_records(quotes)) == header_line() + plain_lines(quotes),
        csv_text(surface_records(quotes)) == vstd::utf8::encode_utf8(
            header_line() + plain_lines(quotes),
        ),
{
    lemma_plain_records(quotes);
}

} // verus!
