//! Chat records and loading them from an export file's table.
use vstd::prelude::*;
use crate::lookup::{find_position, first_position, lemma_first_position};

verus! {

/// One chat message, as a row of an export file.
#[derive(Clone, Debug)]
pub struct Record {
    pub author_id: String,
    pub author: String,
    pub date: String,
    pub content: String,
    pub attachments: String,
    pub reactions: String,
}

/// A record's fields as character sequences.
pub struct RecordView {
    pub author_id: Seq<char>,
    pub author: Seq<char>,
    pub date: Seq<char>,
    pub content: Seq<char>,
    pub attachments: Seq<char>,
    pub reactions: Seq<char>,
}

impl View for Record {
    type V = RecordView;

    open spec fn view(&self) -> RecordView {
        RecordView {
            author_id: self.author_id@,
            author: self.author@,
            date: self.date@,
            content: self.content@,
            attachments: self.attachments@,
            reactions: self.reactions@,
        }
    }
}

/// Why a row of an export file's table fails the record schema.
#[derive(Clone, Copy, Debug, PartialEq, Eq, Structural)]
pub enum LoadError {
    /// The row at this index (the header being row 0) has another number of
    /// fields than the header.
    RowWidth(usize),
    /// The row at this index (the header being row 0) does not read as text.
    RowText(usize),
}

pub open spec fn records_view(v: Seq<Record>) -> Seq<RecordView> {
    v.map_values(|x: Record| x@)
}

/// The column names of the record schema, in field order.
pub open spec fn schema() -> Seq<Seq<char>> {
    seq!["AuthorID"@, "Author"@, "Date"@, "Content"@, "Attachments"@, "Reactions"@]
}

pub open spec fn schema_complete(header: Seq<Seq<char>>) -> bool {
    forall|k: int| 0 <= k < 6 ==> (#[trigger] first_position(header, schema()[k])) is Some
}

/// The first row at or after `from` whose width differs from the header's.
pub open spec fn first_bad_row(t: Seq<Seq<Seq<char>>>, from: int) -> Option<int>
    decreases t.len() - from,
{
    if from >= t.len() || from < 1 {
        None
    } else if t[from].len() != t[0].len() {
        Some(from)
    } else {
        first_bad_row(t, from + 1)
    }
}

pub open spec fn cell(header: Seq<Seq<char>>, row: Seq<Seq<char>>, k: int) -> Seq<char> {
    row[first_position(header, schema()[k])->0]
}

/// The record that a data row denotes under the header.
pub open spec fn row_record(header: Seq<Seq<char>>, row: Seq<Seq<char>>) -> RecordView {
    RecordView {
        author_id: cell(header, row, 0),
        author: cell(header, row, 1),
        date: cell(header, row, 2),
        content: cell(header, row, 3),
        attachments: cell(header, row, 4),
        reactions: cell(header, row, 5),
    }
}

/// What a table (header row first) yields: its data rows as records, or the
/// first row that does not fit the schema. A table with no data row, and one
/// whose header lacks a record column, yields no records.
pub open spec fn table_result(t: Seq<Seq<Seq<char>>>) -> Result<Seq<RecordView>, LoadError> {
    if t.len() <= 1 {
        Ok(Seq::empty())
    } else if !schema_complete(t[0]) {
        Ok(Seq::empty())
    } else {
        match first_bad_row(t, 1) {
            Some(j) => Err(LoadError::RowWidth(j as usize)),
            None => Ok(Seq::new((t.len() - 1) as nat, |j: int| row_record(t[0], t[j + 1]))),
        }
    }
}

/// The rows of a delimited table in `b` that read before the reader's first
/// error, each as its field texts, and whether such an error came.
pub uninterp spec fn csv_rows_of(b: Seq<u8>) -> (Seq<Seq<Seq<char>>>, bool);

/// Relies on the `csv` crate's reader (`ReaderBuilder` with header handling
/// off and rows of any width, then `records`): the rows depend on the bytes
/// alone. Reading stops at the first error, which is reported.
#[verifier::external_body]
fn read_table(b: &Vec<u8>) -> (r: (Vec<Vec<String>>, bool))
    ensures
        (r.0.deep_view(), r.1) == csv_rows_of(b@),
{
    let mut rdr = csv::ReaderBuilder::new().has_headers(false).flexible(true).from_reader(&b[..]);
    let mut rows = Vec::new();
    for rec in rdr.records() {
        match rec {
            Ok(rec) => rows.push(rec.iter().map(String::from).collect()),
            Err(_) => return (rows, true),
        }
    }
    (rows, false)
}

/// What a file yields from the rows `t` that read before an error, if
/// `failed`: a row that does not read is fatal unless the header itself does
/// not read or lacks a record column, or a row before it is fatal already.
pub open spec fn file_result(t: Seq<Seq<Seq<char>>>, failed: bool) -> Result<
    Seq<RecordView>,
    LoadError,
> {
    if failed && t.len() > 0 && schema_complete(t[0]) && first_bad_row(t, 1) is None {
        Err(LoadError::RowText(t.len() as usize))
    } else {
        table_result(t)
    }
}

/// The column index of each schema name, in schema order, if all are there.
fn schema_columns(header: &Vec<String>) -> (r: Option<Vec<usize>>)
    ensures
        match r {
            Some(c) => schema_complete(header.deep_view()) && c.len() == 6 && forall|k: int|
                0 <= k < 6 ==> first_position(header.deep_view(), schema()[k]) == Some(
                    #[trigger] c[k] as int,
                ),
            None => !schema_complete(header.deep_view()),
        },
{
    let names: Vec<String> = vec![
        String::from_str("AuthorID"),
        String::from_str("Author"),
        String::from_str("Date"),
        String::from_str("Content"),
        String::from_str("Attachments"),
        String::from_str("Reactions"),
    ];
    assert(names.deep_view() =~= schema());
    let mut cols: Vec<usize> = Vec::new();
    let mut k: usize = 0;
    while k < 6
        invariant
            k <= 6,
            names.len() == 6,
            names.deep_view() == schema(),
            cols.len() == k,
            forall|j: int|
                0 <= j < k ==> first_position(header.deep_view(), schema()[j]) == Some(
                    #[trigger] cols[j] as int,
                ) && cols[j] < header.len(),
        decreases 6 - k,
    {
        assert(names[k as int]@ == schema()[k as int]);
        match find_position(header, &names[k]) {
            Some(c) => cols.push(c),
            None => {
                assert(first_position(header.deep_view(), schema()[k as int]) is None);
                return None;
            },
        }
        k = k + 1;
    }
    assert forall|j: int| 0 <= j < 6 implies (#[trigger] first_position(
        header.deep_view(),
        schema()[j],
    )) is Some by {
        assert(first_position(header.deep_view(), schema()[j]) == Some(cols[j] as int));
    }
    Some(cols)
}

/// Turns a table whose first row is the header into records, matching
/// columns by header name. A header that lacks a record column gives no
/// records. Fails where a data row's width differs from the header's.
pub fn records_from_table(t: &Vec<Vec<String>>) -> (r: Result<Vec<Record>, LoadError>)
    ensures
        match r {
            Ok(v) => table_result(t.deep_view()) == Ok::<Seq<RecordView>, LoadError>(
                records_view(v@),
            ),
            Err(e) => table_result(t.deep_view()) == Err::<Seq<RecordView>, LoadError>(e),
        },
{
    let ghost tv = t.deep_view();
    if t.len() <= 1 {
        let v: Vec<Record> = Vec::new();
        assert(records_view(v@) =~= Seq::<RecordView>::empty());
        return Ok(v);
    }
    let header = &t[0];
    assert(header.deep_view() == tv[0]);
    let cols = match schema_columns(header) {
        Some(c) => c,
        None => {
            let v: Vec<Record> = Vec::new();
            assert(records_view(v@) =~= Seq::<RecordView>::empty());
            return Ok(v);
        },
    };
    let mut out: Vec<Record> = Vec::new();
    let mut j: usize = 1;
    while j < t.len()
        invariant
            1 <= j <= t.len(),
            tv == t.deep_view(),
            t.len() > 1,
            header.deep_view() == tv[0],
            schema_complete(tv[0]),
            cols.len() == 6,
            forall|k: int| 0 <= k < 6 ==> first_position(tv[0], schema()[k]) == Some(
                #[trigger] cols[k] as int,
            ),
            first_bad_row(tv, 1) == first_bad_row(tv, j as int),
            out.len() == j - 1,
            forall|i: int|
                0 <= i < out.len() ==> #[trigger] out[i]@ == row_record(tv[0], tv[i + 1]),
        decreases t.len() - j,
    {
        let row = &t[j];
        assert(row.deep_view() == tv[j as int]);
        if row.len() != header.len() {
            return Err(LoadError::RowWidth(j));
        }
        assert forall|k: int| 0 <= k < 6 implies (#[trigger] cols[k]) < row.len() by {
            lemma_first_position(tv[0], schema()[k]);
        }
        let rec = Record {
            author_id: row[cols[0]].clone(),
            author: row[cols[1]].clone(),
            date: row[cols[2]].clone(),
            content: row[cols[3]].clone(),
            attachments: row[cols[4]].clone(),
            reactions: row[cols[5]].clone(),
        };
        out.push(rec);
        j = j + 1;
    }
    assert(first_bad_row(tv, j as int) is None);
    assert(records_view(out@) =~= Seq::new(
        (tv.len() - 1) as nat,
        |i: int| row_record(tv[0], tv[i + 1]),
    ));
    Ok(out)
}

/// Loads one export file into a named collection of records. `content` is
/// `None` where the file could not be read; such a file, one whose header
/// row does not read, and one whose header lacks a record column, yields an
/// empty collection. A data row that does not read, or whose width differs
/// from the header's, is an error.
pub fn load_collection(name: String, content: Option<Vec<u8>>) -> (r: Result<
    (String, Vec<Record>),
    LoadError,
>)
    ensures
        r matches Ok(c) ==> c.0@ == name@,
        match content {
            Some(b) => match r {
                Ok(c) => file_result(csv_rows_of(b@).0, csv_rows_of(b@).1) == Ok::<
                    Seq<RecordView>,
                    LoadError,
                >(records_view(c.1@)),
                Err(e) => file_result(csv_rows_of(b@).0, csv_rows_of(b@).1) == Err::<
                    Seq<RecordView>,
                    LoadError,
                >(e),
            },
            None => r matches Ok(c) && c.1.len() == 0,
        },
{
    match content {
        Some(b) => {
            let (t, failed) = read_table(&b);
            match records_from_table(&t) {
                Ok(v) => {
                    if failed && t.len() > 0 {
                        assert(t[0].deep_view() == t.deep_view()[0]);
                        if schema_columns(&t[0]).is_some() {
                            return Err(LoadError::RowText(t.len()));
                        }
                    }
                    Ok((name, v))
                },
                Err(e) => Err(e),
            }
        },
        None => Ok((name, Vec::new())),
    }
}

} // verus!
