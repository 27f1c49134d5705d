use vstd::prelude::*;
use crate::decimal::{parse_seconds, spec_seconds_as_nanos};
use crate::error::ReplayError;
use crate::record::{is_sorted, is_stable_sort_of, records_view, sort_by_timestamp, AccessRecord, RecordView};
use crate::json::{json_documents, json_object, json_string, read_json_documents, read_json_object, read_json_string};
use crate::text::{chars_of, pairs_of, string_of, texts_of};
use crate::timestamp::{spec_timestamp, Timestamp};

verus! {

/// The formats that records are read from.
#[derive(Clone, Copy, Debug, PartialEq, Eq, Structural)]
pub enum InputFormat {
    /// Rows under a header row, fields separated by commas.
    Csv,
    /// JSON objects one after the other, each with the record under `_source`.
    Json,
}

/// The index of the last `c` in `s`, or `-1` where `s` holds none.
pub open spec fn last_index_of(s: Seq<char>, c: char) -> int
    decreases s.len(),
{
    if s.len() == 0 {
        -1
    } else if s.last() == c {
        s.len() - 1
    } else {
        last_index_of(s.drop_last(), c)
    }
}

/// The extension of the file that `path` names: what follows the last dot
/// of the file name, where that dot is not the name's first character. The
/// file name is what follows the last `/`.
pub open spec fn spec_extension(path: Seq<char>) -> Option<Seq<char>> {
    let name = path.subrange(last_index_of(path, '/') + 1, path.len() as int);
    let dot = last_index_of(name, '.');
    if dot <= 0 {
        None
    } else {
        Some(name.subrange(dot + 1, name.len() as int))
    }
}

/// The index of the last `c` among `chars[from..]`, counted from `from`.
fn find_last(chars: &Vec<char>, from: usize, c: char) -> (out: Option<usize>)
    requires
        from <= chars.len(),
    ensures
        match out {
            Some(at) => at == last_index_of(chars@.subrange(from as int, chars.len() as int), c) && at
                < chars.len() - from,
            None => last_index_of(chars@.subrange(from as int, chars.len() as int), c) == -1,
        },
{
    let ghost tail = chars@.subrange(from as int, chars.len() as int);
    let mut end: usize = chars.len();
    assert(tail.take(end - from) == tail);
    while end > from
        invariant
            from <= end <= chars.len(),
            tail == chars@.subrange(from as int, chars.len() as int),
            last_index_of(tail, c) == last_index_of(tail.take(end - from), c),
        decreases end - from,
    {
        let ghost prefix = tail.take(end - from);
        assert(prefix.last() == chars@[end - 1]);
        if chars[end - 1] == c {
            return Some(end - 1 - from);
        }
        assert(prefix.drop_last() == tail.take(end - 1 - from));
        end -= 1;
    }
    assert(tail.take(0).len() == 0);
    None
}

/// The extension of the file that `path` names.
pub fn extension_of(path: &str) -> (out: Option<String>)
    ensures
        match spec_extension(path@) {
            Some(extension) => out matches Some(found) && found@ == extension,
            None => out is None,
        },
{
    let chars = chars_of(path);
    let name_start: usize = match find_last(&chars, 0, '/') {
        Some(at) => at + 1,
        None => 0,
    };
    assert(chars@.subrange(0, chars.len() as int) == chars@);
    let ghost name = chars@.subrange(name_start as int, chars.len() as int);
    match find_last(&chars, name_start, '.') {
        Some(dot) => {
            if dot == 0 {
                None
            } else {
                let found = string_of(&chars, name_start + dot + 1, chars.len());
                assert(name.subrange(dot + 1, name.len() as int) == chars@.subrange(
                    name_start + dot + 1,
                    chars.len() as int,
                ));
                Some(found)
            }
        },
        None => None,
    }
}

/// The format that a file extension names.
pub open spec fn spec_format(extension: Option<Seq<char>>) -> Option<InputFormat> {
    if extension == Some("csv"@) {
        Some(InputFormat::Csv)
    } else if extension == Some("json"@) {
        Some(InputFormat::Json)
    } else {
        None
    }
}

/// Picks the input format by the extension of the file name: `csv` or
/// `json`. Any other extension, and a name without one, is an
/// `UnsupportedInput`, which carries the extension.
pub fn input_format(path: &str) -> (out: Result<InputFormat, ReplayError>)
    ensures
        match spec_format(spec_extension(path@)) {
            Some(format) => out == Ok::<InputFormat, ReplayError>(format),
            None => out matches Err(ReplayError::UnsupportedInput { extension }) && match (
                extension,
                spec_extension(path@),
            ) {
                (Some(found), Some(expected)) => found@ == expected,
                (None, None) => true,
                _ => false,
            },
        },
{
    let extension = extension_of(path);
    match extension {
        Some(found) => {
            if found == "csv".to_owned() {
                Ok(InputFormat::Csv)
            } else if found == "json".to_owned() {
                Ok(InputFormat::Json)
            } else {
                Err(ReplayError::UnsupportedInput { extension: Some(found) })
            }
        },
        None => Err(ReplayError::UnsupportedInput { extension: None }),
    }
}

/// The texts of the fields of the rows of a table.
pub open spec fn table_view(rows: Seq<Vec<String>>) -> Seq<Seq<Seq<char>>> {
    rows.map_values(|row: Vec<String>| texts_of(row@))
}

/// The rows that the CSV reader finds in `data`, the header row first and
/// each row as the texts of its fields, up to the first row that it
/// refuses; and whether it read `data` to the end without refusing a row.
pub uninterp spec fn csv_table(data: Seq<u8>) -> (Seq<Seq<Seq<char>>>, bool);

/// Reads CSV rows.
///
/// Trusted: runs a `csv::Reader`, built with `csv::ReaderBuilder` so that
/// the header row is handed out like any other, over `data`, and collects
/// the rows that `Reader::records` yields until it yields an error. The
/// contract only names what was collected and whether an error came.
#[verifier::external_body]
fn read_csv_rows(data: &[u8]) -> (out: (Vec<Vec<String>>, bool))
    ensures
        table_view(out.0@) == csv_table(data@).0,
        out.1 == csv_table(data@).1,
{
    let mut reader = csv::ReaderBuilder::new().has_headers(false).from_reader(data);
    let mut rows: Vec<Vec<String>> = Vec::new();
    for row in reader.records() {
        match row {
            Ok(fields) => rows.push(fields.iter().map(|field| field.to_owned()).collect()),
            Err(_) => return (rows, false),
        }
    }
    (rows, true)
}

/// The texts of the fields of one record, as far as the input holds them.
#[derive(Debug)]
pub struct RecordFields {
    pub timestamp: Option<String>,
    pub domain_name: Option<String>,
    pub path: Option<String>,
    pub parameters: Option<String>,
    pub required_time: Option<String>,
}

/// What [`RecordFields`] stand for.
pub struct FieldTexts {
    pub timestamp: Option<Seq<char>>,
    pub domain_name: Option<Seq<char>>,
    pub path: Option<Seq<char>>,
    pub parameters: Option<Seq<char>>,
    pub required_time: Option<Seq<char>>,
}

/// The text of a string that may be missing.
pub open spec fn option_text(text: Option<String>) -> Option<Seq<char>> {
    match text {
        Some(found) => Some(found@),
        None => None,
    }
}

impl View for RecordFields {
    type V = FieldTexts;

    open spec fn view(&self) -> FieldTexts {
        FieldTexts {
            timestamp: option_text(self.timestamp),
            domain_name: option_text(self.domain_name),
            path: option_text(self.path),
            parameters: option_text(self.parameters),
            required_time: option_text(self.required_time),
        }
    }
}

/// The record that the given field texts make: timestamp, path and
/// processing time must be there, the timestamp must name an instant and
/// the processing time must be a decimal number of seconds that fits in
/// nanoseconds. Missing parameters are empty parameters.
pub open spec fn spec_record(fields: FieldTexts) -> Option<RecordView> {
    if fields.timestamp is Some && fields.path is Some && fields.required_time is Some
        && spec_timestamp(fields.timestamp->0) is Some && spec_seconds_as_nanos(
        fields.required_time->0,
    ) is Some {
        Some(
            RecordView {
                timestamp: spec_timestamp(fields.timestamp->0)->0,
                domain_name: fields.domain_name,
                path: fields.path->0,
                parameters: match fields.parameters {
                    Some(parameters) => parameters,
                    None => Seq::empty(),
                },
                required_time: spec_seconds_as_nanos(fields.required_time->0)->0,
            },
        )
    } else {
        None
    }
}

/// Makes a record of the texts of its fields; `None` where a needed field
/// is missing or does not decode.
pub fn record_from_fields(fields: RecordFields) -> (out: Option<AccessRecord>)
    ensures
        match spec_record(fields@) {
            Some(record) => out matches Some(found) && found@ == record,
            None => out is None,
        },
{
    let RecordFields { timestamp, domain_name, path, parameters, required_time } = fields;
    match (timestamp, path, required_time) {
        (Some(timestamp), Some(path), Some(required_time)) => {
            match (Timestamp::parse(timestamp.as_str()), parse_seconds(required_time.as_str())) {
                (Ok(timestamp), Some(required_time)) => Some(
                    AccessRecord {
                        timestamp,
                        domain_name,
                        path,
                        parameters: match parameters {
                            Some(parameters) => parameters,
                            None => String::new(),
                        },
                        required_time,
                    },
                ),
                _ => None,
            }
        },
        _ => None,
    }
}

/// The index of the first of `names`, from `from` on, that is `name`.
pub open spec fn first_index_of(names: Seq<Seq<char>>, name: Seq<char>, from: int) -> Option<int>
    decreases names.len() - from,
{
    if from < 0 || from >= names.len() {
        None
    } else if names[from] == name {
        Some(from)
    } else {
        first_index_of(names, name, from + 1)
    }
}

/// The field of `row` under the first column of `header` that is named `name`.
pub open spec fn spec_cell(header: Seq<Seq<char>>, row: Seq<Seq<char>>, name: Seq<char>) -> Option<Seq<char>> {
    match first_index_of(header, name, 0) {
        Some(at) => if at < row.len() {
            Some(row[at])
        } else {
            None
        },
        None => None,
    }
}

/// A text that is there and not empty.
pub open spec fn non_empty(text: Option<Seq<char>>) -> Option<Seq<char>> {
    match text {
        Some(found) => if found.len() > 0 {
            Some(found)
        } else {
            None
        },
        None => None,
    }
}

/// The field texts of a CSV row: each field is found by the name of its
/// column, columns of other names are not looked at, and an empty domain
/// name or an empty `params` field counts as missing.
pub open spec fn spec_csv_fields(header: Seq<Seq<char>>, row: Seq<Seq<char>>) -> FieldTexts {
    FieldTexts {
        timestamp: spec_cell(header, row, "@timestamp"@),
        domain_name: non_empty(spec_cell(header, row, "domain_name"@)),
        path: spec_cell(header, row, "path"@),
        parameters: non_empty(spec_cell(header, row, "params"@)),
        required_time: spec_cell(header, row, "target_processing_time"@),
    }
}

/// How decoding a list of rows or objects ends: with the records, or with
/// the index of the first row that does not decode, among the rows that
/// the reader hands out. In a CSV table the header is row zero.
pub enum Decoded {
    Records(Seq<RecordView>),
    FailedAt(nat),
}

/// The records of the first `count` rows under the header of a table.
pub open spec fn spec_csv_rows(table: Seq<Seq<Seq<char>>>, count: nat) -> Decoded
    decreases count,
{
    if count == 0 {
        Decoded::Records(Seq::empty())
    } else {
        match spec_csv_rows(table, (count - 1) as nat) {
            Decoded::Records(records) => match spec_record(spec_csv_fields(table[0], table[count as int])) {
                Some(record) => Decoded::Records(records.push(record)),
                None => Decoded::FailedAt(count),
            },
            Decoded::FailedAt(row) => Decoded::FailedAt(row),
        }
    }
}

/// The records of a table whose first row is the header. Where the reader
/// stopped at a row, that row is the one that fails, unless an earlier row
/// does not decode.
pub open spec fn spec_csv_records(table: Seq<Seq<Seq<char>>>, complete: bool) -> Decoded {
    if table.len() == 0 {
        if complete {
            Decoded::Records(Seq::empty())
        } else {
            Decoded::FailedAt(0)
        }
    } else {
        match spec_csv_rows(table, (table.len() - 1) as nat) {
            Decoded::Records(records) => if complete {
                Decoded::Records(records)
            } else {
                Decoded::FailedAt(table.len())
            },
            Decoded::FailedAt(row) => Decoded::FailedAt(row),
        }
    }
}

/// Whether `out` is what `decoded` asks for.
pub open spec fn is_decoded(out: Result<Vec<AccessRecord>, ReplayError>, decoded: Decoded) -> bool {
    match decoded {
        Decoded::Records(records) => out matches Ok(found) && records_view(found@) == records,
        Decoded::FailedAt(at) => out matches Err(ReplayError::RecordDecode { row }) && row == at,
    }
}

/// Whether `found` is the index of the first column of `header` that is
/// named `name`.
spec fn is_column(found: Option<usize>, header: Seq<Seq<char>>, name: Seq<char>) -> bool {
    match first_index_of(header, name, 0) {
        Some(at) => found == Some(at as usize) && 0 <= at < header.len() && at as usize == at,
        None => found is None,
    }
}

/// A row that does not decode is the row that fails, however many rows follow.
proof fn lemma_csv_failure_stays(table: Seq<Seq<Seq<char>>>, count: nat, more: nat)
    requires
        count <= more,
        spec_csv_rows(table, count) is FailedAt,
    ensures
        spec_csv_rows(table, more) == spec_csv_rows(table, count),
    decreases more - count,
{
    if count < more {
        lemma_csv_failure_stays(table, count, (more - 1) as nat);
    }
}

/// The index of the first column that is named `name`.
fn find_column(header: &Vec<String>, name: &str) -> (out: Option<usize>)
    ensures
        is_column(out, texts_of(header@), name@),
{
    let wanted = name.to_owned();
    let mut i: usize = 0;
    while i < header.len()
        invariant
            i <= header.len(),
            wanted@ == name@,
            first_index_of(texts_of(header@), name@, 0) == first_index_of(
                texts_of(header@),
                name@,
                i as int,
            ),
        decreases header.len() - i,
    {
        assert(texts_of(header@)[i as int] == header@[i as int]@);
        if header[i] == wanted {
            return Some(i);
        }
        i += 1;
    }
    None
}

/// A copy of the field of `row` in the given column.
fn cell_at(row: &Vec<String>, column: Option<usize>) -> (out: Option<String>)
    ensures
        match column {
            Some(at) => if at < row.len() {
                out matches Some(found) && found@ == row@[at as int]@
            } else {
                out is None
            },
            None => out is None,
        },
{
    match column {
        Some(at) => if at < row.len() {
            Some(row[at].clone())
        } else {
            None
        },
        None => None,
    }
}

/// The given text, unless it is missing or empty.
fn filled(text: Option<String>) -> (out: Option<String>)
    ensures
        option_text(out) == non_empty(option_text(text)),
{
    match text {
        Some(found) => if found.as_str().unicode_len() > 0 {
            Some(found)
        } else {
            None
        },
        None => None,
    }
}

/// The field texts of one row of a CSV table, found by the names of the
/// columns in the header.
pub fn fields_of_row(header: &Vec<String>, row: &Vec<String>) -> (out: RecordFields)
    ensures
        out@ == spec_csv_fields(texts_of(header@), texts_of(row@)),
{
    proof {
        assert forall|k: int| 0 <= k < row.len() implies texts_of(row@)[k] == row@[k]@ by {}
    }
    RecordFields {
        timestamp: cell_at(row, find_column(header, "@timestamp")),
        domain_name: filled(cell_at(row, find_column(header, "domain_name"))),
        path: cell_at(row, find_column(header, "path")),
        parameters: filled(cell_at(row, find_column(header, "params"))),
        required_time: cell_at(row, find_column(header, "target_processing_time")),
    }
}

/// Decodes the rows of a CSV table whose first row is the header, in the
/// order of the rows; `complete` says whether the reader got through the
/// input. Fails with `RecordDecode` and the index of the first row that
/// does not decode; the row at which the reader stopped is such a row.
pub fn records_from_table(rows: &Vec<Vec<String>>, complete: bool) -> (out: Result<
    Vec<AccessRecord>,
    ReplayError,
>)
    ensures
        is_decoded(out, spec_csv_records(table_view(rows@), complete)),
{
    let ghost table = table_view(rows@);
    if rows.len() == 0 {
        if complete {
            let records: Vec<AccessRecord> = Vec::new();
            assert(records_view(records@) == Seq::<RecordView>::empty());
            return Ok(records);
        } else {
            return Err(ReplayError::RecordDecode { row: 0 });
        }
    }
    let mut records: Vec<AccessRecord> = Vec::new();
    let mut i: usize = 1;
    assert(records_view(records@) == Seq::<RecordView>::empty());
    while i < rows.len()
        invariant
            1 <= i <= rows.len(),
            table == table_view(rows@),
            spec_csv_rows(table, (i - 1) as nat) == Decoded::Records(records_view(records@)),
        decreases rows.len() - i,
    {
        proof {
            assert(table[0] == texts_of(rows@[0]@));
            assert(table[i as int] == texts_of(rows@[i as int]@));
        }
        let fields = fields_of_row(&rows[0], &rows[i]);
        let ghost before = records_view(records@);
        match record_from_fields(fields) {
            Some(record) => {
                records.push(record);
                assert(records_view(records@) == before.push(record@));
            },
            None => {
                proof {
                    lemma_csv_failure_stays(table, i as nat, (rows.len() - 1) as nat);
                }
                return Err(ReplayError::RecordDecode { row: i });
            },
        }
        i += 1;
    }
    if complete {
        Ok(records)
    } else {
        Err(ReplayError::RecordDecode { row: rows.len() })
    }
}

/// Decodes CSV input: a header row that names the columns, then one record
/// per row, in the order of the rows.
pub fn decode_csv(data: &[u8]) -> (out: Result<Vec<AccessRecord>, ReplayError>)
    ensures
        is_decoded(out, spec_csv_records(csv_table(data@).0, csv_table(data@).1)),
{
    let (rows, complete) = read_csv_rows(data);
    records_from_table(&rows, complete)
}

/// The value of the first of `members`, from `from` on, whose key is `key`.
pub open spec fn spec_member(members: Seq<(Seq<char>, Seq<char>)>, key: Seq<char>, from: int) -> Option<
    Seq<char>,
>
    decreases members.len() - from,
{
    if from < 0 || from >= members.len() {
        None
    } else if members[from].0 == key {
        Some(members[from].1)
    } else {
        spec_member(members, key, from + 1)
    }
}

/// How reading a string that may be left out ends.
pub enum OptionalText {
    /// The member is missing or `null`.
    Missing,
    /// The member is this string.
    Text(Seq<char>),
    /// The member is neither a string nor `null`.
    Malformed,
}

/// The string under a member that may be missing or `null`.
pub open spec fn spec_optional_text(raw: Option<Seq<char>>) -> OptionalText {
    match raw {
        Some(text) => if text == "null"@ {
            OptionalText::Missing
        } else {
            match json_string(text) {
                Some(value) => OptionalText::Text(value),
                None => OptionalText::Malformed,
            }
        },
        None => OptionalText::Missing,
    }
}

/// The string under a member that has to be there.
pub open spec fn spec_required_text(raw: Option<Seq<char>>) -> Option<Seq<char>> {
    match raw {
        Some(text) => json_string(text),
        None => None,
    }
}

/// The field texts of the object under `_source`: timestamp and path are
/// strings, domain name and `params` are strings where they are there and
/// not `null`, and the processing time is taken as it is written. Members
/// of other names are not looked at.
pub open spec fn spec_json_fields(source: Seq<(Seq<char>, Seq<char>)>) -> Option<FieldTexts> {
    let domain_name = spec_optional_text(spec_member(source, "domain_name"@, 0));
    let parameters = spec_optional_text(spec_member(source, "params"@, 0));
    if domain_name is Malformed || parameters is Malformed {
        None
    } else {
        Some(
            FieldTexts {
                timestamp: spec_required_text(spec_member(source, "@timestamp"@, 0)),
                domain_name: match domain_name {
                    OptionalText::Text(name) => Some(name),
                    _ => None,
                },
                path: spec_required_text(spec_member(source, "path"@, 0)),
                parameters: match parameters {
                    OptionalText::Text(text) => Some(text),
                    _ => None,
                },
                required_time: spec_member(source, "target_processing_time"@, 0),
            },
        )
    }
}

/// The record of the members of one object of the input: the object under
/// its member `_source` holds the fields.
pub open spec fn spec_json_record(members: Option<Seq<(Seq<char>, Seq<char>)>>) -> Option<RecordView> {
    match members {
        Some(members) => match spec_member(members, "_source"@, 0) {
            Some(source) => match json_object(source) {
                Some(fields) => match spec_json_fields(fields) {
                    Some(texts) => spec_record(texts),
                    None => None,
                },
                None => None,
            },
            None => None,
        },
        None => None,
    }
}

/// The records of the first `count` of `documents`.
pub open spec fn spec_json_rows(documents: Seq<Seq<char>>, count: nat) -> Decoded
    decreases count,
{
    if count == 0 {
        Decoded::Records(Seq::empty())
    } else {
        match spec_json_rows(documents, (count - 1) as nat) {
            Decoded::Records(records) => match spec_json_record(json_object(documents[count - 1])) {
                Some(record) => Decoded::Records(records.push(record)),
                None => Decoded::FailedAt((count - 1) as nat),
            },
            Decoded::FailedAt(row) => Decoded::FailedAt(row),
        }
    }
}

/// The records of a stream of JSON objects. Where the reader stopped at a
/// value, that value is the one that fails, unless an earlier one does not
/// decode.
pub open spec fn spec_json_records(documents: Seq<Seq<char>>, complete: bool) -> Decoded {
    match spec_json_rows(documents, documents.len()) {
        Decoded::Records(records) => if complete {
            Decoded::Records(records)
        } else {
            Decoded::FailedAt(documents.len())
        },
        Decoded::FailedAt(row) => Decoded::FailedAt(row),
    }
}

/// An object that does not decode is the one that fails, however many follow.
proof fn lemma_json_failure_stays(documents: Seq<Seq<char>>, count: nat, more: nat)
    requires
        count <= more,
        spec_json_rows(documents, count) is FailedAt,
    ensures
        spec_json_rows(documents, more) == spec_json_rows(documents, count),
    decreases more - count,
{
    if count < more {
        lemma_json_failure_stays(documents, count, (more - 1) as nat);
    }
}

/// A copy of the value of the first of `members` whose key is `key`.
pub fn member_of(members: &Vec<(String, String)>, key: &str) -> (out: Option<String>)
    ensures
        option_text(out) == spec_member(pairs_of(members@), key@, 0),
{
    let wanted = key.to_owned();
    let mut i: usize = 0;
    while i < members.len()
        invariant
            i <= members.len(),
            wanted@ == key@,
            spec_member(pairs_of(members@), key@, 0) == spec_member(
                pairs_of(members@),
                key@,
                i as int,
            ),
        decreases members.len() - i,
    {
        assert(pairs_of(members@)[i as int] == (members@[i as int].0@, members@[i as int].1@));
        if members[i].0 == wanted {
            return Some(members[i].1.clone());
        }
        i += 1;
    }
    None
}

/// Reads a string that has to be there.
fn required_text(raw: Option<String>) -> (out: Option<String>)
    ensures
        option_text(out) == spec_required_text(option_text(raw)),
{
    match raw {
        Some(text) => read_json_string(text.as_str()),
        None => None,
    }
}

/// Reads a string that may be missing or `null`; `Err` where the member
/// is something else.
fn optional_text(raw: Option<String>) -> (out: Result<Option<String>, ()>)
    ensures
        match spec_optional_text(option_text(raw)) {
            OptionalText::Missing => out matches Ok(None),
            OptionalText::Text(value) => out matches Ok(Some(found)) && found@ == value,
            OptionalText::Malformed => out is Err,
        },
{
    match raw {
        Some(text) => {
            if text == "null".to_owned() {
                Ok(None)
            } else {
                match read_json_string(text.as_str()) {
                    Some(value) => Ok(Some(value)),
                    None => Err(()),
                }
            }
        },
        None => Ok(None),
    }
}

/// The field texts of the object under `_source`, given its members.
pub fn fields_from_source(source: &Vec<(String, String)>) -> (out: Option<RecordFields>)
    ensures
        match spec_json_fields(pairs_of(source@)) {
            Some(texts) => out matches Some(fields) && fields@ == texts,
            None => out is None,
        },
{
    let domain_name = optional_text(member_of(source, "domain_name"));
    let parameters = optional_text(member_of(source, "params"));
    match (domain_name, parameters) {
        (Ok(domain_name), Ok(parameters)) => Some(
            RecordFields {
                timestamp: required_text(member_of(source, "@timestamp")),
                domain_name,
                path: required_text(member_of(source, "path")),
                parameters,
                required_time: member_of(source, "target_processing_time"),
            },
        ),
        _ => None,
    }
}

/// Decodes one object of the input, given its members; `None` where it
/// does not hold a record under `_source`.
pub fn record_from_members(members: Option<Vec<(String, String)>>) -> (out: Option<AccessRecord>)
    ensures
        match spec_json_record(
            match members {
                Some(found) => Some(pairs_of(found@)),
                None => None,
            },
        ) {
            Some(record) => out matches Some(found) && found@ == record,
            None => out is None,
        },
{
    match members {
        Some(members) => match member_of(&members, "_source") {
            Some(source) => match read_json_object(source.as_str()) {
                Some(fields) => match fields_from_source(&fields) {
                    Some(texts) => record_from_fields(texts),
                    None => None,
                },
                None => None,
            },
            None => None,
        },
        None => None,
    }
}

/// Decodes the JSON values of a stream, in their order; `complete` says
/// whether the reader got through the input. Fails with `RecordDecode`
/// and the index of the first value that does not decode; the value at
/// which the reader stopped is such a value.
pub fn records_from_documents(documents: &Vec<String>, complete: bool) -> (out: Result<
    Vec<AccessRecord>,
    ReplayError,
>)
    ensures
        is_decoded(out, spec_json_records(texts_of(documents@), complete)),
{
    let ghost texts = texts_of(documents@);
    let mut records: Vec<AccessRecord> = Vec::new();
    let mut i: usize = 0;
    assert(records_view(records@) == Seq::<RecordView>::empty());
    while i < documents.len()
        invariant
            i <= documents.len(),
            texts == texts_of(documents@),
            spec_json_rows(texts, i as nat) == Decoded::Records(records_view(records@)),
        decreases documents.len() - i,
    {
        assert(texts[i as int] == documents@[i as int]@);
        let ghost before = records_view(records@);
        match record_from_members(read_json_object(documents[i].as_str())) {
            Some(record) => {
                records.push(record);
                assert(records_view(records@) == before.push(record@));
            },
            None => {
                proof {
                    lemma_json_failure_stays(texts, (i + 1) as nat, documents.len() as nat);
                }
                return Err(ReplayError::RecordDecode { row: i });
            },
        }
        i += 1;
    }
    if complete {
        Ok(records)
    } else {
        Err(ReplayError::RecordDecode { row: documents.len() })
    }
}

/// Decodes JSON input: objects one after the other, separated by nothing
/// or by white space, each with its record under `_source`.
pub fn decode_json(data: &[u8]) -> (out: Result<Vec<AccessRecord>, ReplayError>)
    ensures
        is_decoded(out, spec_json_records(json_documents(data@).0, json_documents(data@).1)),
{
    let (documents, complete) = read_json_documents(data);
    records_from_documents(&documents, complete)
}

/// What decoding the input in the given format finds.
pub open spec fn spec_decode(format: InputFormat, data: Seq<u8>) -> Decoded {
    match format {
        InputFormat::Csv => spec_csv_records(csv_table(data).0, csv_table(data).1),
        InputFormat::Json => spec_json_records(json_documents(data).0, json_documents(data).1),
    }
}

/// Whether `out` holds the records of `decoded` in stable timestamp
/// order, or fails at the row at which `decoded` does.
pub open spec fn is_sorted_decoding(out: Result<Vec<AccessRecord>, ReplayError>, decoded: Decoded) -> bool {
    match decoded {
        Decoded::Records(found) => out matches Ok(sorted) && is_sorted(sorted@) && exists|
            records: Seq<AccessRecord>,
        |
            records_view(records) == found && #[trigger] is_stable_sort_of(sorted@, records),
        Decoded::FailedAt(at) => out matches Err(ReplayError::RecordDecode { row }) && row == at,
    }
}

/// Reads the records of the input in the given format and sorts them by
/// timestamp, earliest first; records of equal timestamp stay in the order
/// of the input.
pub fn records_from_bytes(format: InputFormat, data: &[u8]) -> (out: Result<Vec<AccessRecord>, ReplayError>)
    ensures
        is_sorted_decoding(out, spec_decode(format, data@)),
{
    let decoded = match format {
        InputFormat::Csv => decode_csv(data),
        InputFormat::Json => decode_json(data),
    };
    sorted_records(decoded, Ghost(spec_decode(format, data@)))
}

/// Sorts what was decoded, where anything was.
fn sorted_records(decoded: Result<Vec<AccessRecord>, ReplayError>, Ghost(found): Ghost<Decoded>) -> (out: Result<
    Vec<AccessRecord>,
    ReplayError,
>)
    requires
        is_decoded(decoded, found),
    ensures
        is_sorted_decoding(out, found),
{
    match decoded {
        Ok(records) => {
            let ghost unsorted = records@;
            let sorted = sort_by_timestamp(records);
            assert(is_stable_sort_of(sorted@, unsorted));
            Ok(sorted)
        },
        Err(e) => Err(e),
    }
}

} // verus!
