//! The chart's file form: comma-separated records, the names first and then
//! one record of labels for each type.
//!
//! The first record holds the names, in the chart's order. The record after
//! it holds, for the first name, the label of what that type does to each
//! type, in the same order; and so on for each name. `?` stands for unknown.
//! Reading and writing the file itself is left to the caller: this module
//! turns the file's bytes into a chart and a chart into the file's bytes.

use crate::effectiveness::{
    effectiveness_f32_to_string, effectiveness_string_to_f32, label_text, label_value,
    lemma_label_round_trip, lemma_label_texts, markers, ChartError, Effectiveness,
};
use crate::text::{is_space, lemma_trimmed_is_self, trim, trimmed};
use crate::type_chart::{distinct, grid, lemma_chart_is_its_grid, texts, ChartView, TypeChart};
use vstd::prelude::*;

verus! {

/// The error of the `csv` crate. Nothing is said of what it holds.
#[verifier::external_type_specification]
#[verifier::external_body]
pub struct ExCsvError(csv::Error);

/// The record reader of the `csv` crate.
#[verifier::external_type_specification]
#[verifier::external_body]
#[verifier::reject_recursive_types(R)]
pub struct ExCsvReader<R>(csv::Reader<R>);

/// The record writer of the `csv` crate, writing into memory.
#[verifier::external_body]
pub struct RecordWriter {
    inner: csv::Writer<Vec<u8>>,
}

/// What is left to read: for each record that the reader will still give,
/// in turn, the texts of its fields, or `None` where the reader will answer
/// with an error in place of the record.
pub uninterp spec fn unread(reader: csv::Reader<&[u8]>) -> Seq<Option<Seq<Seq<char>>>>;

/// What a reader of the `csv` crate, told that there is no header record and
/// that records may differ in length, makes of these bytes: `unread` of the
/// reader when it is opened.
pub uninterp spec fn csv_records(data: Seq<u8>) -> Seq<Option<Seq<Seq<char>>>>;

/// The records that the writer has taken, each as the texts of its fields.
/// It speaks of a writer that is `intact` only.
pub uninterp spec fn written(writer: RecordWriter) -> Seq<Seq<Seq<char>>>;

/// No record was refused by this writer: what it holds is whole records,
/// those of `written`, and nothing of a record that it turned down.
pub uninterp spec fn intact(writer: RecordWriter) -> bool;

/// The bytes that a writer of the `csv` crate hands over after it has taken
/// these records.
pub uninterp spec fn csv_text(records: Seq<Seq<Seq<char>>>) -> Seq<u8>;

/// The texts of the fields of a record that was read, or `None` for an error.
pub open spec fn outcome_texts(outcome: Result<Vec<String>, csv::Error>) -> Option<
    Seq<Seq<char>>,
> {
    match outcome {
        Ok(fields) => Some(texts(fields@)),
        Err(_) => None,
    }
}

/// `csv::ReaderBuilder::from_reader`, on a builder with `has_headers(false)`
/// and `flexible(true)` and nothing else set. The contract names what the new
/// reader will give.
#[verifier::external_body]
fn open_reader(data: &[u8]) -> (reader: csv::Reader<&[u8]>)
    ensures
        unread(reader) == csv_records(data@),
{
    csv::ReaderBuilder::new().has_headers(false).flexible(true).from_reader(data)
}

/// `next` on `csv::Reader::records`. The contract claims that the reader
/// gives what it had left in turn: `None` only when nothing is left, else
/// the first of what was left, a record with its fields as they were read or
/// an error, and after it the rest is left.
#[verifier::external_body]
fn next_record(reader: &mut csv::Reader<&[u8]>) -> (record: Option<
    Result<Vec<String>, csv::Error>,
>)
    ensures
        match record {
            None => unread(*old(reader)).len() == 0,
            Some(outcome) => unread(*old(reader)).len() > 0 && outcome_texts(outcome) == unread(
                *old(reader),
            )[0] && unread(*final(reader)) == unread(*old(reader)).drop_first(),
        },
{
    reader.records().next().map(|read| read.map(|record| record.iter().map(String::from).collect()))
}

/// `csv::WriterBuilder::from_writer`, on a builder with `has_headers(false)`
/// and nothing else set, writing into an empty vector. Nothing is written yet
/// and nothing was refused.
#[verifier::external_body]
fn open_writer() -> (writer: RecordWriter)
    ensures
        intact(writer),
        written(writer) == Seq::<Seq<Seq<char>>>::empty(),
{
    RecordWriter { inner: csv::WriterBuilder::new().has_headers(false).from_writer(Vec::new()) }
}

/// `csv::Writer::write_record`, on a writer that has refused no record. The
/// writer asks that every record has as many fields as the first that it
/// took, and writing into memory does not fail: so the call succeeds exactly
/// where the record is the first or has that many fields. Where it succeeds
/// the record is the last of what was written and the writer is still
/// intact; of the writer after a failure nothing is claimed.
#[verifier::external_body]
fn write_record(writer: &mut RecordWriter, record: &Vec<String>) -> (r: Result<(), csv::Error>)
    requires
        intact(*old(writer)),
    ensures
        r is Ok <==> (written(*old(writer)).len() == 0 || record@.len() == written(
            *old(writer),
        )[0].len()),
        r is Ok ==> intact(*final(writer)) && written(*final(writer)) == written(
            *old(writer),
        ).push(texts(record@)),
{
    writer.inner.write_record(record)
}

/// `csv::Writer::into_inner`, on a writer that has refused no record. It
/// flushes into the vector, which does not fail, and hands the vector over:
/// the bytes that stand for the records that were written.
#[verifier::external_body]
fn finish(writer: RecordWriter) -> (r: Result<Vec<u8>, csv::Error>)
    requires
        intact(writer),
    ensures
        r is Ok,
        r->Ok_0@ == csv_text(written(writer)),
{
    writer.inner.into_inner().map_err(|failed| csv::Error::from(failed.into_error()))
}

/// The texts of the fields of each record.
pub open spec fn record_texts(records: Seq<Vec<String>>) -> Seq<Seq<Seq<char>>> {
    Seq::new(records.len(), |i: int| texts(records[i]@))
}

/// The records that were read without an error, in their order.
pub open spec fn kept(outcomes: Seq<Option<Seq<Seq<char>>>>) -> Seq<Seq<Seq<char>>>
    decreases outcomes.len(),
{
    if outcomes.len() == 0 {
        Seq::empty()
    } else {
        match outcomes.first() {
            Some(record) => seq![record] + kept(outcomes.drop_first()),
            None => kept(outcomes.drop_first()),
        }
    }
}

/// The names that the first record gives: its fields, trimmed.
pub open spec fn header_names(records: Seq<Seq<Seq<char>>>) -> Seq<Seq<char>> {
    Seq::new(records[0].len(), |j: int| trimmed(records[0][j]))
}

/// The value that the records give for the name at `i` against the name at
/// `j`: what the field's label stands for, and unknown where the records
/// have no such field. `None` where the field holds no label.
pub open spec fn field_value(records: Seq<Seq<Seq<char>>>, i: int, j: int) -> Option<
    Effectiveness,
> {
    if i + 1 < records.len() && j < records[i + 1].len() {
        label_value(trimmed(records[i + 1][j]))
    } else {
        Some(Effectiveness::Unknown)
    }
}

/// The records make no chart: a name occurs twice, there are more records of
/// labels than names, a record has more fields than there are names, or a
/// field holds no label.
pub open spec fn is_corrupt(records: Seq<Seq<Seq<char>>>) -> bool {
    let names = header_names(records);
    ||| !names.no_duplicates()
    ||| records.len() - 1 > names.len()
    ||| exists|i: int| 1 <= i < records.len() && (#[trigger] records[i]).len() > names.len()
    ||| exists|i: int, j: int|
        0 <= i < names.len() && 0 <= j < names.len() && #[trigger] field_value(records, i, j)
            is None
}

/// The grid that the records give over their names.
pub open spec fn record_grid(records: Seq<Seq<Seq<char>>>) -> Seq<Seq<Effectiveness>> {
    let width = header_names(records).len();
    Seq::new(width, |i: int| Seq::new(width, |j: int| field_value(records, i, j)->0))
}

/// The chart that the records stand for. No record at all stands for the
/// chart without any type.
pub open spec fn chart_of_records(records: Seq<Seq<Seq<char>>>) -> Result<ChartView, ChartError> {
    if records.len() == 0 {
        Ok(ChartView::empty())
    } else if is_corrupt(records) {
        Err(ChartError::DataCorruption)
    } else {
        Ok(ChartView::from_grid(header_names(records), record_grid(records)))
    }
}

/// The records that stand for a chart: none for the chart without any type,
/// else the names and then, for each name, the labels of its row.
pub open spec fn chart_records(chart: ChartView) -> Seq<Seq<Seq<char>>> {
    let order = chart.type_order;
    if order.len() == 0 {
        Seq::empty()
    } else {
        seq![order] + Seq::new(
            order.len(),
            |i: int| Seq::new(order.len(), |j: int| label_text(chart.cell(order[i], order[j]), 0)),
        )
    }
}

/// The bytes of the file that holds a chart: none for the chart without any
/// type.
pub open spec fn file_text(chart: ChartView) -> Seq<u8> {
    if chart.type_order.len() == 0 {
        Seq::empty()
    } else {
        csv_text(chart_records(chart))
    }
}

/// A label reads the same with or without trimming.
pub proof fn lemma_label_is_trimmed(value: Effectiveness)
    requires
        value.is_valid(),
    ensures
        trimmed(label_text(value, 0)) == label_text(value, 0),
{
    lemma_label_texts();
    assert(markers(0) =~= Seq::<char>::empty());
    let text = label_text(value, 0);
    assert(text =~= match value {
        Effectiveness::Unknown => "?"@,
        Effectiveness::Known(m) => crate::effectiveness::base_label(m),
    });
    assert(!is_space(text.first()));
    assert(!is_space(text.last()));
    lemma_trimmed_is_self(text);
}

/// Writing a chart as records and reading the records gives the chart back:
/// the same names in the same order and every entry unchanged. The names
/// must be such as reading leaves them: without white space at either end.
pub proof fn law_records_round_trip(chart: ChartView)
    requires
        chart.is_valid(),
        forall|i: int|
            0 <= i < chart.type_order.len() ==> trimmed(#[trigger] chart.type_order[i])
                == chart.type_order[i],
    ensures
        chart_of_records(chart_records(chart)) == Ok::<ChartView, ChartError>(chart),
{
    let order = chart.type_order;
    let records = chart_records(chart);
    if order.len() == 0 {
        assert(order =~= Seq::<Seq<char>>::empty());
        assert forall|a: Seq<char>| !chart.matrix.dom().contains(a) by {
            assert(!chart.has(a));
        }
        assert(chart.matrix =~= Map::<Seq<char>, Map<Seq<char>, Effectiveness>>::empty());
    } else {
        let width = order.len() as int;
        assert(records[0] == order);
        assert(header_names(records) =~= order);
        assert forall|i: int, j: int| 0 <= i < width && 0 <= j < width implies #[trigger] field_value(
            records,
            i,
            j,
        ) == Some(chart.cell(order[i], order[j])) by {
            let value = chart.cell(order[i], order[j]);
            assert(chart.has(order[i]) && chart.has(order[j]));
            assert(chart.matrix[order[i]][order[j]].is_valid());
            assert(records[i + 1][j] == label_text(value, 0));
            lemma_label_is_trimmed(value);
            lemma_label_round_trip(value);
        }
        assert forall|i: int| 1 <= i < records.len() implies (#[trigger] records[i]).len()
            <= width by {}
        assert(!is_corrupt(records));
        let cells = record_grid(records);
        assert forall|i: int, j: int| 0 <= i < width && 0 <= j < width implies #[trigger] cells[i][j]
            == chart.cell(order[i], order[j]) by {
            assert(field_value(records, i, j) == Some(chart.cell(order[i], order[j])));
        }
        lemma_chart_is_its_grid(chart, cells);
    }
}

/// The chart that a run of records stands for. The first record gives the
/// names, each trimmed. The record after it gives what the first name does
/// to each name, in their order, as labels, each trimmed; the next record does
/// so for the second name, and so on. Where the records end early, or a
/// record does, what they leave out is unknown. Records that make no chart
/// are refused with `DataCorruption`.
pub fn chart_from_records(records: &Vec<Vec<String>>) -> (r: Result<TypeChart, ChartError>)
    ensures
        match r {
            Ok(chart) => chart.wf() && chart_of_records(record_texts(records@)) == Ok::<
                ChartView,
                ChartError,
            >(chart@),
            Err(e) => chart_of_records(record_texts(records@)) == Err::<ChartView, ChartError>(e),
        },
{
    let ghost given = record_texts(records@);
    if records.len() == 0 {
        return Ok(TypeChart::empty());
    }
    let header = &records[0];
    let mut names: Vec<String> = Vec::new();
    let mut j: usize = 0;
    while j < header.len()
        invariant
            j <= header@.len(),
            records@.len() > 0,
            header@ == records@[0]@,
            given == record_texts(records@),
            names@.len() == j,
            forall|k: int| 0 <= k < j ==> (#[trigger] names@[k])@ == trimmed(given[0][k]),
        decreases header@.len() - j,
    {
        names.push(trim(header[j].as_str()));
        j = j + 1;
    }
    let ghost order = texts(names@);
    assert(order =~= header_names(given));
    if !distinct(&names) {
        return Err(ChartError::DataCorruption);
    }
    let width = names.len();
    if records.len() - 1 > width {
        return Err(ChartError::DataCorruption);
    }
    let mut rows: Vec<Vec<Effectiveness>> = Vec::new();
    let mut i: usize = 0;
    while i < width
        invariant
            i <= width,
            width == order.len(),
            order == header_names(given),
            given == record_texts(records@),
            0 < records@.len() <= width + 1,
            rows@.len() == i,
            forall|a: int| 0 <= a < i ==> (#[trigger] rows@[a])@.len() == width,
            forall|a: int, b: int|
                0 <= a < i && 0 <= b < width ==> field_value(given, a, b) == Some(
                    #[trigger] rows@[a]@[b],
                ),
            forall|a: int| 1 <= a < i + 1 && a < given.len() ==> (#[trigger] given[a]).len() <= width,
        decreases width - i,
    {
        let listed = i + 1 < records.len();
        if listed && records[i + 1].len() > width {
            assert(given[i + 1].len() > width);
            return Err(ChartError::DataCorruption);
        }
        let mut row: Vec<Effectiveness> = Vec::new();
        let mut j: usize = 0;
        while j < width
            invariant
                j <= width,
                i < width,
                given == record_texts(records@),
                listed == (i + 1 < records@.len()),
                row@.len() == j,
                forall|b: int| 0 <= b < j ==> field_value(given, i as int, b) == Some(
                    #[trigger] row@[b],
                ),
            decreases width - j,
        {
            let value = if listed && j < records[i + 1].len() {
                match effectiveness_string_to_f32(&trim(records[i + 1][j].as_str())) {
                    Ok(value) => value,
                    Err(_) => {
                        assert(field_value(given, i as int, j as int) is None);
                        return Err(ChartError::DataCorruption);
                    },
                }
            } else {
                Effectiveness::Unknown
            };
            row.push(value);
            j = j + 1;
        }
        rows.push(row);
        i = i + 1;
    }
    proof {
        assert forall|a: int| 0 <= a < width implies #[trigger] grid(rows@)[a] =~= record_grid(
            given,
        )[a] by {
            assert forall|b: int| 0 <= b < width implies grid(rows@)[a][b] == record_grid(
                given,
            )[a][b] by {
                assert(field_value(given, a, b) == Some(rows@[a]@[b]));
            }
        }
        assert(grid(rows@) =~= record_grid(given));
        assert forall|a: int, b: int| 0 <= a < width && 0 <= b < width implies (#[trigger] grid(
            rows@,
        )[a][b]).is_valid() by {
            assert(field_value(given, a, b) == Some(rows@[a]@[b]));
            if a + 1 < given.len() && b < given[a + 1].len() {
                crate::effectiveness::lemma_value_round_trip(trimmed(given[a + 1][b]));
            }
        }
        assert forall|a: int, b: int| 0 <= a < width && 0 <= b < width implies !(
        #[trigger] field_value(given, a, b) is None) by {
            assert(field_value(given, a, b) == Some(rows@[a]@[b]));
        }
        assert(!is_corrupt(given));
    }
    Ok(TypeChart::assemble(rows, names))
}

/// The records that stand for a chart: none for the chart without any type,
/// else the names and then, for each name, the labels of its row. An entry
/// that had no label would be refused with `DataCorruption`; a well-formed
/// chart has none.
pub fn records_of(chart: &TypeChart) -> (r: Result<Vec<Vec<String>>, ChartError>)
    requires
        chart.wf(),
    ensures
        r is Ok,
        record_texts(r->Ok_0@) == chart_records(chart@),
{
    let mut records: Vec<Vec<String>> = Vec::new();
    let width = chart.len();
    if width == 0 {
        assert(record_texts(records@) =~= chart_records(chart@));
        return Ok(records);
    }
    let ghost order = chart@.type_order;
    let ghost want = chart_records(chart@);
    let names = chart.get_type_list();
    records.push(names);
    let mut i: usize = 0;
    while i < width
        invariant
            i <= width,
            0 < width == order.len(),
            order == chart@.type_order,
            want == chart_records(chart@),
            chart.wf(),
            records@.len() == i + 1,
            forall|a: int| 0 <= a < i + 1 ==> texts((#[trigger] records@[a])@) == want[a],
        decreases width - i,
    {
        let mut row: Vec<String> = Vec::new();
        let mut j: usize = 0;
        while j < width
            invariant
                j <= width,
                i < width,
                width == order.len(),
                order == chart@.type_order,
                chart.wf(),
                row@.len() == j,
                forall|b: int|
                    0 <= b < j ==> (#[trigger] row@[b])@ == label_text(
                        chart@.cell(order[i as int], order[b]),
                        0,
                    ),
            decreases width - j,
        {
            match effectiveness_f32_to_string(chart.entry(i, j), 0) {
                Ok(text) => {
                    row.push(text);
                },
                Err(_) => {
                    return Err(ChartError::DataCorruption);
                },
            }
            j = j + 1;
        }
        assert(texts(row@) =~= want[i + 1]);
        records.push(row);
        i = i + 1;
    }
    assert(record_texts(records@) =~= want);
    Ok(records)
}

/// What saving answers once the writer is done: the bytes, or `IoError`
/// where the writer failed.
pub fn written_bytes(outcome: Result<Vec<u8>, csv::Error>) -> (r: Result<Vec<u8>, ChartError>)
    ensures
        match outcome {
            Ok(bytes) => r == Ok::<Vec<u8>, ChartError>(bytes),
            Err(_) => r == Err::<Vec<u8>, ChartError>(ChartError::IoError),
        },
{
    match outcome {
        Ok(bytes) => Ok(bytes),
        Err(_) => Err(ChartError::IoError),
    }
}

/// The chart that a file holds. `None` stands for a file that does not exist
/// and gives the chart without any type, as does a file without a record. A
/// record that the reader answers with an error, as one that is no text, is
/// passed over, and the others are read as `chart_from_records` says.
pub fn get_types_from_file(contents: Option<&[u8]>) -> (r: Result<TypeChart, ChartError>)
    ensures
        match r {
            Ok(chart) => chart.wf() && loaded(contents) == Ok::<ChartView, ChartError>(chart@),
            Err(e) => loaded(contents) == Err::<ChartView, ChartError>(e),
        },
{
    let data = match contents {
        None => {
            return Ok(TypeChart::empty());
        },
        Some(data) => data,
    };
    let mut reader = open_reader(data);
    let mut records: Vec<Vec<String>> = Vec::new();
    loop
        invariant
            contents == Some(data),
            kept(csv_records(data@)) == record_texts(records@) + kept(unread(reader)),
        decreases unread(reader).len(),
    {
        let ghost before = unread(reader);
        let ghost so_far = record_texts(records@);
        match next_record(&mut reader) {
            None => {
                assert(kept(before) =~= Seq::<Seq<Seq<char>>>::empty());
                assert(record_texts(records@) =~= kept(csv_records(data@)));
                return chart_from_records(&records);
            },
            Some(Ok(fields)) => {
                records.push(fields);
                assert(record_texts(records@) =~= so_far + seq![before[0]->0]);
                assert(so_far + kept(before) =~= record_texts(records@) + kept(
                    before.drop_first(),
                ));
            },
            Some(Err(_)) => {},
        }
    }
}

/// What the bytes of a file stand for, where there is a file.
pub open spec fn loaded(contents: Option<&[u8]>) -> Result<ChartView, ChartError> {
    match contents {
        None => Ok(ChartView::empty()),
        Some(data) => chart_of_records(kept(csv_records(data@))),
    }
}

/// Every record has as many fields as the first.
pub open spec fn even(records: Seq<Seq<Seq<char>>>) -> bool {
    forall|i: int| 0 <= i < records.len() ==> (#[trigger] records[i]).len() == records[0].len()
}

/// The bytes that stand for the records. Records that differ in length are
/// refused by the writer, and the answer is `IoError`.
pub fn records_to_bytes(records: &Vec<Vec<String>>) -> (r: Result<Vec<u8>, ChartError>)
    ensures
        match r {
            Ok(bytes) => even(record_texts(records@)) && bytes@ == csv_text(
                record_texts(records@),
            ),
            Err(e) => e == ChartError::IoError && !even(record_texts(records@)),
        },
{
    let ghost want = record_texts(records@);
    let mut writer = open_writer();
    let mut i: usize = 0;
    while i < records.len()
        invariant
            i <= records@.len(),
            want == record_texts(records@),
            intact(writer),
            written(writer) == want.take(i as int),
            forall|k: int| 0 <= k < i ==> (#[trigger] want[k]).len() == want[0].len(),
        decreases records@.len() - i,
    {
        proof {
            if i > 0 {
                assert(want.take(i as int)[0] == want[0]);
            }
            assert(want[i as int].len() == records@[i as int]@.len());
        }
        match write_record(&mut writer, &records[i]) {
            Ok(_) => {},
            Err(_) => {
                return Err(ChartError::IoError);
            },
        }
        assert(want.take(i + 1) =~= want.take(i as int).push(want[i as int]));
        i = i + 1;
    }
    assert(want.take(records@.len() as int) =~= want);
    written_bytes(finish(writer))
}

/// The bytes of the file that holds the chart. The chart without any type
/// gives a file without a byte. Any other chart is written as the records
/// that stand for it: the names, and for each name the labels of its row.
pub fn save_types_to_file(type_chart: &TypeChart) -> (r: Result<Vec<u8>, ChartError>)
    requires
        type_chart.wf(),
    ensures
        r is Ok,
        r->Ok_0@ == file_text(type_chart@),
{
    if type_chart.is_empty() {
        return Ok(Vec::new());
    }
    let records = match records_of(type_chart) {
        Ok(records) => records,
        Err(e) => {
            return Err(e);
        },
    };
    proof {
        let order = type_chart@.type_order;
        let want = chart_records(type_chart@);
        assert(want[0] == order);
        assert forall|i: int| 0 <= i < want.len() implies (#[trigger] want[i]).len()
            == want[0].len() by {
            if i > 0 {
                assert(want[i].len() == order.len());
            }
        }
    }
    records_to_bytes(&records)
}

} // verus!
