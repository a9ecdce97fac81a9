//! The keyword table as comma-separated values, written by the `csv` crate.

use crate::keywords::{export_table, row_texts, KeywordDictionary};
use vstd::prelude::*;

verus! {

/// A `csv::Writer` on top of a buffer of bytes: it takes records in and
/// writes them out as comma-separated values. Nothing of its inside is
/// known here.
#[verifier::external_body]
pub struct TableWriter {
    writer: csv::Writer<Vec<u8>>,
}

/// `csv::Error`, the reason why a record was not written. Nothing of its
/// inside is known here.
#[verifier::external_type_specification]
#[verifier::external_body]
pub struct ExCsvError(csv::Error);

/// `std::io::Error`, the reason why a writer could not hand out what it
/// had taken. Nothing of its inside is known here.
#[verifier::external_type_specification]
#[verifier::external_body]
pub struct ExIoError(std::io::Error);

/// The bytes that a writer has taken so far, those it still holds back
/// included: what `Writer::into_inner` hands out.
pub uninterp spec fn written(writer: TableWriter) -> Seq<u8>;

/// Whether a writer stands between two records: no field of a record has
/// been written that is not yet ended.
pub uninterp spec fn between_records(writer: TableWriter) -> bool;

/// The number of fields of the first record that a writer took; `None`
/// before its first record. A writer refuses a later record with another
/// number of fields.
pub uninterp spec fn record_width(writer: TableWriter) -> Option<nat>;

/// The bytes that `Writer::write_record` adds for a record of these
/// fields, when the writer was made by `Writer::from_writer` and stands
/// between two records.
pub uninterp spec fn record_bytes(fields: Seq<Seq<char>>) -> Seq<u8>;

/// `Writer::from_writer`, a writer on top of a buffer. It has taken what
/// the buffer holds and nothing else, and stands before its first record.
#[verifier::external_body]
fn writer_on(buffer: Vec<u8>) -> (writer: TableWriter)
    ensures
        written(writer) == buffer@,
        between_records(writer),
        record_width(writer) is None,
{
    TableWriter { writer: csv::Writer::from_writer(buffer) }
}

/// `Writer::write_record` with a record of two fields. A record is refused
/// where the buffer underneath cannot be written to, which a buffer in
/// memory always can, or where the first record had another number of
/// fields, which is left out here. So the record is written: the writer
/// has taken its bytes after what it had, and stands between two records
/// again.
#[verifier::external_body]
fn write_pair(writer: &mut TableWriter, first: &str, second: &str) -> (done: Result<
    (),
    csv::Error,
>)
    requires
        between_records(*old(writer)),
        record_width(*old(writer)) is None || record_width(*old(writer)) == Some(2nat),
    ensures
        done is Ok,
        between_records(*final(writer)),
        record_width(*final(writer)) == Some(2nat),
        written(*final(writer)) == written(*old(writer)) + record_bytes(seq![first@, second@]),
{
    writer.writer.write_record([first, second])
}

/// `Writer::into_inner`, which ends the writing. It fails where the buffer
/// underneath cannot be written to, which a buffer in memory always can.
/// So the bytes are handed out, and they are what the writer had taken.
#[verifier::external_body]
fn finish(writer: TableWriter) -> (bytes: Result<Vec<u8>, std::io::Error>)
    ensures
        bytes is Ok,
        bytes matches Ok(all) ==> all@ == written(writer),
{
    match writer.writer.into_inner() {
        Ok(all) => Ok(all),
        Err(error) => Err(error.into_error()),
    }
}

/// Why a table could not be written.
#[derive(Clone, Copy, Debug, PartialEq, Eq, Structural)]
pub enum ExportError {
    /// A record was refused.
    Record,
    /// The bytes could not be handed out.
    Flush,
}

/// What comes of a record that was handed to the writer: it is written,
/// or the export fails on it.
pub fn record_outcome(done: Result<(), csv::Error>) -> (outcome: Result<(), ExportError>)
    ensures
        outcome is Ok <==> done is Ok,
        outcome is Err ==> outcome == Err::<(), ExportError>(ExportError::Record),
{
    match done {
        Ok(_) => Ok(()),
        Err(_) => Err(ExportError::Record),
    }
}

/// What comes of the end of the writing: the bytes as the writer handed
/// them out, or the failure to do so.
pub fn flush_outcome(bytes: Result<Vec<u8>, std::io::Error>) -> (outcome: Result<
    Vec<u8>,
    ExportError,
>)
    ensures
        match bytes {
            Ok(all) => outcome == Ok::<Vec<u8>, ExportError>(all),
            Err(_) => outcome == Err::<Vec<u8>, ExportError>(ExportError::Flush),
        },
{
    match bytes {
        Ok(all) => Ok(all),
        Err(_) => Err(ExportError::Flush),
    }
}

/// The rows as comma-separated values: the bytes of each row as a record of
/// two fields, one after the other.
pub open spec fn table_bytes(rows: Seq<(Seq<char>, Seq<char>)>) -> Seq<u8>
    decreases rows.len(),
{
    if rows.len() == 0 {
        Seq::empty()
    } else {
        table_bytes(rows.drop_last()) + record_bytes(seq![rows.last().0, rows.last().1])
    }
}

/// The keyword table as comma-separated values: the header row, `Word` and
/// `Count`, then one row for each entry in the order of the entries. The
/// writer works on a buffer in memory and takes rows of two fields alone,
/// so the export never fails.
pub fn export_csv(dictionary: &KeywordDictionary) -> (exported: Result<Vec<u8>, ExportError>)
    ensures
        exported is Ok,
        exported matches Ok(bytes) ==> bytes@ == table_bytes(export_table(dictionary@)),
{
    let rows = dictionary.export_rows();
    let ghost all = export_table(dictionary@);
    let mut writer = writer_on(Vec::new());
    let mut i: usize = 0;
    assert(all.take(0) =~= Seq::<(Seq<char>, Seq<char>)>::empty());
    while i < rows.len()
        invariant
            i <= rows@.len(),
            row_texts(rows@) == all,
            between_records(writer),
            record_width(writer) is None || record_width(writer) == Some(2nat),
            written(writer) == table_bytes(all.take(i as int)),
        decreases rows@.len() - i,
    {
        proof {
            assert(all[i as int] == (rows@[i as int].0@, rows@[i as int].1@));
            assert(all.take(i + 1).drop_last() == all.take(i as int));
            assert(all.take(i + 1).last() == all[i as int]);
        }
        let done = write_pair(&mut writer, rows[i].0.as_str(), rows[i].1.as_str());
        match record_outcome(done) {
            Ok(_) => {},
            Err(error) => {
                return Err(error);
            },
        }
        i += 1;
    }
    assert(all.take(i as int) == all);
    flush_outcome(finish(writer))
}

} // verus!
