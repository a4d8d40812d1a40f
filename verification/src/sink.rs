//! The CSV form of the rows that an export writes: one record per user, the
//! name and then the points, and never a header.

use vstd::prelude::*;
use vstd::string::StringExecFns;
use crate::data::{user_views, User, UserView};
use crate::decimal::{decimal, push_decimal};
use crate::error::ExportError;

verus! {

/// The bytes that the CSV writer puts out for one record with these fields,
/// record terminator included; `None` where it refuses the record.
pub uninterp spec fn csv_record(fields: Seq<Seq<char>>) -> Option<Seq<u8>>;

/// The texts of a sequence of strings, in the same order.
pub open spec fn texts(fields: Seq<String>) -> Seq<Seq<char>> {
    fields.map_values(|s: String| s@)
}

/// Writes one record with a fresh writer of the `csv` crate, built by
/// `csv::WriterBuilder` without headers over a byte vector, through
/// `csv::Writer::write_record`, and takes the bytes back with
/// `csv::Writer::into_inner`.
///
/// Trusted: what comes back depends on the fields alone. How the writer
/// quotes and terminates a record is not stated here.
#[verifier::external_body]
fn write_record(fields: &Vec<String>) -> (record: Result<Vec<u8>, csv::Error>)
    ensures
        match record {
            Ok(bytes) => csv_record(texts(fields@)) == Some(bytes@),
            Err(_) => csv_record(texts(fields@)) is None,
        },
{
    let mut writer = csv::WriterBuilder::new().has_headers(false).from_writer(Vec::new());
    writer.write_record(fields)?;
    match writer.into_inner() {
        Ok(bytes) => Ok(bytes),
        Err(e) => Err(csv::Error::from(e.into_error())),
    }
}

/// The fields of a user's record: the name, then the points in decimal.
pub open spec fn record_fields(user: UserView) -> Seq<Seq<char>> {
    seq![user.username, decimal(user.points as nat)]
}

/// The CSV text of a sequence of rows: their records one after the other,
/// with nothing before, between or after them. `None` where the writer
/// refuses one of the records.
pub open spec fn csv_text(rows: Seq<UserView>) -> Option<Seq<u8>>
    decreases rows.len(),
{
    if rows.len() == 0 {
        Some(Seq::empty())
    } else {
        match (csv_text(rows.drop_last()), csv_record(record_fields(rows.last()))) {
            (Some(head), Some(record)) => Some(head + record),
            _ => None,
        }
    }
}

/// Whether the record of row `k` is the first that the writer refuses: the
/// rows before it have a CSV text, and that record has none.
pub open spec fn first_refused_at(rows: Seq<UserView>, k: int) -> bool {
    &&& 0 <= k < rows.len()
    &&& csv_text(rows.take(k)) is Some
    &&& csv_record(record_fields(rows[k])) is None
}

/// Takes what the writer gave for one record: its bytes are added to the end
/// of `out`, and its error is handed on with `out` unchanged.
pub fn append_record(out: &mut Vec<u8>, record: Result<Vec<u8>, csv::Error>) -> (done: Result<
    (),
    ExportError,
>)
    ensures
        match record {
            Ok(bytes) => done is Ok && final(out)@ == old(out)@ + bytes@,
            Err(e) => done == Err::<(), ExportError>(ExportError::Csv(e)) && final(out)@ == old(
                out,
            )@,
        },
{
    match record {
        Ok(mut bytes) => {
            out.append(&mut bytes);
            Ok(())
        },
        Err(e) => Err(ExportError::Csv(e)),
    }
}

/// The CSV text of `users`, in their order and without a header.
///
/// The rows are written one after the other, and the first record that the
/// writer refuses ends the call with the writer's error: no later row is
/// tried, and no bytes are handed out.
pub fn encode_rows(users: &Vec<User>) -> (encoded: Result<Vec<u8>, ExportError>)
    ensures
        match csv_text(user_views(users@)) {
            Some(text) => encoded matches Ok(bytes) && bytes@ == text,
            None => encoded matches Err(ExportError::Csv(_)),
        },
        encoded is Err ==> exists|k: int| first_refused_at(user_views(users@), k),
{
    let mut out: Vec<u8> = Vec::new();
    let mut i: usize = 0;
    assert(user_views(users@).take(0) =~= Seq::<UserView>::empty());
    while i < users.len()
        invariant
            i <= users.len(),
            csv_text(user_views(users@).take(i as int)) == Some(out@),
        decreases users.len() - i,
    {
        let user = &users[i];
        let mut points = String::new();
        push_decimal(&mut points, user.points() as u128);
        let mut fields: Vec<String> = Vec::new();
        fields.push(String::from_str(user.username()));
        fields.push(points);
        assert(texts(fields@) =~= record_fields(user@));
        let record = write_record(&fields);
        proof {
            let rows = user_views(users@);
            assert(rows.take(i + 1).drop_last() =~= rows.take(i as int));
            assert(rows.take(i + 1).last() == user@);
            if record is Err {
                lemma_csv_text_fails_on(rows, i as int);
                assert(first_refused_at(rows, i as int));
            }
        }
        match append_record(&mut out, record) {
            Ok(()) => {},
            Err(e) => {
                return Err(e);
            },
        }
        i += 1;
    }
    assert(user_views(users@).take(i as int) =~= user_views(users@));
    Ok(out)
}

/// Where the writer refuses one record, there is no CSV text of the whole.
proof fn lemma_csv_text_fails_on(rows: Seq<UserView>, i: int)
    requires
        0 <= i < rows.len(),
        csv_record(record_fields(rows[i])) is None,
    ensures
        csv_text(rows) is None,
    decreases rows.len(),
{
    if i < rows.len() - 1 {
        lemma_csv_text_fails_on(rows.drop_last(), i);
    }
}

/// At most one record is the first that the writer refuses.
pub proof fn lemma_first_refused_is_unique(rows: Seq<UserView>, j: int, k: int)
    ensures
        first_refused_at(rows, j) && first_refused_at(rows, k) ==> j == k,
{
    if first_refused_at(rows, j) && first_refused_at(rows, k) {
        if j < k {
            assert(rows.take(k)[j] == rows[j]);
            lemma_csv_text_fails_on(rows.take(k), j);
        } else if k < j {
            assert(rows.take(j)[k] == rows[k]);
            lemma_csv_text_fails_on(rows.take(j), k);
        }
    }
}

/// Rows written in two parts give the same text as rows written at once:
/// the text of the first part, and after it the text of the second.
pub proof fn lemma_csv_text_of_parts(first: Seq<UserView>, second: Seq<UserView>)
    ensures
        csv_text(first + second) == match (csv_text(first), csv_text(second)) {
            (Some(head), Some(tail)) => Some(head + tail),
            _ => None::<Seq<u8>>,
        },
    decreases second.len(),
{
    if second.len() == 0 {
        assert(first + second =~= first);
        if let Some(head) = csv_text(first) {
            assert(head + Seq::<u8>::empty() =~= head);
        }
    } else {
        assert((first + second).drop_last() =~= first + second.drop_last());
        assert((first + second).last() == second.last());
        lemma_csv_text_of_parts(first, second.drop_last());
        match (
            csv_text(first),
            csv_text(second.drop_last()),
            csv_record(record_fields(second.last())),
        ) {
            (Some(head), Some(middle), Some(record)) => {
                assert((head + middle) + record =~= head + (middle + record));
            },
            _ => {},
        }
    }
}

} // verus!
