//! Reading the JSON that `rledger query -f json` prints.
use vstd::prelude::*;
use crate::bql::same_text;
use crate::json::{as_str, field, member, Json};

verus! {

/// An I/O error, carried through unchanged.
#[verifier::external_type_specification]
#[verifier::external_body]
pub struct ExIoError(std::io::Error);

/// A JSON syntax error from `serde_json`, carried through unchanged.
#[verifier::external_type_specification]
#[verifier::external_body]
pub struct ExJsonError(serde_json::Error);

/// Why running a query failed.
#[derive(Debug)]
pub enum RunnerError {
    /// `rledger` could not be started.
    SpawnError { bin: String, source: std::io::Error },
    /// `rledger` exited unsuccessfully.
    QueryFailed { exit_code: i32, stderr: String },
    /// The output was not JSON.
    InvalidJson(serde_json::Error),
    /// The output had no `rows` array.
    MissingRows,
}

/// The strings among `cols`, in order (non-strings are skipped).
pub open spec fn strings_of(cols: Seq<Json>) -> Seq<Seq<char>>
    decreases cols.len(),
{
    if cols.len() == 0 {
        Seq::empty()
    } else {
        let rest = strings_of(cols.drop_last());
        match as_str(cols.last()) {
            Some(s) => rest.push(s),
            None => rest,
        }
    }
}

/// The column names of a query result (none when `columns` is missing).
pub open spec fn column_names(payload: Json) -> Seq<Seq<char>> {
    match field(payload, "columns"@) {
        Some(Json::Array(cols)) => strings_of(cols@),
        _ => Seq::empty(),
    }
}

/// `out` is `row` with a positional row turned into an object keyed by
/// the column names (as far as both go); any other row is kept as it is.
pub open spec fn normalized(out: Json, row: Json, columns: Seq<Seq<char>>) -> bool {
    match row {
        Json::Array(vals) => match out {
            Json::Object(m) => {
                &&& m@.len() == if columns.len() < vals@.len() { columns.len() } else { vals@.len() }
                &&& forall|i: int| 0 <= i < m@.len() ==> (#[trigger] m@[i]).0@ == columns[i] && m@[i].1 == vals@[i]
            },
            _ => false,
        },
        _ => out == row,
    }
}

pub(crate) fn column_names_exec(payload: &Json) -> (r: Vec<String>)
    ensures
        crate::text::views(r@) == column_names(*payload),
{
    let mut r: Vec<String> = Vec::new();
    proof { reveal_strlit("columns"); }
    match payload.get("columns") {
        Some(Json::Array(cols)) => {
            let mut i: usize = 0;
            while i < cols.len()
                invariant
                    i <= cols.len(),
                    crate::text::views(r@) == strings_of(cols@.take(i as int)),
                decreases cols.len() - i,
            {
                assert(cols@.take(i + 1).drop_last() =~= cols@.take(i as int));
                if let Json::Str(s) = &cols[i] {
                    let ghost before = r@;
                    r.push(s.clone());
                    assert(crate::text::views(r@) =~= crate::text::views(before).push(s@));
                }
                i = i + 1;
            }
            assert(cols@.take(cols.len() as int) =~= cols@);
            r
        },
        _ => r,
    }
}

/// Takes the member with key `k` out of an object.
pub(crate) fn take_member(j: Json, k: &str) -> (r: Option<Json>)
    ensures
        r == field(j, k@),
{
    let ghost gj = j;
    let jj = j;
    match jj {
        Json::Object(members0) => {
            let mut members = members0;
            let ghost orig = members@;
            assert(field(gj, k@) == member(orig, k@));
            let mut i: usize = members.len();
            assert(orig.take(i as int) =~= orig);
            while i > 0
                invariant
                    i <= members.len(),
                    members@ == orig,
                    field(gj, k@) == member(orig, k@),
                    gj == j,
                    member(orig, k@) == member(orig.take(i as int), k@),
                decreases i,
            {
                assert(orig.take(i as int).drop_last() =~= orig.take(i - 1));
                if same_text(members[i - 1].0.as_str(), k) {
                    assert(orig.take(i as int).last() == orig[i - 1]);
                    let e = members.remove(i - 1);
                    return Some(e.1);
                }
                i = i - 1;
            }
            None
        },
        _ => None,
    }
}

/// Turns a positional row into an object keyed by the column names.
pub fn normalize_row(row: Json, columns: &Vec<String>) -> (out: Json)
    ensures
        normalized(out, row, crate::text::views(columns@)),
{
    match row {
        Json::Array(mut vals) => {
            let ghost orig = vals@;
            let mut members: Vec<(String, Json)> = Vec::new();
            let mut i: usize = 0;
            while i < columns.len() && vals.len() > 0
                invariant
                    i <= columns.len(),
                    i <= orig.len(),
                    vals@ == orig.skip(i as int),
                    members@.len() == i,
                    forall|m: int| 0 <= m < i ==> (#[trigger] members@[m]).0@ == columns@[m]@ && members@[m].1 == orig[m],
                decreases columns.len() - i,
            {
                let v = vals.remove(0);
                members.push((columns[i].clone(), v));
                i = i + 1;
                assert(vals@ =~= orig.skip(i as int));
            }
            let out = Json::Object(members);
            assert(i == if columns@.len() < orig.len() { columns@.len() } else { orig.len() });
            out
        },
        other => other,
    }
}

/// The rows of a query result, each positional row turned into an object
/// keyed by the column names; `MissingRows` when there is no `rows` array.
pub fn parse_rows_from_output(payload: Json) -> (r: Result<Vec<Json>, RunnerError>)
    ensures
        match field(payload, "rows"@) {
            Some(Json::Array(rows)) => r matches Ok(out) && out@.len() == rows@.len() && forall|i: int|
                0 <= i < out@.len() ==> normalized(#[trigger] out@[i], rows@[i], column_names(payload)),
            _ => r matches Err(RunnerError::MissingRows),
        },
{
    let columns = column_names_exec(&payload);
    proof { reveal_strlit("rows"); }
    match take_member(payload, "rows") {
        Some(Json::Array(mut rows)) => {
            let ghost orig = rows@;
            let mut out: Vec<Json> = Vec::new();
            let mut i: usize = 0;
            let n = rows.len();
            while i < n
                invariant
                    n == orig.len(),
                    i <= n,
                    rows@ == orig.skip(i as int),
                    out@.len() == i,
                    forall|m: int| 0 <= m < i ==> normalized(#[trigger] out@[m], orig[m], crate::text::views(columns@)),
                decreases n - i,
            {
                let row = rows.remove(0);
                out.push(normalize_row(row, &columns));
                i = i + 1;
                assert(rows@ =~= orig.skip(i as int));
            }
            Ok(out)
        },
        _ => Err(RunnerError::MissingRows),
    }
}

} // verus!
