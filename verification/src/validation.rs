//! Output-shape validation that is stricter than generic serialization.
use crate::error::LlmFmtError;
use crate::json::{
    is_container, items_model, lemma_array_model, lemma_object_model, members_model, Json,
    JsonValue,
};
use vstd::prelude::*;

verus! {

/// The rows of a table: a top-level array, or the array that is the only
/// value of a single-key object.
pub open spec fn table_rows_of(j: Json) -> Option<Seq<Json>> {
    match j {
        Json::Array(rows) => Some(rows),
        Json::Object(members) => if members.len() == 1 && members[0].1 is Array {
            Some(members[0].1->Array_0)
        } else {
            None
        },
        _ => None,
    }
}

pub open spec fn tsv_not_table_message() -> Seq<char> {
    "tsv output requires a top-level array or a single-key object containing an array"@
}

pub open spec fn tsv_row_not_object_message() -> Seq<char> {
    "tsv output requires every row to be an object"@
}

pub open spec fn tsv_nested_field_message() -> Seq<char> {
    "tsv output requires flat scalar fields; nested arrays and objects are not supported"@
}

/// Some member's value is an array or an object.
pub open spec fn has_nested_member(members: Seq<(Seq<char>, Json)>) -> bool {
    exists|k: int| 0 <= k < members.len() && #[trigger] is_container(members[k].1)
}

/// What is wrong with one row, if anything.
pub open spec fn row_problem(row: Json) -> Option<Seq<char>> {
    if !(row is Object) {
        Some(tsv_row_not_object_message())
    } else if has_nested_member(row->Object_0) {
        Some(tsv_nested_field_message())
    } else {
        None
    }
}

/// The problem of the first row that has one.
pub open spec fn rows_problem(rows: Seq<Json>) -> Option<Seq<char>>
    decreases rows.len(),
{
    if rows.len() == 0 {
        None
    } else {
        match rows_problem(rows.drop_last()) {
            Some(m) => Some(m),
            None => row_problem(rows.last()),
        }
    }
}

/// Why the document cannot be written as TSV, if it cannot.
pub open spec fn tsv_problem(j: Json) -> Option<Seq<char>> {
    match table_rows_of(j) {
        None => Some(tsv_not_table_message()),
        Some(rows) => rows_problem(rows),
    }
}

/// The rows of the document's table, if it has one.
pub fn table_rows(value: &JsonValue) -> (r: Option<&Vec<JsonValue>>)
    ensures
        match r {
            Some(rows) => table_rows_of(value@) == Some(items_model(rows@)),
            None => table_rows_of(value@) is None,
        },
{
    match value {
        JsonValue::Array(rows) => {
            proof {
                lemma_array_model(*rows);
            }
            Some(rows)
        },
        JsonValue::Object(members) => {
            proof {
                lemma_object_model(*members);
            }
            if members.len() == 1 {
                match &members[0].1 {
                    JsonValue::Array(rows) => {
                        proof {
                            lemma_array_model(*rows);
                        }
                        Some(rows)
                    },
                    JsonValue::Object(inner) => {
                        proof {
                            lemma_object_model(*inner);
                        }
                        None
                    },
                    _ => None,
                }
            } else {
                None
            }
        },
        _ => None,
    }
}

/// Whether the value is an array or an object.
pub fn is_container_value(value: &JsonValue) -> (r: bool)
    ensures
        r == is_container(value@),
{
    match value {
        JsonValue::Array(items) => {
            proof {
                lemma_array_model(*items);
            }
            true
        },
        JsonValue::Object(members) => {
            proof {
                lemma_object_model(*members);
            }
            true
        },
        _ => false,
    }
}

/// What is wrong with one row, if anything.
fn check_row(row: &JsonValue) -> (r: Option<&'static str>)
    ensures
        match r {
            Some(m) => row_problem(row@) == Some(m@),
            None => row_problem(row@) is None,
        },
{
    match row {
        JsonValue::Object(members) => {
            proof {
                lemma_object_model(*members);
            }
            let ghost mm = members_model(members@);
            let mut k: usize = 0;
            while k < members.len()
                invariant
                    k <= members@.len(),
                    mm == members_model(members@),
                    row@ == Json::Object(mm),
                    forall|t: int| 0 <= t < k ==> !is_container(#[trigger] mm[t].1),
                decreases members@.len() - k,
            {
                if is_container_value(&members[k].1) {
                    assert(is_container(mm[k as int].1));
                    return Some(
                        "tsv output requires flat scalar fields; nested arrays and objects are not supported",
                    );
                }
                k = k + 1;
            }
            None
        },
        JsonValue::Array(items) => {
            proof {
                lemma_array_model(*items);
            }
            Some("tsv output requires every row to be an object")
        },
        _ => Some("tsv output requires every row to be an object"),
    }
}

/// Checks that the document can be written as TSV: a table (a top-level
/// array, or a single-key object holding one) whose rows are all objects
/// with scalar values only.
pub fn validate_tsv_value(value: &JsonValue) -> (r: Result<(), LlmFmtError>)
    ensures
        r is Ok <==> tsv_problem(value@) is None,
        r matches Err(e) ==> e is Message && Some(e->Message_0@) == tsv_problem(value@),
{
    let rows = match table_rows(value) {
        Some(rows) => rows,
        None => {
            return Err(
                LlmFmtError::Message(
                    "tsv output requires a top-level array or a single-key object containing an array".to_owned(),
                ),
            );
        },
    };
    let ghost rs = items_model(rows@);
    let mut i: usize = 0;
    while i < rows.len()
        invariant
            i <= rows@.len(),
            rs == items_model(rows@),
            table_rows_of(value@) == Some(rs),
            rows_problem(rs.take(i as int)) is None,
        decreases rows@.len() - i,
    {
        proof {
            assert(rs.take(i + 1).drop_last() =~= rs.take(i as int));
            assert(rs[i as int] == rows@[i as int]@);
        }
        match check_row(&rows[i]) {
            Some(message) => {
                proof {
                    lemma_rows_problem_prefix(rs, i as int + 1);
                }
                return Err(LlmFmtError::Message(message.to_owned()));
            },
            None => {},
        }
        i = i + 1;
    }
    proof {
        assert(rs.take(rs.len() as int) =~= rs);
    }
    Ok(())
}

/// Once a prefix of the rows has a problem, the rows have the same problem.
proof fn lemma_rows_problem_prefix(rows: Seq<Json>, k: int)
    requires
        0 <= k <= rows.len(),
        rows_problem(rows.take(k)) is Some,
    ensures
        rows_problem(rows) == rows_problem(rows.take(k)),
    decreases rows.len() - k,
{
    if k < rows.len() {
        assert(rows.take(k + 1).drop_last() =~= rows.take(k));
        lemma_rows_problem_prefix(rows, k + 1);
    } else {
        assert(rows.take(k) =~= rows);
    }
}

} // verus!
