//! The query operators: how a document field matches a query value.

use vstd::prelude::*;
use crate::json::{get_of, Json, JVal};
use crate::text::{contains_seq, str_contains, str_ends_with, str_eq, str_starts_with};

verus! {

/// The equality operators.
pub open spec fn is_eq_op(op: Seq<char>) -> bool {
    op == "="@ || op == "=="@ || op == "eq"@
}

/// The substring operators.
pub open spec fn is_contains_op(op: Seq<char>) -> bool {
    op == "like"@ || op == "LIKE"@ || op == "contains"@
}

/// The operator table. A string field compares as the operator says; a
/// numeric field matches only under an equality operator, against the
/// number's decimal rendering; any other field type, an absent field,
/// or an unknown operator never matches.
pub open spec fn op_matches(d: JVal, field: Seq<char>, value: Seq<char>, op: Seq<char>) -> bool {
    match get_of(d, field) {
        Some(JVal::Str(s)) => if is_eq_op(op) {
            s == value
        } else if is_contains_op(op) {
            contains_seq(s, value)
        } else if op == "starts_with"@ {
            value.is_prefix_of(s)
        } else if op == "ends_with"@ {
            value.is_suffix_of(s)
        } else {
            false
        },
        Some(JVal::Num(s)) => is_eq_op(op) && s == value,
        _ => false,
    }
}

/// Exact string equality on a field, as `find` uses: the field is
/// present and holds exactly this string.
pub open spec fn field_matches(d: JVal, field: Seq<char>, value: Seq<char>) -> bool {
    get_of(d, field) == Some(JVal::Str(value))
}

/// Whether a document's `field` holds exactly the string `value`.
pub fn doc_matches_field(d: &Json, field: &str, value: &str) -> (r: bool)
    ensures
        r == field_matches(d@, field@, value@),
{
    match d.get(field) {
        Some(v) => match v {
            Json::Str(s) => str_eq(s.as_str(), value),
            _ => false,
        },
        None => false,
    }
}

/// Whether a document's `field` matches `value` under `operator`.
pub fn doc_matches_op(d: &Json, field: &str, value: &str, operator: &str) -> (r: bool)
    ensures
        r == op_matches(d@, field@, value@, operator@),
{
    match d.get(field) {
        Some(v) => match v {
            Json::Str(s) => {
                if str_eq(operator, "=") || str_eq(operator, "==") || str_eq(operator, "eq") {
                    str_eq(s.as_str(), value)
                } else if str_eq(operator, "like") || str_eq(operator, "LIKE") || str_eq(
                    operator,
                    "contains",
                ) {
                    str_contains(s.as_str(), value)
                } else if str_eq(operator, "starts_with") {
                    str_starts_with(s.as_str(), value)
                } else if str_eq(operator, "ends_with") {
                    str_ends_with(s.as_str(), value)
                } else {
                    false
                }
            },
            Json::Num(n) => {
                if str_eq(operator, "=") || str_eq(operator, "==") || str_eq(operator, "eq") {
                    str_eq(n.as_str(), value)
                } else {
                    false
                }
            },
            _ => false,
        },
        None => false,
    }
}

} // verus!
