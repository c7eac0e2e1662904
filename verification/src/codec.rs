//! The durable line format: one document, one compact JSON line.
//!
//! Rendering and parsing go through serde_json; the store relies on the
//! rendered line reparsing to the same document, which is what makes the
//! file a faithful representation of the collection.

use vstd::prelude::*;
use crate::json::{Json, JVal, wf_jval};

verus! {

#[verifier::external_type_specification]
#[verifier::external_body]
pub struct ExValue(serde_json::Value);

/// The line the store writes for a document: its compact JSON rendering,
/// a function of the document alone.
pub uninterp spec fn line_of(d: JVal) -> Seq<char>;

/// The document a line denotes, if the line parses as one: a function
/// of the line alone.
pub uninterp spec fn parse_line(s: Seq<char>) -> Option<JVal>;

/// Builds the serde_json value of the same shape as a document.
/// Relies on serde_json::Value's constructors and on Number's
/// `FromStr`; object member order is kept. A well-formed document's
/// number renderings all parse, so the `expect` never fires on the
/// callers' admitted inputs.
#[verifier::external_body]
fn to_value(d: &Json) -> serde_json::Value {
    match d {
        Json::Null => serde_json::Value::Null,
        Json::Bool(b) => serde_json::Value::Bool(*b),
        Json::Num(n) => serde_json::Value::Number(n.parse().expect("canonical rendering")),
        Json::Str(s) => serde_json::Value::String(s.clone()),
        Json::Arr(els) => serde_json::Value::Array(els.iter().map(to_value).collect()),
        Json::Obj(pairs) => serde_json::Value::Object(
            pairs.iter().map(|p| (p.0.clone(), to_value(&p.1))).collect(),
        ),
    }
}

/// Reads a serde_json value back as a document. Relies on
/// serde_json::Value's accessors and on Number's `Display`: a number is
/// carried over as its rendering.
#[verifier::external_body]
fn from_value(v: &serde_json::Value) -> Json {
    match v {
        serde_json::Value::Null => Json::Null,
        serde_json::Value::Bool(b) => Json::Bool(*b),
        serde_json::Value::Number(n) => Json::Num(n.to_string()),
        serde_json::Value::String(s) => Json::Str(s.clone()),
        serde_json::Value::Array(els) => Json::Arr(els.iter().map(from_value).collect()),
        serde_json::Value::Object(m) => Json::Obj(
            m.iter().map(|(k, v2)| (k.clone(), from_value(v2))).collect(),
        ),
    }
}

/// Relies on serde_json::to_string: a compact, non-empty JSON rendering
/// on a single line (control characters are escaped, so no line breaks
/// occur), reparsed by serde_json::from_str to the same value. The
/// well-formedness bound makes the reparse clause hold: keys stay
/// unique so members cannot merge, numbers are canonical renderings so
/// they come back verbatim, and nesting stays within the parser's
/// recursion limit so the parser accepts the line at all.
#[verifier::external_body]
pub(crate) fn doc_to_line(d: &Json) -> (r: String)
    requires
        wf_jval(d@),
    ensures
        r@ == line_of(d@),
        parse_line(r@) == Some(d@),
        r@.len() > 0,
        forall|i: int| 0 <= i < r@.len() ==> r@[i] != '\n' && r@[i] != '\r',
{
    serde_json::to_string(&to_value(d)).expect("rendering a value cannot fail")
}

/// Relies on serde_json::from_str: parses one line to at most one
/// value, the same value for the same line. A parsed value is well
/// formed: serde_json's object keys are unique at every depth, its
/// number renderings reparse to themselves, and its recursion limit
/// bounds the nesting.
#[verifier::external_body]
pub(crate) fn parse_doc_line(line: &str) -> (r: Option<Json>)
    ensures
        match r {
            Some(d) => parse_line(line@) == Some(d@) && wf_jval(d@),
            None => parse_line(line@) is None,
        },
{
    match serde_json::from_str::<serde_json::Value>(line) {
        Ok(v) => Some(from_value(&v)),
        Err(_) => None,
    }
}

/// Renders a well-formed document as the one line the store would
/// write for it.
pub fn render_document(d: &Json) -> (r: String)
    requires
        wf_jval(d@),
    ensures
        r@ == line_of(d@),
        parse_line(r@) == Some(d@),
        r@.len() > 0,
{
    doc_to_line(d)
}

/// Parses one line as a document, if it denotes one.
pub fn parse_document(line: &str) -> (r: Option<Json>)
    ensures
        match r {
            Some(d) => parse_line(line@) == Some(d@) && wf_jval(d@),
            None => parse_line(line@) is None,
        },
{
    parse_doc_line(line)
}

} // verus!
