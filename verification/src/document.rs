//! Structured documents: the JSON-shaped values that syntax-tree nodes
//! serialize to for inspection. A number with a fractional part carries its
//! decimal source text, so the library itself holds no floating point; the
//! caller turns that text into a binary number where it needs one.

use vstd::prelude::*;

verus! {

broadcast use vstd::std_specs::vec::axiom_vec_index_decreases;

/// The mathematical value of a structured document.
pub enum DocV {
    /// A text value.
    Text(Seq<char>),
    /// An integral number.
    Int(i64),
    /// A number with a fractional part, as its decimal source text.
    Dec(Seq<char>),
    /// An ordered list of documents.
    Arr(Seq<DocV>),
    /// An ordered list of fields, each a name and a nested document.
    Obj(Seq<(Seq<char>, DocV)>),
}

/// A structured document value.
#[derive(Debug, PartialEq)]
pub enum JsonValue {
    /// A text value.
    Text(String),
    /// An integral number.
    Int(i64),
    /// A number with a fractional part, as its decimal source text.
    Dec(String),
    /// An ordered list of documents.
    Arr(Vec<JsonValue>),
    /// An ordered list of fields, each a name and a nested document.
    Obj(Vec<(String, JsonValue)>),
}

/// The mathematical value of a document.
pub open spec fn json_value_view(v: JsonValue) -> DocV
    decreases v,
{
    match v {
        JsonValue::Text(s) => DocV::Text(s@),
        JsonValue::Int(i) => DocV::Int(i),
        JsonValue::Dec(s) => DocV::Dec(s@),
        JsonValue::Arr(items) => DocV::Arr(
            Seq::new(
                items@.len(),
                |i: int|
                    if 0 <= i < items@.len() {
                        json_value_view(items@[i])
                    } else {
                        DocV::Int(0)
                    },
            ),
        ),
        JsonValue::Obj(entries) => DocV::Obj(
            Seq::new(
                entries@.len(),
                |i: int|
                    if 0 <= i < entries@.len() {
                        (entries@[i].0@, json_value_view(entries@[i].1))
                    } else {
                        (Seq::<char>::empty(), DocV::Int(0))
                    },
            ),
        ),
    }
}

impl View for JsonValue {
    type V = DocV;

    open spec fn view(&self) -> DocV {
        json_value_view(*self)
    }
}

} // verus!
