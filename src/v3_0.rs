use vstd::prelude::*;
use crate::error::Error;
use crate::value::{clone_entries, field, same_entries, Value};

verus! {

/// Root of a revision 3.0 document: its `openapi` version string, and all of its
/// top-level entries, in document order.
#[derive(Debug, PartialEq)]
pub struct Spec {
    pub openapi: String,
    pub entries: Vec<(String, Value)>,
}

/// The version string of a revision 3.0 document: its `openapi` entry, a string.
pub open spec fn version_of(v: Value) -> Option<Seq<char>> {
    match field(v, "openapi"@) {
        Some(Value::Str(s)) => Some(s@),
        _ => None,
    }
}

impl Spec {
    /// Reads a revision 3.0 root: an object with a `openapi` string entry.
    pub fn from_value(v: &Value) -> (r: Result<Spec, Error>)
        ensures
            r is Ok <==> version_of(*v) is Some,
            r is Ok ==> r->Ok_0.openapi@ == version_of(*v)->Some_0 && same_entries(
                v->Object_0@,
                r->Ok_0.entries@,
            ),
            r is Err ==> r->Err_0 == Error::ShapeMismatch,
    {
        match v.get(&"openapi".to_owned()) {
            Some(Value::Str(s)) => match v {
                Value::Object(entries) => Ok(Spec { openapi: s.clone(), entries: clone_entries(entries) }),
                _ => Err(Error::ShapeMismatch),
            },
            _ => Err(Error::ShapeMismatch),
        }
    }

    /// Writes the root back as an object value holding its entries.
    pub fn to_value(&self) -> (r: Value)
        ensures
            r is Object,
            same_entries(self.entries@, r->Object_0@),
    {
        Value::Object(clone_entries(&self.entries))
    }
}

} // verus!
