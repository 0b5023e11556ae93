use vstd::prelude::*;
use crate::error::Error;
use crate::value::{field, Value};

verus! {

/// A pointer to another location of the document, written `{"$ref": path}`.
#[derive(Debug, PartialEq)]
pub struct Ref {
    pub ref_path: String,
}

/// A node given inline, or as a reference to a node elsewhere.
#[derive(Debug, PartialEq)]
pub enum ObjectOrReference<T> {
    Ref(Ref),
    Object(T),
}

/// A node given as a bare boolean, inline, or as a reference to a node elsewhere.
#[derive(Debug, PartialEq)]
pub enum BooleanObjectOrReference<T> {
    Boolean(bool),
    Object(T),
    Ref(Ref),
}

/// The path of a value in reference shape: an object whose `$ref` entry is a string.
pub open spec fn ref_path(v: Value) -> Option<Seq<char>> {
    match field(v, "$ref"@) {
        Some(Value::Str(s)) => Some(s@),
        _ => None,
    }
}

impl Ref {
    /// Reads a reference from a value in reference shape.
    pub fn from_value(v: &Value) -> (r: Result<Ref, Error>)
        ensures
            r is Ok <==> ref_path(*v) is Some,
            r is Ok ==> r->Ok_0.ref_path@ == ref_path(*v)->Some_0,
            r is Err ==> r->Err_0 == Error::ShapeMismatch,
    {
        let key = "$ref".to_owned();
        match v.get(&key) {
            Some(Value::Str(s)) => Ok(Ref { ref_path: s.clone() }),
            _ => Err(Error::ShapeMismatch),
        }
    }

    /// Writes the reference in its wire shape: one entry `$ref` holding the path.
    pub fn to_value(&self) -> (r: Value)
        ensures
            r is Object,
            r->Object_0@.len() == 1,
            r->Object_0@[0].0@ == "$ref"@,
            r->Object_0@[0].1 == Value::Str(self.ref_path),
            ref_path(r) == Some(self.ref_path@),
    {
        let mut entries: Vec<(String, Value)> = Vec::new();
        entries.push(("$ref".to_owned(), Value::Str(self.ref_path.clone())));
        let r = Value::Object(entries);
        assert(r->Object_0@.drop_first().len() == 0);
        r
    }
}

} // verus!
