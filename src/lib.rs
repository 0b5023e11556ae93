//! Typed model of OpenAPI documents and its conversion to and from a
//! format-agnostic structured value tree.
pub mod error;
pub mod helper;
pub mod keys;
pub mod laws;
pub mod render;
pub mod schema_object;
pub mod v2;
pub mod v3_0;
pub mod value;

pub use error::Error;
pub use helper::{BooleanObjectOrReference, ObjectOrReference, Ref};
pub use schema_object::SchemaObject;
pub use value::Value;

use vstd::prelude::*;

verus! {

/// A document of one of the supported specification revisions.
#[derive(Debug, PartialEq)]
pub enum OpenApi {
    /// Revision 2.0.
    V2(Box<v2::Spec>),
    /// Revision 3.0.
    V3_0(Box<v3_0::Spec>),
}

impl OpenApi {
    /// Whether the version string of the document is the one its entries hold, and a
    /// revision 3.0 document holds no revision 2.0 version string as well.
    pub open spec fn wf(&self) -> bool {
        match self {
            OpenApi::V2(s) => value::lookup(s.entries@, "swagger"@) matches Some(Value::Str(t))
                && t@ == s.swagger@,
            OpenApi::V3_0(s) => {
                &&& value::lookup(s.entries@, "openapi"@) matches Some(Value::Str(t)) && t@
                    == s.openapi@
                &&& !(value::lookup(s.entries@, "swagger"@) matches Some(Value::Str(_)))
            },
        }
    }

    /// Reads a document, trying revision 2.0 first, then 3.0. Fails with
    /// `NoMatchingRevision`, holding both failures, where neither root reads.
    pub fn from_value(v: &Value) -> (r: Result<OpenApi, Error>)
        ensures
            r is Ok <==> (v2::version_of(*v) is Some || v3_0::version_of(*v) is Some),
            r is Ok ==> r->Ok_0.wf(),
            v2::version_of(*v) is Some ==> r is Ok && r->Ok_0 is V2 && r->Ok_0->V2_0.swagger@
                == v2::version_of(*v)->Some_0 && value::same_entries(
                v->Object_0@,
                r->Ok_0->V2_0.entries@,
            ),
            v2::version_of(*v) is None && v3_0::version_of(*v) is Some ==> r is Ok && r->Ok_0 is V3_0
                && r->Ok_0->V3_0_0.openapi@ == v3_0::version_of(*v)->Some_0 && value::same_entries(
                v->Object_0@,
                r->Ok_0->V3_0_0.entries@,
            ),
            r is Err ==> r->Err_0 is NoMatchingRevision && r->Err_0->NoMatchingRevision_0@ == seq![
                Error::ShapeMismatch,
                Error::ShapeMismatch,
            ],
    {
        match v2::Spec::from_value(v) {
            Ok(s) => {
                proof {
                    value::lemma_lookup_same(v->Object_0@, s.entries@, "swagger"@);
                }
                Ok(OpenApi::V2(Box::new(s)))
            },
            Err(e1) => match v3_0::Spec::from_value(v) {
                Ok(s) => {
                    proof {
                        value::lemma_lookup_same(v->Object_0@, s.entries@, "swagger"@);
                        value::lemma_lookup_same(v->Object_0@, s.entries@, "openapi"@);
                    }
                    Ok(OpenApi::V3_0(Box::new(s)))
                },
                Err(e2) => Err(Error::NoMatchingRevision(vec![e1, e2])),
            },
        }
    }

    /// Writes the document's root back as an object value.
    pub fn to_value(&self) -> (r: Value)
        ensures
            r is Object,
            self is V2 ==> value::same_entries(self->V2_0.entries@, r->Object_0@),
            self is V3_0 ==> value::same_entries(self->V3_0_0.entries@, r->Object_0@),
    {
        match self {
            OpenApi::V2(s) => s.to_value(),
            OpenApi::V3_0(s) => s.to_value(),
        }
    }
}

} // verus!
