use vstd::prelude::*;
use crate::error::Error;
use crate::helper::{ref_path, BooleanObjectOrReference, ObjectOrReference, Ref};
use crate::keys::{key_less, key_lt, lemma_lt_irreflexive, lemma_lt_total, lemma_lt_transitive};
use crate::value::{field, lookup, same, Value};

verus! {

/// A schema node: the shape of a piece of data, possibly built from other schemas.
///
/// Every attribute is optional. Reading gives `properties` its entries with keys unique
/// and in ascending key order (`keys_sorted`, part of `fits`); writing keeps the entries
/// in the order they are held.
#[derive(Debug, PartialEq)]
pub struct SchemaObject {
    pub title: Option<String>,
    pub multiple_of: Option<u32>,
    pub required: Option<Vec<String>>,
    pub enum_values: Option<Vec<Value>>,
    pub schema_type: Option<String>,
    pub one_of: Option<Vec<ObjectOrReference<SchemaObject>>>,
    pub all_of: Option<Vec<ObjectOrReference<SchemaObject>>>,
    pub any_of: Option<Vec<ObjectOrReference<SchemaObject>>>,
    pub not: Option<Vec<ObjectOrReference<SchemaObject>>>,
    pub items: Option<Box<ObjectOrReference<SchemaObject>>>,
    pub properties: Option<Vec<(String, ObjectOrReference<SchemaObject>)>>,
    pub additional_properties: Option<BooleanObjectOrReference<Box<SchemaObject>>>,
    pub description: Option<String>,
    pub format: Option<String>,
    pub default: Option<Value>,
}

/// How deep schemas may nest before reading gives up.
pub const MAX_DEPTH: usize = 128;

/// An attribute that is missing, or written as null: both read as unset.
pub open spec fn absent(f: Option<Value>) -> bool {
    f is None || f == Some(Value::Null)
}

pub open spec fn string_ok(f: Option<Value>) -> bool {
    absent(f) || f->Some_0 is Str
}

pub open spec fn string_rel(f: Option<Value>, r: Option<String>) -> bool {
    if absent(f) {
        r is None
    } else {
        r is Some && f->Some_0 == Value::Str(r->Some_0)
    }
}

pub open spec fn u32_ok(f: Option<Value>) -> bool {
    absent(f) || (f->Some_0 is Integer && 0 <= f->Some_0->Integer_0 <= u32::MAX)
}

pub open spec fn u32_rel(f: Option<Value>, r: Option<u32>) -> bool {
    if absent(f) {
        r is None
    } else {
        r is Some && f->Some_0 == Value::Integer(r->Some_0 as i128)
    }
}

pub open spec fn strings_ok(f: Option<Value>) -> bool {
    absent(f) || (f->Some_0 is Array && forall|i: int|
        0 <= i < f->Some_0->Array_0@.len() ==> #[trigger] f->Some_0->Array_0@[i] is Str)
}

pub open spec fn strings_rel(f: Option<Value>, r: Option<Vec<String>>) -> bool {
    if absent(f) {
        r is None
    } else {
        &&& r is Some
        &&& f->Some_0 is Array
        &&& r->Some_0@.len() == f->Some_0->Array_0@.len()
        &&& forall|i: int|
            0 <= i < r->Some_0@.len() ==> #[trigger] f->Some_0->Array_0@[i] == Value::Str(
                r->Some_0@[i],
            )
    }
}

pub open spec fn values_ok(f: Option<Value>) -> bool {
    absent(f) || f->Some_0 is Array
}

pub open spec fn values_rel(f: Option<Value>, r: Option<Vec<Value>>) -> bool {
    if absent(f) {
        r is None
    } else {
        &&& r is Some
        &&& f->Some_0 is Array
        &&& r->Some_0@.len() == f->Some_0->Array_0@.len()
        &&& forall|i: int|
            0 <= i < r->Some_0@.len() ==> same(#[trigger] f->Some_0->Array_0@[i], r->Some_0@[i])
    }
}

pub open spec fn any_rel(f: Option<Value>, r: Option<Value>) -> bool {
    if absent(f) {
        r is None
    } else {
        r is Some && same(f->Some_0, r->Some_0)
    }
}

fn read_string(v: &Value, key: &String) -> (r: Result<Option<String>, Error>)
    ensures
        r is Ok <==> string_ok(field(*v, key@)),
        r is Ok ==> string_rel(field(*v, key@), r->Ok_0),
        r is Err ==> r->Err_0 == Error::ShapeMismatch,
{
    match v.get(key) {
        None => Ok(None),
        Some(Value::Null) => Ok(None),
        Some(Value::Str(s)) => Ok(Some(s.clone())),
        Some(_) => Err(Error::ShapeMismatch),
    }
}

fn read_u32(v: &Value, key: &String) -> (r: Result<Option<u32>, Error>)
    ensures
        r is Ok <==> u32_ok(field(*v, key@)),
        r is Ok ==> u32_rel(field(*v, key@), r->Ok_0),
        r is Err ==> r->Err_0 == Error::ShapeMismatch,
{
    match v.get(key) {
        None => Ok(None),
        Some(Value::Null) => Ok(None),
        Some(Value::Integer(n)) => {
            if 0 <= *n && *n <= 0xffff_ffff {
                Ok(Some(*n as u32))
            } else {
                Err(Error::ShapeMismatch)
            }
        },
        Some(_) => Err(Error::ShapeMismatch),
    }
}

fn read_strings(v: &Value, key: &String) -> (r: Result<Option<Vec<String>>, Error>)
    ensures
        r is Ok <==> strings_ok(field(*v, key@)),
        r is Ok ==> strings_rel(field(*v, key@), r->Ok_0),
        r is Err ==> r->Err_0 == Error::ShapeMismatch,
{
    match v.get(key) {
        None => Ok(None),
        Some(Value::Null) => Ok(None),
        Some(Value::Array(items)) => {
            let mut out: Vec<String> = Vec::new();
            let mut i: usize = 0;
            while i < items.len()
                invariant
                    0 <= i <= items@.len(),
                    field(*v, key@) == Some(Value::Array(*items)),
                    out@.len() == i,
                    forall|j: int| 0 <= j < i ==> #[trigger] items@[j] == Value::Str(out@[j]),
                decreases items.len() - i,
            {
                match &items[i] {
                    Value::Str(s) => out.push(s.clone()),
                    _ => return Err(Error::ShapeMismatch),
                }
                i = i + 1;
            }
            Ok(Some(out))
        },
        Some(_) => Err(Error::ShapeMismatch),
    }
}

fn read_values(v: &Value, key: &String) -> (r: Result<Option<Vec<Value>>, Error>)
    ensures
        r is Ok <==> values_ok(field(*v, key@)),
        r is Ok ==> values_rel(field(*v, key@), r->Ok_0),
        r is Err ==> r->Err_0 == Error::ShapeMismatch,
{
    match v.get(key) {
        None => Ok(None),
        Some(Value::Null) => Ok(None),
        Some(Value::Array(items)) => {
            let mut out: Vec<Value> = Vec::new();
            let mut i: usize = 0;
            while i < items.len()
                invariant
                    0 <= i <= items@.len(),
                    field(*v, key@) == Some(Value::Array(*items)),
                    out@.len() == i,
                    forall|j: int| 0 <= j < i ==> same(#[trigger] items@[j], out@[j]),
                decreases items.len() - i,
            {
                out.push(items[i].deep_clone());
                i = i + 1;
            }
            Ok(Some(out))
        },
        Some(_) => Err(Error::ShapeMismatch),
    }
}

fn read_any(v: &Value, key: &String) -> (r: Option<Value>)
    ensures
        any_rel(field(*v, key@), r),
{
    match v.get(key) {
        None => None,
        Some(Value::Null) => None,
        Some(x) => Some(x.deep_clone()),
    }
}

/// Whether `v` reads as a schema, with at most `d` levels of schemas nested in it
/// (itself included).
pub open spec fn schema_ok(v: Value, d: nat) -> bool
    decreases d, 0nat,
{
    &&& d > 0
    &&& v is Object
    &&& string_ok(field(v, "title"@))
    &&& u32_ok(field(v, "multipleOf"@))
    &&& strings_ok(field(v, "required"@))
    &&& values_ok(field(v, "enum"@))
    &&& string_ok(field(v, "type"@))
    &&& list_ok(field(v, "oneOf"@), (d - 1) as nat)
    &&& list_ok(field(v, "allOf"@), (d - 1) as nat)
    &&& list_ok(field(v, "anyOf"@), (d - 1) as nat)
    &&& list_ok(field(v, "not"@), (d - 1) as nat)
    &&& item_ok(field(v, "items"@), (d - 1) as nat)
    &&& properties_ok(field(v, "properties"@), (d - 1) as nat)
    &&& additional_ok(field(v, "additionalProperties"@), (d - 1) as nat)
    &&& string_ok(field(v, "description"@))
    &&& string_ok(field(v, "format"@))
}

/// Whether `v` reads as a reference or an inline schema.
pub open spec fn objref_ok(v: Value, d: nat) -> bool
    decreases d, 1nat,
{
    ref_path(v) is Some || schema_ok(v, d)
}

pub open spec fn list_ok(f: Option<Value>, d: nat) -> bool
    decreases d, 2nat,
{
    absent(f) || (f->Some_0 is Array && forall|i: int|
        0 <= i < f->Some_0->Array_0@.len() ==> objref_ok(#[trigger] f->Some_0->Array_0@[i], d))
}

pub open spec fn item_ok(f: Option<Value>, d: nat) -> bool
    decreases d, 2nat,
{
    absent(f) || objref_ok(f->Some_0, d)
}

pub open spec fn properties_ok(f: Option<Value>, d: nat) -> bool
    decreases d, 2nat,
{
    absent(f) || (f->Some_0 is Object && forall|i: int|
        0 <= i < f->Some_0->Object_0@.len() ==> objref_ok(
            #[trigger] f->Some_0->Object_0@[i].1,
            d,
        ))
}

pub open spec fn additional_ok(f: Option<Value>, d: nat) -> bool
    decreases d, 2nat,
{
    absent(f) || f->Some_0 is Bool || ref_path(f->Some_0) is Some || schema_ok(f->Some_0, d)
}

/// Whether `s` is what `v` reads as, with at most `d` levels of nesting: each attribute
/// is read from the entry of the same wire name.
pub open spec fn schema_rel(v: Value, d: nat, s: SchemaObject) -> bool
    decreases d, 0nat,
{
    &&& d > 0
    &&& v is Object
    &&& string_rel(field(v, "title"@), s.title)
    &&& u32_rel(field(v, "multipleOf"@), s.multiple_of)
    &&& strings_rel(field(v, "required"@), s.required)
    &&& values_rel(field(v, "enum"@), s.enum_values)
    &&& string_rel(field(v, "type"@), s.schema_type)
    &&& list_rel(field(v, "oneOf"@), (d - 1) as nat, s.one_of)
    &&& list_rel(field(v, "allOf"@), (d - 1) as nat, s.all_of)
    &&& list_rel(field(v, "anyOf"@), (d - 1) as nat, s.any_of)
    &&& list_rel(field(v, "not"@), (d - 1) as nat, s.not)
    &&& item_rel(field(v, "items"@), (d - 1) as nat, s.items)
    &&& properties_rel(field(v, "properties"@), (d - 1) as nat, s.properties)
    &&& additional_rel(field(v, "additionalProperties"@), (d - 1) as nat, s.additional_properties)
    &&& string_rel(field(v, "description"@), s.description)
    &&& string_rel(field(v, "format"@), s.format)
    &&& any_rel(field(v, "default"@), s.default)
}

/// A value in reference shape reads as a reference; any other as an inline schema.
pub open spec fn objref_rel(v: Value, d: nat, r: ObjectOrReference<SchemaObject>) -> bool
    decreases d, 1nat,
{
    match ref_path(v) {
        Some(p) => r is Ref && r->Ref_0.ref_path@ == p,
        None => r is Object && schema_rel(v, d, r->Object_0),
    }
}

pub open spec fn list_rel(
    f: Option<Value>,
    d: nat,
    r: Option<Vec<ObjectOrReference<SchemaObject>>>,
) -> bool
    decreases d, 2nat,
{
    if absent(f) {
        r is None
    } else {
        &&& r is Some
        &&& f->Some_0 is Array
        &&& r->Some_0@.len() == f->Some_0->Array_0@.len()
        &&& forall|i: int|
            0 <= i < r->Some_0@.len() ==> objref_rel(
                #[trigger] f->Some_0->Array_0@[i],
                d,
                r->Some_0@[i],
            )
    }
}

pub open spec fn item_rel(
    f: Option<Value>,
    d: nat,
    r: Option<Box<ObjectOrReference<SchemaObject>>>,
) -> bool
    decreases d, 2nat,
{
    if absent(f) {
        r is None
    } else {
        r is Some && objref_rel(f->Some_0, d, *r->Some_0)
    }
}

/// Whether the keys of `r` ascend strictly.
pub open spec fn keys_sorted(r: Seq<(String, ObjectOrReference<SchemaObject>)>) -> bool {
    forall|i: int, j: int| 0 <= i < j < r.len() ==> key_lt(#[trigger] r[i].0@, #[trigger] r[j].0@)
}

/// Whether `s` can be written and read back: it nests at most `d` levels of schemas
/// (itself included), its properties ascend strictly by key, and its default, if
/// set, is not null (a null reads back as unset).
pub open spec fn fits(s: SchemaObject, d: nat) -> bool
    decreases d, 0nat,
{
    &&& d > 0
    &&& !(s.default matches Some(Value::Null))
    &&& fits_list(s.one_of, (d - 1) as nat)
    &&& fits_list(s.all_of, (d - 1) as nat)
    &&& fits_list(s.any_of, (d - 1) as nat)
    &&& fits_list(s.not, (d - 1) as nat)
    &&& fits_item(s.items, (d - 1) as nat)
    &&& (s.properties is Some ==> keys_sorted(s.properties->Some_0@) && forall|i: int|
        0 <= i < s.properties->Some_0@.len() ==> fits_objref(
            (#[trigger] s.properties->Some_0@[i]).1,
            (d - 1) as nat,
        ))
    &&& fits_additional(s.additional_properties, (d - 1) as nat)
}

pub open spec fn fits_additional(a: Option<BooleanObjectOrReference<Box<SchemaObject>>>, d: nat) -> bool
    decreases d, 1nat,
{
    a is Some && a->Some_0 is Object ==> fits(*a->Some_0->Object_0, d)
}

pub open spec fn fits_item(i: Option<Box<ObjectOrReference<SchemaObject>>>, d: nat) -> bool
    decreases d, 2nat,
{
    i is Some ==> fits_objref(*i->Some_0, d)
}

pub open spec fn fits_objref(o: ObjectOrReference<SchemaObject>, d: nat) -> bool
    decreases d, 1nat,
{
    o is Ref || fits(o->Object_0, d)
}

pub open spec fn fits_list(l: Option<Vec<ObjectOrReference<SchemaObject>>>, d: nat) -> bool
    decreases d, 2nat,
{
    l is Some ==> forall|i: int|
        0 <= i < l->Some_0@.len() ==> fits_objref(#[trigger] l->Some_0@[i], d)
}

/// Whether some entry of `r` has key `k`.
pub open spec fn keys_contain(r: Seq<(String, ObjectOrReference<SchemaObject>)>, k: Seq<char>) -> bool {
    exists|i: int| 0 <= i < r.len() && #[trigger] r[i].0@ == k
}

/// The entries of an object value, each key once (its first entry), in ascending key order.
pub open spec fn properties_rel(
    f: Option<Value>,
    d: nat,
    r: Option<Vec<(String, ObjectOrReference<SchemaObject>)>>,
) -> bool
    decreases d, 2nat,
{
    if absent(f) {
        r is None
    } else {
        &&& r is Some
        &&& f->Some_0 is Object
        &&& keys_sorted(r->Some_0@)
        &&& forall|i: int|
            0 <= i < r->Some_0@.len() ==> {
                &&& lookup(f->Some_0->Object_0@, (#[trigger] r->Some_0@[i]).0@) is Some
                &&& objref_rel(
                    lookup(f->Some_0->Object_0@, r->Some_0@[i].0@)->Some_0,
                    d,
                    r->Some_0@[i].1,
                )
            }
        &&& forall|j: int|
            0 <= j < f->Some_0->Object_0@.len() ==> keys_contain(
                r->Some_0@,
                (#[trigger] f->Some_0->Object_0@[j]).0@,
            )
    }
}

/// A boolean reads as a boolean; a value in reference shape as a reference; any other
/// as an inline schema.
pub open spec fn additional_rel(
    f: Option<Value>,
    d: nat,
    r: Option<BooleanObjectOrReference<Box<SchemaObject>>>,
) -> bool
    decreases d, 2nat,
{
    if absent(f) {
        r is None
    } else if f->Some_0 is Bool {
        r == Some(BooleanObjectOrReference::<Box<SchemaObject>>::Boolean(f->Some_0->Bool_0))
    } else if ref_path(f->Some_0) is Some {
        r is Some && r->Some_0 is Ref && r->Some_0->Ref_0.ref_path@ == ref_path(f->Some_0)->Some_0
    } else {
        r is Some && r->Some_0 is Object && schema_rel(f->Some_0, d, *r->Some_0->Object_0)
    }
}

/// Whether the plain attributes of `v`, the ones read before any nested schema, all
/// have their wire shape.
pub open spec fn plain_attributes_ok(v: Value) -> bool {
    &&& string_ok(field(v, "title"@))
    &&& u32_ok(field(v, "multipleOf"@))
    &&& strings_ok(field(v, "required"@))
    &&& values_ok(field(v, "enum"@))
    &&& string_ok(field(v, "type"@))
}

/// Whether `v` is a chain of inline schemas, each holding nothing read before `items`
/// and the next one under `items`, more than `d` levels deep.
pub open spec fn deep_items_chain(v: Value, d: nat) -> bool
    decreases d,
{
    &&& v is Object
    &&& ref_path(v) is None
    &&& absent(field(v, "title"@))
    &&& absent(field(v, "multipleOf"@))
    &&& absent(field(v, "required"@))
    &&& absent(field(v, "enum"@))
    &&& absent(field(v, "type"@))
    &&& absent(field(v, "oneOf"@))
    &&& absent(field(v, "allOf"@))
    &&& absent(field(v, "anyOf"@))
    &&& absent(field(v, "not"@))
    &&& d > 0 ==> field(v, "items"@) is Some && deep_items_chain(
        field(v, "items"@)->Some_0,
        (d - 1) as nat,
    )
}

impl SchemaObject {
    /// Reads a schema, with at most `depth` levels of schemas nested in it (itself
    /// included). Past that depth it fails with `DepthExceeded`.
    pub fn from_value_with_limit(v: &Value, depth: usize) -> (r: Result<SchemaObject, Error>)
        ensures
            r is Ok <==> schema_ok(*v, depth as nat),
            r is Ok ==> schema_rel(*v, depth as nat, r->Ok_0),
            depth == 0 ==> r == Err::<SchemaObject, Error>(Error::DepthExceeded),
            depth > 0 && !(*v is Object) ==> r == Err::<SchemaObject, Error>(Error::ShapeMismatch),
            deep_items_chain(*v, depth as nat) ==> r == Err::<SchemaObject, Error>(
                Error::DepthExceeded,
            ),
            forall|n: nat| #[trigger] schema_ok(*v, n) && r is Err ==> r == Err::<
                SchemaObject,
                Error,
            >(Error::DepthExceeded),
            r is Err ==> r->Err_0 is ShapeMismatch || r->Err_0 is CombinatorMismatch || r->Err_0 is DepthExceeded,
            depth > 0 && *v is Object && !plain_attributes_ok(*v) ==> r == Err::<
                SchemaObject,
                Error,
            >(Error::ShapeMismatch),
        decreases depth, 0int,
    {
        if depth == 0 {
            return Err(Error::DepthExceeded);
        }
        if !(match v { Value::Object(_) => true, _ => false }) {
            return Err(Error::ShapeMismatch);
        }
        let d = depth - 1;
        let title = match read_string(v, &"title".to_owned()) { Ok(x) => x, Err(e) => return Err(e) };
        let multiple_of = match read_u32(v, &"multipleOf".to_owned()) { Ok(x) => x, Err(e) => return Err(e) };
        let required = match read_strings(v, &"required".to_owned()) { Ok(x) => x, Err(e) => return Err(e) };
        let enum_values = match read_values(v, &"enum".to_owned()) { Ok(x) => x, Err(e) => return Err(e) };
        let schema_type = match read_string(v, &"type".to_owned()) { Ok(x) => x, Err(e) => return Err(e) };
        let one_of = match read_list(v, &"oneOf".to_owned(), d) { Ok(x) => x, Err(e) => {
            assert forall|n: nat| #[trigger] schema_ok(*v, n) implies e is DepthExceeded by {
                assert(list_ok(field(*v, "oneOf"@), (n - 1) as nat));
            }
            return Err(e);
        } };
        let all_of = match read_list(v, &"allOf".to_owned(), d) { Ok(x) => x, Err(e) => {
            assert forall|n: nat| #[trigger] schema_ok(*v, n) implies e is DepthExceeded by {
                assert(list_ok(field(*v, "allOf"@), (n - 1) as nat));
            }
            return Err(e);
        } };
        let any_of = match read_list(v, &"anyOf".to_owned(), d) { Ok(x) => x, Err(e) => {
            assert forall|n: nat| #[trigger] schema_ok(*v, n) implies e is DepthExceeded by {
                assert(list_ok(field(*v, "anyOf"@), (n - 1) as nat));
            }
            return Err(e);
        } };
        let not = match read_list(v, &"not".to_owned(), d) { Ok(x) => x, Err(e) => {
            assert forall|n: nat| #[trigger] schema_ok(*v, n) implies e is DepthExceeded by {
                assert(list_ok(field(*v, "not"@), (n - 1) as nat));
            }
            return Err(e);
        } };
        let items = match read_item(v, &"items".to_owned(), d) { Ok(x) => x, Err(e) => {
            assert forall|n: nat| #[trigger] schema_ok(*v, n) implies e is DepthExceeded by {
                assert(item_ok(field(*v, "items"@), (n - 1) as nat));
            }
            return Err(e);
        } };
        let properties = match read_properties(v, &"properties".to_owned(), d) { Ok(x) => x, Err(e) => {
            assert forall|n: nat| #[trigger] schema_ok(*v, n) implies e is DepthExceeded by {
                assert(properties_ok(field(*v, "properties"@), (n - 1) as nat));
            }
            return Err(e);
        } };
        let additional_properties = match read_additional(v, &"additionalProperties".to_owned(), d) { Ok(x) => x, Err(e) => {
            assert forall|n: nat| #[trigger] schema_ok(*v, n) implies e is DepthExceeded by {
                assert(additional_ok(field(*v, "additionalProperties"@), (n - 1) as nat));
            }
            return Err(e);
        } };
        let description = match read_string(v, &"description".to_owned()) { Ok(x) => x, Err(e) => return Err(e) };
        let format = match read_string(v, &"format".to_owned()) { Ok(x) => x, Err(e) => return Err(e) };
        let default = read_any(v, &"default".to_owned());
        Ok(SchemaObject {
            title,
            multiple_of,
            required,
            enum_values,
            schema_type,
            one_of,
            all_of,
            any_of,
            not,
            items,
            properties,
            additional_properties,
            description,
            format,
            default,
        })
    }
}

impl ObjectOrReference<SchemaObject> {
    /// Reads a reference where the value has reference shape, else an inline schema.
    /// Fails with `CombinatorMismatch`, holding both failures, where neither reads, or
    /// with `DepthExceeded` where the schema nests too deep.
    pub fn from_value_with_limit(v: &Value, depth: usize) -> (r: Result<
        ObjectOrReference<SchemaObject>,
        Error,
    >)
        ensures
            r is Ok <==> objref_ok(*v, depth as nat),
            r is Ok ==> objref_rel(*v, depth as nat, r->Ok_0),
            r is Err ==> r->Err_0 is CombinatorMismatch || r->Err_0 is DepthExceeded,
            deep_items_chain(*v, depth as nat) ==> r == Err::<ObjectOrReference<SchemaObject>, Error>(
                Error::DepthExceeded,
            ),
            forall|n: nat| #[trigger] objref_ok(*v, n) && r is Err ==> r == Err::<
                ObjectOrReference<SchemaObject>,
                Error,
            >(Error::DepthExceeded),
            ref_path(*v) is None && depth == 0 ==> r == Err::<
                ObjectOrReference<SchemaObject>,
                Error,
            >(Error::DepthExceeded),
            depth > 0 && !(*v is Object) ==> r is Err && r->Err_0 is CombinatorMismatch
                && r->Err_0->CombinatorMismatch_0@ == seq![Error::ShapeMismatch, Error::ShapeMismatch],
            r is Err && r->Err_0 is CombinatorMismatch ==> r->Err_0->CombinatorMismatch_0@.len() == 2
                && r->Err_0->CombinatorMismatch_0@[0] == Error::ShapeMismatch,
        decreases depth, 1int,
    {
        match Ref::from_value(v) {
            Ok(reference) => Ok(ObjectOrReference::Ref(reference)),
            Err(e1) => match SchemaObject::from_value_with_limit(v, depth) {
                Ok(s) => Ok(ObjectOrReference::Object(s)),
                Err(Error::DepthExceeded) => Err(Error::DepthExceeded),
                Err(e2) => {
                    assert forall|n: nat| #[trigger] objref_ok(*v, n) implies false by {
                        assert(schema_ok(*v, n));
                    }
                    Err(Error::CombinatorMismatch(vec![e1, e2]))
                },
            },
        }
    }
}

fn read_list(v: &Value, key: &String, depth: usize) -> (r: Result<
    Option<Vec<ObjectOrReference<SchemaObject>>>,
    Error,
>)
    ensures
        r is Ok <==> list_ok(field(*v, key@), depth as nat),
        r is Ok ==> list_rel(field(*v, key@), depth as nat, r->Ok_0),
        forall|n: nat| #[trigger] list_ok(field(*v, key@), n) && r is Err ==> r->Err_0 is DepthExceeded,
        r is Err ==> r->Err_0 is ShapeMismatch || r->Err_0 is CombinatorMismatch || r->Err_0 is DepthExceeded,
    decreases depth, 2int,
{
    match v.get(key) {
        None => Ok(None),
        Some(Value::Null) => Ok(None),
        Some(Value::Array(items)) => {
            let mut out: Vec<ObjectOrReference<SchemaObject>> = Vec::new();
            let mut i: usize = 0;
            while i < items.len()
                invariant
                    0 <= i <= items@.len(),
                    field(*v, key@) == Some(Value::Array(*items)),
                    out@.len() == i,
                    forall|j: int| 0 <= j < i ==> objref_ok(#[trigger] items@[j], depth as nat),
                    forall|j: int|
                        0 <= j < i ==> objref_rel(#[trigger] items@[j], depth as nat, out@[j]),
                decreases items.len() - i,
            {
                match ObjectOrReference::<SchemaObject>::from_value_with_limit(&items[i], depth) {
                    Ok(x) => out.push(x),
                    Err(e) => {
                        assert(field(*v, key@)->Some_0->Array_0@[i as int] == items@[i as int]);
                        assert forall|n: nat| #[trigger] list_ok(field(*v, key@), n) implies e is DepthExceeded by {
                            assert(objref_ok(items@[i as int], n));
                        }
                        return Err(e);
                    },
                }
                i = i + 1;
            }
            Ok(Some(out))
        },
        Some(_) => Err(Error::ShapeMismatch),
    }
}

fn read_item(v: &Value, key: &String, depth: usize) -> (r: Result<
    Option<Box<ObjectOrReference<SchemaObject>>>,
    Error,
>)
    ensures
        r is Ok <==> item_ok(field(*v, key@), depth as nat),
        r is Ok ==> item_rel(field(*v, key@), depth as nat, r->Ok_0),
        forall|n: nat| #[trigger] item_ok(field(*v, key@), n) && r is Err ==> r->Err_0 is DepthExceeded,
        r is Err ==> r->Err_0 is ShapeMismatch || r->Err_0 is CombinatorMismatch || r->Err_0 is DepthExceeded,
        field(*v, key@) is Some && deep_items_chain(field(*v, key@)->Some_0, depth as nat) ==> r
            == Err::<Option<Box<ObjectOrReference<SchemaObject>>>, Error>(Error::DepthExceeded),
    decreases depth, 2int,
{
    match v.get(key) {
        None => Ok(None),
        Some(Value::Null) => Ok(None),
        Some(x) => match ObjectOrReference::<SchemaObject>::from_value_with_limit(x, depth) {
            Ok(o) => Ok(Some(Box::new(o))),
            Err(e) => {
                assert forall|n: nat| #[trigger] item_ok(field(*v, key@), n) implies e is DepthExceeded by {
                    assert(objref_ok(*x, n));
                }
                Err(e)
            },
        },
    }
}

fn read_additional(v: &Value, key: &String, depth: usize) -> (r: Result<
    Option<BooleanObjectOrReference<Box<SchemaObject>>>,
    Error,
>)
    ensures
        r is Ok <==> additional_ok(field(*v, key@), depth as nat),
        r is Ok ==> additional_rel(field(*v, key@), depth as nat, r->Ok_0),
        forall|n: nat| #[trigger] additional_ok(field(*v, key@), n) && r is Err ==> r->Err_0 is DepthExceeded,
        r is Err ==> r->Err_0 is ShapeMismatch || r->Err_0 is CombinatorMismatch || r->Err_0 is DepthExceeded,
    decreases depth, 2int,
{
    match v.get(key) {
        None => Ok(None),
        Some(Value::Null) => Ok(None),
        Some(x) => match BooleanObjectOrReference::<Box<SchemaObject>>::from_value_with_limit(
            x,
            depth,
        ) {
            Ok(b) => Ok(Some(b)),
            Err(e) => {
                assert forall|n: nat| #[trigger] additional_ok(field(*v, key@), n) implies e is DepthExceeded by {
                    if !(*x is Bool) && ref_path(*x) is None {
                        assert(schema_ok(*x, n));
                    }
                }
                Err(e)
            },
        },
    }
}

impl BooleanObjectOrReference<Box<SchemaObject>> {
    /// Reads a boolean where the value is one; else a reference where the value has
    /// reference shape; else an inline schema. Fails with `CombinatorMismatch`,
    /// holding the three failures, where none reads, or with `DepthExceeded` where
    /// the schema nests too deep.
    pub fn from_value_with_limit(v: &Value, depth: usize) -> (r: Result<
        BooleanObjectOrReference<Box<SchemaObject>>,
        Error,
    >)
        ensures
            r is Ok <==> (*v is Bool || ref_path(*v) is Some || schema_ok(*v, depth as nat)),
            r is Ok ==> additional_rel(Some(*v), depth as nat, Some(r->Ok_0)),
            forall|n: nat| #[trigger] schema_ok(*v, n) && r is Err ==> r == Err::<
                BooleanObjectOrReference<Box<SchemaObject>>,
                Error,
            >(Error::DepthExceeded),
            r is Err ==> r->Err_0 is CombinatorMismatch || r->Err_0 is DepthExceeded,
            !(*v is Bool) && ref_path(*v) is None && depth == 0 ==> r == Err::<
                BooleanObjectOrReference<Box<SchemaObject>>,
                Error,
            >(Error::DepthExceeded),
            depth > 0 && !(*v is Object) && !(*v is Bool) ==> r is Err && r->Err_0 is CombinatorMismatch
                && r->Err_0->CombinatorMismatch_0@ == seq![
                Error::ShapeMismatch,
                Error::ShapeMismatch,
                Error::ShapeMismatch,
            ],
            r is Err && r->Err_0 is CombinatorMismatch ==> r->Err_0->CombinatorMismatch_0@.len() == 3
                && r->Err_0->CombinatorMismatch_0@[0] == Error::ShapeMismatch
                && r->Err_0->CombinatorMismatch_0@[1] == Error::ShapeMismatch,
        decreases depth, 1int,
    {
        match v {
            Value::Bool(b) => Ok(BooleanObjectOrReference::Boolean(*b)),
            _ => match Ref::from_value(v) {
                Ok(reference) => Ok(BooleanObjectOrReference::Ref(reference)),
                Err(e1) => match SchemaObject::from_value_with_limit(v, depth) {
                    Ok(s) => Ok(BooleanObjectOrReference::Object(Box::new(s))),
                    Err(Error::DepthExceeded) => Err(Error::DepthExceeded),
                    Err(e2) => {
                        Err(Error::CombinatorMismatch(vec![Error::ShapeMismatch, e1, e2]))
                    },
                },
            },
        }
    }

    /// Reads with the default nesting limit, [`MAX_DEPTH`].
    pub fn from_value(v: &Value) -> (r: Result<BooleanObjectOrReference<Box<SchemaObject>>, Error>)
        ensures
            r is Ok <==> (*v is Bool || ref_path(*v) is Some || schema_ok(*v, MAX_DEPTH as nat)),
            r is Ok ==> additional_rel(Some(*v), MAX_DEPTH as nat, Some(r->Ok_0)),
            forall|n: nat| #[trigger] schema_ok(*v, n) && r is Err ==> r == Err::<
                BooleanObjectOrReference<Box<SchemaObject>>,
                Error,
            >(Error::DepthExceeded),
            r is Err ==> r->Err_0 is CombinatorMismatch || r->Err_0 is DepthExceeded,
            !(*v is Object) && !(*v is Bool) ==> r is Err && r->Err_0 is CombinatorMismatch
                && r->Err_0->CombinatorMismatch_0@ == seq![
                Error::ShapeMismatch,
                Error::ShapeMismatch,
                Error::ShapeMismatch,
            ],
            r is Err && r->Err_0 is CombinatorMismatch ==> r->Err_0->CombinatorMismatch_0@.len() == 3
                && r->Err_0->CombinatorMismatch_0@[0] == Error::ShapeMismatch
                && r->Err_0->CombinatorMismatch_0@[1] == Error::ShapeMismatch,
    {
        Self::from_value_with_limit(v, MAX_DEPTH)
    }
}

impl ObjectOrReference<SchemaObject> {
    /// Reads with the default nesting limit, [`MAX_DEPTH`].
    pub fn from_value(v: &Value) -> (r: Result<ObjectOrReference<SchemaObject>, Error>)
        ensures
            r is Ok <==> objref_ok(*v, MAX_DEPTH as nat),
            r is Ok ==> objref_rel(*v, MAX_DEPTH as nat, r->Ok_0),
            forall|n: nat| #[trigger] objref_ok(*v, n) && r is Err ==> r == Err::<
                ObjectOrReference<SchemaObject>,
                Error,
            >(Error::DepthExceeded),
            r is Err ==> r->Err_0 is CombinatorMismatch || r->Err_0 is DepthExceeded,
            deep_items_chain(*v, MAX_DEPTH as nat) ==> r == Err::<
                ObjectOrReference<SchemaObject>,
                Error,
            >(Error::DepthExceeded),
            !(*v is Object) ==> r is Err && r->Err_0 is CombinatorMismatch
                && r->Err_0->CombinatorMismatch_0@ == seq![Error::ShapeMismatch, Error::ShapeMismatch],
            r is Err && r->Err_0 is CombinatorMismatch ==> r->Err_0->CombinatorMismatch_0@.len() == 2
                && r->Err_0->CombinatorMismatch_0@[0] == Error::ShapeMismatch,
    {
        Self::from_value_with_limit(v, MAX_DEPTH)
    }
}

impl SchemaObject {
    /// Reads a schema with the default nesting limit, [`MAX_DEPTH`].
    pub fn from_value(v: &Value) -> (r: Result<SchemaObject, Error>)
        ensures
            r is Ok <==> schema_ok(*v, MAX_DEPTH as nat),
            r is Ok ==> schema_rel(*v, MAX_DEPTH as nat, r->Ok_0),
            forall|n: nat| #[trigger] schema_ok(*v, n) && r is Err ==> r == Err::<
                SchemaObject,
                Error,
            >(Error::DepthExceeded),
            r is Err ==> r->Err_0 is ShapeMismatch || r->Err_0 is CombinatorMismatch || r->Err_0 is DepthExceeded,
            !(*v is Object) ==> r == Err::<SchemaObject, Error>(Error::ShapeMismatch),
            deep_items_chain(*v, MAX_DEPTH as nat) ==> r == Err::<SchemaObject, Error>(
                Error::DepthExceeded,
            ),
            *v is Object && !plain_attributes_ok(*v) ==> r == Err::<SchemaObject, Error>(
                Error::ShapeMismatch,
            ),
    {
        Self::from_value_with_limit(v, MAX_DEPTH)
    }
}

/// The first entry of a key is the one that a lookup of that key finds.
pub proof fn lemma_lookup_first(entries: Seq<(String, Value)>, i: int)
    requires
        0 <= i < entries.len(),
        forall|j: int| 0 <= j < i ==> (#[trigger] entries[j]).0@ != entries[i].0@,
    ensures
        lookup(entries, entries[i].0@) == Some(entries[i].1),
    decreases i,
{
    if i > 0 {
        let rest = entries.drop_first();
        assert forall|j: int| 0 <= j < i - 1 implies (#[trigger] rest[j]).0@ != rest[i - 1].0@ by {
            assert(rest[j] == entries[j + 1]);
        }
        lemma_lookup_first(rest, i - 1);
        assert(entries[0].0@ != entries[i].0@);
    }
}

fn read_properties(v: &Value, key: &String, depth: usize) -> (r: Result<
    Option<Vec<(String, ObjectOrReference<SchemaObject>)>>,
    Error,
>)
    ensures
        r is Ok <==> properties_ok(field(*v, key@), depth as nat),
        r is Ok ==> properties_rel(field(*v, key@), depth as nat, r->Ok_0),
        forall|n: nat| #[trigger] properties_ok(field(*v, key@), n) && r is Err ==> r->Err_0 is DepthExceeded,
        r is Err ==> r->Err_0 is ShapeMismatch || r->Err_0 is CombinatorMismatch || r->Err_0 is DepthExceeded,
    decreases depth, 2int,
{
    match v.get(key) {
        None => Ok(None),
        Some(Value::Null) => Ok(None),
        Some(Value::Object(entries)) => {
            let mut out: Vec<(String, ObjectOrReference<SchemaObject>)> = Vec::new();
            let mut i: usize = 0;
            while i < entries.len()
                invariant
                    0 <= i <= entries@.len(),
                    field(*v, key@) == Some(Value::Object(*entries)),
                    forall|j: int| 0 <= j < i ==> objref_ok(#[trigger] entries@[j].1, depth as nat),
                    keys_sorted(out@),
                    forall|q: int|
                        0 <= q < out@.len() ==> {
                            &&& lookup(entries@, (#[trigger] out@[q]).0@) is Some
                            &&& objref_rel(
                                lookup(entries@, out@[q].0@)->Some_0,
                                depth as nat,
                                out@[q].1,
                            )
                        },
                    forall|j: int| 0 <= j < i ==> keys_contain(out@, (#[trigger] entries@[j]).0@),
                decreases entries.len() - i,
            {
                let o = match ObjectOrReference::<SchemaObject>::from_value_with_limit(
                    &entries[i].1,
                    depth,
                ) {
                    Ok(x) => x,
                    Err(e) => {
                        assert(field(*v, key@)->Some_0->Object_0@[i as int] == entries@[i as int]);
                        assert forall|n: nat| #[trigger] properties_ok(field(*v, key@), n) implies e is DepthExceeded by {
                            assert(objref_ok(entries@[i as int].1, n));
                        }
                        return Err(e);
                    },
                };
                let k = &entries[i].0;
                let mut p: usize = 0;
                let mut found = false;
                let mut stop = false;
                while !stop && p < out.len()
                    invariant
                        0 <= p <= out@.len(),
                        forall|q: int| 0 <= q < p ==> key_lt((#[trigger] out@[q]).0@, k@),
                        found ==> stop && p < out@.len() && out@[p as int].0@ == k@,
                        stop && !found ==> p < out@.len() && !key_lt(out@[p as int].0@, k@)
                            && out@[p as int].0@ != k@,
                    decreases out.len() - p + (if stop { 0int } else { 1int }),
                {
                    if out[p].0 == *k {
                        found = true;
                        stop = true;
                    } else if key_less(&out[p].0, k) {
                        p = p + 1;
                    } else {
                        stop = true;
                    }
                }
                if !found {
                    let ghost old_out = out@;
                    proof {
                        if p < old_out.len() {
                            lemma_lt_total(old_out[p as int].0@, k@, 0);
                        }
                        assert forall|q: int| p <= q < old_out.len() implies key_lt(
                            k@,
                            (#[trigger] old_out[q]).0@,
                        ) by {
                            if q > p {
                                lemma_lt_transitive(k@, old_out[p as int].0@, old_out[q].0@, 0);
                            }
                        }
                        assert forall|j: int| 0 <= j < i implies (#[trigger] entries@[j]).0@
                            != entries@[i as int].0@ by {
                            let q = choose|q: int|
                                0 <= q < old_out.len() && #[trigger] old_out[q].0@
                                    == entries@[j].0@;
                            if q < p {
                                lemma_lt_irreflexive(k@, 0);
                            }
                        }
                        lemma_lookup_first(entries@, i as int);
                    }
                    out.insert(p, (k.clone(), o));
                    proof {
                        assert forall|a: int, b: int| 0 <= a < b < out@.len() implies key_lt(
                            #[trigger] out@[a].0@,
                            #[trigger] out@[b].0@,
                        ) by {
                            if a < p && b == p {
                            } else if a < p && b > p {
                                lemma_lt_transitive(out@[a].0@, k@, out@[b].0@, 0);
                            }
                        }
                        assert forall|j: int| 0 <= j <= i implies keys_contain(
                            out@,
                            (#[trigger] entries@[j]).0@,
                        ) by {
                            if j == i {
                                assert(out@[p as int].0@ == entries@[j].0@);
                            } else {
                                let q = choose|q: int|
                                    0 <= q < old_out.len() && #[trigger] old_out[q].0@
                                        == entries@[j].0@;
                                if q < p {
                                    assert(out@[q].0@ == entries@[j].0@);
                                } else {
                                    assert(out@[q + 1].0@ == entries@[j].0@);
                                }
                            }
                        }
                    }
                } else {
                    proof {
                        assert(out@[p as int].0@ == entries@[i as int].0@);
                    }
                }
                i = i + 1;
            }
            assert(field(*v, key@)->Some_0->Object_0@ == entries@);
            Ok(Some(out))
        },
        Some(_) => Err(Error::ShapeMismatch),
    }
}

} // verus!
