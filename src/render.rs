use vstd::prelude::*;
use crate::helper::{ref_path, BooleanObjectOrReference, ObjectOrReference};
use crate::keys::lemma_lt_irreflexive;
use crate::schema_object::{
    absent, additional_ok, additional_rel, any_rel, fits, fits_additional, fits_item, fits_list,
    fits_objref, item_ok, item_rel, keys_sorted, lemma_lookup_first, list_ok, list_rel,
    objref_ok, objref_rel, properties_ok, properties_rel, schema_ok, schema_rel, string_ok,
    string_rel, strings_ok, strings_rel, u32_ok, u32_rel, values_ok, values_rel, SchemaObject,
};
use crate::value::{field, lemma_lookup_key, lemma_lookup_push, lemma_same_symmetric, lookup, same, Value};

verus! {

/// Whether `key` is the wire name of an attribute that is set on `s`.
pub open spec fn is_set(s: SchemaObject, key: Seq<char>) -> bool {
    ||| key == "title"@ && s.title is Some
    ||| key == "multipleOf"@ && s.multiple_of is Some
    ||| key == "required"@ && s.required is Some
    ||| key == "enum"@ && s.enum_values is Some
    ||| key == "type"@ && s.schema_type is Some
    ||| key == "oneOf"@ && s.one_of is Some
    ||| key == "allOf"@ && s.all_of is Some
    ||| key == "anyOf"@ && s.any_of is Some
    ||| key == "not"@ && s.not is Some
    ||| key == "items"@ && s.items is Some
    ||| key == "properties"@ && s.properties is Some
    ||| key == "additionalProperties"@ && s.additional_properties is Some
    ||| key == "description"@ && s.description is Some
    ||| key == "format"@ && s.format is Some
    ||| key == "default"@ && s.default is Some
}

/// Whether every entry of `entries` names an attribute that is set on `s`.
pub open spec fn all_set(s: SchemaObject, entries: Seq<(String, Value)>) -> bool {
    forall|i: int| 0 <= i < entries.len() ==> is_set(s, (#[trigger] entries[i]).0@)
}

/// Enough of the attribute names' text to tell them apart from each other and from
/// `$ref`.
proof fn lemma_attribute_names()
    ensures
        "title"@.len() == 5 && "title"@[0] == 't',
        "multipleOf"@.len() == 10 && "multipleOf"@[0] == 'm',
        "required"@.len() == 8,
        "enum"@.len() == 4 && "enum"@[0] == 'e',
        "type"@.len() == 4 && "type"@[0] == 't',
        "oneOf"@.len() == 5 && "oneOf"@[0] == 'o',
        "allOf"@.len() == 5 && "allOf"@[0] == 'a' && "allOf"@[1] == 'l',
        "anyOf"@.len() == 5 && "anyOf"@[0] == 'a' && "anyOf"@[1] == 'n',
        "not"@.len() == 3,
        "items"@.len() == 5 && "items"@[0] == 'i',
        "properties"@.len() == 10 && "properties"@[0] == 'p',
        "additionalProperties"@.len() == 20,
        "description"@.len() == 11,
        "format"@.len() == 6,
        "default"@.len() == 7,
        "$ref"@.len() == 4 && "$ref"@[0] == '$',
{
    reveal_strlit("title");
    reveal_strlit("multipleOf");
    reveal_strlit("required");
    reveal_strlit("enum");
    reveal_strlit("type");
    reveal_strlit("oneOf");
    reveal_strlit("allOf");
    reveal_strlit("anyOf");
    reveal_strlit("not");
    reveal_strlit("items");
    reveal_strlit("properties");
    reveal_strlit("additionalProperties");
    reveal_strlit("description");
    reveal_strlit("format");
    reveal_strlit("default");
    reveal_strlit("$ref");
}

/// The wire name of the attribute at position `a`, in the order of writing.
pub open spec fn name_of(a: int) -> Seq<char> {
    if a == 0 {
        "title"@
    } else if a == 1 {
        "multipleOf"@
    } else if a == 2 {
        "required"@
    } else if a == 3 {
        "enum"@
    } else if a == 4 {
        "type"@
    } else if a == 5 {
        "oneOf"@
    } else if a == 6 {
        "allOf"@
    } else if a == 7 {
        "anyOf"@
    } else if a == 8 {
        "not"@
    } else if a == 9 {
        "items"@
    } else if a == 10 {
        "properties"@
    } else if a == 11 {
        "additionalProperties"@
    } else if a == 12 {
        "description"@
    } else if a == 13 {
        "format"@
    } else {
        "default"@
    }
}

proof fn lemma_names_distinct(a: int, b: int)
    requires
        0 <= a < 15,
        0 <= b < 15,
        a != b,
    ensures
        name_of(a) != name_of(b),
        name_of(a) != "$ref"@,
{
    lemma_attribute_names();
}

/// Whether the attribute at position `a` is set on `s`.
pub open spec fn set_at(s: SchemaObject, a: int) -> bool {
    if a == 0 {
        s.title is Some
    } else if a == 1 {
        s.multiple_of is Some
    } else if a == 2 {
        s.required is Some
    } else if a == 3 {
        s.enum_values is Some
    } else if a == 4 {
        s.schema_type is Some
    } else if a == 5 {
        s.one_of is Some
    } else if a == 6 {
        s.all_of is Some
    } else if a == 7 {
        s.any_of is Some
    } else if a == 8 {
        s.not is Some
    } else if a == 9 {
        s.items is Some
    } else if a == 10 {
        s.properties is Some
    } else if a == 11 {
        s.additional_properties is Some
    } else if a == 12 {
        s.description is Some
    } else if a == 13 {
        s.format is Some
    } else {
        s.default is Some
    }
}

/// The wire names of the attributes among the first `n` that are set on `s`, in order.
pub open spec fn keys_upto(s: SchemaObject, n: int) -> Seq<Seq<char>>
    decreases n,
{
    if n <= 0 {
        Seq::empty()
    } else if set_at(s, n - 1) {
        keys_upto(s, n - 1).push(name_of(n - 1))
    } else {
        keys_upto(s, n - 1)
    }
}

/// Whether `v` is a reference written in its wire shape: one entry `$ref`, holding the path.
pub open spec fn ref_written(r: crate::helper::Ref, v: Value) -> bool {
    &&& v is Object
    &&& v->Object_0@.len() == 1
    &&& v->Object_0@[0].0@ == "$ref"@
    &&& v->Object_0@[0].1 == Value::Str(r.ref_path)
}

/// Whether `v` is what writing `s` gives: an object with one entry for each attribute
/// that is set, in the order of `keys_upto`, each holding that attribute written out;
/// no other entry, and none for an unset attribute.
pub open spec fn schema_written(s: SchemaObject, v: Value) -> bool
    decreases s, 1int,
{
    &&& v is Object
    &&& v->Object_0@.len() == keys_upto(s, 15).len()
    &&& forall|i: int|
        0 <= i < v->Object_0@.len() ==> (#[trigger] v->Object_0@[i]).0@ == keys_upto(s, 15)[i]
    &&& forall|a: int|
        0 <= a < 15 ==> attr_written(s, a, #[trigger] lookup(v->Object_0@, name_of(a)))
}

/// Whether `f`, the entry under the wire name of the attribute at position `a`, holds
/// that attribute of `s` written out, where it is set.
pub open spec fn attr_written(s: SchemaObject, a: int, f: Option<Value>) -> bool
    decreases s, 0int,
{
    if a == 0 {
        s.title is Some ==> f == Some(Value::Str(s.title->Some_0))
    } else if a == 1 {
        s.multiple_of is Some ==> f == Some(Value::Integer(s.multiple_of->Some_0 as i128))
    } else if a == 2 {
        s.required is Some ==> f is Some && f->Some_0 is Array && f->Some_0->Array_0@.len()
            == s.required->Some_0@.len() && forall|i: int|
            0 <= i < s.required->Some_0@.len() ==> #[trigger] f->Some_0->Array_0@[i] == Value::Str(
                s.required->Some_0@[i],
            )
    } else if a == 3 {
        s.enum_values is Some ==> f is Some && f->Some_0 is Array && f->Some_0->Array_0@.len()
            == s.enum_values->Some_0@.len() && forall|i: int|
            0 <= i < s.enum_values->Some_0@.len() ==> same(
                #[trigger] f->Some_0->Array_0@[i],
                s.enum_values->Some_0@[i],
            )
    } else if a == 4 {
        s.schema_type is Some ==> f == Some(Value::Str(s.schema_type->Some_0))
    } else if a == 5 {
        s.one_of is Some ==> f is Some && list_written(s.one_of->Some_0, f->Some_0)
    } else if a == 6 {
        s.all_of is Some ==> f is Some && list_written(s.all_of->Some_0, f->Some_0)
    } else if a == 7 {
        s.any_of is Some ==> f is Some && list_written(s.any_of->Some_0, f->Some_0)
    } else if a == 8 {
        s.not is Some ==> f is Some && list_written(s.not->Some_0, f->Some_0)
    } else if a == 9 {
        s.items is Some ==> f is Some && objref_written(*s.items->Some_0, f->Some_0)
    } else if a == 10 {
        s.properties is Some ==> f is Some && properties_written(s.properties->Some_0, f->Some_0)
    } else if a == 11 {
        s.additional_properties is Some ==> f is Some && additional_written(
            s.additional_properties->Some_0,
            f->Some_0,
        )
    } else if a == 12 {
        s.description is Some ==> f == Some(Value::Str(s.description->Some_0))
    } else if a == 13 {
        s.format is Some ==> f == Some(Value::Str(s.format->Some_0))
    } else {
        s.default is Some ==> f is Some && same(f->Some_0, s.default->Some_0)
    }
}

/// A reference is written in its one-entry shape; an inline schema as the schema itself.
pub open spec fn objref_written(o: ObjectOrReference<SchemaObject>, v: Value) -> bool
    decreases o, 2int,
{
    match o {
        ObjectOrReference::Ref(r) => ref_written(r, v),
        ObjectOrReference::Object(t) => schema_written(t, v),
    }
}

/// A list is written as an array of its elements written, in order.
pub open spec fn list_written(l: Vec<ObjectOrReference<SchemaObject>>, v: Value) -> bool
    decreases l, 2int,
{
    &&& v is Array
    &&& v->Array_0@.len() == l@.len()
    &&& forall|i: int| 0 <= i < l@.len() ==> objref_written(#[trigger] l@[i], v->Array_0@[i])
}

/// Properties are written as an object with the same keys, in the same order, each
/// holding its schema written.
pub open spec fn properties_written(
    p: Vec<(String, ObjectOrReference<SchemaObject>)>,
    v: Value,
) -> bool
    decreases p, 2int,
{
    &&& v is Object
    &&& v->Object_0@.len() == p@.len()
    &&& forall|i: int|
        0 <= i < p@.len() ==> (#[trigger] v->Object_0@[i]).0 == p@[i].0 && objref_written(
            p@[i].1,
            v->Object_0@[i].1,
        )
}

/// A boolean is written bare, a reference in its one-entry shape, an inline schema as
/// the schema itself.
pub open spec fn additional_written(b: BooleanObjectOrReference<Box<SchemaObject>>, v: Value) -> bool
    decreases b, 2int,
{
    match b {
        BooleanObjectOrReference::Boolean(x) => v == Value::Bool(x),
        BooleanObjectOrReference::Ref(r) => ref_written(r, v),
        BooleanObjectOrReference::Object(t) => schema_written(*t, v),
    }
}

/// Whether `f`, the entry written for the attribute at position `a`, reads back as that
/// attribute of `s`.
pub open spec fn attr_ok(s: SchemaObject, a: int, f: Option<Value>) -> bool {
    if a == 0 {
        string_ok(f) && string_rel(f, s.title)
    } else if a == 1 {
        u32_ok(f) && u32_rel(f, s.multiple_of)
    } else if a == 2 {
        strings_ok(f) && strings_rel(f, s.required)
    } else if a == 3 {
        values_ok(f) && values_rel(f, s.enum_values)
    } else if a == 4 {
        string_ok(f) && string_rel(f, s.schema_type)
    } else if a == 5 {
        forall|d: nat| #[trigger] fits_list(s.one_of, d) ==> list_ok(f, d) && list_rel(f, d, s.one_of)
    } else if a == 6 {
        forall|d: nat| #[trigger] fits_list(s.all_of, d) ==> list_ok(f, d) && list_rel(f, d, s.all_of)
    } else if a == 7 {
        forall|d: nat| #[trigger] fits_list(s.any_of, d) ==> list_ok(f, d) && list_rel(f, d, s.any_of)
    } else if a == 8 {
        forall|d: nat| #[trigger] fits_list(s.not, d) ==> list_ok(f, d) && list_rel(f, d, s.not)
    } else if a == 9 {
        forall|d: nat| #[trigger] fits_item(s.items, d) ==> item_ok(f, d) && item_rel(f, d, s.items)
    } else if a == 10 {
        forall|d: nat|
            #[trigger] fits_properties(s, d) ==> properties_ok(f, d) && properties_rel(
                f,
                d,
                s.properties,
            )
    } else if a == 11 {
        forall|d: nat|
            #[trigger] fits_additional(s.additional_properties, d) ==> additional_ok(f, d)
                && additional_rel(f, d, s.additional_properties)
    } else if a == 12 {
        string_ok(f) && string_rel(f, s.description)
    } else if a == 13 {
        string_ok(f) && string_rel(f, s.format)
    } else {
        !(s.default matches Some(Value::Null)) ==> any_rel(f, s.default)
    }
}

pub open spec fn fits_properties(s: SchemaObject, d: nat) -> bool {
    s.properties is Some ==> keys_sorted(s.properties->Some_0@) && forall|i: int|
        0 <= i < s.properties->Some_0@.len() ==> fits_objref(
            (#[trigger] s.properties->Some_0@[i]).1,
            d,
        )
}

/// Whether the first `n` attributes have been written as entries of `e` that read back
/// as them, and no later one yet.
pub open spec fn written_upto(s: SchemaObject, e: Seq<(String, Value)>, n: int) -> bool {
    &&& forall|a: int|
        0 <= a < 15 ==> if a < n {
            attr_ok(s, a, #[trigger] lookup(e, name_of(a))) && attr_written(s, a, lookup(e, name_of(a)))
        } else {
            lookup(e, name_of(a)) is None
        }
    &&& e.len() == keys_upto(s, n).len()
    &&& forall|i: int| 0 <= i < e.len() ==> (#[trigger] e[i]).0@ == keys_upto(s, n)[i]
}

proof fn lemma_step(
    s: SchemaObject,
    e: Seq<(String, Value)>,
    e2: Seq<(String, Value)>,
    n: int,
    pushed: Option<Value>,
)
    requires
        0 <= n < 15,
        written_upto(s, e, n),
        pushed is Some <==> set_at(s, n),
        pushed is None ==> e2 == e,
        pushed is Some ==> e2.len() == e.len() + 1 && e2[e.len() as int].0@ == name_of(n) && forall|
            i: int,
        | 0 <= i < e.len() ==> #[trigger] e2[i] == e[i],
        pushed is Some ==> forall|k: Seq<char>|
            #[trigger] lookup(e2, k) == if lookup(e, k) is Some {
                lookup(e, k)
            } else if name_of(n) == k {
                pushed
            } else {
                None::<Value>
            },
        attr_ok(s, n, pushed),
        attr_written(s, n, pushed),
    ensures
        written_upto(s, e2, n + 1),
{
    assert forall|a: int| 0 <= a < 15 implies if a < n + 1 {
        attr_ok(s, a, #[trigger] lookup(e2, name_of(a))) && attr_written(s, a, lookup(e2, name_of(a)))
    } else {
        lookup(e2, name_of(a)) is None
    } by {
        if a != n {
            lemma_names_distinct(a, n);
        }
    }
    assert forall|i: int| 0 <= i < e2.len() implies (#[trigger] e2[i]).0@ == keys_upto(s, n + 1)[i] by {
        if pushed is Some && i < e.len() {
            assert(e2[i] == e[i]);
        }
    }
}

proof fn lemma_written(s: SchemaObject, r: Value)
    requires
        r is Object,
        written_upto(s, r->Object_0@, 15),
    ensures
        schema_written(s, r),
{
    assert forall|a: int| 0 <= a < 15 implies attr_written(
        s,
        a,
        #[trigger] lookup(r->Object_0@, name_of(a)),
    ) by {
        assert(attr_ok(s, a, lookup(r->Object_0@, name_of(a))));
    }
}

proof fn lemma_properties_read_back(
    l: Vec<(String, ObjectOrReference<SchemaObject>)>,
    rv: Value,
    d: nat,
)
    requires
        rv is Object,
        rv->Object_0@.len() == l@.len(),
        forall|i: int| 0 <= i < l@.len() ==> #[trigger] rv->Object_0@[i].0 == l@[i].0,
        forall|j: int|
            0 <= j < l@.len() && #[trigger] fits_objref(l@[j].1, d) ==> objref_ok(
                rv->Object_0@[j].1,
                d,
            ) && objref_rel(rv->Object_0@[j].1, d, l@[j].1),
        keys_sorted(l@),
        forall|i: int| 0 <= i < l@.len() ==> fits_objref((#[trigger] l@[i]).1, d),
    ensures
        properties_ok(Some(rv), d),
        properties_rel(Some(rv), d, Some(l)),
{
    let e = rv->Object_0@;
    assert forall|i: int| 0 <= i < e.len() implies objref_ok(#[trigger] e[i].1, d) by {
        assert(fits_objref(l@[i].1, d));
    }
    assert forall|i: int| 0 <= i < l@.len() implies {
        &&& lookup(e, (#[trigger] l@[i]).0@) is Some
        &&& objref_rel(lookup(e, l@[i].0@)->Some_0, d, l@[i].1)
    } by {
        assert forall|j: int| 0 <= j < i implies (#[trigger] e[j]).0@ != e[i].0@ by {
            assert(e[j].0 == l@[j].0);
            assert(e[i].0 == l@[i].0);
            if e[j].0@ == e[i].0@ {
                lemma_lt_irreflexive(l@[i].0@, 0);
            }
        }
        lemma_lookup_first(e, i);
        assert(e[i].0 == l@[i].0);
        assert(fits_objref(l@[i].1, d));
    }
    assert forall|j: int| 0 <= j < e.len() implies crate::schema_object::keys_contain(
        l@,
        (#[trigger] e[j]).0@,
    ) by {
        assert(e[j].0 == l@[j].0);
    }
    assert(Some(l)->Some_0 == l);
}

proof fn lemma_read_back(s: SchemaObject, r: Value, d: nat)
    requires
        r is Object,
        written_upto(s, r->Object_0@, 15),
        fits(s, d),
    ensures
        schema_ok(r, d),
        schema_rel(r, d, s),
{
    let e = r->Object_0@;
    let dd = (d - 1) as nat;
    assert(attr_ok(s, 0, lookup(e, name_of(0))));
    assert(attr_ok(s, 1, lookup(e, name_of(1))));
    assert(attr_ok(s, 2, lookup(e, name_of(2))));
    assert(attr_ok(s, 3, lookup(e, name_of(3))));
    assert(attr_ok(s, 4, lookup(e, name_of(4))));
    assert(attr_ok(s, 5, lookup(e, name_of(5))));
    assert(attr_ok(s, 6, lookup(e, name_of(6))));
    assert(attr_ok(s, 7, lookup(e, name_of(7))));
    assert(attr_ok(s, 8, lookup(e, name_of(8))));
    assert(attr_ok(s, 9, lookup(e, name_of(9))));
    assert(attr_ok(s, 10, lookup(e, name_of(10))));
    assert(attr_ok(s, 11, lookup(e, name_of(11))));
    assert(attr_ok(s, 12, lookup(e, name_of(12))));
    assert(attr_ok(s, 13, lookup(e, name_of(13))));
    assert(attr_ok(s, 14, lookup(e, name_of(14))));
    assert(fits_list(s.one_of, dd));
    assert(fits_list(s.all_of, dd));
    assert(fits_list(s.any_of, dd));
    assert(fits_list(s.not, dd));
    assert(fits_properties(s, dd));
    assert(fits_item(s.items, dd));
    assert(fits_additional(s.additional_properties, dd));
}

fn push_set(s: &SchemaObject, entries: &mut Vec<(String, Value)>, key: String, v: Value)
    requires
        all_set(*s, old(entries)@),
        is_set(*s, key@),
    ensures
        all_set(*s, final(entries)@),
        final(entries)@ == old(entries)@.push((key, v)),
        forall|k: Seq<char>|
            #[trigger] lookup(final(entries)@, k) == if lookup(old(entries)@, k) is Some {
                lookup(old(entries)@, k)
            } else if key@ == k {
                Some(v)
            } else {
                None::<Value>
            },
{
    let ghost before = entries@;
    let ghost entry = (key, v);
    entries.push((key, v));
    assert(final(entries)@[final(entries)@.len() - 1].0@ == key@);
    assert forall|k: Seq<char>| #[trigger] lookup(final(entries)@, k) == if lookup(before, k) is Some {
        lookup(before, k)
    } else if key@ == k {
        Some(v)
    } else {
        None::<Value>
    } by {
        lemma_lookup_push(before, entry, k);
    }
}

fn strings_to_value(l: &Vec<String>) -> (r: Value)
    ensures
        r is Array,
        r->Array_0@.len() == l@.len(),
        forall|i: int| 0 <= i < l@.len() ==> #[trigger] r->Array_0@[i] == Value::Str(l@[i]),
{
    let mut out: Vec<Value> = Vec::new();
    let mut i: usize = 0;
    while i < l.len()
        invariant
            0 <= i <= l@.len(),
            out@.len() == i,
            forall|j: int| 0 <= j < i ==> #[trigger] out@[j] == Value::Str(l@[j]),
        decreases l.len() - i,
    {
        out.push(Value::Str(l[i].clone()));
        i = i + 1;
    }
    Value::Array(out)
}

fn values_to_value(l: &Vec<Value>) -> (r: Value)
    ensures
        r is Array,
        r->Array_0@.len() == l@.len(),
        forall|i: int| 0 <= i < l@.len() ==> same(#[trigger] r->Array_0@[i], l@[i]),
{
    let mut out: Vec<Value> = Vec::new();
    let mut i: usize = 0;
    while i < l.len()
        invariant
            0 <= i <= l@.len(),
            out@.len() == i,
            forall|j: int| 0 <= j < i ==> same(#[trigger] out@[j], l@[j]),
        decreases l.len() - i,
    {
        let c = l[i].deep_clone();
        proof {
            lemma_same_symmetric(l@[i as int], c);
        }
        out.push(c);
        i = i + 1;
    }
    Value::Array(out)
}

fn list_to_value(l: &Vec<ObjectOrReference<SchemaObject>>) -> (r: Value)
    ensures
        list_written(*l, r),
        r is Array,
        r->Array_0@.len() == l@.len(),
        forall|d: nat|
            #[trigger] fits_list(Some(*l), d) ==> list_ok(Some(r), d) && list_rel(
                Some(r),
                d,
                Some(*l),
            ),
    decreases *l, 0int,
{
    let mut out: Vec<Value> = Vec::new();
    let mut i: usize = 0;
    while i < l.len()
        invariant
            0 <= i <= l@.len(),
            out@.len() == i,
            forall|j: int| 0 <= j < i ==> objref_written(#[trigger] l@[j], out@[j]),
            forall|j: int, d: nat|
                0 <= j < i && #[trigger] fits_objref(l@[j], d) ==> objref_ok(out@[j], d)
                    && objref_rel(out@[j], d, l@[j]),
        decreases l.len() - i,
    {
        proof {
            vstd::std_specs::vec::axiom_vec_index_decreases(*l, i as int);
        }
        out.push(l[i].to_value());
        i = i + 1;
    }
    let r = Value::Array(out);
    assert forall|d: nat| #[trigger] fits_list(Some(*l), d) implies list_ok(Some(r), d) && list_rel(
        Some(r),
        d,
        Some(*l),
    ) by {
        assert forall|j: int| 0 <= j < out@.len() implies objref_ok(#[trigger] out@[j], d)
            && objref_rel(out@[j], d, l@[j]) by {
            assert(Some(*l)->Some_0 == *l);
            assert(fits_objref(l@[j], d));
        }
    }
    r
}

fn properties_to_value(l: &Vec<(String, ObjectOrReference<SchemaObject>)>) -> (r: Value)
    ensures
        properties_written(*l, r),
        r is Object,
        r->Object_0@.len() == l@.len(),
        forall|i: int| 0 <= i < l@.len() ==> #[trigger] r->Object_0@[i].0 == l@[i].0,
        forall|j: int, d: nat|
            0 <= j < l@.len() && #[trigger] fits_objref(l@[j].1, d) ==> objref_ok(
                r->Object_0@[j].1,
                d,
            ) && objref_rel(r->Object_0@[j].1, d, l@[j].1),
    decreases *l, 0int,
{
    let mut out: Vec<(String, Value)> = Vec::new();
    let mut i: usize = 0;
    while i < l.len()
        invariant
            0 <= i <= l@.len(),
            out@.len() == i,
            forall|j: int| 0 <= j < i ==> #[trigger] out@[j].0 == l@[j].0,
            forall|j: int| 0 <= j < i ==> objref_written(l@[j].1, #[trigger] out@[j].1),
            forall|j: int, d: nat|
                0 <= j < i && #[trigger] fits_objref(l@[j].1, d) ==> objref_ok(out@[j].1, d)
                    && objref_rel(out@[j].1, d, l@[j].1),
        decreases l.len() - i,
    {
        proof {
            vstd::std_specs::vec::axiom_vec_index_decreases(*l, i as int);
            assert(decreases_to!(*l => l[i as int].1));
        }
        let v = l[i].1.to_value();
        out.push((l[i].0.clone(), v));
        i = i + 1;
    }
    Value::Object(out)
}

impl ObjectOrReference<SchemaObject> {
    /// Writes the held alternative: a reference in its one-entry shape, or the schema
    /// exactly as the schema itself is written. What is written reads back as the same
    /// alternative.
    pub fn to_value(&self) -> (r: Value)
        ensures
            objref_written(*self, r),
            r is Object,
            forall|d: nat|
                #[trigger] fits_objref(*self, d) ==> objref_ok(r, d) && objref_rel(r, d, *self),
        decreases *self, 0int,
    {
        match self {
            ObjectOrReference::Ref(reference) => {
                let r = reference.to_value();
                assert forall|d: nat| #[trigger] fits_objref(*self, d) implies objref_ok(r, d)
                    && objref_rel(r, d, *self) by {
                    assert(ref_path(r) == Some(reference.ref_path@));
                }
                r
            },
            ObjectOrReference::Object(s) => {
                let r = s.to_value();
                assert forall|d: nat| #[trigger] fits_objref(*self, d) implies objref_ok(r, d)
                    && objref_rel(r, d, *self) by {
                    assert(ref_path(r) is None);
                    assert(fits(*s, d));
                }
                r
            },
        }
    }
}

impl BooleanObjectOrReference<Box<SchemaObject>> {
    /// Writes the held alternative: a bare boolean, a reference in its one-entry shape,
    /// or the schema exactly as the schema itself is written. What is written reads back
    /// as the same alternative.
    pub fn to_value(&self) -> (r: Value)
        ensures
            additional_written(*self, r),
            self is Boolean ==> r == Value::Bool(self->Boolean_0),
            !(self is Boolean) ==> r is Object,
            forall|d: nat|
                #[trigger] fits_additional(Some(*self), d) ==> additional_ok(Some(r), d)
                    && additional_rel(Some(r), d, Some(*self)),
        decreases *self, 0int,
    {
        match self {
            BooleanObjectOrReference::Boolean(b) => {
                let r = Value::Bool(*b);
                assert forall|d: nat| #[trigger] fits_additional(Some(*self), d) implies additional_ok(
                    Some(r),
                    d,
                ) && additional_rel(Some(r), d, Some(*self)) by {
                    assert(!absent(Some(r)));
                }
                r
            },
            BooleanObjectOrReference::Ref(reference) => {
                let r = reference.to_value();
                assert forall|d: nat| #[trigger] fits_additional(Some(*self), d) implies additional_ok(
                    Some(r),
                    d,
                ) && additional_rel(Some(r), d, Some(*self)) by {
                    assert(ref_path(r) == Some(reference.ref_path@));
                    assert(!absent(Some(r)));
                }
                r
            },
            BooleanObjectOrReference::Object(s) => {
                let r = s.to_value();
                assert forall|d: nat| #[trigger] fits_additional(Some(*self), d) implies additional_ok(
                    Some(r),
                    d,
                ) && additional_rel(Some(r), d, Some(*self)) by {
                    assert(ref_path(r) is None);
                    assert(!absent(Some(r)));
                    assert(fits(**s, d));
                }
                r
            },
        }
    }
}

impl SchemaObject {
    fn write_plain(&self, e: &mut Vec<(String, Value)>)
        requires
            all_set(*self, old(e)@),
            written_upto(*self, old(e)@, 0),
        ensures
            all_set(*self, final(e)@),
            written_upto(*self, final(e)@, 5),
    {
        let ghost e0 = e@;
        if let Some(x) = &self.title {
            let v = Value::Str(x.clone());
            let ghost gv = v;
            push_set(self, e, "title".to_owned(), v);
            proof {
                lemma_step(*self, e0, e@, 0, Some(gv));
            }
        } else {
            proof {
                lemma_step(*self, e0, e@, 0, None);
            }
        }
        let ghost e0 = e@;
        if let Some(x) = &self.multiple_of {
            let v = Value::Integer(*x as i128);
            let ghost gv = v;
            push_set(self, e, "multipleOf".to_owned(), v);
            proof {
                lemma_step(*self, e0, e@, 1, Some(gv));
            }
        } else {
            proof {
                lemma_step(*self, e0, e@, 1, None);
            }
        }
        let ghost e0 = e@;
        if let Some(x) = &self.required {
            let v = strings_to_value(x);
            let ghost gv = v;
            push_set(self, e, "required".to_owned(), v);
            proof {
                lemma_step(*self, e0, e@, 2, Some(gv));
            }
        } else {
            proof {
                lemma_step(*self, e0, e@, 2, None);
            }
        }
        let ghost e0 = e@;
        if let Some(x) = &self.enum_values {
            let v = values_to_value(x);
            let ghost gv = v;
            push_set(self, e, "enum".to_owned(), v);
            proof {
                lemma_step(*self, e0, e@, 3, Some(gv));
            }
        } else {
            proof {
                lemma_step(*self, e0, e@, 3, None);
            }
        }
        let ghost e0 = e@;
        if let Some(x) = &self.schema_type {
            let v = Value::Str(x.clone());
            let ghost gv = v;
            push_set(self, e, "type".to_owned(), v);
            proof {
                lemma_step(*self, e0, e@, 4, Some(gv));
            }
        } else {
            proof {
                lemma_step(*self, e0, e@, 4, None);
            }
        }
    }

    fn write_lists(&self, e: &mut Vec<(String, Value)>)
        requires
            all_set(*self, old(e)@),
            written_upto(*self, old(e)@, 5),
        ensures
            all_set(*self, final(e)@),
            written_upto(*self, final(e)@, 10),
        decreases *self, 0int,
    {
        let ghost e0 = e@;
        if let Some(x) = &self.one_of {
            let v = list_to_value(x);
            let ghost gv = v;
            push_set(self, e, "oneOf".to_owned(), v);
            proof {
                lemma_step(*self, e0, e@, 5, Some(gv));
            }
        } else {
            proof {
                lemma_step(*self, e0, e@, 5, None);
            }
        }
        let ghost e0 = e@;
        if let Some(x) = &self.all_of {
            let v = list_to_value(x);
            let ghost gv = v;
            push_set(self, e, "allOf".to_owned(), v);
            proof {
                lemma_step(*self, e0, e@, 6, Some(gv));
            }
        } else {
            proof {
                lemma_step(*self, e0, e@, 6, None);
            }
        }
        let ghost e0 = e@;
        if let Some(x) = &self.any_of {
            let v = list_to_value(x);
            let ghost gv = v;
            push_set(self, e, "anyOf".to_owned(), v);
            proof {
                lemma_step(*self, e0, e@, 7, Some(gv));
            }
        } else {
            proof {
                lemma_step(*self, e0, e@, 7, None);
            }
        }
        let ghost e0 = e@;
        if let Some(x) = &self.not {
            let v = list_to_value(x);
            let ghost gv = v;
            push_set(self, e, "not".to_owned(), v);
            proof {
                lemma_step(*self, e0, e@, 8, Some(gv));
            }
        } else {
            proof {
                lemma_step(*self, e0, e@, 8, None);
            }
        }
        let ghost e0 = e@;
        if let Some(x) = &self.items {
            let v = x.to_value();
            let ghost gv = v;
            assert forall|d: nat| #[trigger] fits_item(self.items, d) implies item_ok(Some(gv), d)
                && item_rel(Some(gv), d, self.items) by {
                assert(fits_objref(**x, d));
            }
            push_set(self, e, "items".to_owned(), v);
            proof {
                lemma_step(*self, e0, e@, 9, Some(gv));
            }
        } else {
            proof {
                lemma_step(*self, e0, e@, 9, None);
            }
        }
    }

    fn write_rest(&self, e: &mut Vec<(String, Value)>)
        requires
            all_set(*self, old(e)@),
            written_upto(*self, old(e)@, 10),
        ensures
            all_set(*self, final(e)@),
            written_upto(*self, final(e)@, 15),
        decreases *self, 0int,
    {
        let ghost e0 = e@;
        if let Some(x) = &self.properties {
            let v = properties_to_value(x);
            let ghost gv = v;
            assert forall|d: nat| #[trigger] fits_properties(*self, d) implies properties_ok(
                Some(gv),
                d,
            ) && properties_rel(Some(gv), d, self.properties) by {
                lemma_properties_read_back(*x, gv, d);
            }
            push_set(self, e, "properties".to_owned(), v);
            proof {
                lemma_step(*self, e0, e@, 10, Some(gv));
            }
        } else {
            proof {
                lemma_step(*self, e0, e@, 10, None);
            }
        }
        let ghost e0 = e@;
        if let Some(x) = &self.additional_properties {
            let v = x.to_value();
            let ghost gv = v;
            push_set(self, e, "additionalProperties".to_owned(), v);
            proof {
                lemma_step(*self, e0, e@, 11, Some(gv));
            }
        } else {
            proof {
                lemma_step(*self, e0, e@, 11, None);
            }
        }
        let ghost e0 = e@;
        if let Some(x) = &self.description {
            let v = Value::Str(x.clone());
            let ghost gv = v;
            push_set(self, e, "description".to_owned(), v);
            proof {
                lemma_step(*self, e0, e@, 12, Some(gv));
            }
        } else {
            proof {
                lemma_step(*self, e0, e@, 12, None);
            }
        }
        let ghost e0 = e@;
        if let Some(x) = &self.format {
            let v = Value::Str(x.clone());
            let ghost gv = v;
            push_set(self, e, "format".to_owned(), v);
            proof {
                lemma_step(*self, e0, e@, 13, Some(gv));
            }
        } else {
            proof {
                lemma_step(*self, e0, e@, 13, None);
            }
        }
        let ghost e0 = e@;
        if let Some(x) = &self.default {
            let v = x.deep_clone();
            let ghost gv = v;
            proof {
                lemma_same_symmetric(*x, v);
            }
            push_set(self, e, "default".to_owned(), v);
            proof {
                lemma_step(*self, e0, e@, 14, Some(gv));
            }
        } else {
            proof {
                lemma_step(*self, e0, e@, 14, None);
            }
        }
    }

    /// Writes the schema as an object value with one entry for each attribute that is
    /// set, under its wire name, in the order of `keys_upto`; an unset attribute gets no
    /// entry, not even a null, at every level of nesting. A schema that fits a nesting
    /// limit reads back from what is written as itself.
    pub fn to_value(&self) -> (r: Value)
        ensures
            schema_written(*self, r),
            r is Object,
            all_set(*self, r->Object_0@),
            field(r, "$ref"@) is None,
            forall|d: nat| #[trigger] fits(*self, d) ==> schema_ok(r, d) && schema_rel(r, d, *self),
        decreases *self, 1int,
    {
        let mut e: Vec<(String, Value)> = Vec::new();
        assert(written_upto(*self, e@, 0));
        self.write_plain(&mut e);
        self.write_lists(&mut e);
        self.write_rest(&mut e);
        proof {
            if lookup(e@, "$ref"@) is Some {
                lemma_lookup_key(e@, "$ref"@);
                lemma_attribute_names();
            }
        }
        let r = Value::Object(e);
        assert forall|d: nat| #[trigger] fits(*self, d) implies schema_ok(r, d) && schema_rel(r, d, *self) by {
            lemma_read_back(*self, r, d);
        }
        proof {
            lemma_written(*self, r);
        }
        r
    }
}

} // verus!
