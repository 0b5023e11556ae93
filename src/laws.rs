use vstd::prelude::*;
use crate::helper::{ref_path, BooleanObjectOrReference, ObjectOrReference};
use crate::keys::{lemma_lt_irreflexive, lemma_lt_transitive};
use crate::schema_object::{
    additional_rel, fits, fits_additional, fits_item, fits_list, fits_objref, item_rel,
    keys_contain, keys_sorted, list_rel, objref_ok, objref_rel, properties_rel, schema_rel,
    SchemaObject,
};
use crate::value::{lemma_lookup_same, lemma_same_transitive, lookup, same, same_entries, Value};
use crate::{v2, v3_0, OpenApi};

verus! {

/// Reading a value as a reference-or-schema picks one alternative, fixed by the value
/// alone: any two readings of the same value agree on the alternative and, for a
/// reference, on its path.
pub proof fn lemma_discrimination_deterministic(
    v: Value,
    d: nat,
    a: ObjectOrReference<SchemaObject>,
    b: ObjectOrReference<SchemaObject>,
)
    requires
        objref_rel(v, d, a),
        objref_rel(v, d, b),
    ensures
        a is Ref <==> b is Ref,
        a is Ref ==> a->Ref_0.ref_path@ == b->Ref_0.ref_path@,
{
}

/// A value whose only entry is `$ref`, holding a string, reads as a reference and
/// never as an inline schema, at every nesting limit; the same holds where a
/// boolean is a third alternative.
pub proof fn lemma_reference_shape_exclusive(
    v: Value,
    d: nat,
    a: ObjectOrReference<SchemaObject>,
    b: BooleanObjectOrReference<Box<SchemaObject>>,
)
    requires
        v is Object,
        v->Object_0@.len() == 1,
        v->Object_0@[0].0@ == "$ref"@,
        v->Object_0@[0].1 is Str,
    ensures
        objref_ok(v, d),
        objref_rel(v, d, a) ==> a is Ref && a->Ref_0.ref_path@ == v->Object_0@[0].1->Str_0@,
        additional_rel(Some(v), d, Some(b)) ==> b is Ref && b->Ref_0.ref_path@
            == v->Object_0@[0].1->Str_0@,
{
    assert(lookup(v->Object_0@, "$ref"@) == Some(v->Object_0@[0].1));
    assert(ref_path(v) == Some(v->Object_0@[0].1->Str_0@));
}

/// Writing a well-formed document and reading the result back gives a document of
/// the same revision, with the same version string, whose entries are the same as
/// the written document's.
pub proof fn lemma_document_round_trip(d: OpenApi, v: Value, e: Seq<(String, Value)>)
    requires
        d.wf(),
        v is Object,
        d is V2 ==> same_entries(d->V2_0.entries@, v->Object_0@),
        d is V3_0 ==> same_entries(d->V3_0_0.entries@, v->Object_0@),
        same_entries(v->Object_0@, e),
    ensures
        d is V2 ==> v2::version_of(v) == Some(d->V2_0.swagger@) && same_entries(
            d->V2_0.entries@,
            e,
        ),
        d is V3_0 ==> v2::version_of(v) is None && v3_0::version_of(v) == Some(
            d->V3_0_0.openapi@,
        ) && same_entries(d->V3_0_0.entries@, e),
{
    let de = match d {
        OpenApi::V2(s) => s.entries@,
        OpenApi::V3_0(s) => s.entries@,
    };
    let ve = v->Object_0@;
    lemma_lookup_same(de, ve, "swagger"@);
    lemma_lookup_same(de, ve, "openapi"@);
    assert forall|i: int| 0 <= i < de.len() implies (#[trigger] de[i]).0@ == e[i].0@ && same(
        de[i].1,
        e[i].1,
    ) by {
        lemma_same_transitive(de[i].1, ve[i].1, e[i].1);
    }
}

/// Whether `t` has the attributes of `s` that hold no schema: equal title, multiple,
/// type, description and format, the same required names, and enumerated values and
/// default that are the same trees.
pub open spec fn leaf_agree(s: SchemaObject, t: SchemaObject) -> bool {
    &&& t.title == s.title
    &&& t.multiple_of == s.multiple_of
    &&& (t.required is Some <==> s.required is Some)
    &&& (t.required is Some ==> t.required->Some_0@ == s.required->Some_0@)
    &&& t.schema_type == s.schema_type
    &&& t.description == s.description
    &&& t.format == s.format
    &&& (t.enum_values is Some <==> s.enum_values is Some)
    &&& (t.enum_values is Some ==> t.enum_values->Some_0@.len() == s.enum_values->Some_0@.len()
        && forall|i: int|
        0 <= i < t.enum_values->Some_0@.len() ==> same(
            #[trigger] t.enum_values->Some_0@[i],
            s.enum_values->Some_0@[i],
        ))
    &&& (t.default is Some <==> s.default is Some)
    &&& (t.default is Some ==> same(t.default->Some_0, s.default->Some_0))
}

/// Any two schemas that one value reads as agree on their attributes that hold no
/// schema.
pub proof fn lemma_leaf_agree(s: SchemaObject, v: Value, t: SchemaObject, d: nat)
    requires
        schema_rel(v, d, s),
        schema_rel(v, d, t),
    ensures
        leaf_agree(s, t),
{
    if t.enum_values is Some {
        let f = crate::value::field(v, "enum"@)->Some_0->Array_0@;
        let a = t.enum_values->Some_0@;
        let b = s.enum_values->Some_0@;
        assert forall|i: int| 0 <= i < a.len() implies same(#[trigger] a[i], b[i]) by {
            assert(same(f[i], a[i]));
            assert(same(f[i], b[i]));
            crate::value::lemma_same_symmetric(f[i], a[i]);
            lemma_same_transitive(a[i], f[i], b[i]);
        }
    }
    if t.default is Some {
        let f = crate::value::field(v, "default"@)->Some_0;
        crate::value::lemma_same_symmetric(f, t.default->Some_0);
        lemma_same_transitive(t.default->Some_0, f, s.default->Some_0);
    }
    if t.required is Some {
        let f = crate::value::field(v, "required"@)->Some_0->Array_0@;
        let a = t.required->Some_0@;
        let b = s.required->Some_0@;
        assert forall|i: int| 0 <= i < a.len() implies a[i] == b[i] by {
            assert(f[i] == Value::Str(a[i]));
            assert(f[i] == Value::Str(b[i]));
        }
        assert(a =~= b);
    }
}

/// Two property lists with strictly ascending keys and the same keys hold them in the
/// same positions.
pub proof fn lemma_sorted_same_keys(
    a: Seq<(String, ObjectOrReference<SchemaObject>)>,
    b: Seq<(String, ObjectOrReference<SchemaObject>)>,
)
    requires
        keys_sorted(a),
        keys_sorted(b),
        forall|i: int| 0 <= i < a.len() ==> keys_contain(b, (#[trigger] a[i]).0@),
        forall|i: int| 0 <= i < b.len() ==> keys_contain(a, (#[trigger] b[i]).0@),
    ensures
        a.len() == b.len(),
        forall|i: int| 0 <= i < a.len() ==> (#[trigger] a[i]).0@ == b[i].0@,
    decreases a.len(),
{
    if a.len() == 0 {
        if b.len() > 0 {
            assert(keys_contain(a, b[0].0@));
        }
    } else if b.len() == 0 {
        assert(keys_contain(b, a[0].0@));
    } else {
        assert(keys_contain(b, a[0].0@));
        let j = choose|j: int| 0 <= j < b.len() && #[trigger] b[j].0@ == a[0].0@;
        assert(keys_contain(a, b[0].0@));
        let k = choose|k: int| 0 <= k < a.len() && #[trigger] a[k].0@ == b[0].0@;
        if j > 0 {
            assert(key_lt_at(b, 0, j));
            if k > 0 {
                assert(key_lt_at(a, 0, k));
                lemma_lt_transitive(a[0].0@, b[0].0@, a[0].0@, 0);
                lemma_lt_irreflexive(a[0].0@, 0);
            } else {
                lemma_lt_irreflexive(b[0].0@, 0);
            }
        }
        assert(a[0].0@ == b[0].0@);
        let ta = a.drop_first();
        let tb = b.drop_first();
        assert forall|i: int| 0 <= i < ta.len() implies keys_contain(tb, (#[trigger] ta[i]).0@) by {
            assert(ta[i] == a[i + 1]);
            assert(keys_contain(b, a[i + 1].0@));
            let q = choose|q: int| 0 <= q < b.len() && #[trigger] b[q].0@ == a[i + 1].0@;
            if q == 0 {
                assert(key_lt_at(a, 0, i + 1));
                lemma_lt_irreflexive(a[0].0@, 0);
            }
            assert(tb[q - 1] == b[q]);
        }
        assert forall|i: int| 0 <= i < tb.len() implies keys_contain(ta, (#[trigger] tb[i]).0@) by {
            assert(tb[i] == b[i + 1]);
            assert(keys_contain(a, b[i + 1].0@));
            let q = choose|q: int| 0 <= q < a.len() && #[trigger] a[q].0@ == b[i + 1].0@;
            if q == 0 {
                assert(key_lt_at(b, 0, i + 1));
                lemma_lt_irreflexive(b[0].0@, 0);
            }
            assert(ta[q - 1] == a[q]);
        }
        assert forall|x: int, y: int| 0 <= x < y < ta.len() implies crate::keys::key_lt(
            #[trigger] ta[x].0@,
            #[trigger] ta[y].0@,
        ) by {
            assert(ta[x] == a[x + 1] && ta[y] == a[y + 1]);
            assert(key_lt_at(a, x + 1, y + 1));
        }
        assert forall|x: int, y: int| 0 <= x < y < tb.len() implies crate::keys::key_lt(
            #[trigger] tb[x].0@,
            #[trigger] tb[y].0@,
        ) by {
            assert(tb[x] == b[x + 1] && tb[y] == b[y + 1]);
            assert(key_lt_at(b, x + 1, y + 1));
        }
        lemma_sorted_same_keys(ta, tb);
        assert forall|i: int| 0 <= i < a.len() implies (#[trigger] a[i]).0@ == b[i].0@ by {
            if i > 0 {
                assert(ta[i - 1] == a[i] && tb[i - 1] == b[i]);
            }
        }
    }
}

spec fn key_lt_at(r: Seq<(String, ObjectOrReference<SchemaObject>)>, i: int, j: int) -> bool {
    crate::keys::key_lt(r[i].0@, r[j].0@)
}

/// Whether two schemas agree, down to `d` levels of nesting: the same attributes that
/// hold no schema, and nested schemas of the same alternatives that agree in turn.
pub open spec fn schemas_agree(s: SchemaObject, t: SchemaObject, d: nat) -> bool
    decreases d, 0nat,
{
    d > 0 ==> {
        &&& leaf_agree(s, t)
        &&& lists_agree(s.one_of, t.one_of, (d - 1) as nat)
        &&& lists_agree(s.all_of, t.all_of, (d - 1) as nat)
        &&& lists_agree(s.any_of, t.any_of, (d - 1) as nat)
        &&& lists_agree(s.not, t.not, (d - 1) as nat)
        &&& (s.items is Some <==> t.items is Some)
        &&& (s.items is Some ==> objrefs_agree(*s.items->Some_0, *t.items->Some_0, (d - 1) as nat))
        &&& properties_agree(s.properties, t.properties, (d - 1) as nat)
        &&& additional_agree(s.additional_properties, t.additional_properties, (d - 1) as nat)
    }
}

pub open spec fn objrefs_agree(
    a: ObjectOrReference<SchemaObject>,
    b: ObjectOrReference<SchemaObject>,
    d: nat,
) -> bool
    decreases d, 1nat,
{
    ||| a is Ref && b is Ref && a->Ref_0.ref_path@ == b->Ref_0.ref_path@
    ||| a is Object && b is Object && schemas_agree(a->Object_0, b->Object_0, d)
}

pub open spec fn lists_agree(
    a: Option<Vec<ObjectOrReference<SchemaObject>>>,
    b: Option<Vec<ObjectOrReference<SchemaObject>>>,
    d: nat,
) -> bool
    decreases d, 2nat,
{
    ||| a is None && b is None
    ||| a is Some && b is Some && a->Some_0@.len() == b->Some_0@.len() && forall|i: int|
        0 <= i < a->Some_0@.len() ==> objrefs_agree(
            #[trigger] a->Some_0@[i],
            b->Some_0@[i],
            d,
        )
}

pub open spec fn properties_agree(
    a: Option<Vec<(String, ObjectOrReference<SchemaObject>)>>,
    b: Option<Vec<(String, ObjectOrReference<SchemaObject>)>>,
    d: nat,
) -> bool
    decreases d, 2nat,
{
    ||| a is None && b is None
    ||| a is Some && b is Some && a->Some_0@.len() == b->Some_0@.len() && forall|i: int|
        0 <= i < a->Some_0@.len() ==> (#[trigger] a->Some_0@[i]).0@ == b->Some_0@[i].0@
            && objrefs_agree(a->Some_0@[i].1, b->Some_0@[i].1, d)
}

pub open spec fn additional_agree(
    a: Option<BooleanObjectOrReference<Box<SchemaObject>>>,
    b: Option<BooleanObjectOrReference<Box<SchemaObject>>>,
    d: nat,
) -> bool
    decreases d, 2nat,
{
    ||| a is None && b is None
    ||| a is Some && b is Some && a->Some_0 is Boolean && a == b
    ||| a is Some && b is Some && a->Some_0 is Ref && b->Some_0 is Ref
        && a->Some_0->Ref_0.ref_path@ == b->Some_0->Ref_0.ref_path@
    ||| a is Some && b is Some && a->Some_0 is Object && b->Some_0 is Object && schemas_agree(
        *a->Some_0->Object_0,
        *b->Some_0->Object_0,
        d,
    )
}

/// A schema written and read back agrees with the schema written. `SchemaObject::to_value`
/// promises that the written value reads as the schema written, for one that fits the
/// limit; reading it gives a schema that it reads as; and any two schemas that one
/// value reads as agree at every level.
pub proof fn lemma_schema_round_trip(v: Value, d: nat, s: SchemaObject, t: SchemaObject)
    requires
        schema_rel(v, d, s),
        schema_rel(v, d, t),
    ensures
        schemas_agree(s, t, d),
    decreases d, 0nat,
{
    lemma_leaf_agree(s, v, t, d);
    let dd = (d - 1) as nat;
    lemma_lists_unique(crate::value::field(v, "oneOf"@), dd, s.one_of, t.one_of);
    lemma_lists_unique(crate::value::field(v, "allOf"@), dd, s.all_of, t.all_of);
    lemma_lists_unique(crate::value::field(v, "anyOf"@), dd, s.any_of, t.any_of);
    lemma_lists_unique(crate::value::field(v, "not"@), dd, s.not, t.not);
    let fi = crate::value::field(v, "items"@);
    if s.items is Some {
        lemma_objref_unique(fi->Some_0, dd, *s.items->Some_0, *t.items->Some_0);
    }
    lemma_properties_unique(crate::value::field(v, "properties"@), dd, s.properties, t.properties);
    lemma_additional_unique(
        crate::value::field(v, "additionalProperties"@),
        dd,
        s.additional_properties,
        t.additional_properties,
    );
}

proof fn lemma_objref_unique(
    v: Value,
    d: nat,
    a: ObjectOrReference<SchemaObject>,
    b: ObjectOrReference<SchemaObject>,
)
    requires
        objref_rel(v, d, a),
        objref_rel(v, d, b),
    ensures
        objrefs_agree(a, b, d),
    decreases d, 1nat,
{
    if ref_path(v) is None {
        lemma_schema_round_trip(v, d, a->Object_0, b->Object_0);
    }
}

proof fn lemma_lists_unique(
    f: Option<Value>,
    d: nat,
    a: Option<Vec<ObjectOrReference<SchemaObject>>>,
    b: Option<Vec<ObjectOrReference<SchemaObject>>>,
)
    requires
        list_rel(f, d, a),
        list_rel(f, d, b),
    ensures
        lists_agree(a, b, d),
    decreases d, 2nat,
{
    if a is Some {
        let e = f->Some_0->Array_0@;
        assert forall|i: int| 0 <= i < a->Some_0@.len() implies objrefs_agree(
            #[trigger] a->Some_0@[i],
            b->Some_0@[i],
            d,
        ) by {
            assert(objref_rel(e[i], d, a->Some_0@[i]));
            assert(objref_rel(e[i], d, b->Some_0@[i]));
            lemma_objref_unique(e[i], d, a->Some_0@[i], b->Some_0@[i]);
        }
    }
}

proof fn lemma_properties_unique(
    f: Option<Value>,
    d: nat,
    a: Option<Vec<(String, ObjectOrReference<SchemaObject>)>>,
    b: Option<Vec<(String, ObjectOrReference<SchemaObject>)>>,
)
    requires
        properties_rel(f, d, a),
        properties_rel(f, d, b),
    ensures
        properties_agree(a, b, d),
    decreases d, 2nat,
{
    if a is Some {
        let e = f->Some_0->Object_0@;
        let x = a->Some_0@;
        let y = b->Some_0@;
        assert forall|i: int| 0 <= i < x.len() implies keys_contain(y, (#[trigger] x[i]).0@) by {
            crate::value::lemma_lookup_key(e, x[i].0@);
            let j = choose|j: int| 0 <= j < e.len() && (#[trigger] e[j]).0@ == x[i].0@;
            assert(keys_contain(y, e[j].0@));
        }
        assert forall|i: int| 0 <= i < y.len() implies keys_contain(x, (#[trigger] y[i]).0@) by {
            crate::value::lemma_lookup_key(e, y[i].0@);
            let j = choose|j: int| 0 <= j < e.len() && (#[trigger] e[j]).0@ == y[i].0@;
            assert(keys_contain(x, e[j].0@));
        }
        lemma_sorted_same_keys(x, y);
        assert forall|i: int| 0 <= i < x.len() implies (#[trigger] x[i]).0@ == y[i].0@
            && objrefs_agree(x[i].1, y[i].1, d) by {
            let k = x[i].0@;
            assert(y[i].0@ == k);
            lemma_objref_unique(lookup(e, k)->Some_0, d, x[i].1, y[i].1);
        }
    }
}

proof fn lemma_additional_unique(
    f: Option<Value>,
    d: nat,
    a: Option<BooleanObjectOrReference<Box<SchemaObject>>>,
    b: Option<BooleanObjectOrReference<Box<SchemaObject>>>,
)
    requires
        additional_rel(f, d, a),
        additional_rel(f, d, b),
    ensures
        additional_agree(a, b, d),
    decreases d, 2nat,
{
    if a is Some && a->Some_0 is Object {
        lemma_schema_round_trip(f->Some_0, d, *a->Some_0->Object_0, *b->Some_0->Object_0);
    }
}

/// Every schema that a value reads as fits the limit it was read with: writing it and
/// reading the result back gives it again.
pub proof fn lemma_read_fits(v: Value, d: nat, s: SchemaObject)
    requires
        schema_rel(v, d, s),
    ensures
        fits(s, d),
    decreases d, 0nat,
{
    let dd = (d - 1) as nat;
    let f = crate::value::field(v, "default"@);
    if s.default is Some && s.default->Some_0 is Null {
        assert(same(f->Some_0, s.default->Some_0));
    }
    lemma_list_fits(crate::value::field(v, "oneOf"@), dd, s.one_of);
    lemma_list_fits(crate::value::field(v, "allOf"@), dd, s.all_of);
    lemma_list_fits(crate::value::field(v, "anyOf"@), dd, s.any_of);
    lemma_list_fits(crate::value::field(v, "not"@), dd, s.not);
    if s.items is Some {
        lemma_objref_fits(crate::value::field(v, "items"@)->Some_0, dd, *s.items->Some_0);
    }
    let fp = crate::value::field(v, "properties"@);
    if s.properties is Some {
        let p = s.properties->Some_0@;
        assert forall|i: int| 0 <= i < p.len() implies fits_objref((#[trigger] p[i]).1, dd) by {
            lemma_objref_fits(lookup(fp->Some_0->Object_0@, p[i].0@)->Some_0, dd, p[i].1);
        }
    }
    let fa = crate::value::field(v, "additionalProperties"@);
    if s.additional_properties is Some && s.additional_properties->Some_0 is Object {
        lemma_read_fits(fa->Some_0, dd, *s.additional_properties->Some_0->Object_0);
    }
    assert(fits_item(s.items, dd));
    assert(fits_additional(s.additional_properties, dd));
}

proof fn lemma_objref_fits(v: Value, d: nat, o: ObjectOrReference<SchemaObject>)
    requires
        objref_rel(v, d, o),
    ensures
        fits_objref(o, d),
    decreases d, 1nat,
{
    if o is Object {
        lemma_read_fits(v, d, o->Object_0);
    }
}

proof fn lemma_list_fits(f: Option<Value>, d: nat, l: Option<Vec<ObjectOrReference<SchemaObject>>>)
    requires
        list_rel(f, d, l),
    ensures
        fits_list(l, d),
    decreases d, 2nat,
{
    if l is Some {
        let a = f->Some_0->Array_0@;
        assert forall|i: int| 0 <= i < l->Some_0@.len() implies fits_objref(
            #[trigger] l->Some_0@[i],
            d,
        ) by {
            assert(objref_rel(a[i], d, l->Some_0@[i]));
            lemma_objref_fits(a[i], d, l->Some_0@[i]);
        }
    }
}

} // verus!
