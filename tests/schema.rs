use apple_bloom::keys::key_less;
use apple_bloom::schema_object::MAX_DEPTH;
use apple_bloom::{
    BooleanObjectOrReference, Error, ObjectOrReference, OpenApi, Ref, SchemaObject, Value,
};

fn from_json(v: &serde_json::Value) -> Value {
    match v {
        serde_json::Value::Null => Value::Null,
        serde_json::Value::Bool(b) => Value::Bool(*b),
        serde_json::Value::Number(n) => {
            if let Some(i) = n.as_i64() {
                Value::Integer(i as i128)
            } else if let Some(u) = n.as_u64() {
                Value::Integer(u as i128)
            } else {
                Value::Decimal(n.to_string())
            }
        }
        serde_json::Value::String(s) => Value::Str(s.clone()),
        serde_json::Value::Array(a) => Value::Array(a.iter().map(from_json).collect()),
        serde_json::Value::Object(m) => {
            Value::Object(m.iter().map(|(k, x)| (k.clone(), from_json(x))).collect())
        }
    }
}

fn to_json(v: &Value) -> serde_json::Value {
    match v {
        Value::Null => serde_json::Value::Null,
        Value::Bool(b) => serde_json::Value::Bool(*b),
        Value::Integer(i) => serde_json::Value::Number(serde_json::Number::from(*i as i64)),
        Value::Decimal(s) => serde_json::from_str(s).unwrap(),
        Value::Str(s) => serde_json::Value::String(s.clone()),
        Value::Array(a) => serde_json::Value::Array(a.iter().map(to_json).collect()),
        Value::Object(e) => {
            let mut m = serde_json::Map::new();
            for (k, x) in e {
                m.insert(k.clone(), to_json(x));
            }
            serde_json::Value::Object(m)
        }
    }
}

fn parse(text: &str) -> Value {
    from_json(&serde_json::from_str::<serde_json::Value>(text).unwrap())
}

fn keys(v: &Value) -> Vec<String> {
    match v {
        Value::Object(e) => e.iter().map(|(k, _)| k.clone()).collect(),
        _ => panic!("not an object"),
    }
}

fn empty_schema() -> SchemaObject {
    SchemaObject {
        title: None,
        multiple_of: None,
        required: None,
        enum_values: None,
        schema_type: None,
        one_of: None,
        all_of: None,
        any_of: None,
        not: None,
        items: None,
        properties: None,
        additional_properties: None,
        description: None,
        format: None,
        default: None,
    }
}

const V3_DOCS: [&str; 3] = [
    r#"{"openapi": "3.0.1", "info": {"title": "Petstore", "version": "1.0.0"}, "paths": {}}"#,
    r#"{"openapi": "3.0.0", "info": {"title": "t", "version": "2"}, "paths": {"/pets": {"get": {"responses": {"200": {"description": "ok"}}}}},
        "components": {"schemas": {"Pet": {"type": "object", "required": ["id"], "properties": {"id": {"type": "integer", "format": "int64"}}}}}}"#,
    r#"{"openapi": "3.0.3", "info": {"title": "x", "version": "0.1"}, "paths": {}, "x-extra": [1, 2.5, null, true]}"#,
];

#[test]
fn test_v3_json() {
    for text in V3_DOCS.iter() {
        let v = parse(text);
        let doc = OpenApi::from_value(&v).unwrap();
        assert!(matches!(doc, OpenApi::V3_0(_)));
    }
}

#[test]
fn scenario_reference() {
    let v = parse(r##"{"$ref": "#/components/schemas/Pet"}"##);
    let r = ObjectOrReference::<SchemaObject>::from_value(&v).unwrap();
    assert_eq!(
        r,
        ObjectOrReference::Ref(Ref { ref_path: "#/components/schemas/Pet".to_string() })
    );
}

#[test]
fn scenario_inline_schema() {
    let v = parse(r#"{"type": "string"}"#);
    let r = ObjectOrReference::<SchemaObject>::from_value(&v).unwrap();
    let mut expected = empty_schema();
    expected.schema_type = Some("string".to_string());
    assert_eq!(r, ObjectOrReference::Object(expected));
}

#[test]
fn scenario_boolean() {
    let v = parse("true");
    let r = BooleanObjectOrReference::<Box<SchemaObject>>::from_value(&v).unwrap();
    assert_eq!(r, BooleanObjectOrReference::Boolean(true));
}

#[test]
fn scenario_properties_order_kept() {
    let v = parse(r##"{"properties": {"a": {"type": "integer"}, "b": {"$ref": "#/x"}}}"##);
    let s = SchemaObject::from_value(&v).unwrap();
    let out = s.to_value();
    let props = match &out {
        Value::Object(e) => &e[0].1,
        _ => panic!("not an object"),
    };
    assert_eq!(keys(props), vec!["a".to_string(), "b".to_string()]);
    let text = serde_json::to_string(&to_json(&out)).unwrap();
    let back = SchemaObject::from_value(&parse(&text)).unwrap();
    assert_eq!(back, s);
    let ps = back.properties.unwrap();
    assert_eq!(ps[0].0, "a");
    assert_eq!(ps[1].1, ObjectOrReference::Ref(Ref { ref_path: "#/x".to_string() }));
}

#[test]
fn properties_come_out_in_key_order() {
    let v = parse(r#"{"properties": {"zeta": {}, "alpha": {}, "mid": {}, "Alpha": {}}}"#);
    let s = SchemaObject::from_value(&v).unwrap();
    let names: Vec<String> = s.properties.unwrap().into_iter().map(|(k, _)| k).collect();
    assert_eq!(names, vec!["Alpha", "alpha", "mid", "zeta"]);
}

#[test]
fn duplicate_property_keeps_first() {
    let v = Value::Object(vec![(
        "properties".to_string(),
        Value::Object(vec![
            ("p".to_string(), parse(r#"{"type": "string"}"#)),
            ("p".to_string(), parse(r#"{"type": "integer"}"#)),
        ]),
    )]);
    let s = SchemaObject::from_value(&v).unwrap();
    let ps = s.properties.unwrap();
    assert_eq!(ps.len(), 1);
    match &ps[0].1 {
        ObjectOrReference::Object(o) => assert_eq!(o.schema_type, Some("string".to_string())),
        _ => panic!("expected an inline schema"),
    }
}

#[test]
fn round_trip_of_rich_schema() {
    let text = r##"{"title": "Pet", "multipleOf": 3, "required": ["id", "name"], "enum": [1, "two", null, 2.5],
        "type": "object", "oneOf": [{"$ref": "#/a"}, {"type": "string"}], "allOf": [{}], "anyOf": [{"format": "f"}],
        "not": [{"type": "null"}], "items": {"$ref": "#/i"}, "properties": {"id": {"type": "integer"}},
        "additionalProperties": {"type": "string"}, "description": "d", "format": "fmt", "default": {"k": [1]}}"##;
    let s = SchemaObject::from_value(&parse(text)).unwrap();
    let json = serde_json::to_string_pretty(&to_json(&s.to_value())).unwrap();
    let again = SchemaObject::from_value(&parse(&json)).unwrap();
    assert_eq!(again, s);
    let yaml = serde_yaml::to_string(&to_json(&s.to_value())).unwrap();
    let from_yaml: serde_json::Value = serde_yaml::from_str(&yaml).unwrap();
    assert_eq!(SchemaObject::from_value(&from_json(&from_yaml)).unwrap(), s);
}

#[test]
fn unset_attributes_are_not_written() {
    let mut s = empty_schema();
    assert_eq!(s.to_value(), Value::Object(vec![]));
    s.title = Some("t".to_string());
    s.additional_properties = Some(BooleanObjectOrReference::Boolean(false));
    let out = s.to_value();
    assert_eq!(keys(&out), vec!["title".to_string(), "additionalProperties".to_string()]);
    let text = serde_json::to_string(&to_json(&out)).unwrap();
    assert!(!text.contains("null"));
}

#[test]
fn null_attribute_reads_as_unset() {
    let s = SchemaObject::from_value(&parse(r#"{"title": null, "default": null}"#)).unwrap();
    assert_eq!(s, empty_schema());
}

#[test]
fn discrimination_is_repeatable() {
    let v = parse(r##"{"$ref": "#/p", "type": "string"}"##);
    let first = ObjectOrReference::<SchemaObject>::from_value(&v).unwrap();
    for _ in 0..5 {
        assert_eq!(ObjectOrReference::<SchemaObject>::from_value(&v).unwrap(), first);
    }
    assert!(matches!(first, ObjectOrReference::Ref(_)));
}

#[test]
fn reference_shape_is_never_inline() {
    let v = parse(r##"{"$ref": "#/components/schemas/A"}"##);
    let b = BooleanObjectOrReference::<Box<SchemaObject>>::from_value(&v).unwrap();
    assert_eq!(
        b,
        BooleanObjectOrReference::Ref(Ref { ref_path: "#/components/schemas/A".to_string() })
    );
    let with_limit = ObjectOrReference::<SchemaObject>::from_value_with_limit(&v, 0).unwrap();
    assert!(matches!(with_limit, ObjectOrReference::Ref(_)));
}

fn nested(n: usize) -> Value {
    let mut v = Value::Object(vec![("type".to_string(), Value::Str("string".to_string()))]);
    for _ in 1..n {
        v = Value::Object(vec![
            ("type".to_string(), Value::Str("array".to_string())),
            ("items".to_string(), v),
        ]);
    }
    v
}

#[test]
fn depth_guard_stops_deep_nesting() {
    assert!(SchemaObject::from_value(&nested(MAX_DEPTH)).is_ok());
    assert_eq!(SchemaObject::from_value(&nested(MAX_DEPTH + 1)), Err(Error::DepthExceeded));
    assert_eq!(SchemaObject::from_value(&nested(10_000)), Err(Error::DepthExceeded));
    assert_eq!(SchemaObject::from_value_with_limit(&nested(3), 2), Err(Error::DepthExceeded));
    assert!(SchemaObject::from_value_with_limit(&nested(3), 3).is_ok());
    assert_eq!(
        SchemaObject::from_value_with_limit(&parse("{}"), 0),
        Err(Error::DepthExceeded)
    );
}

fn items_only(n: usize) -> Value {
    let mut v = Value::Object(vec![]);
    for _ in 1..n {
        v = Value::Object(vec![("items".to_string(), v)]);
    }
    v
}

#[test]
fn depth_guard_on_bare_items_chain() {
    assert!(SchemaObject::from_value_with_limit(&items_only(5), 5).is_ok());
    assert_eq!(SchemaObject::from_value_with_limit(&items_only(6), 5), Err(Error::DepthExceeded));
    assert_eq!(
        ObjectOrReference::<SchemaObject>::from_value(&items_only(MAX_DEPTH + 2)),
        Err(Error::DepthExceeded)
    );
    assert_eq!(
        ObjectOrReference::<SchemaObject>::from_value_with_limit(&parse("{}"), 0),
        Err(Error::DepthExceeded)
    );
}

#[test]
fn wrong_shapes_are_rejected() {
    assert_eq!(SchemaObject::from_value(&parse("[1]")), Err(Error::ShapeMismatch));
    assert_eq!(SchemaObject::from_value(&parse(r#"{"title": 5}"#)), Err(Error::ShapeMismatch));
    assert_eq!(
        SchemaObject::from_value(&parse(r#"{"multipleOf": 4294967296}"#)),
        Err(Error::ShapeMismatch)
    );
    assert_eq!(
        SchemaObject::from_value(&parse(r#"{"multipleOf": -1}"#)),
        Err(Error::ShapeMismatch)
    );
    assert_eq!(
        SchemaObject::from_value(&parse(r#"{"required": ["a", 1]}"#)),
        Err(Error::ShapeMismatch)
    );
    let s = SchemaObject::from_value(&parse(r#"{"multipleOf": 4294967295, "x-other": 1}"#)).unwrap();
    assert_eq!(s.multiple_of, Some(4294967295));
    assert_eq!(Ref::from_value(&parse(r#"{"$ref": 1}"#)), Err(Error::ShapeMismatch));
}

#[test]
fn neither_alternative_gives_combinator_mismatch() {
    assert_eq!(
        ObjectOrReference::<SchemaObject>::from_value(&parse("5")),
        Err(Error::CombinatorMismatch(vec![Error::ShapeMismatch, Error::ShapeMismatch]))
    );
    assert_eq!(
        BooleanObjectOrReference::<Box<SchemaObject>>::from_value(&parse(r#""s""#)),
        Err(Error::CombinatorMismatch(vec![
            Error::ShapeMismatch,
            Error::ShapeMismatch,
            Error::ShapeMismatch
        ]))
    );
    let inner = SchemaObject::from_value(&parse(r#"{"oneOf": [{"title": []}]}"#));
    assert_eq!(
        inner,
        Err(Error::CombinatorMismatch(vec![Error::ShapeMismatch, Error::ShapeMismatch]))
    );
}

#[test]
fn revisions_are_told_apart() {
    let v2 = parse(r#"{"swagger": "2.0", "info": {"title": "a", "version": "1"}, "paths": {}}"#);
    match OpenApi::from_value(&v2).unwrap() {
        OpenApi::V2(s) => {
            assert_eq!(s.swagger, "2.0");
            assert_eq!(s.entries.len(), 3);
        }
        _ => panic!("expected revision 2.0"),
    }
    let v3 = parse(V3_DOCS[0]);
    let doc = OpenApi::from_value(&v3).unwrap();
    match &doc {
        OpenApi::V3_0(s) => assert_eq!(s.openapi, "3.0.1"),
        _ => panic!("expected revision 3.0"),
    }
    assert_eq!(doc.to_value(), v3);
    assert_eq!(
        OpenApi::from_value(&parse(r#"{"info": {}}"#)),
        Err(Error::NoMatchingRevision(vec![Error::ShapeMismatch, Error::ShapeMismatch]))
    );
    assert_eq!(
        OpenApi::from_value(&parse(r#"{"swagger": 2}"#)),
        Err(Error::NoMatchingRevision(vec![Error::ShapeMismatch, Error::ShapeMismatch]))
    );
}

#[test]
fn key_order_is_by_code_point() {
    let s = |x: &str| x.to_string();
    assert!(key_less(&s("a"), &s("b")));
    assert!(!key_less(&s("b"), &s("a")));
    assert!(key_less(&s("ab"), &s("abc")));
    assert!(!key_less(&s("abc"), &s("abc")));
    assert!(key_less(&s("Z"), &s("a")));
    assert!(key_less(&s(""), &s("a")));
    assert!(key_less(&s("z"), &s("é")));
}

#[test]
fn value_lookup_and_copy() {
    let v = parse(r#"{"k": [1, {"x": "y"}], "k2": 2.5}"#);
    assert_eq!(v.get(&"k2".to_string()), Some(&Value::Decimal("2.5".to_string())));
    assert_eq!(v.get(&"missing".to_string()), None);
    assert_eq!(v.deep_clone(), v);
    assert_eq!(
        Ref { ref_path: "#/p".to_string() }.to_value(),
        Value::Object(vec![("$ref".to_string(), Value::Str("#/p".to_string()))])
    );
}

fn one_of_chain(n: usize) -> Value {
    let mut v = parse(r#"{"type": "string"}"#);
    for _ in 1..n {
        v = Value::Object(vec![
            ("type".to_string(), Value::Str("object".to_string())),
            ("oneOf".to_string(), Value::Array(vec![v])),
        ]);
    }
    v
}

fn properties_chain(n: usize) -> Value {
    let mut v = parse("{}");
    for _ in 1..n {
        v = Value::Object(vec![(
            "properties".to_string(),
            Value::Object(vec![("p".to_string(), v)]),
        )]);
    }
    v
}

#[test]
fn depth_guard_through_one_of_and_properties() {
    assert!(SchemaObject::from_value_with_limit(&one_of_chain(4), 4).is_ok());
    assert_eq!(SchemaObject::from_value_with_limit(&one_of_chain(5), 4), Err(Error::DepthExceeded));
    assert!(SchemaObject::from_value_with_limit(&properties_chain(4), 4).is_ok());
    assert_eq!(
        SchemaObject::from_value_with_limit(&properties_chain(5), 4),
        Err(Error::DepthExceeded)
    );
    assert_eq!(SchemaObject::from_value(&one_of_chain(MAX_DEPTH + 1)), Err(Error::DepthExceeded));
}

#[test]
fn nested_schemas_are_written_exactly() {
    let mut inner = empty_schema();
    inner.schema_type = Some("integer".to_string());
    let mut outer = empty_schema();
    outer.properties = Some(vec![
        ("a".to_string(), ObjectOrReference::Object(inner)),
        ("b".to_string(), ObjectOrReference::Ref(Ref { ref_path: "#/x".to_string() })),
    ]);
    outer.one_of = Some(vec![ObjectOrReference::Object(empty_schema())]);
    outer.additional_properties = Some(BooleanObjectOrReference::Boolean(true));
    let obj = |e: Vec<(&str, Value)>| {
        Value::Object(e.into_iter().map(|(k, v)| (k.to_string(), v)).collect())
    };
    let expected = obj(vec![
        ("oneOf", Value::Array(vec![obj(vec![])])),
        (
            "properties",
            obj(vec![
                ("a", obj(vec![("type", Value::Str("integer".to_string()))])),
                ("b", obj(vec![("$ref", Value::Str("#/x".to_string()))])),
            ]),
        ),
        ("additionalProperties", Value::Bool(true)),
    ]);
    assert_eq!(outer.to_value(), expected);
}
