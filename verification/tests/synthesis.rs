use openapi_catalog::json::Json;
use openapi_catalog::synth::{build_example_from_schema, extract_schema_example};

fn s(text: &str) -> Json {
    Json::Str(text.to_string())
}

fn num(text: &str) -> Json {
    Json::Num(text.to_string())
}

fn obj(entries: Vec<(&str, Json)>) -> Json {
    Json::Obj(entries.into_iter().map(|(k, v)| (k.to_string(), v)).collect())
}

fn empty_doc() -> Json {
    obj(vec![])
}

#[test]
fn example_beats_default() {
    let doc = empty_doc();
    let schema = obj(vec![("example", s("A")), ("default", s("B"))]);
    let got = build_example_from_schema(&doc, &schema, 0);
    assert!(matches!(got, Some(Json::Str(ref v)) if v == "A"));
}

#[test]
fn null_example_falls_back_to_default() {
    let doc = empty_doc();
    let schema = obj(vec![("example", Json::Null), ("default", s("B"))]);
    let got = build_example_from_schema(&doc, &schema, 0);
    assert!(matches!(got, Some(Json::Str(ref v)) if v == "B"));
}

#[test]
fn enum_first_element() {
    let doc = empty_doc();
    let schema = obj(vec![("enum", Json::Arr(vec![num("1"), num("2"), num("3")]))]);
    let got = build_example_from_schema(&doc, &schema, 0);
    assert!(matches!(got, Some(Json::Num(ref v)) if v == "1"));
}

#[test]
fn enum_via_extract_schema_example() {
    let doc = empty_doc();
    let schema = obj(vec![("enum", Json::Arr(vec![s("x"), s("y")]))]);
    let got = extract_schema_example(&doc, &schema);
    assert!(matches!(got, Some(Json::Str(ref v)) if v == "x"));
}

#[test]
fn object_of_properties() {
    let doc = empty_doc();
    let schema = obj(vec![
        ("type", s("object")),
        (
            "properties",
            obj(vec![
                ("a", obj(vec![("type", s("integer"))])),
                ("b", obj(vec![("type", s("string"))])),
            ]),
        ),
    ]);
    let got = build_example_from_schema(&doc, &schema, 0);
    match got {
        Some(Json::Obj(entries)) => {
            assert_eq!(entries.len(), 2);
            assert_eq!(entries[0].0, "a");
            assert!(matches!(&entries[0].1, Json::Num(v) if v == "0"));
            assert_eq!(entries[1].0, "b");
            assert!(matches!(&entries[1].1, Json::Str(v) if v.is_empty()));
        }
        other => panic!("expected an object example, got {:?}", other),
    }
}

#[test]
fn array_of_items() {
    let doc = empty_doc();
    let schema = obj(vec![
        ("type", s("array")),
        ("items", obj(vec![("type", s("boolean"))])),
    ]);
    let got = build_example_from_schema(&doc, &schema, 0);
    match got {
        Some(Json::Arr(items)) => {
            assert_eq!(items.len(), 1);
            assert!(matches!(items[0], Json::Bool(false)));
        }
        other => panic!("expected an array example, got {:?}", other),
    }
}

#[test]
fn array_without_usable_items_is_empty() {
    let doc = empty_doc();
    let schema = obj(vec![("type", s("array")), ("items", obj(vec![]))]);
    let got = build_example_from_schema(&doc, &schema, 0);
    assert!(matches!(got, Some(Json::Arr(ref items)) if items.is_empty()));
}

#[test]
fn primitive_zero_values() {
    let doc = empty_doc();
    let int_schema = obj(vec![("type", s("integer"))]);
    assert!(matches!(
        build_example_from_schema(&doc, &int_schema, 0),
        Some(Json::Num(ref v)) if v == "0"
    ));
    let num_schema = obj(vec![("type", s("number"))]);
    assert!(matches!(
        build_example_from_schema(&doc, &num_schema, 0),
        Some(Json::Num(ref v)) if v == "0.0"
    ));
    let bool_schema = obj(vec![("type", s("boolean"))]);
    assert!(matches!(
        build_example_from_schema(&doc, &bool_schema, 0),
        Some(Json::Bool(false))
    ));
    let str_schema = obj(vec![("type", s("string"))]);
    assert!(matches!(
        build_example_from_schema(&doc, &str_schema, 0),
        Some(Json::Str(ref v)) if v.is_empty()
    ));
}

#[test]
fn unknown_type_yields_nothing() {
    let doc = empty_doc();
    let schema = obj(vec![("type", s("mystery"))]);
    assert!(build_example_from_schema(&doc, &schema, 0).is_none());
}

#[test]
fn one_of_first_success() {
    let doc = empty_doc();
    let schema = obj(vec![(
        "oneOf",
        Json::Arr(vec![
            obj(vec![("type", s("mystery"))]),
            obj(vec![("type", s("integer"))]),
        ]),
    )]);
    let got = build_example_from_schema(&doc, &schema, 0);
    assert!(matches!(got, Some(Json::Num(ref v)) if v == "0"));
}

#[test]
fn any_of_after_one_of_fails() {
    let doc = empty_doc();
    let schema = obj(vec![
        ("oneOf", Json::Arr(vec![obj(vec![("type", s("mystery"))])])),
        ("anyOf", Json::Arr(vec![obj(vec![("type", s("boolean"))])])),
    ]);
    let got = build_example_from_schema(&doc, &schema, 0);
    assert!(matches!(got, Some(Json::Bool(false))));
}

#[test]
fn depth_budget_prunes_deep_properties() {
    let doc = empty_doc();
    // Eight levels of nesting: the innermost value lies beyond the budget,
    // so the property that holds it is skipped at the deepest kept level.
    let mut schema = obj(vec![("type", s("integer"))]);
    for _ in 0..8 {
        schema = obj(vec![("type", s("object")), ("properties", obj(vec![("inner", schema)]))]);
    }
    let mut cur = build_example_from_schema(&doc, &schema, 0).expect("an object example");
    let mut levels = 0;
    loop {
        match cur {
            Json::Obj(mut entries) => {
                if entries.is_empty() {
                    break;
                }
                assert_eq!(entries.len(), 1);
                let (name, child) = entries.remove(0);
                assert_eq!(name, "inner");
                cur = child;
                levels += 1;
            }
            other => panic!("expected nested objects, got {:?}", other),
        }
    }
    assert_eq!(levels, 6);
}

#[test]
fn example_resolved_through_reference() {
    let doc = obj(vec![(
        "components",
        obj(vec![("schemas", obj(vec![("Pet", obj(vec![("example", s("milo"))]))]))]),
    )]);
    let schema = obj(vec![("$ref", s("#/components/schemas/Pet"))]);
    let got = build_example_from_schema(&doc, &schema, 0);
    assert!(matches!(got, Some(Json::Str(ref v)) if v == "milo"));
}
