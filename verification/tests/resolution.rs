use openapi_catalog::json::Json;
use openapi_catalog::resolver::json_pointer;

fn s(text: &str) -> Json {
    Json::Str(text.to_string())
}

fn obj(entries: Vec<(&str, Json)>) -> Json {
    Json::Obj(entries.into_iter().map(|(k, v)| (k.to_string(), v)).collect())
}

/// A document whose entries `c0 .. c{n-1}` each reference the next, with a
/// plain terminal entry at the end.
fn chain_doc(links: usize) -> Json {
    let mut entries: Vec<(String, Json)> = Vec::new();
    for i in 0..links {
        entries.push((
            format!("c{}", i),
            obj(vec![("$ref", s(&format!("#/c{}", i + 1)))]),
        ));
    }
    entries.push((format!("c{}", links), obj(vec![("kind", s("terminal"))])));
    Json::Obj(entries)
}

fn start_node(doc: &Json) -> &Json {
    match doc {
        Json::Obj(entries) => &entries[0].1,
        _ => panic!("chain documents are objects"),
    }
}

#[test]
fn short_chain_reaches_terminal() {
    let doc = chain_doc(3);
    let resolved = Json::resolve_ref(&doc, start_node(&doc), 0);
    match resolved {
        Json::Obj(entries) => {
            assert_eq!(entries.len(), 1);
            assert_eq!(entries[0].0, "kind");
        }
        other => panic!("expected the terminal node, got {:?}", other),
    }
}

#[test]
fn ten_link_chain_reaches_terminal() {
    let doc = chain_doc(10);
    let resolved = Json::resolve_ref(&doc, start_node(&doc), 0);
    match resolved {
        Json::Obj(entries) => assert_eq!(entries[0].0, "kind"),
        other => panic!("expected the terminal node, got {:?}", other),
    }
}

#[test]
fn eleven_link_chain_still_reaches_terminal() {
    let doc = chain_doc(11);
    let resolved = Json::resolve_ref(&doc, start_node(&doc), 0);
    match resolved {
        Json::Obj(entries) => assert_eq!(entries[0].0, "kind"),
        other => panic!("expected the terminal node, got {:?}", other),
    }
}

#[test]
fn twelve_link_chain_stops_unresolved() {
    let doc = chain_doc(12);
    let resolved = Json::resolve_ref(&doc, start_node(&doc), 0);
    // Eleven links are followed; the node reached still holds a reference.
    match resolved {
        Json::Obj(entries) => {
            assert_eq!(entries[0].0, "$ref");
            assert!(matches!(&entries[0].1, Json::Str(v) if v == "#/c12"));
        }
        other => panic!("expected an unresolved reference node, got {:?}", other),
    }
}

#[test]
fn cycle_ends_without_looping() {
    let doc = obj(vec![
        ("a", obj(vec![("$ref", s("#/b"))])),
        ("b", obj(vec![("$ref", s("#/a"))])),
    ]);
    let start = start_node(&doc);
    let resolved = Json::resolve_ref(&doc, start, 0);
    match resolved {
        Json::Obj(entries) => assert_eq!(entries[0].0, "$ref"),
        other => panic!("expected a reference node, got {:?}", other),
    }
}

#[test]
fn unresolvable_pointer_keeps_node() {
    let doc = obj(vec![("a", obj(vec![("$ref", s("#/missing"))]))]);
    let start = start_node(&doc);
    let resolved = Json::resolve_ref(&doc, start, 0);
    match resolved {
        Json::Obj(entries) => {
            assert!(matches!(&entries[0].1, Json::Str(v) if v == "#/missing"));
        }
        other => panic!("expected the original node, got {:?}", other),
    }
}

#[test]
fn non_reference_is_unchanged() {
    let doc = obj(vec![]);
    let node = obj(vec![("type", s("string"))]);
    let resolved = Json::resolve_ref(&doc, &node, 0);
    match resolved {
        Json::Obj(entries) => assert_eq!(entries[0].0, "type"),
        other => panic!("expected the node itself, got {:?}", other),
    }
}

#[test]
fn pointer_walks_objects_and_arrays() {
    let doc = obj(vec![(
        "components",
        obj(vec![(
            "list",
            Json::Arr(vec![s("zero"), s("one"), s("two")]),
        )]),
    )]);
    let got = json_pointer(&doc, "/components/list/1");
    assert!(matches!(got, Some(Json::Str(v)) if v == "one"));
}

#[test]
fn pointer_empty_names_root() {
    let doc = obj(vec![("a", s("x"))]);
    let got = json_pointer(&doc, "");
    assert!(matches!(got, Some(Json::Obj(_))));
}

#[test]
fn pointer_without_leading_slash_fails() {
    let doc = obj(vec![("a", s("x"))]);
    assert!(json_pointer(&doc, "a").is_none());
}

#[test]
fn pointer_unescapes_tokens() {
    let doc = obj(vec![("a/b", s("slash")), ("m~n", s("tilde"))]);
    assert!(matches!(json_pointer(&doc, "/a~1b"), Some(Json::Str(v)) if v == "slash"));
    assert!(matches!(json_pointer(&doc, "/m~0n"), Some(Json::Str(v)) if v == "tilde"));
}

#[test]
fn pointer_rejects_bad_array_indices() {
    let doc = obj(vec![("xs", Json::Arr(vec![s("zero"), s("one")]))]);
    assert!(json_pointer(&doc, "/xs/01").is_none());
    assert!(json_pointer(&doc, "/xs/+1").is_none());
    assert!(json_pointer(&doc, "/xs/2").is_none());
    assert!(json_pointer(&doc, "/xs/x").is_none());
    assert!(matches!(json_pointer(&doc, "/xs/0"), Some(Json::Str(v)) if v == "zero"));
}
