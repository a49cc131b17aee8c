use openapi_catalog::catalog::{Collection, Endpoint};
use openapi_catalog::parse::parse_openapi_internal;

fn parse(content: &str, url: &str) -> Collection {
    parse_openapi_internal(content, url, None, 1700000000000).expect("a valid document")
}

fn group<'a>(c: &'a Collection, tag: &str) -> &'a Vec<Endpoint> {
    &c.groups.iter().find(|g| g.0 == tag).expect("the group").1
}

#[test]
fn invalid_json_is_a_parse_error() {
    let r = parse_openapi_internal("not json at all", "u", None, 0);
    assert!(r.is_err());
}

#[test]
fn title_names_the_collection() {
    let c = parse(r#"{"info": {"title": "Pet Store"}}"#, "http://x/spec.json");
    assert_eq!(c.name, "Pet Store");
    assert_eq!(c.url, "http://x/spec.json");
    assert_eq!(c.last_updated, 1700000000000);
    assert!(c.sync_enabled);
    assert!(c.etag.is_none());
    assert!(c.groups.is_empty());
}

#[test]
fn missing_title_falls_back_to_url() {
    let c = parse(r#"{"paths": {}}"#, "http://x/spec.json");
    assert_eq!(c.name, "http://x/spec.json");
}

#[test]
fn no_servers_keeps_raw_path() {
    let c = parse(
        r#"{"paths": {"/pets": {"get": {"summary": "list"}}}}"#,
        "u",
    );
    let eps = group(&c, "Default");
    assert_eq!(eps.len(), 1);
    assert_eq!(eps[0].path, "/pets");
    assert_eq!(eps[0].method, "GET");
    assert_eq!(eps[0].summary.as_deref(), Some("list"));
}

#[test]
fn base_url_is_prefixed_and_trimmed() {
    let c = parse(
        r#"{"servers": [{"url": "http://api.example/"}],
            "paths": {"/pets": {"get": {}}}}"#,
        "u",
    );
    let eps = group(&c, "Default");
    assert_eq!(eps[0].path, "http://api.example/pets");
}

#[test]
fn first_tag_groups_the_endpoint() {
    let c = parse(
        r#"{"paths": {"/a": {"get": {"tags": ["pets", "extra"]}},
                      "/b": {"get": {}}}}"#,
        "u",
    );
    assert_eq!(group(&c, "pets").len(), 1);
    assert_eq!(group(&c, "Default").len(), 1);
    assert_eq!(c.groups.len(), 2);
}

#[test]
fn path_level_parameter_wins_duplicate_key() {
    let c = parse(
        r#"{"paths": {"/a": {
            "parameters": [{"name": "id", "in": "query", "description": "path level"}],
            "get": {"parameters": [
                {"name": "id", "in": "query", "description": "op level"},
                {"name": "other", "in": "header"}
            ]}}}}"#,
        "u",
    );
    let eps = group(&c, "Default");
    let params = &eps[0].parameters;
    assert_eq!(params.len(), 2);
    assert_eq!(params[0].name, "id");
    assert_eq!(params[0].in_type, "query");
    assert_eq!(params[0].description.as_deref(), Some("path level"));
    assert_eq!(params[1].name, "other");
    assert_eq!(params[1].in_type, "header");
}

#[test]
fn parameter_defaults_and_example() {
    let c = parse(
        r#"{"paths": {"/a": {"get": {"parameters": [
            {"name": "n", "required": true, "schema": {"type": "integer"}, "example": 7}
        ]}}}}"#,
        "u",
    );
    let p = &group(&c, "Default")[0].parameters[0];
    assert_eq!(p.in_type, "query");
    assert!(p.required);
    assert!(matches!(&p.example, Some(openapi_catalog::json::Json::Num(v)) if v == "7"));
}

#[test]
fn parameter_example_from_schema_enum() {
    let c = parse(
        r#"{"paths": {"/a": {"get": {"parameters": [
            {"name": "color", "in": "query", "schema": {"enum": ["red", "blue"]}}
        ]}}}}"#,
        "u",
    );
    let p = &group(&c, "Default")[0].parameters[0];
    assert!(matches!(&p.example, Some(openapi_catalog::json::Json::Str(v)) if v == "red"));
}

#[test]
fn parameter_example_synthesized_from_typed_schema() {
    let c = parse(
        r#"{"paths": {"/a": {"get": {"parameters": [
            {"name": "q", "in": "query", "schema": {"type": "string"}},
            {"name": "n", "in": "query", "schema": {"type": "integer"}},
            {"name": "o", "in": "query", "schema": {"type": "object",
                "properties": {"x": {"type": "boolean"}}}}
        ]}}}}"#,
        "u",
    );
    let params = &group(&c, "Default")[0].parameters;
    assert!(matches!(&params[0].example, Some(openapi_catalog::json::Json::Str(v)) if v.is_empty()));
    assert!(matches!(&params[1].example, Some(openapi_catalog::json::Json::Num(v)) if v == "0"));
    match &params[2].example {
        Some(openapi_catalog::json::Json::Obj(entries)) => {
            assert_eq!(entries.len(), 1);
            assert_eq!(entries[0].0, "x");
            assert!(matches!(entries[0].1, openapi_catalog::json::Json::Bool(false)));
        }
        other => panic!("expected an object example, got {:?}", other),
    }
}

#[test]
fn parameter_without_schema_or_example_has_none() {
    let c = parse(
        r#"{"paths": {"/a": {"get": {"parameters": [
            {"name": "q", "in": "query"}
        ]}}}}"#,
        "u",
    );
    assert!(group(&c, "Default")[0].parameters[0].example.is_none());
}

#[test]
fn body_example_is_serialized_json() {
    let c = parse(
        r#"{"paths": {"/a": {"post": {"requestBody": {
            "required": true,
            "content": {"application/json": {"schema": {
                "type": "object",
                "properties": {"name": {"type": "string"}, "age": {"type": "integer"}}
            }}}}}}}}"#,
        "u",
    );
    let ep = &group(&c, "Default")[0];
    assert!(ep.body_required);
    assert_eq!(ep.body_example.as_deref(), Some(r#"{"age":0,"name":""}"#));
    assert_eq!(ep.body_media_types, vec!["application/json".to_string()]);
}

#[test]
fn multipart_wins_over_urlencoded() {
    let c = parse(
        r#"{"paths": {"/up": {"post": {"requestBody": {"content": {
            "application/x-www-form-urlencoded": {"schema": {
                "properties": {"plain": {"type": "string"}}}},
            "multipart/form-data": {"schema": {
                "required": ["doc"],
                "properties": {
                    "doc": {"type": "string", "format": "binary"},
                    "photos": {"type": "array", "items": {"type": "string", "format": "base64"}},
                    "note": {"type": "string", "description": "remark"}
                }}}}}}}}}"#,
        "u",
    );
    let ep = &group(&c, "Default")[0];
    assert_eq!(ep.body_fields_type.as_deref(), Some("multipart/form-data"));
    let fields = &ep.body_fields;
    assert_eq!(fields.len(), 3);
    let doc = fields.iter().find(|f| f.name == "doc").unwrap();
    assert!(doc.is_file && !doc.is_array && doc.required);
    let photos = fields.iter().find(|f| f.name == "photos").unwrap();
    assert!(photos.is_file && photos.is_array && !photos.required);
    let note = fields.iter().find(|f| f.name == "note").unwrap();
    assert!(!note.is_file && !note.is_array);
    assert_eq!(note.description.as_deref(), Some("remark"));
}

#[test]
fn urlencoded_fields_without_multipart() {
    let c = parse(
        r#"{"paths": {"/form": {"post": {"requestBody": {"content": {
            "application/x-www-form-urlencoded": {"schema": {
                "properties": {"plain": {"type": "string"}}}}}}}}}}"#,
        "u",
    );
    let ep = &group(&c, "Default")[0];
    assert_eq!(
        ep.body_fields_type.as_deref(),
        Some("application/x-www-form-urlencoded")
    );
    assert_eq!(ep.body_fields.len(), 1);
    assert_eq!(ep.body_fields[0].name, "plain");
}

#[test]
fn body_description_falls_back_to_schema() {
    let c = parse(
        r#"{"paths": {"/a": {"post": {"requestBody": {"content": {
            "application/json": {"schema": {"description": "from schema", "type": "string"}}
        }}}}}}"#,
        "u",
    );
    let ep = &group(&c, "Default")[0];
    assert_eq!(ep.body_description.as_deref(), Some("from schema"));
    assert_eq!(ep.body_example.as_deref(), Some("\"\""));
}

#[test]
fn referenced_parameter_is_resolved() {
    let c = parse(
        r##"{"components": {"parameters": {"Limit": {"name": "limit", "in": "query"}}},
            "paths": {"/a": {"get": {"parameters": [
                {"$ref": "#/components/parameters/Limit"}
            ]}}}}"##,
        "u",
    );
    let p = &group(&c, "Default")[0].parameters[0];
    assert_eq!(p.name, "limit");
    assert_eq!(p.in_type, "query");
}

#[test]
fn path_entry_that_is_not_an_object_is_skipped() {
    let c = parse(r#"{"paths": {"/a": "nonsense", "/b": {"get": {}}}}"#, "u");
    let eps = group(&c, "Default");
    assert_eq!(eps.len(), 1);
    assert_eq!(eps[0].path, "/b");
}
