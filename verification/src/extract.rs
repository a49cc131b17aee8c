//! Extraction of one operation's parameter examples and request-body
//! descriptors: the example precedence for parameters, the
//! `application/json` body example, the body description, the declared
//! media types, and the multipart / URL-encoded field lists.

use vstd::prelude::*;

use crate::catalog::{fields_view, BodyField, BodyFieldVal};
use crate::json::{
    arr_view, json_as_str, json_get, lemma_arr_view_index, lemma_arr_view_len,
    lemma_obj_view_index, lemma_obj_view_len, obj_view, str_eq, Json, JsonVal,
};
use crate::resolver::spec_resolve_ref;
use crate::synth::{declared_type, has_value, spec_build_example, build_example_from_schema};

verus! {

/// The string content of an object entry, when the entry is there and is a
/// string.
pub open spec fn str_entry(v: JsonVal, key: Seq<char>) -> Option<Seq<char>> {
    match json_get(v, key) {
        Some(x) => json_as_str(x),
        None => None,
    }
}

/// The entries of an object-valued lookup, or nothing.
pub open spec fn obj_entries(o: Option<JsonVal>) -> Seq<(Seq<char>, JsonVal)> {
    match o {
        Some(JsonVal::Obj(entries)) => entries,
        _ => Seq::empty(),
    }
}

/// The first named example whose `value` entry is there and not null, in
/// entry order.
pub open spec fn spec_first_example_value(entries: Seq<(Seq<char>, JsonVal)>) -> Option<JsonVal>
    decreases entries.len(),
{
    if entries.len() == 0 {
        None
    } else if has_value(json_get(entries[0].1, "value"@)) {
        json_get(entries[0].1, "value"@)
    } else {
        spec_first_example_value(entries.drop_first())
    }
}

/// A parameter's example: its own `example`, else the first usable entry of
/// its `examples` map, else one synthesized from its `schema`.
pub open spec fn spec_param_example(doc: JsonVal, param: JsonVal) -> Option<JsonVal> {
    let r = spec_resolve_ref(doc, param, 0);
    let ex = json_get(r, "example"@);
    if has_value(ex) {
        ex
    } else {
        match spec_first_example_value(obj_entries(json_get(r, "examples"@))) {
            Some(v) => Some(v),
            None => match json_get(r, "schema"@) {
                Some(sch) => spec_build_example(doc, sch, 0),
                None => None,
            },
        }
    }
}

/// A request body's example, taken from its `application/json` media type
/// alone: the declared `example`, else the first usable named example, else
/// one synthesized from the schema.
pub open spec fn spec_body_example(doc: JsonVal, rb: JsonVal) -> Option<JsonVal> {
    let r = spec_resolve_ref(doc, rb, 0);
    match json_get(r, "content"@) {
        None => None,
        Some(content) => match json_get(content, "application/json"@) {
            None => None,
            Some(jc) => {
                let ex = json_get(jc, "example"@);
                if has_value(ex) {
                    ex
                } else {
                    match spec_first_example_value(obj_entries(json_get(jc, "examples"@))) {
                        Some(v) => Some(v),
                        None => match json_get(jc, "schema"@) {
                            Some(sch) => spec_build_example(doc, sch, 0),
                            None => None,
                        },
                    }
                }
            },
        },
    }
}

/// A request body's description: its own, else its JSON schema's.
pub open spec fn spec_body_description(doc: JsonVal, rb: JsonVal) -> Option<Seq<char>> {
    let r = spec_resolve_ref(doc, rb, 0);
    match str_entry(r, "description"@) {
        Some(d) => Some(d),
        None => match json_get(r, "content"@) {
            Some(content) => match json_get(content, "application/json"@) {
                Some(jc) => match json_get(jc, "schema"@) {
                    Some(sch) => str_entry(spec_resolve_ref(doc, sch, 0), "description"@),
                    None => None,
                },
                None => None,
            },
            None => None,
        },
    }
}

/// The keys of a sequence of object entries, in order.
pub open spec fn keys_of(entries: Seq<(Seq<char>, JsonVal)>) -> Seq<Seq<char>> {
    Seq::new(entries.len(), |i: int| entries[i].0)
}

/// The media types a request body declares, in entry order.
pub open spec fn spec_media_types(doc: JsonVal, rb: JsonVal) -> Seq<Seq<char>> {
    let r = spec_resolve_ref(doc, rb, 0);
    keys_of(obj_entries(json_get(r, "content"@)))
}

/// Whether a schema, once resolved, is a binary string: `type: string` with
/// `format` either `binary` or `base64`.
pub open spec fn spec_is_binary(doc: JsonVal, schema: JsonVal) -> bool {
    let r = spec_resolve_ref(doc, schema, 0);
    let fmt = str_entry(r, "format"@);
    declared_type(r) == Some("string"@) && (fmt == Some("binary"@) || fmt == Some("base64"@))
}

/// Whether the `required` list of a schema names `name`.
pub open spec fn req_contains(req: Seq<JsonVal>, name: Seq<char>) -> bool {
    exists|i: int| 0 <= i < req.len() && req[i] == JsonVal::Str(name)
}

/// The field derived from one body-schema property.
pub open spec fn spec_form_field(
    doc: JsonVal,
    name: Seq<char>,
    prop: JsonVal,
    req: Seq<JsonVal>,
) -> BodyFieldVal {
    let rp = spec_resolve_ref(doc, prop, 0);
    let file0 = spec_is_binary(doc, rp);
    let arr_item_binary = declared_type(rp) == Some("array"@) && (match json_get(rp, "items"@) {
        Some(it) => spec_is_binary(doc, it),
        None => false,
    });
    BodyFieldVal {
        name: name,
        description: str_entry(rp, "description"@),
        required: req_contains(req, name),
        is_file: file0 || (!file0 && arr_item_binary),
        is_array: !file0 && arr_item_binary,
    }
}

/// The `required` list of a resolved body schema, or nothing.
pub open spec fn req_list(sch: JsonVal) -> Seq<JsonVal> {
    match json_get(sch, "required"@) {
        Some(JsonVal::Arr(items)) => items,
        _ => Seq::empty(),
    }
}

/// The fields of a request body's schema under one media type: one per
/// property, in property order; an absent schema or property list yields
/// none.
pub open spec fn spec_form_fields(
    doc: JsonVal,
    rb: JsonVal,
    content_type: Seq<char>,
) -> Seq<BodyFieldVal> {
    let r = spec_resolve_ref(doc, rb, 0);
    match json_get(r, "content"@) {
        Some(content) => match json_get(content, content_type) {
            Some(mt) => match json_get(mt, "schema"@) {
                Some(sch0) => {
                    let sch = spec_resolve_ref(doc, sch0, 0);
                    let req = req_list(sch);
                    match json_get(sch, "properties"@) {
                        Some(JsonVal::Obj(props)) => Seq::new(
                            props.len(),
                            |i: int| spec_form_field(doc, props[i].0, props[i].1, req),
                        ),
                        _ => Seq::empty(),
                    }
                },
                None => Seq::empty(),
            },
            None => Seq::empty(),
        },
        None => Seq::empty(),
    }
}

/// A binary-string property yields a file field that is not an array; the
/// same format under an array's `items` yields a file field that is.
pub proof fn lemma_binary_fields(doc: JsonVal, name: Seq<char>, prop: JsonVal, req: Seq<JsonVal>)
    ensures
        spec_is_binary(doc, spec_resolve_ref(doc, prop, 0)) ==> spec_form_field(
            doc,
            name,
            prop,
            req,
        ).is_file && !spec_form_field(doc, name, prop, req).is_array,
        ({
            let rp = spec_resolve_ref(doc, prop, 0);
            &&& !spec_is_binary(doc, rp)
            &&& declared_type(rp) == Some("array"@)
            &&& match json_get(rp, "items"@) {
                Some(it) => spec_is_binary(doc, it),
                None => false,
            }
        }) ==> spec_form_field(doc, name, prop, req).is_file && spec_form_field(
            doc,
            name,
            prop,
            req,
        ).is_array,
{
}

/// A parameter node's example, after the parameter precedence.
pub fn extract_parameter_example(doc: &Json, param: &Json) -> (r: Option<Json>)
    ensures
        match r {
            Some(j) => spec_param_example(doc@, param@) == Some(j@),
            None => spec_param_example(doc@, param@) is None,
        },
{
    let resolved = Json::resolve_ref(doc, param, 0);
    if let Some(example) = resolved.get("example") {
        if !example.is_null() {
            return Some(example.duplicate());
        }
    }
    if let Some(examples_node) = resolved.get("examples") {
        if let Some(entries) = examples_node.as_object() {
            if let Some(v) = first_example_value(entries) {
                return Some(v);
            }
        }
    }
    if let Some(schema) = resolved.get("schema") {
        if let Some(example) = build_example_from_schema(doc, schema, 0) {
            return Some(example);
        }
        return None;
    }
    None
}

/// The first named example with a usable `value`, among object entries.
fn first_example_value(entries: &Vec<(String, Json)>) -> (r: Option<Json>)
    ensures
        match r {
            Some(j) => spec_first_example_value(obj_view(entries@)) == Some(j@),
            None => spec_first_example_value(obj_view(entries@)) is None,
        },
{
    let ghost model = obj_view(entries@);
    proof {
        lemma_obj_view_len(entries@);
        assert(model.skip(0) =~= model);
    }
    let n = entries.len();
    let mut i: usize = 0;
    while i < n
        invariant
            n == entries@.len(),
            i <= n,
            model == obj_view(entries@),
            model.len() == n,
            spec_first_example_value(model) == spec_first_example_value(model.skip(i as int)),
        decreases n - i,
    {
        proof {
            lemma_obj_view_index(entries@, i as int);
            assert(model.skip(i as int)[0] == model[i as int]);
            assert(model.skip(i as int).drop_first() =~= model.skip(i as int + 1));
        }
        if let Some(value) = entries[i].1.get("value") {
            if !value.is_null() {
                return Some(value.duplicate());
            }
        }
        i = i + 1;
    }
    proof {
        assert(model.skip(n as int) =~= Seq::<(Seq<char>, JsonVal)>::empty());
    }
    None
}

/// A request body's `application/json` example, serialized later by the
/// caller; `None` when no JSON media type is declared or nothing is
/// derivable.
pub fn extract_request_body_example(doc: &Json, request_body: &Json) -> (r: Option<Json>)
    ensures
        match r {
            Some(j) => spec_body_example(doc@, request_body@) == Some(j@),
            None => spec_body_example(doc@, request_body@) is None,
        },
{
    let resolved = Json::resolve_ref(doc, request_body, 0);
    let content = match resolved.get("content") {
        Some(c) => c,
        None => {
            return None;
        },
    };
    let json_content = match content.get("application/json") {
        Some(c) => c,
        None => {
            return None;
        },
    };
    if let Some(example) = json_content.get("example") {
        if !example.is_null() {
            return Some(example.duplicate());
        }
    }
    if let Some(examples_node) = json_content.get("examples") {
        if let Some(entries) = examples_node.as_object() {
            if let Some(v) = first_example_value(entries) {
                return Some(v);
            }
        }
    }
    if let Some(schema) = json_content.get("schema") {
        if let Some(example) = build_example_from_schema(doc, schema, 0) {
            return Some(example);
        }
        return None;
    }
    None
}

/// A request body's description, from the body or its JSON schema.
pub fn extract_request_body_description(doc: &Json, request_body: &Json) -> (r: Option<String>)
    ensures
        match r {
            Some(d) => spec_body_description(doc@, request_body@) == Some(d@),
            None => spec_body_description(doc@, request_body@) is None,
        },
{
    let resolved = Json::resolve_ref(doc, request_body, 0);
    if let Some(desc_node) = resolved.get("description") {
        if let Some(desc) = desc_node.as_str() {
            return Some(desc.to_owned());
        }
    }
    if let Some(content) = resolved.get("content") {
        if let Some(jc) = content.get("application/json") {
            if let Some(schema) = jc.get("schema") {
                let sch = Json::resolve_ref(doc, schema, 0);
                if let Some(desc_node) = sch.get("description") {
                    if let Some(desc) = desc_node.as_str() {
                        return Some(desc.to_owned());
                    }
                }
            }
        }
    }
    None
}

/// The media types a request body declares, in entry order.
pub fn extract_request_body_media_types(doc: &Json, request_body: &Json) -> (r: Vec<String>)
    ensures
        crate::catalog::strings_view(r@) =~= spec_media_types(doc@, request_body@),
{
    let resolved = Json::resolve_ref(doc, request_body, 0);
    let mut out: Vec<String> = Vec::new();
    let content_entries = match resolved.get("content") {
        Some(c) => match c.as_object() {
            Some(entries) => entries,
            None => {
                return out;
            },
        },
        None => {
            return out;
        },
    };
    let ghost model = obj_view(content_entries@);
    proof {
        lemma_obj_view_len(content_entries@);
    }
    let n = content_entries.len();
    let mut i: usize = 0;
    while i < n
        invariant
            n == content_entries@.len(),
            i <= n,
            model == obj_view(content_entries@),
            model.len() == n,
            out@.len() == i,
            forall|j: int| 0 <= j < i ==> out@[j]@ == model[j].0,
        decreases n - i,
    {
        proof {
            lemma_obj_view_index(content_entries@, i as int);
        }
        out.push(content_entries[i].0.clone());
        i = i + 1;
    }
    out
}

/// Whether a schema is a binary string, in the sense of `spec_is_binary`.
pub fn is_binary_schema(doc: &Json, schema: &Json) -> (r: bool)
    ensures
        r == spec_is_binary(doc@, schema@),
{
    let resolved = Json::resolve_ref(doc, schema, 0);
    let is_string = match resolved.get("type") {
        Some(t) => match t.as_str() {
            Some(s) => str_eq(s, "string"),
            None => false,
        },
        None => false,
    };
    if !is_string {
        return false;
    }
    match resolved.get("format") {
        Some(f) => match f.as_str() {
            Some(s) => {
                if str_eq(s, "binary") {
                    true
                } else {
                    str_eq(s, "base64")
                }
            },
            None => false,
        },
        None => false,
    }
}

/// Whether the `required` array names `name`.
fn required_names(req: &Vec<Json>, name: &str) -> (r: bool)
    ensures
        r == req_contains(arr_view(req@), name@),
{
    let ghost model = arr_view(req@);
    proof {
        lemma_arr_view_len(req@);
    }
    let n = req.len();
    let mut i: usize = 0;
    while i < n
        invariant
            n == req@.len(),
            i <= n,
            model == arr_view(req@),
            model.len() == n,
            forall|j: int| 0 <= j < i ==> model[j] != JsonVal::Str(name@),
        decreases n - i,
    {
        proof {
            lemma_arr_view_index(req@, i as int);
        }
        if let Some(s) = req[i].as_str() {
            if str_eq(s, name) {
                proof {
                    assert(model[i as int] == JsonVal::Str(name@));
                }
                return true;
            }
        }
        i = i + 1;
    }
    false
}

/// The body fields of a request body under one media type, one per
/// property of the resolved schema, in property order.
pub fn extract_form_fields(doc: &Json, request_body: &Json, content_type: &str) -> (r: Vec<
    BodyField,
>)
    ensures
        fields_view(r@) =~= spec_form_fields(doc@, request_body@, content_type@),
{
    let out: Vec<BodyField> = Vec::new();
    let resolved = Json::resolve_ref(doc, request_body, 0);
    let schema_node = match resolved.get("content") {
        Some(content) => match content.get(content_type) {
            Some(mt) => match mt.get("schema") {
                Some(sch) => sch,
                None => {
                    return out;
                },
            },
            None => {
                return out;
            },
        },
        None => {
            return out;
        },
    };
    let schema = Json::resolve_ref(doc, schema_node, 0);
    let empty_req: Vec<Json> = Vec::new();
    let required_items: &Vec<Json> = match schema.get("required") {
        Some(req_node) => match req_node.as_array() {
            Some(items) => items,
            None => &empty_req,
        },
        None => &empty_req,
    };
    proof {
        assert(arr_view(empty_req@) =~= Seq::<JsonVal>::empty());
    }
    let props = match schema.get("properties") {
        Some(props_node) => match props_node.as_object() {
            Some(entries) => entries,
            None => {
                return out;
            },
        },
        None => {
            return out;
        },
    };
    let ghost req_model = arr_view(required_items@);
    let ghost pm = obj_view(props@);
    proof {
        lemma_obj_view_len(props@);
        assert(req_model == req_list(spec_resolve_ref(doc@, schema_node@, 0)));
    }
    let mut fields = out;
    let n = props.len();
    let mut i: usize = 0;
    while i < n
        invariant
            n == props@.len(),
            i <= n,
            pm == obj_view(props@),
            pm.len() == n,
            req_model == arr_view(required_items@),
            fields@.len() == i,
            forall|j: int| 0 <= j < i ==> fields@[j]@ == spec_form_field(
                doc@,
                pm[j].0,
                pm[j].1,
                req_model,
            ),
        decreases n - i,
    {
        proof {
            lemma_obj_view_index(props@, i as int);
        }
        let name = props[i].0.clone();
        let prop_schema = &props[i].1;
        let resolved_prop = Json::resolve_ref(doc, prop_schema, 0);
        let description: Option<String> = match resolved_prop.get("description") {
            Some(d) => match d.as_str() {
                Some(s) => Some(s.to_owned()),
                None => None,
            },
            None => None,
        };
        let mut is_file = is_binary_schema(doc, resolved_prop);
        let mut is_array = false;
        if !is_file {
            let is_arr_type = match resolved_prop.get("type") {
                Some(t) => match t.as_str() {
                    Some(s) => str_eq(s, "array"),
                    None => false,
                },
                None => false,
            };
            if is_arr_type {
                if let Some(items) = resolved_prop.get("items") {
                    if is_binary_schema(doc, items) {
                        is_file = true;
                        is_array = true;
                    }
                }
            }
        }
        let required = required_names(required_items, name.as_str());
        fields.push(
            BodyField { name, description, required, is_file, is_array },
        );
        i = i + 1;
    }
    fields
}

} // verus!
