//! Example synthesis: given a schema node, produce a representative example
//! value. Precedence: a declared `example`, then `default`, then the first
//! `enum` entry, then the first alternative of `oneOf`/`anyOf` that yields
//! one, then a zero value for the declared `type`. Recursion is bounded at
//! six levels; beyond that no example is produced.

use vstd::prelude::*;

use crate::json::{
    arr_view, json_as_str, json_get, lemma_arr_view_index, lemma_arr_view_len,
    json_view, lemma_obj_view_index, lemma_obj_view_len, lemma_obj_view_push, obj_view, str_eq, Json, JsonVal,
};
use crate::resolver::spec_resolve_ref;

verus! {

/// Whether a looked-up entry is present and not null.
pub open spec fn has_value(o: Option<JsonVal>) -> bool {
    match o {
        Some(v) => !(v is Null),
        None => false,
    }
}

/// The first element of a declared `enum` list, if there is one.
pub open spec fn enum_first(o: Option<JsonVal>) -> Option<JsonVal> {
    match o {
        Some(JsonVal::Arr(items)) => if items.len() > 0 {
            Some(items[0])
        } else {
            None
        },
        _ => None,
    }
}

/// The `example` / `default` / first-`enum`-entry precedence, applied to the
/// resolved form of `schema`.
pub open spec fn spec_schema_example(doc: JsonVal, schema: JsonVal) -> Option<JsonVal> {
    let r = spec_resolve_ref(doc, schema, 0);
    let ex = json_get(r, "example"@);
    let df = json_get(r, "default"@);
    if has_value(ex) {
        ex
    } else if has_value(df) {
        df
    } else {
        enum_first(json_get(r, "enum"@))
    }
}

/// The elements of a `oneOf`/`anyOf` entry, when it is an array.
pub open spec fn alt_list(o: Option<JsonVal>) -> Seq<JsonVal> {
    match o {
        Some(JsonVal::Arr(items)) => items,
        _ => Seq::empty(),
    }
}

/// The declared `type` of a resolved schema node, when it is a string.
pub open spec fn declared_type(r: JsonVal) -> Option<Seq<char>> {
    match json_get(r, "type"@) {
        Some(t) => json_as_str(t),
        None => None,
    }
}

/// The entries of a resolved schema node's `properties`, when it is an
/// object.
pub open spec fn props_list(r: JsonVal) -> Seq<(Seq<char>, JsonVal)> {
    match json_get(r, "properties"@) {
        Some(JsonVal::Obj(entries)) => entries,
        _ => Seq::empty(),
    }
}

/// Synthesis for a whole schema node. `depth` counts the levels already
/// walked; above six, no example.
pub open spec fn spec_build_example(doc: JsonVal, schema: JsonVal, depth: int) -> Option<JsonVal>
    decreases 7 - depth, 3int, 0int,
{
    if depth > 6 {
        None
    } else {
        let r = spec_resolve_ref(doc, schema, 0);
        match spec_schema_example(doc, r) {
            Some(e) => Some(e),
            None => match spec_first_alt(doc, alt_list(json_get(r, "oneOf"@)), depth) {
                Some(e) => Some(e),
                None => match spec_first_alt(doc, alt_list(json_get(r, "anyOf"@)), depth) {
                    Some(e) => Some(e),
                    None => spec_type_dispatch(doc, r, depth),
                },
            },
        }
    }
}

/// The first alternative that synthesis succeeds on, in declared order.
pub open spec fn spec_first_alt(doc: JsonVal, alts: Seq<JsonVal>, depth: int) -> Option<JsonVal>
    decreases 7 - depth, 2int, alts.len(),
{
    if depth > 6 {
        None
    } else if alts.len() == 0 {
        None
    } else {
        match spec_build_example(doc, alts[0], depth + 1) {
            Some(e) => Some(e),
            None => spec_first_alt(doc, alts.drop_first(), depth),
        }
    }
}

/// Synthesis by declared `type` (with `properties` alone implying an
/// object): an object of the properties' examples, a one-element array of
/// the item example, or the zero value of a primitive type.
pub open spec fn spec_type_dispatch(doc: JsonVal, r: JsonVal, depth: int) -> Option<JsonVal>
    decreases 7 - depth, 1int, 0int,
{
    if depth > 6 {
        None
    } else {
        let ty = declared_type(r);
        if ty == Some("object"@) || json_get(r, "properties"@) is Some {
            Some(JsonVal::Obj(spec_props_example(doc, props_list(r), depth)))
        } else if ty == Some("array"@) {
            match json_get(r, "items"@) {
                Some(it) => match spec_build_example(doc, it, depth + 1) {
                    Some(e) => Some(JsonVal::Arr(seq![e])),
                    None => Some(JsonVal::Arr(Seq::empty())),
                },
                None => Some(JsonVal::Arr(Seq::empty())),
            }
        } else if ty == Some("integer"@) {
            Some(JsonVal::Num("0"@))
        } else if ty == Some("number"@) {
            Some(JsonVal::Num("0.0"@))
        } else if ty == Some("boolean"@) {
            Some(JsonVal::Bool(false))
        } else if ty == Some("string"@) {
            Some(JsonVal::Str(Seq::empty()))
        } else {
            None
        }
    }
}

/// One object entry per property whose schema yields an example, in
/// property order.
pub open spec fn spec_props_example(
    doc: JsonVal,
    props: Seq<(Seq<char>, JsonVal)>,
    depth: int,
) -> Seq<(Seq<char>, JsonVal)>
    decreases 7 - depth, 0int, props.len(),
{
    if depth > 6 {
        Seq::empty()
    } else if props.len() == 0 {
        Seq::empty()
    } else {
        let prev = spec_props_example(doc, props.drop_last(), depth);
        match spec_build_example(doc, props.last().1, depth + 1) {
            Some(e) => prev.push((props.last().0, e)),
            None => prev,
        }
    }
}

/// Synthesis precedence: for a schema that is its own resolution, a
/// non-null declared `example` is what synthesis yields, whatever else the
/// schema declares (in particular a `default`).
pub proof fn lemma_example_precedence(doc: JsonVal, schema: JsonVal, depth: int)
    requires
        depth <= 6,
        crate::resolver::ref_target(doc, schema) is None,
        has_value(json_get(schema, "example"@)),
    ensures
        spec_build_example(doc, schema, depth) == json_get(schema, "example"@),
{
    assert(spec_resolve_ref(doc, schema, 0) == schema);
}

/// With no usable `example` or `default`, a non-empty `enum` yields its
/// first element.
pub proof fn lemma_enum_first(doc: JsonVal, schema: JsonVal, depth: int, items: Seq<JsonVal>)
    requires
        depth <= 6,
        crate::resolver::ref_target(doc, schema) is None,
        !has_value(json_get(schema, "example"@)),
        !has_value(json_get(schema, "default"@)),
        json_get(schema, "enum"@) == Some(JsonVal::Arr(items)),
        items.len() > 0,
    ensures
        spec_build_example(doc, schema, depth) == Some(items[0]),
{
    assert(spec_resolve_ref(doc, schema, 0) == schema);
}

/// A declared `example`, `default` or first `enum` entry of `schema`, once
/// resolved; `None` when the schema declares none of the three.
pub fn extract_schema_example(doc: &Json, schema: &Json) -> (r: Option<Json>)
    ensures
        match r {
            Some(j) => spec_schema_example(doc@, schema@) == Some(j@),
            None => spec_schema_example(doc@, schema@) is None,
        },
{
    let resolved = Json::resolve_ref(doc, schema, 0);
    if let Some(example) = resolved.get("example") {
        if !example.is_null() {
            return Some(example.duplicate());
        }
    }
    if let Some(default) = resolved.get("default") {
        if !default.is_null() {
            return Some(default.duplicate());
        }
    }
    if let Some(enum_node) = resolved.get("enum") {
        if let Some(enum_values) = enum_node.as_array() {
            if enum_values.len() > 0 {
                proof {
                    lemma_arr_view_index(enum_values@, 0);
                }
                return Some(enum_values[0].duplicate());
            }
        }
    }
    None
}

/// A synthesized example for `schema`, or `None` when none is derivable
/// within the depth budget.
pub fn build_example_from_schema(doc: &Json, schema: &Json, depth: u32) -> (r: Option<Json>)
    ensures
        match r {
            Some(j) => spec_build_example(doc@, schema@, depth as int) == Some(j@),
            None => spec_build_example(doc@, schema@, depth as int) is None,
        },
    decreases 7 - depth as int, 3int, 0int,
{
    if depth > 6 {
        return None;
    }
    let resolved = Json::resolve_ref(doc, schema, 0);
    if let Some(example) = extract_schema_example(doc, resolved) {
        return Some(example);
    }
    if let Some(one_node) = resolved.get("oneOf") {
        if let Some(one_of) = one_node.as_array() {
            if let Some(example) = first_alternative(doc, one_of, depth) {
                return Some(example);
            }
        }
    }
    if let Some(any_node) = resolved.get("anyOf") {
        if let Some(any_of) = any_node.as_array() {
            if let Some(example) = first_alternative(doc, any_of, depth) {
                return Some(example);
            }
        }
    }
    let ty: Option<&str> = match resolved.get("type") {
        Some(t) => t.as_str(),
        None => None,
    };
    let is_object = match ty {
        Some(t) => str_eq(t, "object"),
        None => false,
    };
    let has_props = resolved.get("properties").is_some();
    if is_object || has_props {
        let mut out: Vec<(String, Json)> = Vec::new();
        if let Some(props_node) = resolved.get("properties") {
            if let Some(props) = props_node.as_object() {
                let ghost pm = obj_view(props@);
                proof {
                    lemma_obj_view_len(props@);
                    assert(pm.take(0) =~= Seq::empty());
                }
                let n = props.len();
                let mut i: usize = 0;
                while i < n
                    invariant
                        depth <= 6,
                        n == props@.len(),
                        i <= n,
                        pm == obj_view(props@),
                        pm.len() == n,
                        obj_view(out@) =~= spec_props_example(doc@, pm.take(i as int), depth as int),
                    decreases n - i,
                {
                    proof {
                        lemma_obj_view_index(props@, i as int);
                        assert(pm.take(i as int + 1).drop_last() =~= pm.take(i as int));
                        assert(pm.take(i as int + 1).last() == pm[i as int]);
                    }
                    if let Some(example) = build_example_from_schema(doc, &props[i].1, depth + 1) {
                        let name = props[i].0.clone();
                        proof {
                            lemma_obj_view_push(out@, name, example);
                        }
                        out.push((name, example));
                    }
                    i = i + 1;
                }
                proof {
                    assert(pm.take(n as int) =~= pm);
                }
            }
        }
        proof {
            if !(json_get(resolved@, "properties"@) matches Some(JsonVal::Obj(_))) {
                assert(props_list(resolved@) =~= Seq::<(Seq<char>, JsonVal)>::empty());
                assert(spec_props_example(doc@, props_list(resolved@), depth as int)
                    =~= Seq::<(Seq<char>, JsonVal)>::empty());
            }
        }
        return Some(Json::Obj(out));
    }
    let is_array = match ty {
        Some(t) => str_eq(t, "array"),
        None => false,
    };
    if is_array {
        if let Some(items) = resolved.get("items") {
            if let Some(example) = build_example_from_schema(doc, items, depth + 1) {
                let ghost ev = example@;
                let mut single: Vec<Json> = Vec::new();
                single.push(example);
                proof {
                    assert(single@.len() == 1);
                    assert(single@.last() == example);
                    assert(json_view(example) == ev);
                    assert(single@.drop_last() =~= Seq::<Json>::empty());
                    assert(arr_view(single@.drop_last()) =~= Seq::<JsonVal>::empty());
                    assert(arr_view(single@) =~= Seq::<JsonVal>::empty().push(ev));
                    assert(Seq::<JsonVal>::empty().push(ev) =~= seq![ev]);
                }
                return Some(Json::Arr(single));
            }
        }
        let empty_items: Vec<Json> = Vec::new();
        proof {
            assert(arr_view(empty_items@) =~= Seq::<JsonVal>::empty());
        }
        return Some(Json::Arr(empty_items));
    }
    let is_integer = match ty {
        Some(t) => str_eq(t, "integer"),
        None => false,
    };
    if is_integer {
        return Some(Json::Num("0".to_owned()));
    }
    let is_number = match ty {
        Some(t) => str_eq(t, "number"),
        None => false,
    };
    if is_number {
        return Some(Json::Num("0.0".to_owned()));
    }
    let is_boolean = match ty {
        Some(t) => str_eq(t, "boolean"),
        None => false,
    };
    if is_boolean {
        return Some(Json::Bool(false));
    }
    let is_string = match ty {
        Some(t) => str_eq(t, "string"),
        None => false,
    };
    if is_string {
        let empty = String::new();
        return Some(Json::Str(empty));
    }
    None
}

/// Synthesis over a list of `oneOf`/`anyOf` alternatives: the first that
/// yields an example.
fn first_alternative(doc: &Json, alts: &Vec<Json>, depth: u32) -> (r: Option<Json>)
    requires
        depth <= 6,
    ensures
        match r {
            Some(j) => spec_first_alt(doc@, arr_view(alts@), depth as int) == Some(j@),
            None => spec_first_alt(doc@, arr_view(alts@), depth as int) is None,
        },
    decreases 7 - depth as int, 2int, 0int,
{
    let ghost am = arr_view(alts@);
    proof {
        lemma_arr_view_len(alts@);
        assert(am.skip(0) =~= am);
    }
    let n = alts.len();
    let mut i: usize = 0;
    while i < n
        invariant
            depth <= 6,
            n == alts@.len(),
            i <= n,
            am == arr_view(alts@),
            am.len() == n,
            spec_first_alt(doc@, am, depth as int) == spec_first_alt(
                doc@,
                am.skip(i as int),
                depth as int,
            ),
        decreases n - i,
    {
        proof {
            lemma_arr_view_index(alts@, i as int);
            assert(am.skip(i as int)[0] == am[i as int]);
        }
        if let Some(example) = build_example_from_schema(doc, &alts[i], depth + 1) {
            return Some(example);
        }
        proof {
            assert(am.skip(i as int).drop_first() =~= am.skip(i as int + 1));
        }
        i = i + 1;
    }
    proof {
        assert(am.skip(n as int) =~= Seq::<JsonVal>::empty());
    }
    None
}

} // verus!
