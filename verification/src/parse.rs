//! The Collection Builder: walks a whole OpenAPI document's path/operation
//! tree, merges path-level and operation-level parameters, extracts request
//! bodies, and groups the endpoints by their first tag.

use vstd::prelude::*;

use crate::catalog::{
    endpoints_view, fields_view, lemma_endpoints_view_push, groups_view, opt_str_view, params_view, strings_view, BodyField,
    Collection, CollectionVal, Endpoint, EndpointVal, Parameter, ParameterVal,
};
use crate::extract::{
    extract_form_fields, extract_request_body_description, extract_request_body_example,
    extract_request_body_media_types, spec_body_description, spec_body_example, spec_form_fields,
    spec_media_types, spec_param_example, extract_parameter_example, str_entry,
};
use crate::json::{
    arr_view, json_as_str, json_get, lemma_arr_view_index, lemma_arr_view_len,
    lemma_obj_view_index, lemma_obj_view_len, obj_view, str_eq, Json, JsonVal,
};
use crate::outside::{json_parse, json_text, json_to_text, parse_json_text, to_upper, upper_of};
use crate::resolver::spec_resolve_ref;

verus! {

use vstd::string::StrSliceExecFns;
use vstd::string::StringExecFns;

/// `s` without its trailing run of `c` characters.
pub open spec fn strip_trailing(s: Seq<char>, c: char) -> Seq<char>
    decreases s.len(),
{
    if s.len() > 0 && s.last() == c {
        strip_trailing(s.drop_last(), c)
    } else {
        s
    }
}

/// The document's base URL: `servers[0].url` with trailing `/` removed,
/// empty when the document declares none.
pub open spec fn spec_base_url(doc: JsonVal) -> Seq<char> {
    let first = match json_get(doc, "servers"@) {
        Some(JsonVal::Arr(items)) => if items.len() > 0 {
            Some(items[0])
        } else {
            None
        },
        _ => None,
    };
    let url = match first {
        Some(f) => str_entry(f, "url"@),
        None => None,
    };
    match url {
        Some(u) => strip_trailing(u, '/'),
        None => Seq::empty(),
    }
}

/// The group tag of an operation: its first declared tag when that is a
/// string, else `Default`.
pub open spec fn spec_tag(details: JsonVal) -> Seq<char> {
    match json_get(details, "tags"@) {
        Some(JsonVal::Arr(tags)) => if tags.len() > 0 {
            match json_as_str(tags[0]) {
                Some(t) => t,
                None => "Default"@,
            }
        } else {
            "Default"@
        },
        _ => "Default"@,
    }
}

/// The entries of a node's `parameters` array, or nothing.
pub open spec fn params_nodes(v: JsonVal) -> Seq<JsonVal> {
    match json_get(v, "parameters"@) {
        Some(JsonVal::Arr(items)) => items,
        _ => Seq::empty(),
    }
}

/// One parameter, read from its (resolved) node: missing entries default —
/// an empty name, the `query` location, not required.
pub open spec fn spec_param(doc: JsonVal, node: JsonVal) -> ParameterVal {
    let r = spec_resolve_ref(doc, node, 0);
    ParameterVal {
        name: match str_entry(r, "name"@) {
            Some(n) => n,
            None => Seq::empty(),
        },
        in_type: match str_entry(r, "in"@) {
            Some(t) => t,
            None => "query"@,
        },
        description: match str_entry(r, "description"@) {
            Some(d) => Some(d),
            None => match json_get(r, "schema"@) {
                Some(sch) => str_entry(sch, "description"@),
                None => None,
            },
        },
        required: match json_get(r, "required"@) {
            Some(JsonVal::Bool(b)) => b,
            _ => false,
        },
        example: spec_param_example(doc, r),
    }
}

/// Whether the list already holds a parameter with this location and name.
pub open spec fn has_param_key(ps: Seq<ParameterVal>, it: Seq<char>, nm: Seq<char>) -> bool {
    exists|j: int| 0 <= j < ps.len() && ps[j].in_type == it && ps[j].name == nm
}

/// The merged parameter list: nodes in order, each dropped when an earlier
/// one already took its `(location, name)` key.
pub open spec fn spec_merge_params(doc: JsonVal, nodes: Seq<JsonVal>) -> Seq<ParameterVal>
    decreases nodes.len(),
{
    if nodes.len() == 0 {
        Seq::empty()
    } else {
        let prev = spec_merge_params(doc, nodes.drop_last());
        let p = spec_param(doc, nodes.last());
        if has_param_key(prev, p.in_type, p.name) {
            prev
        } else {
            prev.push(p)
        }
    }
}

/// Whether two parameters carry the same `(location, name)` key.
pub open spec fn same_key(a: ParameterVal, b: ParameterVal) -> bool {
    a.in_type == b.in_type && a.name == b.name
}

/// Parameter de-duplication: the merged list never holds two parameters
/// with one `(location, name)` key; every node's key is represented; and
/// every kept parameter was read from one of the nodes.
pub proof fn lemma_merge_params_dedup(doc: JsonVal, nodes: Seq<JsonVal>)
    ensures
        ({
            let ps = spec_merge_params(doc, nodes);
            &&& forall|x: int, y: int|
                #![trigger ps[x], ps[y]]
                0 <= x < y < ps.len() ==> !same_key(ps[x], ps[y])
            &&& forall|i: int|
                0 <= i < nodes.len() ==> has_param_key(
                    ps,
                    spec_param(doc, #[trigger] nodes[i]).in_type,
                    spec_param(doc, nodes[i]).name,
                )
            &&& forall|j: int|
                0 <= j < ps.len() ==> exists|i: int|
                    0 <= i < nodes.len() && #[trigger] ps[j] == spec_param(doc, nodes[i])
        }),
    decreases nodes.len(),
{
    if nodes.len() > 0 {
        lemma_merge_params_dedup(doc, nodes.drop_last());
        let rest = nodes.drop_last();
        let prev = spec_merge_params(doc, rest);
        let p = spec_param(doc, nodes.last());
        let ps = spec_merge_params(doc, nodes);
        assert(forall|i: int| 0 <= i < rest.len() ==> #[trigger] rest[i] == nodes[i]);
        if has_param_key(prev, p.in_type, p.name) {
            assert(ps == prev);
            assert forall|i: int| 0 <= i < nodes.len() implies has_param_key(
                ps,
                spec_param(doc, #[trigger] nodes[i]).in_type,
                spec_param(doc, nodes[i]).name,
            ) by {
                if i < nodes.len() - 1 {
                    assert(has_param_key(
                        prev,
                        spec_param(doc, rest[i]).in_type,
                        spec_param(doc, rest[i]).name,
                    ));
                }
            }
            assert forall|j: int| 0 <= j < ps.len() implies exists|i: int|
                0 <= i < nodes.len() && #[trigger] ps[j] == spec_param(doc, nodes[i]) by {
                let w = choose|i: int| 0 <= i < rest.len() && ps[j] == spec_param(doc, rest[i]);
                assert(ps[j] == spec_param(doc, nodes[w]));
            }
        } else {
            assert(ps == prev.push(p));
            assert forall|x: int, y: int|
                #![trigger ps[x], ps[y]]
                0 <= x < y < ps.len() implies !same_key(ps[x], ps[y]) by {
                if y < prev.len() {
                    assert(ps[x] == prev[x] && ps[y] == prev[y]);
                } else {
                    assert(ps[y] == p);
                    assert(ps[x] == prev[x]);
                    if same_key(prev[x], p) {
                        assert(has_param_key(prev, p.in_type, p.name));
                    }
                }
            }
            assert forall|i: int| 0 <= i < nodes.len() implies has_param_key(
                ps,
                spec_param(doc, #[trigger] nodes[i]).in_type,
                spec_param(doc, nodes[i]).name,
            ) by {
                if i < nodes.len() - 1 {
                    assert(has_param_key(
                        prev,
                        spec_param(doc, rest[i]).in_type,
                        spec_param(doc, rest[i]).name,
                    ));
                    let w = choose|j: int|
                        0 <= j < prev.len() && prev[j].in_type == spec_param(doc, rest[i]).in_type
                            && prev[j].name == spec_param(doc, rest[i]).name;
                    assert(ps[w] == prev[w]);
                } else {
                    assert(ps[prev.len() as int] == p);
                }
            }
            assert forall|j: int| 0 <= j < ps.len() implies exists|i: int|
                0 <= i < nodes.len() && #[trigger] ps[j] == spec_param(doc, nodes[i]) by {
                if j < prev.len() {
                    assert(ps[j] == prev[j]);
                    let w = choose|i: int|
                        0 <= i < rest.len() && prev[j] == spec_param(doc, rest[i]);
                    assert(ps[j] == spec_param(doc, nodes[w]));
                } else {
                    assert(ps[j] == spec_param(doc, nodes[nodes.len() - 1]));
                }
            }
        }
    }
}

/// First occurrence wins: a node whose `(location, name)` key no earlier
/// node bears is the one whose parameter the merged list keeps. With the
/// path-level nodes placed before the operation-level ones, a path-level
/// parameter therefore suppresses a same-keyed operation-level one.
pub proof fn lemma_merge_params_first_wins(doc: JsonVal, nodes: Seq<JsonVal>, a: int)
    requires
        0 <= a < nodes.len(),
        forall|i: int|
            0 <= i < a ==> !same_key(spec_param(doc, #[trigger] nodes[i]), spec_param(doc, nodes[a])),
    ensures
        ({
            let ps = spec_merge_params(doc, nodes);
            exists|j: int| 0 <= j < ps.len() && #[trigger] ps[j] == spec_param(doc, nodes[a])
        }),
    decreases nodes.len(),
{
    let rest = nodes.drop_last();
    let prev = spec_merge_params(doc, rest);
    let p = spec_param(doc, nodes.last());
    let ps = spec_merge_params(doc, nodes);
    assert(forall|i: int| 0 <= i < rest.len() ==> #[trigger] rest[i] == nodes[i]);
    if a < nodes.len() - 1 {
        lemma_merge_params_first_wins(doc, rest, a);
        let w = choose|j: int| 0 <= j < prev.len() && prev[j] == spec_param(doc, rest[a]);
        if has_param_key(prev, p.in_type, p.name) {
            assert(ps[w] == spec_param(doc, nodes[a]));
        } else {
            assert(ps[w] == prev[w]);
            assert(ps[w] == spec_param(doc, nodes[a]));
        }
    } else {
        if has_param_key(prev, p.in_type, p.name) {
            lemma_merge_params_dedup(doc, rest);
            let w = choose|j: int|
                0 <= j < prev.len() && prev[j].in_type == p.in_type && prev[j].name == p.name;
            let w2 = choose|i: int| 0 <= i < rest.len() && prev[w] == spec_param(doc, rest[i]);
            assert(same_key(spec_param(doc, nodes[w2]), spec_param(doc, nodes[a])));
            assert(false);
        } else {
            assert(ps[prev.len() as int] == spec_param(doc, nodes[a]));
        }
    }
}

/// The merge laws, located at the endpoint: an operation's parameter list
/// (path-level nodes first, then operation-level ones) never holds two
/// parameters with one `(location, name)` key, and a path-level node whose
/// key no earlier path-level node bears is the one whose parameter is kept,
/// suppressing any same-keyed operation-level node.
pub proof fn lemma_endpoint_params_dedup(
    doc: JsonVal,
    base: Seq<char>,
    path: Seq<char>,
    method: Seq<char>,
    path_params: Seq<JsonVal>,
    details: JsonVal,
)
    ensures
        ({
            let ps = spec_endpoint(doc, base, path, method, path_params, details).parameters;
            forall|x: int, y: int|
                #![trigger ps[x], ps[y]]
                0 <= x < y < ps.len() ==> !same_key(ps[x], ps[y])
        }),
        forall|a: int|
            #![trigger path_params[a]]
            (0 <= a < path_params.len() && (forall|i: int|
                0 <= i < a ==> !same_key(
                    spec_param(doc, #[trigger] path_params[i]),
                    spec_param(doc, path_params[a]),
                ))) ==> ({
                let ps = spec_endpoint(doc, base, path, method, path_params, details).parameters;
                exists|j: int|
                    0 <= j < ps.len() && #[trigger] ps[j] == spec_param(doc, path_params[a])
            }),
{
    let nodes = path_params + params_nodes(details);
    lemma_merge_params_dedup(doc, nodes);
    assert forall|a: int|
        #![trigger path_params[a]]
        (0 <= a < path_params.len() && (forall|i: int|
            0 <= i < a ==> !same_key(
                spec_param(doc, #[trigger] path_params[i]),
                spec_param(doc, path_params[a]),
            ))) implies ({
        let ps = spec_endpoint(doc, base, path, method, path_params, details).parameters;
        exists|j: int| 0 <= j < ps.len() && #[trigger] ps[j] == spec_param(doc, path_params[a])
    }) by {
        assert(forall|i: int| 0 <= i < path_params.len() ==> #[trigger] nodes[i] == path_params[i]);
        assert forall|i: int| 0 <= i < a implies !same_key(
            spec_param(doc, #[trigger] nodes[i]),
            spec_param(doc, nodes[a]),
        ) by {
            assert(nodes[i] == path_params[i]);
            assert(nodes[a] == path_params[a]);
            assert(!same_key(spec_param(doc, path_params[i]), spec_param(doc, path_params[a])));
        }
        lemma_merge_params_first_wins(doc, nodes, a);
        let merged = spec_merge_params(doc, nodes);
        let w = choose|j: int| 0 <= j < merged.len() && merged[j] == spec_param(doc, nodes[a]);
        let ps = spec_endpoint(doc, base, path, method, path_params, details).parameters;
        assert(ps[w] == spec_param(doc, path_params[a]));
    }
}

/// Whether `ss` holds the string `x`.
pub open spec fn contains_str(ss: Seq<Seq<char>>, x: Seq<char>) -> bool {
    exists|i: int| 0 <= i < ss.len() && ss[i] == x
}

/// One endpoint, assembled from its operation node.
pub open spec fn spec_endpoint(
    doc: JsonVal,
    base: Seq<char>,
    path: Seq<char>,
    method: Seq<char>,
    path_params: Seq<JsonVal>,
    details: JsonVal,
) -> EndpointVal {
    let rb = json_get(details, "requestBody"@);
    let media = match rb {
        Some(b) => spec_media_types(doc, b),
        None => Seq::empty(),
    };
    let has_mp = contains_str(media, "multipart/form-data"@);
    let has_ue = contains_str(media, "application/x-www-form-urlencoded"@);
    EndpointVal {
        method: upper_of(method),
        path: base + path,
        summary: str_entry(details, "summary"@),
        description: str_entry(details, "description"@),
        parameters: spec_merge_params(doc, path_params + params_nodes(details)),
        body_example: match rb {
            Some(b) => match spec_body_example(doc, b) {
                Some(e) => Some(json_text(e)),
                None => None,
            },
            None => None,
        },
        body_description: match rb {
            Some(b) => spec_body_description(doc, b),
            None => None,
        },
        body_required: match rb {
            Some(b) => match json_get(spec_resolve_ref(doc, b, 0), "required"@) {
                Some(JsonVal::Bool(x)) => x,
                _ => false,
            },
            None => false,
        },
        body_media_types: media,
        body_fields: match rb {
            Some(b) => if has_mp {
                spec_form_fields(doc, b, "multipart/form-data"@)
            } else if has_ue {
                spec_form_fields(doc, b, "application/x-www-form-urlencoded"@)
            } else {
                Seq::empty()
            },
            None => Seq::empty(),
        },
        body_fields_type: match rb {
            Some(_) => if has_mp {
                Some("multipart/form-data"@)
            } else if has_ue {
                Some("application/x-www-form-urlencoded"@)
            } else {
                None
            },
            None => None,
        },
    }
}

/// An operation that declares no `tags` is grouped under `Default`.
pub proof fn lemma_default_tag(details: JsonVal)
    requires
        json_get(details, "tags"@) is None,
    ensures
        spec_tag(details) == "Default"@,
{
}

/// A request body that declares `multipart/form-data` has its fields taken
/// from that media type, whatever else it declares (in particular
/// `application/x-www-form-urlencoded`).
pub proof fn lemma_multipart_precedence(
    doc: JsonVal,
    base: Seq<char>,
    path: Seq<char>,
    method: Seq<char>,
    path_params: Seq<JsonVal>,
    details: JsonVal,
)
    requires
        json_get(details, "requestBody"@) is Some,
        contains_str(
            spec_media_types(doc, json_get(details, "requestBody"@)->Some_0),
            "multipart/form-data"@,
        ),
    ensures
        spec_endpoint(doc, base, path, method, path_params, details).body_fields_type == Some(
            "multipart/form-data"@,
        ),
        spec_endpoint(doc, base, path, method, path_params, details).body_fields
            == spec_form_fields(
            doc,
            json_get(details, "requestBody"@)->Some_0,
            "multipart/form-data"@,
        ),
{
}

/// The first group with this tag, or -1.
pub open spec fn group_index(groups: Seq<(Seq<char>, Seq<EndpointVal>)>, tag: Seq<char>) -> int
    decreases groups.len(),
{
    if groups.len() == 0 {
        -1
    } else if groups[0].0 == tag {
        0
    } else {
        let r = group_index(groups.drop_first(), tag);
        if r == -1 {
            -1
        } else {
            1 + r
        }
    }
}

/// Appends an endpoint to its tag's group, opening the group at the end
/// when the tag is new.
pub open spec fn add_to_groups(
    groups: Seq<(Seq<char>, Seq<EndpointVal>)>,
    tag: Seq<char>,
    ep: EndpointVal,
) -> Seq<(Seq<char>, Seq<EndpointVal>)> {
    let idx = group_index(groups, tag);
    if idx >= 0 {
        groups.update(idx, (tag, groups[idx].1.push(ep)))
    } else {
        groups.push((tag, seq![ep]))
    }
}

/// The groups after one path's method entries, every entry but the literal
/// `parameters` key adding one endpoint.
pub open spec fn spec_path_groups(
    doc: JsonVal,
    base: Seq<char>,
    path: Seq<char>,
    path_params: Seq<JsonVal>,
    methods: Seq<(Seq<char>, JsonVal)>,
    init: Seq<(Seq<char>, Seq<EndpointVal>)>,
) -> Seq<(Seq<char>, Seq<EndpointVal>)>
    decreases methods.len(),
{
    if methods.len() == 0 {
        init
    } else {
        let prev = spec_path_groups(doc, base, path, path_params, methods.drop_last(), init);
        let m = methods.last();
        if m.0 == "parameters"@ {
            prev
        } else {
            add_to_groups(
                prev,
                spec_tag(m.1),
                spec_endpoint(doc, base, path, m.0, path_params, m.1),
            )
        }
    }
}

/// The groups after every path entry, in document order; a path whose value
/// is not an object adds nothing.
pub open spec fn spec_paths_groups(
    doc: JsonVal,
    base: Seq<char>,
    paths: Seq<(Seq<char>, JsonVal)>,
    init: Seq<(Seq<char>, Seq<EndpointVal>)>,
) -> Seq<(Seq<char>, Seq<EndpointVal>)>
    decreases paths.len(),
{
    if paths.len() == 0 {
        init
    } else {
        let prev = spec_paths_groups(doc, base, paths.drop_last(), init);
        let entry = paths.last();
        match entry.1 {
            JsonVal::Obj(methods) => spec_path_groups(
                doc,
                base,
                entry.0,
                params_nodes(entry.1),
                methods,
                prev,
            ),
            _ => prev,
        }
    }
}

/// The whole collection built from one parsed document: endpoints grouped
/// by tag, the document title (or the source URL) as display name, the
/// given time as `last_updated`, and sync enabled.
pub open spec fn spec_parse_openapi(
    doc: JsonVal,
    url: Seq<char>,
    etag: Option<Seq<char>>,
    now: i64,
) -> CollectionVal {
    let base = spec_base_url(doc);
    let groups = match json_get(doc, "paths"@) {
        Some(JsonVal::Obj(paths)) => spec_paths_groups(doc, base, paths, Seq::empty()),
        _ => Seq::empty(),
    };
    CollectionVal {
        name: match json_get(doc, "info"@) {
            Some(info) => match str_entry(info, "title"@) {
                Some(t) => t,
                None => url,
            },
            None => url,
        },
        url: url,
        groups: groups,
        last_updated: now,
        etag: etag,
        sync_enabled: true,
    }
}

proof fn lemma_strip_trailing_is(s: Seq<char>, k: int)
    requires
        0 <= k <= s.len(),
        forall|j: int| k <= j < s.len() ==> s[j] == '/',
        k > 0 ==> s[k - 1] != '/',
    ensures
        strip_trailing(s, '/') == s.take(k),
    decreases s.len(),
{
    if s.len() > k {
        assert(s.last() == '/');
        lemma_strip_trailing_is(s.drop_last(), k);
        assert(s.drop_last().take(k) =~= s.take(k));
    } else {
        assert(s.take(k) =~= s);
    }
}

proof fn lemma_group_index_is(groups: Seq<(Seq<char>, Seq<EndpointVal>)>, tag: Seq<char>, g: int)
    requires
        0 <= g <= groups.len(),
        forall|j: int| 0 <= j < g ==> groups[j].0 != tag,
        g < groups.len() ==> groups[g].0 == tag,
    ensures
        group_index(groups, tag) == if g < groups.len() {
            g
        } else {
            -1
        },
    decreases g,
{
    if g == 0 {
        if groups.len() > 0 && groups[0].0 != tag {
            lemma_group_index_nonneg(groups.drop_first(), tag);
        }
    } else {
        assert(groups[0].0 != tag);
        lemma_group_index_is(groups.drop_first(), tag, g - 1);
    }
}

proof fn lemma_group_index_nonneg(groups: Seq<(Seq<char>, Seq<EndpointVal>)>, tag: Seq<char>)
    ensures
        -1 <= group_index(groups, tag) < groups.len(),
    decreases groups.len(),
{
    if groups.len() > 0 && groups[0].0 != tag {
        lemma_group_index_nonneg(groups.drop_first(), tag);
    }
}

/// Whether every endpoint held in `groups` has its path among `allowed`.
pub open spec fn endpoints_paths_in(
    groups: Seq<(Seq<char>, Seq<EndpointVal>)>,
    allowed: Set<Seq<char>>,
) -> bool {
    forall|g: int, e: int|
        0 <= g < groups.len() && 0 <= e < groups[g].1.len() ==> allowed.contains(
            #[trigger] groups[g].1[e].path,
        )
}

proof fn lemma_add_to_groups_paths(
    groups: Seq<(Seq<char>, Seq<EndpointVal>)>,
    tag: Seq<char>,
    ep: EndpointVal,
    allowed: Set<Seq<char>>,
)
    requires
        endpoints_paths_in(groups, allowed),
        allowed.contains(ep.path),
    ensures
        endpoints_paths_in(add_to_groups(groups, tag, ep), allowed),
{
    lemma_group_index_nonneg(groups, tag);
    let idx = group_index(groups, tag);
    let after = add_to_groups(groups, tag, ep);
    assert forall|g: int, e: int|
        0 <= g < after.len() && 0 <= e < after[g].1.len() implies allowed.contains(
        #[trigger] after[g].1[e].path,
    ) by {
        if idx >= 0 {
            if g == idx {
                if e < groups[idx].1.len() {
                    assert(after[g].1[e] == groups[idx].1[e]);
                } else {
                    assert(after[g].1[e] == ep);
                }
            } else {
                assert(after[g] == groups[g]);
            }
        } else {
            if g < groups.len() {
                assert(after[g] == groups[g]);
            } else {
                assert(after[g].1 =~= seq![ep]);
                assert(after[g].1[e] == ep);
            }
        }
    }
}

proof fn lemma_path_groups_paths(
    doc: JsonVal,
    base: Seq<char>,
    path: Seq<char>,
    path_params: Seq<JsonVal>,
    methods: Seq<(Seq<char>, JsonVal)>,
    init: Seq<(Seq<char>, Seq<EndpointVal>)>,
    allowed: Set<Seq<char>>,
)
    requires
        endpoints_paths_in(init, allowed),
        allowed.contains(base + path),
    ensures
        endpoints_paths_in(
            spec_path_groups(doc, base, path, path_params, methods, init),
            allowed,
        ),
    decreases methods.len(),
{
    if methods.len() > 0 {
        lemma_path_groups_paths(doc, base, path, path_params, methods.drop_last(), init, allowed);
        let prev = spec_path_groups(doc, base, path, path_params, methods.drop_last(), init);
        let m = methods.last();
        if m.0 != "parameters"@ {
            let ep = spec_endpoint(doc, base, path, m.0, path_params, m.1);
            assert(ep.path == base + path);
            lemma_add_to_groups_paths(prev, spec_tag(m.1), ep, allowed);
        }
    }
}

proof fn lemma_paths_groups_paths(
    doc: JsonVal,
    base: Seq<char>,
    paths: Seq<(Seq<char>, JsonVal)>,
    init: Seq<(Seq<char>, Seq<EndpointVal>)>,
    allowed: Set<Seq<char>>,
)
    requires
        endpoints_paths_in(init, allowed),
        forall|k: int| 0 <= k < paths.len() ==> allowed.contains(base + #[trigger] paths[k].0),
    ensures
        endpoints_paths_in(spec_paths_groups(doc, base, paths, init), allowed),
    decreases paths.len(),
{
    if paths.len() > 0 {
        let rest = paths.drop_last();
        assert(forall|k: int| 0 <= k < rest.len() ==> #[trigger] rest[k] == paths[k]);
        lemma_paths_groups_paths(doc, base, rest, init, allowed);
        let prev = spec_paths_groups(doc, base, rest, init);
        let entry = paths.last();
        match entry.1 {
            JsonVal::Obj(methods) => {
                assert(allowed.contains(base + paths[paths.len() - 1].0));
                lemma_path_groups_paths(
                    doc,
                    base,
                    entry.0,
                    params_nodes(entry.1),
                    methods,
                    prev,
                    allowed,
                );
            },
            _ => {},
        }
    }
}

/// The document's path entries: the `paths` object's entries, or nothing.
pub open spec fn doc_paths(doc: JsonVal) -> Seq<(Seq<char>, JsonVal)> {
    match json_get(doc, "paths"@) {
        Some(JsonVal::Obj(entries)) => entries,
        _ => Seq::empty(),
    }
}

/// The document's raw path templates: the keys of its `paths` object.
pub open spec fn raw_path_templates(doc: JsonVal) -> Set<Seq<char>> {
    Set::new(
        |p: Seq<char>| exists|k: int|
            0 <= k < doc_paths(doc).len() && p == #[trigger] doc_paths(doc)[k].0,
    )
}

/// With no `servers` entry the base URL is empty, and every endpoint's path
/// is exactly one of the document's raw path templates.
pub proof fn lemma_no_servers_raw_paths(
    doc: JsonVal,
    url: Seq<char>,
    etag: Option<Seq<char>>,
    now: i64,
)
    requires
        json_get(doc, "servers"@) is None,
    ensures
        spec_base_url(doc) == Seq::<char>::empty(),
        endpoints_paths_in(
            spec_parse_openapi(doc, url, etag, now).groups,
            raw_path_templates(doc),
        ),
{
    let c = spec_parse_openapi(doc, url, etag, now);
    let paths = doc_paths(doc);
    let allowed = raw_path_templates(doc);
    match json_get(doc, "paths"@) {
        Some(JsonVal::Obj(entries)) => {
            assert forall|k: int| 0 <= k < entries.len() implies allowed.contains(
                Seq::<char>::empty() + #[trigger] entries[k].0,
            ) by {
                assert(Seq::<char>::empty() + entries[k].0 =~= entries[k].0);
            }
            lemma_paths_groups_paths(
                doc,
                Seq::<char>::empty(),
                entries,
                Seq::<(Seq<char>, Seq<EndpointVal>)>::empty(),
                allowed,
            );
        },
        _ => {
            assert(c.groups.len() == 0);
        },
    }
}

/// The string content of an object entry, owned; `None` when absent or not
/// a string.
fn get_str_entry(v: &Json, key: &str) -> (r: Option<String>)
    ensures
        opt_str_view(r) == str_entry(v@, key@),
{
    match v.get(key) {
        Some(node) => match node.as_str() {
            Some(s) => Some(s.to_owned()),
            None => None,
        },
        None => None,
    }
}

/// `u` without its trailing `/` characters.
fn trim_trailing_slashes(u: &str) -> (r: String)
    ensures
        r@ == strip_trailing(u@, '/'),
{
    let n = u.unicode_len();
    let mut k = n;
    while k > 0 && u.get_char(k - 1) == '/'
        invariant
            k <= n,
            n == u@.len(),
            forall|j: int| k <= j < n ==> u@[j] == '/',
        decreases k,
    {
        k = k - 1;
    }
    let r = u.substring_char(0, k);
    proof {
        lemma_strip_trailing_is(u@, k as int);
        assert(u@.subrange(0, k as int) =~= u@.take(k as int));
    }
    r.to_owned()
}

/// The document's base URL, as `spec_base_url` has it.
fn base_url_of(doc: &Json) -> (r: String)
    ensures
        r@ == spec_base_url(doc@),
{
    if let Some(servers) = doc.get("servers") {
        if let Some(items) = servers.as_array() {
            if items.len() > 0 {
                proof {
                    lemma_arr_view_index(items@, 0);
                }
                if let Some(url_node) = items[0].get("url") {
                    if let Some(u) = url_node.as_str() {
                        return trim_trailing_slashes(u);
                    }
                }
            }
        }
    }
    String::new()
}

/// The operation's group tag, as `spec_tag` has it.
fn tag_of(details: &Json) -> (r: String)
    ensures
        r@ == spec_tag(details@),
{
    if let Some(tags_node) = details.get("tags") {
        if let Some(tags) = tags_node.as_array() {
            if tags.len() > 0 {
                proof {
                    lemma_arr_view_index(tags@, 0);
                }
                if let Some(t) = tags[0].as_str() {
                    return t.to_owned();
                }
            }
        }
    }
    "Default".to_owned()
}

/// One parameter, built from its node.
fn build_parameter(doc: &Json, node: &Json) -> (p: Parameter)
    ensures
        p@ == spec_param(doc@, node@),
{
    let resolved = Json::resolve_ref(doc, node, 0);
    let name = match get_str_entry(resolved, "name") {
        Some(n) => n,
        None => String::new(),
    };
    let in_type = match get_str_entry(resolved, "in") {
        Some(t) => t,
        None => "query".to_owned(),
    };
    let description = match get_str_entry(resolved, "description") {
        Some(d) => Some(d),
        None => match resolved.get("schema") {
            Some(sch) => get_str_entry(sch, "description"),
            None => None,
        },
    };
    let required = match resolved.get("required") {
        Some(req_node) => match req_node.as_bool() {
            Some(b) => b,
            None => false,
        },
        None => false,
    };
    let example = extract_parameter_example(doc, resolved);
    Parameter { name, in_type, description, required, example }
}

/// Whether `ps` already holds a parameter with this location and name.
fn params_have_key(ps: &Vec<Parameter>, it: &str, nm: &str) -> (r: bool)
    ensures
        r == has_param_key(params_view(ps@), it@, nm@),
{
    let n = ps.len();
    let mut i: usize = 0;
    while i < n
        invariant
            n == ps@.len(),
            i <= n,
            forall|j: int|
                0 <= j < i ==> !(params_view(ps@)[j].in_type == it@ && params_view(ps@)[j].name
                    == nm@),
        decreases n - i,
    {
        if str_eq(ps[i].in_type.as_str(), it) && str_eq(ps[i].name.as_str(), nm) {
            proof {
                assert(params_view(ps@)[i as int].in_type == it@);
                assert(params_view(ps@)[i as int].name == nm@);
            }
            return true;
        }
        i = i + 1;
    }
    false
}

/// The merged parameter list of one operation: path-level nodes first, then
/// operation-level ones, de-duplicated by `(location, name)` with the first
/// occurrence winning.
fn merge_parameters(doc: &Json, path_params: &Vec<Json>, op_params: &Vec<Json>) -> (ps: Vec<
    Parameter,
>)
    ensures
        params_view(ps@) =~= spec_merge_params(doc@, arr_view(path_params@) + arr_view(op_params@)),
{
    let ghost nodes = arr_view(path_params@) + arr_view(op_params@);
    proof {
        lemma_arr_view_len(path_params@);
        lemma_arr_view_len(op_params@);
        assert(nodes.take(0) =~= Seq::<JsonVal>::empty());
    }
    let mut out: Vec<Parameter> = Vec::new();
    let np = path_params.len();
    let mut i: usize = 0;
    while i < np
        invariant
            np == path_params@.len(),
            i <= np,
            nodes == arr_view(path_params@) + arr_view(op_params@),
            nodes.len() == np + op_params@.len(),
            params_view(out@) =~= spec_merge_params(doc@, nodes.take(i as int)),
        decreases np - i,
    {
        proof {
            lemma_arr_view_index(path_params@, i as int);
            assert(nodes[i as int] == arr_view(path_params@)[i as int]);
            assert(nodes.take(i as int + 1).drop_last() =~= nodes.take(i as int));
            assert(nodes.take(i as int + 1).last() == nodes[i as int]);
        }
        merge_one(doc, &path_params[i], &mut out);
        i = i + 1;
    }
    let no = op_params.len();
    let mut k: usize = 0;
    while k < no
        invariant
            np == path_params@.len(),
            no == op_params@.len(),
            k <= no,
            nodes == arr_view(path_params@) + arr_view(op_params@),
            nodes.len() == np + no,
            params_view(out@) =~= spec_merge_params(doc@, nodes.take(np + k as int)),
        decreases no - k,
    {
        proof {
            lemma_arr_view_index(op_params@, k as int);
            assert(nodes[np + k as int] == arr_view(op_params@)[k as int]);
            assert(nodes.take(np + k as int + 1).drop_last() =~= nodes.take(np + k as int));
            assert(nodes.take(np + k as int + 1).last() == nodes[np + k as int]);
        }
        merge_one(doc, &op_params[k], &mut out);
        k = k + 1;
    }
    proof {
        assert(nodes.take(np + no as int) =~= nodes);
    }
    out
}

/// Adds one parameter node to the merged list unless its key is taken.
fn merge_one(doc: &Json, node: &Json, out: &mut Vec<Parameter>)
    ensures
        params_view(final(out)@) =~= {
            let p = spec_param(doc@, node@);
            if has_param_key(params_view(old(out)@), p.in_type, p.name) {
                params_view(old(out)@)
            } else {
                params_view(old(out)@).push(p)
            }
        },
{
    let p = build_parameter(doc, node);
    if !params_have_key(out, p.in_type.as_str(), p.name.as_str()) {
        out.push(p);
    }
}

/// Appends `ep` to the group of `tag`, opening the group when new.
fn push_endpoint(groups: &mut Vec<(String, Vec<Endpoint>)>, tag: String, ep: Endpoint)
    ensures
        groups_view(final(groups)@) =~= add_to_groups(groups_view(old(groups)@), tag@, ep@),
{
    let ghost gv = groups_view(groups@);
    let ghost ep0 = ep;
    let ghost epv = ep@;
    let n = groups.len();
    proof {
        assert(gv.len() == n);
    }
    let mut g: usize = 0;
    while g < n
        invariant
            n == groups@.len(),
            g <= n,
            groups@ == old(groups)@,
            gv == groups_view(groups@),
            gv.len() == n,
            ep == ep0,
            epv == ep0@,
            forall|j: int| 0 <= j < g ==> gv[j].0 != tag@,
        decreases n - g,
    {
        if str_eq(groups[g].0.as_str(), tag.as_str()) {
            proof {
                assert(gv[g as int].0 == tag@);
                lemma_group_index_is(gv, tag@, g as int);
            }
            let ghost before_push = groups@;
            groups[g].1.push(ep);
            proof {
                assert(groups@ == before_push.update(g as int, groups@[g as int]));
                assert(groups@[g as int].0 == before_push[g as int].0);
                assert(groups@[g as int].1@ == before_push[g as int].1@.push(ep0));
                assert(groups@[g as int].0@ == tag@);
                lemma_endpoints_view_push(before_push[g as int].1@, ep0);
                assert(gv[g as int].1 == endpoints_view(before_push[g as int].1@));
                assert(endpoints_view(groups@[g as int].1@) =~= gv[g as int].1.push(epv));
                assert(groups_view(groups@) =~= add_to_groups(gv, tag@, epv));
            }
            return ;
        }
        g = g + 1;
    }
    proof {
        lemma_group_index_is(gv, tag@, n as int);
    }
    let mut single: Vec<Endpoint> = Vec::new();
    single.push(ep);
    proof {
        assert(endpoints_view(single@) =~= seq![epv]);
    }
    groups.push((tag, single));
    proof {
        assert(groups_view(groups@) =~= gv.push((tag@, seq![epv])));
    }
}

/// One endpoint, assembled from its operation node.
fn build_endpoint(
    doc: &Json,
    base: &String,
    path: &String,
    method: &String,
    path_params: &Vec<Json>,
    details: &Json,
) -> (e: Endpoint)
    ensures
        e@ == spec_endpoint(doc@, base@, path@, method@, arr_view(path_params@), details@),
{
    let empty_nodes: Vec<Json> = Vec::new();
    proof {
        assert(arr_view(empty_nodes@) =~= Seq::<JsonVal>::empty());
    }
    let op_params: &Vec<Json> = match details.get("parameters") {
        Some(node) => match node.as_array() {
            Some(items) => items,
            None => &empty_nodes,
        },
        None => &empty_nodes,
    };
    let parameters = merge_parameters(doc, path_params, op_params);
    let request_body = details.get("requestBody");
    let body_description = match request_body {
        Some(b) => extract_request_body_description(doc, b),
        None => None,
    };
    let body_required = match request_body {
        Some(b) => match Json::resolve_ref(doc, b, 0).get("required") {
            Some(req_node) => match req_node.as_bool() {
                Some(x) => x,
                None => false,
            },
            None => false,
        },
        None => false,
    };
    let body_example = match request_body {
        Some(b) => match extract_request_body_example(doc, b) {
            Some(e) => Some(json_to_text(&e)),
            None => None,
        },
        None => None,
    };
    let body_media_types = match request_body {
        Some(b) => extract_request_body_media_types(doc, b),
        None => Vec::new(),
    };
    let has_mp = contains_media(&body_media_types, "multipart/form-data");
    let has_ue = contains_media(&body_media_types, "application/x-www-form-urlencoded");
    let mut body_fields: Vec<BodyField> = Vec::new();
    let mut body_fields_type: Option<String> = None;
    if let Some(b) = request_body {
        if has_mp {
            body_fields = extract_form_fields(doc, b, "multipart/form-data");
            body_fields_type = Some("multipart/form-data".to_owned());
        } else if has_ue {
            body_fields = extract_form_fields(doc, b, "application/x-www-form-urlencoded");
            body_fields_type = Some("application/x-www-form-urlencoded".to_owned());
        }
    }
    let e = Endpoint {
        method: to_upper(method.as_str()),
        path: base.clone().concat(path.as_str()),
        summary: get_str_entry(details, "summary"),
        description: get_str_entry(details, "description"),
        parameters,
        body_example,
        body_description,
        body_required,
        body_media_types,
        body_fields,
        body_fields_type,
    };
    proof {
        assert(fields_view(Seq::<BodyField>::empty()) =~= Seq::<
            crate::catalog::BodyFieldVal,
        >::empty());
        assert(strings_view(Seq::<String>::empty()) =~= Seq::<Seq<char>>::empty());
    }
    e
}

/// Whether the media-type list holds `s`.
fn contains_media(v: &Vec<String>, s: &str) -> (r: bool)
    ensures
        r == contains_str(strings_view(v@), s@),
{
    let n = v.len();
    let mut i: usize = 0;
    while i < n
        invariant
            n == v@.len(),
            i <= n,
            forall|j: int| 0 <= j < i ==> strings_view(v@)[j] != s@,
        decreases n - i,
    {
        if str_eq(v[i].as_str(), s) {
            proof {
                assert(strings_view(v@)[i as int] == s@);
            }
            return true;
        }
        i = i + 1;
    }
    false
}

/// Builds a collection from raw document text. Fails exactly when the text
/// is not valid JSON, with the parser's message; everything else degrades
/// to defaults rather than failing.
pub fn parse_openapi_internal(
    content: &str,
    url: &str,
    etag: Option<String>,
    now_millis: i64,
) -> (r: Result<Collection, String>)
    ensures
        match r {
            Ok(c) => json_parse(content@) is Some && c@ == spec_parse_openapi(
                json_parse(content@)->Some_0,
                url@,
                opt_str_view(etag),
                now_millis,
            ),
            Err(_) => json_parse(content@) is None,
        },
{
    let json = match parse_json_text(content) {
        Ok(j) => j,
        Err(e) => {
            return Err(e);
        },
    };
    let ghost dv = json@;
    let base_url = base_url_of(&json);
    let ghost bv = base_url@;
    let mut groups: Vec<(String, Vec<Endpoint>)> = Vec::new();
    proof {
        assert(groups_view(groups@) =~= Seq::<(Seq<char>, Seq<EndpointVal>)>::empty());
    }
    if let Some(paths_node) = json.get("paths") {
        if let Some(paths) = paths_node.as_object() {
            let ghost pm = obj_view(paths@);
            proof {
                lemma_obj_view_len(paths@);
                assert(pm.take(0) =~= Seq::<(Seq<char>, JsonVal)>::empty());
            }
            let n = paths.len();
            let mut i: usize = 0;
            while i < n
                invariant
                    n == paths@.len(),
                    i <= n,
                    pm == obj_view(paths@),
                    pm.len() == n,
                    dv == json@,
                    bv == base_url@,
                    groups_view(groups@) =~= spec_paths_groups(
                        dv,
                        bv,
                        pm.take(i as int),
                        Seq::empty(),
                    ),
                decreases n - i,
            {
                proof {
                    lemma_obj_view_index(paths@, i as int);
                    assert(pm.take(i as int + 1).drop_last() =~= pm.take(i as int));
                    assert(pm.take(i as int + 1).last() == pm[i as int]);
                }
                let path = &paths[i].0;
                let methods = &paths[i].1;
                if let Some(mobj) = methods.as_object() {
                    let ghost mm = obj_view(mobj@);
                    let ghost before = groups_view(groups@);
                    proof {
                        lemma_obj_view_len(mobj@);
                        assert(mm.take(0) =~= Seq::<(Seq<char>, JsonVal)>::empty());
                    }
                    let empty_nodes: Vec<Json> = Vec::new();
                    proof {
                        assert(arr_view(empty_nodes@) =~= Seq::<JsonVal>::empty());
                    }
                    let path_params: &Vec<Json> = match methods.get("parameters") {
                        Some(node) => match node.as_array() {
                            Some(items) => items,
                            None => &empty_nodes,
                        },
                        None => &empty_nodes,
                    };
                    let ghost ppv = arr_view(path_params@);
                    proof {
                        assert(ppv == params_nodes(methods@));
                    }
                    let nm = mobj.len();
                    let mut k: usize = 0;
                    while k < nm
                        invariant
                            nm == mobj@.len(),
                            k <= nm,
                            mm == obj_view(mobj@),
                            mm.len() == nm,
                            dv == json@,
                            bv == base_url@,
                            ppv == arr_view(path_params@),
                            groups_view(groups@) =~= spec_path_groups(
                                dv,
                                bv,
                                path@,
                                ppv,
                                mm.take(k as int),
                                before,
                            ),
                        decreases nm - k,
                    {
                        proof {
                            lemma_obj_view_index(mobj@, k as int);
                            assert(mm.take(k as int + 1).drop_last() =~= mm.take(k as int));
                            assert(mm.take(k as int + 1).last() == mm[k as int]);
                        }
                        let method = &mobj[k].0;
                        let details = &mobj[k].1;
                        if !str_eq(method.as_str(), "parameters") {
                            let ep = build_endpoint(
                                &json,
                                &base_url,
                                path,
                                method,
                                path_params,
                                details,
                            );
                            let tag = tag_of(details);
                            push_endpoint(&mut groups, tag, ep);
                        }
                        k = k + 1;
                    }
                    proof {
                        assert(mm.take(nm as int) =~= mm);
                    }
                } else {
                    proof {
                        assert(!(pm[i as int].1 is Obj));
                    }
                }
                i = i + 1;
            }
            proof {
                assert(pm.take(n as int) =~= pm);
            }
        }
    }
    let name = match json.get("info") {
        Some(info) => match get_str_entry(info, "title") {
            Some(t) => t,
            None => url.to_owned(),
        },
        None => url.to_owned(),
    };
    Ok(
        Collection {
            name,
            url: url.to_owned(),
            groups,
            last_updated: now_millis,
            etag,
            sync_enabled: true,
        },
    )
}

} // verus!
