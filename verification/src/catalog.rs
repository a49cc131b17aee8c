//! The normalized, UI-facing shapes a document is turned into: parameters,
//! body fields, endpoints and the collection that holds them, each with its
//! mathematical view.

use vstd::prelude::*;

use crate::json::{Json, JsonVal};

verus! {

/// One operation parameter, merged from path level and operation level.
#[derive(Debug)]
pub struct Parameter {
    pub name: String,
    pub in_type: String,
    pub description: Option<String>,
    pub required: bool,
    pub example: Option<Json>,
}

pub struct ParameterVal {
    pub name: Seq<char>,
    pub in_type: Seq<char>,
    pub description: Option<Seq<char>>,
    pub required: bool,
    pub example: Option<JsonVal>,
}

/// One property of a multipart or URL-encoded request body schema.
#[derive(Debug)]
pub struct BodyField {
    pub name: String,
    pub description: Option<String>,
    pub required: bool,
    pub is_file: bool,
    pub is_array: bool,
}

pub struct BodyFieldVal {
    pub name: Seq<char>,
    pub description: Option<Seq<char>>,
    pub required: bool,
    pub is_file: bool,
    pub is_array: bool,
}

/// One HTTP operation of the document, ready for display.
#[derive(Debug)]
pub struct Endpoint {
    pub method: String,
    pub path: String,
    pub summary: Option<String>,
    pub description: Option<String>,
    pub parameters: Vec<Parameter>,
    pub body_example: Option<String>,
    pub body_description: Option<String>,
    pub body_required: bool,
    pub body_media_types: Vec<String>,
    pub body_fields: Vec<BodyField>,
    pub body_fields_type: Option<String>,
}

pub struct EndpointVal {
    pub method: Seq<char>,
    pub path: Seq<char>,
    pub summary: Option<Seq<char>>,
    pub description: Option<Seq<char>>,
    pub parameters: Seq<ParameterVal>,
    pub body_example: Option<Seq<char>>,
    pub body_description: Option<Seq<char>>,
    pub body_required: bool,
    pub body_media_types: Seq<Seq<char>>,
    pub body_fields: Seq<BodyFieldVal>,
    pub body_fields_type: Option<Seq<char>>,
}

/// One imported document: its endpoints grouped by first tag, in document
/// order, with the sync bookkeeping.
#[derive(Debug)]
pub struct Collection {
    pub name: String,
    pub url: String,
    pub groups: Vec<(String, Vec<Endpoint>)>,
    pub last_updated: i64,
    pub etag: Option<String>,
    pub sync_enabled: bool,
}

pub struct CollectionVal {
    pub name: Seq<char>,
    pub url: Seq<char>,
    pub groups: Seq<(Seq<char>, Seq<EndpointVal>)>,
    pub last_updated: i64,
    pub etag: Option<Seq<char>>,
    pub sync_enabled: bool,
}

/// The view of an optional string.
pub open spec fn opt_str_view(o: Option<String>) -> Option<Seq<char>> {
    match o {
        Some(s) => Some(s@),
        None => None,
    }
}

/// The view of an optional JSON value.
pub open spec fn opt_json_view(o: Option<Json>) -> Option<JsonVal> {
    match o {
        Some(j) => Some(j@),
        None => None,
    }
}

impl View for Parameter {
    type V = ParameterVal;

    open spec fn view(&self) -> ParameterVal {
        ParameterVal {
            name: self.name@,
            in_type: self.in_type@,
            description: opt_str_view(self.description),
            required: self.required,
            example: opt_json_view(self.example),
        }
    }
}

impl View for BodyField {
    type V = BodyFieldVal;

    open spec fn view(&self) -> BodyFieldVal {
        BodyFieldVal {
            name: self.name@,
            description: opt_str_view(self.description),
            required: self.required,
            is_file: self.is_file,
            is_array: self.is_array,
        }
    }
}

/// The views of a parameter list, in order.
pub open spec fn params_view(s: Seq<Parameter>) -> Seq<ParameterVal> {
    Seq::new(s.len(), |i: int| s[i]@)
}

/// The views of a body-field list, in order.
pub open spec fn fields_view(s: Seq<BodyField>) -> Seq<BodyFieldVal> {
    Seq::new(s.len(), |i: int| s[i]@)
}

/// The views of a string list, in order.
pub open spec fn strings_view(s: Seq<String>) -> Seq<Seq<char>> {
    Seq::new(s.len(), |i: int| s[i]@)
}

impl View for Endpoint {
    type V = EndpointVal;

    open spec fn view(&self) -> EndpointVal {
        EndpointVal {
            method: self.method@,
            path: self.path@,
            summary: opt_str_view(self.summary),
            description: opt_str_view(self.description),
            parameters: params_view(self.parameters@),
            body_example: opt_str_view(self.body_example),
            body_description: opt_str_view(self.body_description),
            body_required: self.body_required,
            body_media_types: strings_view(self.body_media_types@),
            body_fields: fields_view(self.body_fields@),
            body_fields_type: opt_str_view(self.body_fields_type),
        }
    }
}

/// The views of an endpoint list, in order.
pub open spec fn endpoints_view(s: Seq<Endpoint>) -> Seq<EndpointVal> {
    Seq::new(s.len(), |i: int| s[i]@)
}

/// The views of the tag groups, in order.
pub open spec fn groups_view(s: Seq<(String, Vec<Endpoint>)>) -> Seq<(Seq<char>, Seq<EndpointVal>)> {
    Seq::new(s.len(), |i: int| (s[i].0@, endpoints_view(s[i].1@)))
}

pub proof fn lemma_endpoints_view_push(s: Seq<Endpoint>, e: Endpoint)
    ensures
        endpoints_view(s.push(e)) =~= endpoints_view(s).push(e@),
{
    assert forall|j: int| 0 <= j < s.len() + 1 implies endpoints_view(s.push(e))[j]
        == endpoints_view(s).push(e@)[j] by {
        if j < s.len() {
            assert(s.push(e)[j] == s[j]);
        } else {
            assert(s.push(e)[j] == e);
        }
    }
}

impl View for Collection {
    type V = CollectionVal;

    open spec fn view(&self) -> CollectionVal {
        CollectionVal {
            name: self.name@,
            url: self.url@,
            groups: groups_view(self.groups@),
            last_updated: self.last_updated,
            etag: opt_str_view(self.etag),
            sync_enabled: self.sync_enabled,
        }
    }
}

} // verus!
