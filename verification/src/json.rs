//! The library's own JSON tree. OpenAPI documents are held in this type once
//! parsed; all traversal logic works on it and is verified against the
//! mathematical model `JsonVal`. Numbers are kept as their decimal text, so
//! the tree carries every JSON value without a floating-point field.

use vstd::prelude::*;

verus! {

/// One JSON value. Object entries keep the order in which they were produced
/// (for a parsed document: the key order of the underlying map).
#[derive(Debug)]
pub enum Json {
    Null,
    Bool(bool),
    /// A JSON number, held as its decimal text (for instance `"0"` or `"0.0"`).
    Num(String),
    Str(String),
    Arr(Vec<Json>),
    Obj(Vec<(String, Json)>),
}

/// The mathematical model of a `Json` value.
pub enum JsonVal {
    Null,
    Bool(bool),
    Num(Seq<char>),
    Str(Seq<char>),
    Arr(Seq<JsonVal>),
    Obj(Seq<(Seq<char>, JsonVal)>),
}

/// The model of a `Json` value: numbers and strings become character
/// sequences, arrays and objects become sequences of modelled elements.
pub open spec fn json_view(j: Json) -> JsonVal
    decreases j,
{
    match j {
        Json::Null => JsonVal::Null,
        Json::Bool(b) => JsonVal::Bool(b),
        Json::Num(s) => JsonVal::Num(s@),
        Json::Str(s) => JsonVal::Str(s@),
        Json::Arr(items) => JsonVal::Arr(arr_view(items@)),
        Json::Obj(entries) => JsonVal::Obj(obj_view(entries@)),
    }
}

/// Model of a sequence of JSON array elements.
pub open spec fn arr_view(items: Seq<Json>) -> Seq<JsonVal>
    decreases items,
{
    if items.len() == 0 {
        Seq::empty()
    } else {
        arr_view(items.drop_last()).push(json_view(items.last()))
    }
}

/// Model of a sequence of JSON object entries.
pub open spec fn obj_view(entries: Seq<(String, Json)>) -> Seq<(Seq<char>, JsonVal)>
    decreases entries,
{
    if entries.len() == 0 {
        Seq::empty()
    } else {
        obj_view(entries.drop_last()).push((entries.last().0@, json_view(entries.last().1)))
    }
}

impl View for Json {
    type V = JsonVal;

    open spec fn view(&self) -> JsonVal {
        json_view(*self)
    }
}

pub proof fn lemma_arr_view_len(s: Seq<Json>)
    ensures
        arr_view(s).len() == s.len(),
    decreases s.len(),
{
    if s.len() > 0 {
        lemma_arr_view_len(s.drop_last());
    }
}

pub proof fn lemma_arr_view_index(s: Seq<Json>, i: int)
    requires
        0 <= i < s.len(),
    ensures
        arr_view(s).len() == s.len(),
        arr_view(s)[i] == json_view(s[i]),
    decreases s.len(),
{
    lemma_arr_view_len(s);
    lemma_arr_view_len(s.drop_last());
    if i < s.len() - 1 {
        lemma_arr_view_index(s.drop_last(), i);
    }
}

pub proof fn lemma_arr_view_push(s: Seq<Json>, j: Json)
    ensures
        arr_view(s.push(j)) == arr_view(s).push(json_view(j)),
{
    assert(s.push(j).drop_last() =~= s);
    assert(s.push(j).last() == j);
}

pub proof fn lemma_obj_view_len(s: Seq<(String, Json)>)
    ensures
        obj_view(s).len() == s.len(),
    decreases s.len(),
{
    if s.len() > 0 {
        lemma_obj_view_len(s.drop_last());
    }
}

pub proof fn lemma_obj_view_index(s: Seq<(String, Json)>, i: int)
    requires
        0 <= i < s.len(),
    ensures
        obj_view(s).len() == s.len(),
        obj_view(s)[i] == (s[i].0@, json_view(s[i].1)),
    decreases s.len(),
{
    lemma_obj_view_len(s);
    lemma_obj_view_len(s.drop_last());
    if i < s.len() - 1 {
        lemma_obj_view_index(s.drop_last(), i);
    }
}

pub proof fn lemma_obj_view_push(s: Seq<(String, Json)>, k: String, j: Json)
    ensures
        obj_view(s.push((k, j))) == obj_view(s).push((k@, json_view(j))),
{
    assert(s.push((k, j)).drop_last() =~= s);
    assert(s.push((k, j)).last() == (k, j));
}

/// Lookup among modelled object entries: the value of the first entry whose
/// key equals `key`, if any.
pub open spec fn obj_get(s: Seq<(Seq<char>, JsonVal)>, key: Seq<char>) -> Option<JsonVal>
    decreases s.len(),
{
    if s.len() == 0 {
        None
    } else if s[0].0 == key {
        Some(s[0].1)
    } else {
        obj_get(s.drop_first(), key)
    }
}

/// Lookup of `key` in `v`: `None` unless `v` is an object with such an entry.
pub open spec fn json_get(v: JsonVal, key: Seq<char>) -> Option<JsonVal> {
    match v {
        JsonVal::Obj(entries) => obj_get(entries, key),
        _ => None,
    }
}

/// Model of `as_str`.
pub open spec fn json_as_str(v: JsonVal) -> Option<Seq<char>> {
    match v {
        JsonVal::Str(s) => Some(s),
        _ => None,
    }
}

proof fn lemma_obj_get_advance(s: Seq<(Seq<char>, JsonVal)>, key: Seq<char>, i: int)
    requires
        0 <= i < s.len(),
        obj_get(s, key) == obj_get(s.skip(i), key),
        s[i].0 != key,
    ensures
        obj_get(s, key) == obj_get(s.skip(i + 1), key),
{
    assert(s.skip(i).len() > 0);
    assert(s.skip(i)[0] == s[i]);
    assert(s.skip(i).drop_first() =~= s.skip(i + 1));
}

/// String equality with an exact contract, for comparing keys and literals.
pub fn str_eq(a: &str, b: &str) -> (r: bool)
    ensures
        r == (a@ == b@),
{
    let sa = a.to_owned();
    let sb = b.to_owned();
    sa == sb
}

impl Json {
    /// Looks `key` up in an object; `None` on any other kind of value.
    /// Of entries with equal keys, the first wins.
    pub fn get<'a>(&'a self, key: &str) -> (r: Option<&'a Json>)
        ensures
            match r {
                Some(c) => json_get(self@, key@) == Some(c@),
                None => json_get(self@, key@) is None,
            },
    {
        match self {
            Json::Obj(entries) => {
                let ghost model: Seq<(Seq<char>, JsonVal)> = obj_view(entries@);
                proof {
                    lemma_obj_view_len(entries@);
                    assert(model.skip(0) =~= model);
                }
                let n = entries.len();
                let mut i: usize = 0;
                while i < n
                    invariant
                        n == entries@.len(),
                        model == obj_view(entries@),
                        model.len() == n,
                        i <= n,
                        self@ == JsonVal::Obj(model),
                        obj_get(model, key@) == obj_get(model.skip(i as int), key@),
                    decreases n - i,
                {
                    proof {
                        lemma_obj_view_index(entries@, i as int);
                    }
                    if str_eq(entries[i].0.as_str(), key) {
                        proof {
                            assert(model.skip(i as int)[0] == model[i as int]);
                        }
                        return Some(&entries[i].1);
                    }
                    proof {
                        lemma_obj_get_advance(model, key@, i as int);
                    }
                    i = i + 1;
                }
                proof {
                    assert(model.skip(n as int) =~= Seq::empty());
                }
                None
            },
            _ => None,
        }
    }

    /// The string content, when this is a string value.
    pub fn as_str<'a>(&'a self) -> (r: Option<&'a str>)
        ensures
            match r {
                Some(s) => json_as_str(self@) == Some(s@),
                None => json_as_str(self@) is None,
            },
    {
        match self {
            Json::Str(s) => Some(s.as_str()),
            _ => None,
        }
    }

    /// The boolean content, when this is a boolean value.
    pub fn as_bool(&self) -> (r: Option<bool>)
        ensures
            match r {
                Some(b) => self@ == JsonVal::Bool(b),
                None => !(self@ is Bool),
            },
    {
        match self {
            Json::Bool(b) => Some(*b),
            _ => None,
        }
    }

    /// The elements, when this is an array.
    pub fn as_array<'a>(&'a self) -> (r: Option<&'a Vec<Json>>)
        ensures
            match r {
                Some(items) => self@ == JsonVal::Arr(arr_view(items@)),
                None => !(self@ is Arr),
            },
    {
        match self {
            Json::Arr(items) => Some(items),
            _ => None,
        }
    }

    /// The entries, when this is an object.
    pub fn as_object<'a>(&'a self) -> (r: Option<&'a Vec<(String, Json)>>)
        ensures
            match r {
                Some(entries) => self@ == JsonVal::Obj(obj_view(entries@)),
                None => !(self@ is Obj),
            },
    {
        match self {
            Json::Obj(entries) => Some(entries),
            _ => None,
        }
    }

    /// Whether this is the null value.
    pub fn is_null(&self) -> (r: bool)
        ensures
            r == (self@ is Null),
    {
        match self {
            Json::Null => true,
            _ => false,
        }
    }

    /// A deep copy with the same model.
    pub fn duplicate(&self) -> (r: Json)
        ensures
            r@ == self@,
        decreases *self,
    {
        match self {
            Json::Null => Json::Null,
            Json::Bool(b) => Json::Bool(*b),
            Json::Num(s) => Json::Num(s.clone()),
            Json::Str(s) => Json::Str(s.clone()),
            Json::Arr(items) => {
                let n = items.len();
                let mut out: Vec<Json> = Vec::new();
                let mut i: usize = 0;
                while i < n
                    invariant
                        n == items@.len(),
                        i <= n,
                        out@.len() == i,
                        *self == Json::Arr(*items),
                        arr_view(out@) =~= arr_view(items@.take(i as int)),
                    decreases n - i,
                {
                    proof {
                        assert(decreases_to!(*self => (*self)->Arr_0));
                        assert((*self)->Arr_0 == *items);
                        assert(decreases_to!(*items => items@));
                        assert(decreases_to!(items@ => items@[i as int]));
                    }
                    let c = items[i].duplicate();
                    proof {
                        lemma_arr_view_push(out@, c);
                        lemma_arr_view_push(items@.take(i as int), items@[i as int]);
                        assert(items@.take(i as int).push(items@[i as int]) =~= items@.take(
                            i as int + 1,
                        ));
                    }
                    out.push(c);
                    i = i + 1;
                }
                proof {
                    assert(items@.take(n as int) =~= items@);
                }
                Json::Arr(out)
            },
            Json::Obj(entries) => {
                let n = entries.len();
                let mut out: Vec<(String, Json)> = Vec::new();
                let mut i: usize = 0;
                while i < n
                    invariant
                        n == entries@.len(),
                        i <= n,
                        out@.len() == i,
                        *self == Json::Obj(*entries),
                        obj_view(out@) =~= obj_view(entries@.take(i as int)),
                    decreases n - i,
                {
                    proof {
                        assert(decreases_to!(*self => (*self)->Obj_0));
                        assert((*self)->Obj_0 == *entries);
                        assert(decreases_to!(*entries => entries@));
                        assert(decreases_to!(entries@ => entries@[i as int]));
                        assert(decreases_to!(entries@[i as int] => entries@[i as int].1));
                    }
                    let k = entries[i].0.clone();
                    let c = entries[i].1.duplicate();
                    proof {
                        lemma_obj_view_push(out@, k, c);
                        lemma_obj_view_push(
                            entries@.take(i as int),
                            entries@[i as int].0,
                            entries@[i as int].1,
                        );
                        assert(entries@.take(i as int).push(entries@[i as int]) =~= entries@.take(
                            i as int + 1,
                        ));
                    }
                    out.push((k, c));
                    i = i + 1;
                }
                proof {
                    assert(entries@.take(n as int) =~= entries@);
                }
                Json::Obj(out)
            },
        }
    }
}

} // verus!
