//! `$ref` resolution: JSON-pointer lookup within a document and the
//! depth-bounded reference resolver. An unresolvable pointer or an exhausted
//! depth budget is never an error: the resolver hands back the last node it
//! reached.

use vstd::prelude::*;

use crate::json::{
    arr_view, lemma_arr_view_index, lemma_arr_view_len, lemma_obj_view_index, lemma_obj_view_len,
    obj_get, obj_view, json_as_str, json_get, Json, JsonVal,
};

verus! {

use vstd::string::StrSliceExecFns;

/// JSON-pointer unescaping: `~0` reads as `~` and `~1` as `/`; everything
/// else stands for itself.
pub open spec fn unescape(s: Seq<char>) -> Seq<char>
    decreases s.len(),
{
    if s.len() == 0 {
        Seq::empty()
    } else if s[0] == '~' && s.len() >= 2 && s[1] == '0' {
        seq!['~'] + unescape(s.skip(2))
    } else if s[0] == '~' && s.len() >= 2 && s[1] == '1' {
        seq!['/'] + unescape(s.skip(2))
    } else {
        seq![s[0]] + unescape(s.skip(1))
    }
}

/// The index of the first `/` in `s`, or `s.len()` if there is none.
pub open spec fn first_slash(s: Seq<char>) -> int
    decreases s.len(),
{
    if s.len() == 0 {
        0
    } else if s[0] == '/' {
        0
    } else {
        1 + first_slash(s.drop_first())
    }
}

pub open spec fn is_digit(c: char) -> bool {
    '0' <= c && c <= '9'
}

pub open spec fn digit_val(c: char) -> int {
    c as u32 - '0' as u32
}

pub open spec fn all_digits(s: Seq<char>) -> bool {
    forall|i: int| 0 <= i < s.len() ==> is_digit(s[i])
}

/// The value of a digit string read in base ten.
pub open spec fn dec_value(s: Seq<char>) -> int
    decreases s.len(),
{
    if s.len() == 0 {
        0
    } else {
        dec_value(s.drop_last()) * 10 + digit_val(s.last())
    }
}

/// An array index read from an unescaped pointer token, after the rules of
/// `serde_json`'s pointer: no sign, no redundant leading zero, and the value
/// must fit a `usize`.
pub open spec fn spec_parse_index(t: Seq<char>) -> Option<int> {
    if t.len() == 0 {
        None
    } else if t[0] == '+' {
        None
    } else if t[0] == '0' && t.len() != 1 {
        None
    } else if !all_digits(t) {
        None
    } else if dec_value(t) > usize::MAX {
        None
    } else {
        Some(dec_value(t))
    }
}

/// One pointer step: an object is entered by key, an array by parsed index,
/// and anything else ends the walk.
pub open spec fn ptr_step(v: JsonVal, token: Seq<char>) -> Option<JsonVal> {
    match v {
        JsonVal::Obj(entries) => obj_get(entries, token),
        JsonVal::Arr(items) => match spec_parse_index(token) {
            Some(i) => if 0 <= i < items.len() {
                Some(items[i])
            } else {
                None
            },
            None => None,
        },
        _ => None,
    }
}

/// The walk over the part of a pointer after its leading `/`: one step per
/// `/`-separated token.
pub open spec fn pointer_rest(v: JsonVal, rest: Seq<char>) -> Option<JsonVal>
    decreases rest.len() via pointer_rest_dec
{
    let k = first_slash(rest);
    match ptr_step(v, unescape(rest.take(k))) {
        None => None,
        Some(c) => if k == rest.len() {
            Some(c)
        } else {
            pointer_rest(c, rest.skip(k + 1))
        },
    }
}

#[via_fn]
proof fn pointer_rest_dec(v: JsonVal, rest: Seq<char>) {
    lemma_first_slash_bounds(rest);
}

/// JSON-pointer lookup, after `serde_json`: the empty pointer names the root,
/// any other pointer must begin with `/`.
pub open spec fn spec_pointer(v: JsonVal, path: Seq<char>) -> Option<JsonVal> {
    if path.len() == 0 {
        Some(v)
    } else if path[0] != '/' {
        None
    } else {
        pointer_rest(v, path.skip(1))
    }
}

/// `path` without its leading `#` characters.
pub open spec fn strip_hash(s: Seq<char>) -> Seq<char>
    decreases s.len(),
{
    if s.len() > 0 && s[0] == '#' {
        strip_hash(s.drop_first())
    } else {
        s
    }
}

/// The node a `$ref` entry points at, if the node has one that resolves:
/// the `$ref` value must be a string, and its pointer (after the leading
/// `#`) must name a node of `doc`.
pub open spec fn ref_target(doc: JsonVal, v: JsonVal) -> Option<JsonVal> {
    match json_get(v, "$ref"@) {
        Some(rv) => match json_as_str(rv) {
            Some(p) => spec_pointer(doc, strip_hash(p)),
            None => None,
        },
        None => None,
    }
}

/// Depth-bounded reference resolution: follow `$ref` targets until a node
/// without a resolvable reference is reached, or until more than ten levels
/// have been walked; then hand back the node reached, resolved or not.
pub open spec fn spec_resolve_ref(doc: JsonVal, v: JsonVal, depth: int) -> JsonVal
    decreases 11 - depth,
{
    if depth > 10 {
        v
    } else {
        match ref_target(doc, v) {
            Some(t) => spec_resolve_ref(doc, t, depth + 1),
            None => v,
        }
    }
}

/// The chain property, one position at a time: with `11 - d` budget left,
/// resolution from `chain[j]` reaches the terminal if it is close enough,
/// and otherwise stops where the budget ends.
proof fn lemma_chain_step(doc: JsonVal, chain: Seq<JsonVal>, j: int, d: int)
    requires
        0 <= j < chain.len(),
        0 <= d <= 11,
        forall|i: int| 0 <= i < chain.len() - 1 ==> ref_target(doc, chain[i]) == Some(
            #[trigger] chain[i + 1],
        ),
    ensures
        chain.len() - 1 - j <= 11 - d && ref_target(doc, chain.last()) is None
            ==> spec_resolve_ref(doc, chain[j], d) == chain.last(),
        chain.len() - 1 - j >= 11 - d ==> spec_resolve_ref(doc, chain[j], d) == chain[j + (11 - d)],
    decreases 11 - d,
{
    if d <= 10 {
        if j < chain.len() - 1 {
            assert(ref_target(doc, chain[j]) == Some(chain[j + 1]));
            lemma_chain_step(doc, chain, j + 1, d + 1);
        }
    }
}

/// Reference chains are followed to their end when they are short enough:
/// a chain whose links all resolve, with at most eleven links, resolves to
/// its terminal node (one without a resolvable reference); after exactly
/// eleven followed links the node reached is handed back as it is, resolved
/// no further, reference or not.
pub proof fn lemma_ref_chain(doc: JsonVal, chain: Seq<JsonVal>)
    requires
        chain.len() >= 1,
        forall|i: int| 0 <= i < chain.len() - 1 ==> ref_target(doc, chain[i]) == Some(
            #[trigger] chain[i + 1],
        ),
    ensures
        chain.len() <= 12 && ref_target(doc, chain.last()) is None ==> spec_resolve_ref(
            doc,
            chain[0],
            0,
        ) == chain.last(),
        chain.len() >= 12 ==> spec_resolve_ref(doc, chain[0], 0) == chain[11],
{
    lemma_chain_step(doc, chain, 0, 0);
}

proof fn lemma_first_slash_bounds(s: Seq<char>)
    ensures
        0 <= first_slash(s) <= s.len(),
    decreases s.len(),
{
    if s.len() > 0 && s[0] != '/' {
        lemma_first_slash_bounds(s.drop_first());
    }
}

proof fn lemma_first_slash_is(s: Seq<char>, k: int)
    requires
        0 <= k <= s.len(),
        forall|j: int| 0 <= j < k ==> s[j] != '/',
        k < s.len() ==> s[k] == '/',
    ensures
        first_slash(s) == k,
    decreases k,
{
    if k == 0 {
    } else {
        assert(s[0] != '/');
        lemma_first_slash_is(s.drop_first(), k - 1);
    }
}

proof fn lemma_strip_hash_is(s: Seq<char>, k: int)
    requires
        0 <= k <= s.len(),
        forall|j: int| 0 <= j < k ==> s[j] == '#',
        k < s.len() ==> s[k] != '#',
    ensures
        strip_hash(s) == s.skip(k),
    decreases k,
{
    if k == 0 {
        assert(s.skip(0) =~= s);
    } else {
        assert(s[0] == '#');
        lemma_strip_hash_is(s.drop_first(), k - 1);
        assert(s.drop_first().skip(k - 1) =~= s.skip(k));
    }
}

/// A string that contains a character other than a digit still does after
/// unescaping.
proof fn lemma_unescape_keeps_nondigit(s: Seq<char>)
    requires
        !all_digits(s),
    ensures
        !all_digits(unescape(s)),
    decreases s.len(),
{
    let w = choose|i: int| 0 <= i < s.len() && !is_digit(s[i]);
    if s[0] == '~' && s.len() >= 2 && (s[1] == '0' || s[1] == '1') {
        assert(!is_digit(unescape(s)[0]));
    } else {
        if !is_digit(s[0]) {
            assert(!is_digit(unescape(s)[0]));
        } else {
            assert(w != 0);
            assert(!is_digit(s.skip(1)[w - 1]));
            lemma_unescape_keeps_nondigit(s.skip(1));
            let w2 = choose|j: int|
                0 <= j < unescape(s.skip(1)).len() && !is_digit(unescape(s.skip(1))[j]);
            assert(!is_digit(unescape(s)[1 + w2]));
        }
    }
}

/// Unescaping a digit string changes nothing.
proof fn lemma_unescape_digits(s: Seq<char>)
    requires
        all_digits(s),
    ensures
        unescape(s) == s,
    decreases s.len(),
{
    if s.len() == 0 {
        assert(unescape(s) =~= s);
    } else {
        assert(is_digit(s[0]));
        assert(forall|i: int| 0 <= i < s.skip(1).len() ==> is_digit(s.skip(1)[i]));
        lemma_unescape_digits(s.skip(1));
        assert(seq![s[0]] + s.skip(1) =~= s);
    }
}

proof fn lemma_dec_value_nonneg(s: Seq<char>)
    requires
        all_digits(s),
    ensures
        dec_value(s) >= 0,
    decreases s.len(),
{
    if s.len() > 0 {
        assert(forall|i: int| 0 <= i < s.drop_last().len() ==> is_digit(s.drop_last()[i]));
        lemma_dec_value_nonneg(s.drop_last());
    }
}

/// Once a digit prefix exceeds the bound, the whole string's value does too.
proof fn lemma_dec_value_grows(s: Seq<char>, k: int)
    requires
        all_digits(s),
        0 <= k <= s.len(),
    ensures
        dec_value(s) >= dec_value(s.take(k)),
    decreases s.len() - k,
{
    assert(forall|i: int| 0 <= i < s.take(k).len() ==> is_digit(s.take(k)[i]));
    if k < s.len() {
        lemma_dec_value_grows(s, k + 1);
        assert(s.take(k + 1).drop_last() =~= s.take(k));
        lemma_dec_value_nonneg(s.take(k));
        assert(dec_value(s.take(k + 1)) == dec_value(s.take(k)) * 10 + digit_val(s.take(k + 1).last()));
    } else {
        assert(s.take(k) =~= s);
    }
}

/// Whether the token `path[start..end]`, unescaped, equals `key`.
fn token_eq_key(path: &str, start: usize, end: usize, key: &str) -> (r: bool)
    requires
        start <= end <= path@.len(),
    ensures
        r == (unescape(path@.subrange(start as int, end as int)) == key@),
{
    let klen = key.unicode_len();
    let mut i = start;
    let mut j: usize = 0;
    loop
        invariant
            start <= i <= end,
            end <= path@.len(),
            j <= klen,
            klen == key@.len(),
            unescape(path@.subrange(start as int, end as int)) == key@.take(j as int) + unescape(
                path@.subrange(i as int, end as int),
            ),
        decreases end - i,
    {
        let ghost whole = unescape(path@.subrange(start as int, end as int));
        let ghost tail = path@.subrange(i as int, end as int);
        if i >= end {
            proof {
                assert(tail =~= Seq::<char>::empty());
                assert(unescape(tail) =~= Seq::<char>::empty());
                assert(whole =~= key@.take(j as int));
            }
            if j == klen {
                proof {
                    assert(key@.take(klen as int) =~= key@);
                }
                return true;
            }
            proof {
                assert(whole.len() == j < klen);
            }
            return false;
        }
        // The head of the remaining token, with how many raw characters it uses.
        let pc = path.get_char(i);
        let (c, di): (char, usize) = if pc == '~' && i + 1 < end {
            let nc = path.get_char(i + 1);
            if nc == '0' {
                ('~', 2)
            } else if nc == '1' {
                ('/', 2)
            } else {
                (pc, 1)
            }
        } else {
            (pc, 1)
        };
        proof {
            assert(tail.len() >= 1);
            assert(tail[0] == path@[i as int]);
            if tail.len() >= 2 {
                assert(tail[1] == path@[i as int + 1]);
            }
            assert(tail.skip(di as int) =~= path@.subrange(i as int + di as int, end as int));
            assert(unescape(tail) == seq![c] + unescape(
                path@.subrange(i as int + di as int, end as int),
            ));
        }
        if j >= klen {
            proof {
                assert(whole.len() > klen);
            }
            return false;
        }
        let kc = key.get_char(j);
        if c != kc {
            proof {
                assert(whole[j as int] == c);
                if whole == key@ {
                    assert(key@[j as int] == c);
                }
            }
            return false;
        }
        proof {
            assert(key@.take(j as int).push(kc) =~= key@.take(j as int + 1));
            assert(key@.take(j as int) + (seq![c] + unescape(
                path@.subrange(i as int + di as int, end as int),
            )) =~= key@.take(j as int + 1) + unescape(
                path@.subrange(i as int + di as int, end as int),
            ));
        }
        i = i + di;
        j = j + 1;
    }
}

/// Reads the token `path[start..end]` as an array index, after the pointer
/// rules: the result is exactly `spec_parse_index` of the unescaped token.
fn parse_token_index(path: &str, start: usize, end: usize) -> (r: Option<usize>)
    requires
        start <= end <= path@.len(),
    ensures
        match r {
            Some(x) => spec_parse_index(
                unescape(path@.subrange(start as int, end as int)),
            ) == Some(x as int),
            None => spec_parse_index(unescape(path@.subrange(start as int, end as int))) is None,
        },
{
    let ghost raw = path@.subrange(start as int, end as int);
    // First pass: every character must be a digit.
    let mut p = start;
    while p < end
        invariant
            start <= p <= end,
            end <= path@.len(),
            raw == path@.subrange(start as int, end as int),
            forall|k: int| 0 <= k < p - start ==> is_digit(raw[k]),
        decreases end - p,
    {
        let c = path.get_char(p);
        if c < '0' || c > '9' {
            proof {
                assert(raw[p - start] == c);
                assert(!all_digits(raw));
                lemma_unescape_keeps_nondigit(raw);
            }
            return None;
        }
        p = p + 1;
    }
    proof {
        assert(all_digits(raw));
        lemma_unescape_digits(raw);
    }
    if start == end {
        return None;
    }
    if path.get_char(start) == '0' && end - start != 1 {
        proof {
            assert(raw[0] == '0');
        }
        return None;
    }
    // Accumulate the value, stopping as soon as it can no longer fit.
    let mut acc: usize = 0;
    let mut p2 = start;
    while p2 < end
        invariant
            start <= p2 <= end,
            start < end,
            end <= path@.len(),
            raw == path@.subrange(start as int, end as int),
            all_digits(raw),
            unescape(raw) == raw,
            !(raw[0] == '0' && end - start != 1),
            acc == dec_value(raw.take(p2 - start)),
        decreases end - p2,
    {
        let c = path.get_char(p2);
        proof {
            assert(raw[p2 - start] == c);
            assert(is_digit(c));
        }
        let d = (c as u32 - '0' as u32) as usize;
        proof {
            assert(raw.take(p2 - start + 1).drop_last() =~= raw.take(p2 - start));
            assert(raw.take(p2 - start + 1).last() == c);
        }
        if acc > usize::MAX / 10 || (acc == usize::MAX / 10 && d > usize::MAX % 10) {
            proof {
                assert(dec_value(raw.take(p2 - start + 1)) == acc * 10 + d > usize::MAX);
                lemma_dec_value_grows(raw, p2 - start + 1);
            }
            return None;
        }
        proof {
            assert(acc * 10 + d <= (usize::MAX / 10) * 10 + usize::MAX % 10 == usize::MAX);
        }
        acc = acc * 10 + d;
        p2 = p2 + 1;
    }
    proof {
        assert(raw.take(end - start) =~= raw);
    }
    Some(acc)
}

/// Object lookup by an unescaped pointer token.
fn obj_token_get<'a>(
    entries: &'a Vec<(String, Json)>,
    path: &str,
    start: usize,
    end: usize,
) -> (r: Option<&'a Json>)
    requires
        start <= end <= path@.len(),
    ensures
        match r {
            Some(c) => obj_get(
                obj_view(entries@),
                unescape(path@.subrange(start as int, end as int)),
            ) == Some(c@),
            None => obj_get(
                obj_view(entries@),
                unescape(path@.subrange(start as int, end as int)),
            ) is None,
        },
{
    let ghost token = unescape(path@.subrange(start as int, end as int));
    let ghost model = obj_view(entries@);
    proof {
        lemma_obj_view_len(entries@);
        assert(model.skip(0) =~= model);
    }
    let n = entries.len();
    let mut i: usize = 0;
    while i < n
        invariant
            start <= end <= path@.len(),
            token == unescape(path@.subrange(start as int, end as int)),
            n == entries@.len(),
            model == obj_view(entries@),
            model.len() == n,
            i <= n,
            obj_get(model, token) == obj_get(model.skip(i as int), token),
        decreases n - i,
    {
        proof {
            lemma_obj_view_index(entries@, i as int);
        }
        if token_eq_key(path, start, end, entries[i].0.as_str()) {
            proof {
                assert(model.skip(i as int)[0] == model[i as int]);
            }
            return Some(&entries[i].1);
        }
        proof {
            assert(model.skip(i as int)[0] == model[i as int]);
            assert(model.skip(i as int).drop_first() =~= model.skip(i as int + 1));
        }
        i = i + 1;
    }
    proof {
        assert(model.skip(n as int) =~= Seq::empty());
    }
    None
}

/// JSON-pointer lookup within `root`, with exactly `serde_json`'s rules.
pub fn json_pointer<'a>(root: &'a Json, path: &str) -> (r: Option<&'a Json>)
    ensures
        match r {
            Some(c) => spec_pointer(root@, path@) == Some(c@),
            None => spec_pointer(root@, path@) is None,
        },
{
    let n = path.unicode_len();
    if n == 0 {
        return Some(root);
    }
    if path.get_char(0) != '/' {
        return None;
    }
    let mut cur: &Json = root;
    let mut pos: usize = 1;
    loop
        invariant
            1 <= pos <= n,
            n == path@.len(),
            spec_pointer(root@, path@) == pointer_rest(cur@, path@.skip(pos as int)),
        decreases n - pos,
    {
        let ghost rest = path@.skip(pos as int);
        let mut end = pos;
        while end < n && path.get_char(end) != '/'
            invariant
                pos <= end <= n,
                n == path@.len(),
                forall|k: int| pos <= k < end ==> path@[k] != '/',
            decreases n - end,
        {
            end = end + 1;
        }
        proof {
            assert(forall|j: int| 0 <= j < end - pos ==> rest[j] != '/');
            if end < n {
                assert(rest[end - pos] == path@[end as int]);
            }
            lemma_first_slash_is(rest, end - pos);
            assert(rest.take(end - pos) =~= path@.subrange(pos as int, end as int));
        }
        let ghost token = unescape(path@.subrange(pos as int, end as int));
        let child_opt: Option<&Json> = match cur {
            Json::Obj(entries) => obj_token_get(entries, path, pos, end),
            Json::Arr(items) => {
                proof {
                    lemma_arr_view_len(items@);
                }
                match parse_token_index(path, pos, end) {
                    Some(x) => {
                        if x < items.len() {
                            proof {
                                lemma_arr_view_index(items@, x as int);
                            }
                            Some(&items[x])
                        } else {
                            None
                        }
                    },
                    None => None,
                }
            },
            _ => None,
        };
        match child_opt {
            None => {
                proof {
                    assert(ptr_step(cur@, token) is None);
                }
                return None;
            },
            Some(c) => {
                proof {
                    assert(ptr_step(cur@, token) == Some(c@));
                }
                if end == n {
                    proof {
                        assert(first_slash(rest) == rest.len());
                    }
                    return Some(c);
                }
                proof {
                    assert(rest.skip((end - pos) + 1) =~= path@.skip(end as int + 1));
                }
                cur = c;
                pos = end + 1;
            },
        }
    }
}

/// `s` without its leading `#` characters, as `str::trim_start_matches`
/// would leave it.
pub fn strip_leading_hash<'a>(s: &'a str) -> (r: &'a str)
    ensures
        r@ == strip_hash(s@),
{
    let n = s.unicode_len();
    let mut k: usize = 0;
    while k < n && s.get_char(k) == '#'
        invariant
            k <= n,
            n == s@.len(),
            forall|j: int| 0 <= j < k ==> s@[j] == '#',
        decreases n - k,
    {
        k = k + 1;
    }
    let r = s.substring_char(k, n);
    proof {
        lemma_strip_hash_is(s@, k as int);
        assert(s@.subrange(k as int, n as int) =~= s@.skip(k as int));
    }
    r
}

impl Json {
    /// Follows `$ref` entries within `doc` for at most ten levels, handing
    /// back the last node reached; a node without a resolvable reference is
    /// handed back unchanged.
    pub fn resolve_ref<'a>(doc: &'a Json, value: &'a Json, depth: usize) -> (r: &'a Json)
        ensures
            r@ == spec_resolve_ref(doc@, value@, depth as int),
        decreases 11 - depth as int,
    {
        if depth > 10 {
            return value;
        }
        match value.get("$ref") {
            Some(rv) => match rv.as_str() {
                Some(p) => {
                    let stripped = strip_leading_hash(p);
                    match json_pointer(doc, stripped) {
                        Some(t) => Json::resolve_ref(doc, t, depth + 1),
                        None => value,
                    }
                },
                None => value,
            },
            None => value,
        }
    }
}

} // verus!
