//! The collection store and the refresh protocol: collections keyed by
//! source URL, the snapshot the background sync takes, and the pure
//! decisions it applies to each conditional-fetch outcome. All network work
//! stays with the caller; the store only sees its results.

use vstd::prelude::*;

use crate::catalog::{opt_str_view, Collection, CollectionVal};
use crate::json::JsonVal;
use crate::outside::{json_parse, now_unix_millis};
use crate::parse::{parse_openapi_internal, spec_parse_openapi};

verus! {

/// The views of the stored collections, in order.
pub open spec fn store_view(s: Seq<Collection>) -> Seq<CollectionVal> {
    Seq::new(s.len(), |i: int| s[i]@)
}

/// No two stored collections share a source URL.
pub open spec fn distinct_urls(s: Seq<CollectionVal>) -> bool {
    forall|i: int, j: int| 0 <= i < j < s.len() ==> s[i].url != s[j].url
}

/// The first stored collection with this URL, or -1.
pub open spec fn url_index(s: Seq<CollectionVal>, url: Seq<char>) -> int
    decreases s.len(),
{
    if s.len() == 0 {
        -1
    } else if s[0].url == url {
        0
    } else {
        let r = url_index(s.drop_first(), url);
        if r == -1 {
            -1
        } else {
            1 + r
        }
    }
}

/// The stored collection under this URL, if any.
pub open spec fn spec_get(s: Seq<CollectionVal>, url: Seq<char>) -> Option<CollectionVal> {
    let idx = url_index(s, url);
    if idx >= 0 {
        Some(s[idx])
    } else {
        None
    }
}

/// Insertion keyed by the collection's URL: replace the entry with that URL
/// wholesale, or append when the URL is new.
pub open spec fn spec_insert(s: Seq<CollectionVal>, c: CollectionVal) -> Seq<CollectionVal> {
    let idx = url_index(s, c.url);
    if idx >= 0 {
        s.update(idx, c)
    } else {
        s.push(c)
    }
}

/// The flag flip: only `sync_enabled` changes, and only for the entry under
/// this URL; an unknown URL changes nothing.
pub open spec fn spec_toggle(s: Seq<CollectionVal>, url: Seq<char>, enabled: bool) -> Seq<
    CollectionVal,
> {
    let idx = url_index(s, url);
    if idx >= 0 {
        s.update(idx, CollectionVal { sync_enabled: enabled, ..s[idx] })
    } else {
        s
    }
}

/// The polling snapshot: the `(url, etag)` pairs of the sync-enabled
/// collections, in store order.
pub open spec fn spec_sync_targets(s: Seq<CollectionVal>) -> Seq<(Seq<char>, Option<Seq<char>>)>
    decreases s.len(),
{
    if s.len() == 0 {
        Seq::empty()
    } else {
        let prev = spec_sync_targets(s.drop_last());
        if s.last().sync_enabled {
            prev.push((s.last().url, s.last().etag))
        } else {
            prev
        }
    }
}

/// The store after a fresh (200-equivalent) poll of `url` whose body parsed
/// into `doc`: the rebuilt collection replaces the stored one wholesale,
/// except that the prior `sync_enabled` flag is kept (a collection unknown
/// by now defaults to enabled).
pub open spec fn spec_apply_fresh(
    s: Seq<CollectionVal>,
    url: Seq<char>,
    doc: JsonVal,
    etag: Option<Seq<char>>,
    now: i64,
) -> Seq<CollectionVal> {
    let parsed = spec_parse_openapi(doc, url, etag, now);
    let flag = match spec_get(s, url) {
        Some(c) => c.sync_enabled,
        None => true,
    };
    spec_insert(s, CollectionVal { sync_enabled: flag, ..parsed })
}

pub proof fn lemma_url_index_props(s: Seq<CollectionVal>, url: Seq<char>)
    ensures
        url_index(s, url) >= 0 ==> 0 <= url_index(s, url) < s.len() && s[url_index(s, url)].url
            == url,
        url_index(s, url) >= 0 ==> forall|j: int| 0 <= j < url_index(s, url) ==> s[j].url != url,
        url_index(s, url) < 0 ==> url_index(s, url) == -1 && forall|j: int|
            0 <= j < s.len() ==> s[j].url != url,
    decreases s.len(),
{
    if s.len() > 0 && s[0].url != url {
        lemma_url_index_props(s.drop_first(), url);
        let r = url_index(s.drop_first(), url);
        if r >= 0 {
            assert(s[1 + r].url == url);
            assert forall|j: int| 0 <= j < 1 + r implies s[j].url != url by {
                if j > 0 {
                    assert(s.drop_first()[j - 1].url != url);
                }
            }
        } else {
            assert forall|j: int| 0 <= j < s.len() implies s[j].url != url by {
                if j > 0 {
                    assert(s.drop_first()[j - 1].url != url);
                }
            }
        }
    }
}

pub proof fn lemma_url_index_is(s: Seq<CollectionVal>, url: Seq<char>, k: int)
    requires
        0 <= k <= s.len(),
        forall|j: int| 0 <= j < k ==> s[j].url != url,
        k < s.len() ==> s[k].url == url,
    ensures
        url_index(s, url) == if k < s.len() {
            k
        } else {
            -1
        },
    decreases k,
{
    if k == 0 {
        if s.len() > 0 && s[0].url != url {
            lemma_url_index_props(s.drop_first(), url);
        }
    } else {
        lemma_url_index_is(s.drop_first(), url, k - 1);
    }
}

/// After an insert, the inserted collection is what its URL yields, and
/// URL distinctness is kept.
pub proof fn lemma_insert_get(s: Seq<CollectionVal>, c: CollectionVal)
    requires
        distinct_urls(s),
    ensures
        distinct_urls(spec_insert(s, c)),
        spec_get(spec_insert(s, c), c.url) == Some(c),
{
    lemma_url_index_props(s, c.url);
    let idx = url_index(s, c.url);
    if idx >= 0 {
        let after = s.update(idx, c);
        assert(forall|j: int| 0 <= j < idx ==> after[j].url != c.url);
        lemma_url_index_is(after, c.url, idx);
    } else {
        let after = s.push(c);
        assert(forall|j: int| 0 <= j < s.len() ==> after[j].url != c.url);
        lemma_url_index_is(after, c.url, s.len() as int);
    }
}

/// A fresh poll of a stored URL replaces the collection wholesale: the new
/// etag and refresh time are stored, and the prior `sync_enabled` flag is
/// kept. (A not-modified or failed poll changes nothing at all: that is the
/// contract of `apply_sync_fetch` itself.)
pub proof fn lemma_sync_refresh(
    s: Seq<CollectionVal>,
    url: Seq<char>,
    doc: JsonVal,
    etag: Option<Seq<char>>,
    now: i64,
)
    requires
        distinct_urls(s),
        spec_get(s, url) is Some,
    ensures
        ({
            let prior = spec_get(s, url)->Some_0;
            let after = spec_apply_fresh(s, url, doc, etag, now);
            &&& spec_get(after, url) is Some
            &&& spec_get(after, url)->Some_0.etag == etag
            &&& spec_get(after, url)->Some_0.last_updated == now
            &&& spec_get(after, url)->Some_0.sync_enabled == prior.sync_enabled
        }),
{
    let parsed = spec_parse_openapi(doc, url, etag, now);
    let flag = spec_get(s, url)->Some_0.sync_enabled;
    let c = CollectionVal { sync_enabled: flag, ..parsed };
    assert(c.url == url);
    lemma_insert_get(s, c);
}

/// The stored collections, keyed by source URL.
pub struct CollectionStore {
    items: Vec<Collection>,
}

impl View for CollectionStore {
    type V = Seq<CollectionVal>;

    closed spec fn view(&self) -> Seq<CollectionVal> {
        store_view(self.items@)
    }
}

/// One conditional-fetch outcome, as the sync loop's caller saw it: the
/// document was unchanged, fresh content arrived, or the fetch failed.
pub enum SyncOutcome {
    NotModified,
    Fresh { body: String, etag: Option<String> },
    Failed,
}

impl CollectionStore {
    /// No two stored collections share a URL.
    pub open spec fn wf(&self) -> bool {
        distinct_urls(self@)
    }

    /// An empty store.
    pub fn new() -> (s: Self)
        ensures
            s@ =~= Seq::<CollectionVal>::empty(),
            s.wf(),
    {
        CollectionStore { items: Vec::new() }
    }

    /// How many collections are stored.
    pub fn len(&self) -> (n: usize)
        ensures
            n == self@.len(),
    {
        self.items.len()
    }

    /// All stored collections, in store order.
    pub fn values<'a>(&'a self) -> (r: &'a Vec<Collection>)
        ensures
            store_view(r@) == self@,
    {
        &self.items
    }

    /// The stored collection under this URL, if any.
    pub fn get<'a>(&'a self, url: &str) -> (r: Option<&'a Collection>)
        ensures
            match r {
                Some(c) => spec_get(self@, url@) == Some(c@),
                None => spec_get(self@, url@) is None,
            },
    {
        let n = self.items.len();
        let mut i: usize = 0;
        while i < n
            invariant
                n == self.items@.len(),
                i <= n,
                forall|j: int| 0 <= j < i ==> store_view(self.items@)[j].url != url@,
            decreases n - i,
        {
            if crate::json::str_eq(self.items[i].url.as_str(), url) {
                proof {
                    lemma_url_index_is(self@, url@, i as int);
                }
                return Some(&self.items[i]);
            }
            i = i + 1;
        }
        proof {
            lemma_url_index_is(self@, url@, n as int);
        }
        None
    }

    /// Stores `c` under its URL, replacing any collection already there.
    pub fn insert(&mut self, c: Collection)
        requires
            old(self).wf(),
        ensures
            final(self).wf(),
            final(self)@ =~= spec_insert(old(self)@, c@),
            spec_get(final(self)@, c@.url) == Some(c@),
    {
        let ghost c0 = c;
        let n = self.items.len();
        let mut i: usize = 0;
        while i < n
            invariant
                n == self.items@.len(),
                i <= n,
                old(self).wf(),
                self.items@ == old(self).items@,
                c == c0,
                forall|j: int| 0 <= j < i ==> store_view(self.items@)[j].url != c0@.url,
            decreases n - i,
        {
            if crate::json::str_eq(self.items[i].url.as_str(), c.url.as_str()) {
                proof {
                    lemma_url_index_is(self@, c0@.url, i as int);
                    lemma_insert_get(self@, c0@);
                }
                let ghost before_items = self.items@;
                self.items[i] = c;
                proof {
                    assert(self.items@ == before_items.update(i as int, c0));
                    assert(self@ =~= spec_insert(old(self)@, c0@));
                }
                return ;
            }
            i = i + 1;
        }
        proof {
            lemma_url_index_is(self@, c0@.url, n as int);
            lemma_insert_get(self@, c0@);
        }
        let ghost before_items = self.items@;
        self.items.push(c);
        proof {
            assert(self.items@ == before_items.push(c0));
            assert(self@ =~= spec_insert(old(self)@, c0@));
        }
    }

    /// Flips the sync flag of the collection under `url`; unknown URLs are
    /// left alone, as the caller asked for nothing else.
    pub fn toggle_sync(&mut self, url: &str, enabled: bool)
        requires
            old(self).wf(),
        ensures
            final(self).wf(),
            final(self)@ =~= spec_toggle(old(self)@, url@, enabled),
    {
        let n = self.items.len();
        let mut i: usize = 0;
        while i < n
            invariant
                n == self.items@.len(),
                i <= n,
                old(self).wf(),
                self.items@ == old(self).items@,
                forall|j: int| 0 <= j < i ==> store_view(self.items@)[j].url != url@,
            decreases n - i,
        {
            if crate::json::str_eq(self.items[i].url.as_str(), url) {
                proof {
                    lemma_url_index_is(self@, url@, i as int);
                }
                let ghost before = self.items@;
                self.items[i].sync_enabled = enabled;
                proof {
                    assert(self.items@[i as int].sync_enabled == enabled);
                    assert(self.items@[i as int].url == before[i as int].url);
                    assert(self.items@ == before.update(i as int, self.items@[i as int]));
                    assert(self@ =~= spec_toggle(old(self)@, url@, enabled));
                    assert forall|a: int, b: int|
                        0 <= a < b < self@.len() implies self@[a].url != self@[b].url by {
                        assert(self@[a].url == old(self)@[a].url);
                        assert(self@[b].url == old(self)@[b].url);
                    }
                }
                return ;
            }
            i = i + 1;
        }
        proof {
            lemma_url_index_is(self@, url@, n as int);
            assert(self@ =~= spec_toggle(old(self)@, url@, enabled));
        }
    }

    /// The polling snapshot: `(url, etag)` of every sync-enabled collection,
    /// in store order. The caller fetches outside any lock on the store.
    pub fn sync_targets(&self) -> (r: Vec<(String, Option<String>)>)
        ensures
            pairs_view(r@) =~= spec_sync_targets(self@),
    {
        let mut out: Vec<(String, Option<String>)> = Vec::new();
        proof {
            assert(self@.take(0) =~= Seq::<CollectionVal>::empty());
            assert(pairs_view(out@) =~= spec_sync_targets(self@.take(0)));
        }
        let n = self.items.len();
        let mut i: usize = 0;
        while i < n
            invariant
                n == self.items@.len(),
                i <= n,
                self@.len() == n,
                pairs_view(out@) =~= spec_sync_targets(self@.take(i as int)),
            decreases n - i,
        {
            proof {
                assert(self@.take(i as int + 1).drop_last() =~= self@.take(i as int));
                assert(self@.take(i as int + 1).last() == self@[i as int]);
            }
            if self.items[i].sync_enabled {
                let url = self.items[i].url.clone();
                let etag: Option<String> = match &self.items[i].etag {
                    Some(e) => Some(e.clone()),
                    None => None,
                };
                out.push((url, etag));
            }
            i = i + 1;
        }
        proof {
            assert(self@.take(n as int) =~= self@);
        }
        out
    }

    /// Parses `content` and stores the result under `url`, at the given
    /// time: a fresh import, sync enabled. Fails exactly when the text is
    /// not valid JSON, leaving the store unchanged.
    pub fn import_collection<'a>(
        &'a mut self,
        url: &str,
        content: &str,
        etag: Option<String>,
        now_millis: i64,
    ) -> (r: Result<&'a Collection, String>)
        requires
            old(self).wf(),
        ensures
            final(self).wf(),
            match r {
                Ok(c) => json_parse(content@) is Some && {
                    let parsed = spec_parse_openapi(
                        json_parse(content@)->Some_0,
                        url@,
                        opt_str_view(etag),
                        now_millis,
                    );
                    c@ == parsed && final(self)@ =~= spec_insert(old(self)@, parsed)
                },
                Err(_) => json_parse(content@) is None && final(self)@ == old(self)@,
            },
    {
        let collection = match parse_openapi_internal(content, url, etag, now_millis) {
            Ok(c) => c,
            Err(e) => {
                return Err(e);
            },
        };
        let ghost cv = collection@;
        self.insert(collection);
        match self.get(url) {
            Some(c) => Ok(c),
            None => {
                proof {
                    assert(spec_get(self@, url@) == Some(cv));
                }
                // Unreachable: the collection was just stored under `url`.
                Err(String::new())
            },
        }
    }

    /// As `import_collection`, at the current wall-clock time.
    pub fn import_collection_now<'a>(&'a mut self, url: &str, content: &str, etag: Option<String>)
        -> (r: Result<&'a Collection, String>)
        requires
            old(self).wf(),
        ensures
            final(self).wf(),
            match r {
                Ok(c) => json_parse(content@) is Some && {
                    let parsed = spec_parse_openapi(
                        json_parse(content@)->Some_0,
                        url@,
                        opt_str_view(etag),
                        c@.last_updated,
                    );
                    c@ == parsed && final(self)@ =~= spec_insert(old(self)@, parsed)
                },
                Err(_) => json_parse(content@) is None && final(self)@ == old(self)@,
            },
    {
        let now = now_unix_millis();
        self.import_collection(url, content, etag, now)
    }

    /// Applies one poll outcome for `url`: not-modified and failed polls
    /// leave the store untouched; fresh content that parses replaces the
    /// stored collection wholesale, keeping the prior sync flag; fresh
    /// content that does not parse is skipped. Yields whether the store
    /// changed, so the caller knows to notify observers.
    pub fn apply_sync_fetch(&mut self, url: &str, outcome: SyncOutcome, now_millis: i64) -> (r:
        bool)
        requires
            old(self).wf(),
        ensures
            final(self).wf(),
            match outcome {
                SyncOutcome::Fresh { body, etag } => match json_parse(body@) {
                    Some(doc) => r == true && final(self)@ =~= spec_apply_fresh(
                        old(self)@,
                        url@,
                        doc,
                        opt_str_view(etag),
                        now_millis,
                    ),
                    None => r == false && final(self)@ == old(self)@,
                },
                _ => r == false && final(self)@ == old(self)@,
            },
    {
        match outcome {
            SyncOutcome::NotModified => false,
            SyncOutcome::Failed => false,
            SyncOutcome::Fresh { body, etag } => {
                let mut collection = match parse_openapi_internal(
                    body.as_str(),
                    url,
                    etag,
                    now_millis,
                ) {
                    Ok(c) => c,
                    Err(_) => {
                        return false;
                    },
                };
                let flag = match self.get(url) {
                    Some(prior) => prior.sync_enabled,
                    None => true,
                };
                collection.sync_enabled = flag;
                self.insert(collection);
                true
            },
        }
    }
}

/// The views of `(url, etag)` pairs, in order.
pub open spec fn pairs_view(s: Seq<(String, Option<String>)>) -> Seq<(Seq<char>, Option<Seq<char>>)> {
    Seq::new(s.len(), |i: int| (s[i].0@, opt_str_view(s[i].1)))
}

} // verus!
