//! API documents of the servers, fetched through the console and kept for a
//! while.

use crate::common::api::ApiError;
use crate::common::text::{concat2, same_text};
use crate::console::config::{hosts_server, refuse, server_at, ConsoleConfig};
use crate::console::lifecycle::not_deployed;
use vstd::prelude::*;
use vstd::string::*;

verus! {

/// How long a document is kept, in milliseconds.
pub const OPENAPI_CACHE_TTL_MS: u64 = 300_000;

/// The document of a node's server and when it was fetched.
#[derive(Debug)]
pub struct CachedDocument {
    pub node_id: String,
    pub document: String,
    pub fetched_ms: u64,
}

/// Documents, at most one for a node.
#[derive(Debug)]
pub struct OpenApiCache {
    pub entries: Vec<CachedDocument>,
}

/// The first entry for a node is at `i`.
pub open spec fn document_at(entries: Seq<CachedDocument>, node: Seq<char>, i: int) -> bool {
    &&& 0 <= i < entries.len()
    &&& entries[i].node_id@ == node
    &&& forall|k: int| 0 <= k < i ==> (#[trigger] entries[k]).node_id@ != node
}

/// There is an entry for a node.
pub open spec fn has_document(entries: Seq<CachedDocument>, node: Seq<char>) -> bool {
    exists|i: int| 0 <= i < entries.len() && (#[trigger] entries[i]).node_id@ == node
}

impl CachedDocument {
    /// The document is still kept.
    pub open spec fn fresh(&self, now_ms: u64) -> bool {
        now_ms - self.fetched_ms < OPENAPI_CACHE_TTL_MS
    }
}

/// `after` is `before` with this document for a node, in place of the one before
/// if there was one; what is kept for other nodes stays.
pub open spec fn document_kept(
    before: Seq<CachedDocument>,
    after: Seq<CachedDocument>,
    node: Seq<char>,
    document: String,
    now_ms: u64,
) -> bool {
    exists|i: int|
        {
            &&& #[trigger] document_at(after, node, i)
            &&& after[i].document == document
            &&& after[i].fetched_ms == now_ms
            &&& if has_document(before, node) {
                &&& document_at(before, node, i)
                &&& after == before.update(i, after[i])
            } else {
                after == before.push(after[i])
            }
        }
}

impl OpenApiCache {
    /// A cache of nothing.
    pub fn new() -> (c: Self)
        ensures
            c.entries.len() == 0,
    {
        OpenApiCache { entries: Vec::new() }
    }

    fn find(&self, node: &str) -> (r: Option<usize>)
        ensures
            match r {
                Some(i) => document_at(self.entries@, node@, i as int),
                None => !has_document(self.entries@, node@),
            },
    {
        let mut i: usize = 0;
        while i < self.entries.len()
            invariant
                i <= self.entries.len(),
                forall|k: int| 0 <= k < i ==> (#[trigger] self.entries@[k]).node_id@ != node@,
            decreases self.entries.len() - i,
        {
            if same_text(self.entries[i].node_id.as_str(), node) {
                return Some(i);
            }
            i = i + 1;
        }
        None
    }

    /// The document for a node, unless it has been kept for too long.
    pub fn get(&self, node: &str, now_ms: u64) -> (r: Option<&String>)
        ensures
            match r {
                Some(d) => exists|i: int| #[trigger]
                    document_at(self.entries@, node@, i) && self.entries@[i].fresh(now_ms) && *d
                        == self.entries@[i].document,
                None => forall|i: int| #[trigger]
                    document_at(self.entries@, node@, i) ==> !self.entries@[i].fresh(now_ms),
            },
    {
        match self.find(node) {
            Some(i) => {
                proof {
                    assert(document_at(self.entries@, node@, i as int));
                    assert(forall|k: int| #[trigger]
                        document_at(self.entries@, node@, k) ==> k == i);
                }
                let at: u64 = self.entries[i].fetched_ms;
                if now_ms < at || now_ms - at < OPENAPI_CACHE_TTL_MS {
                    Some(&self.entries[i].document)
                } else {
                    None
                }
            },
            None => {
                proof {
                    assert forall|i: int| !(#[trigger] document_at(self.entries@, node@, i)) by {
                        if document_at(self.entries@, node@, i) {
                            assert(self.entries@[i].node_id@ == node@);
                        }
                    }
                }
                None
            },
        }
    }

    /// Keep a document for a node in place of the one before.
    pub fn insert(&mut self, node: &str, document: String, now_ms: u64)
        ensures
            document_kept(old(self).entries@, final(self).entries@, node@, document, now_ms),
    {
        let entry = CachedDocument { node_id: node.to_owned(), document, fetched_ms: now_ms };
        let ghost added = entry;
        match self.find(node) {
            Some(i) => {
                self.entries.set(i, entry);
                proof {
                    assert(old(self).entries@[i as int].node_id@ == node@);
                    assert(has_document(old(self).entries@, node@));
                    assert(self.entries@[i as int] == added);
                    assert(document_at(self.entries@, node@, i as int));
                }
            },
            None => {
                let ghost n = self.entries.len() as int;
                self.entries.push(entry);
                proof {
                    assert(self.entries@[n] == added);
                    assert forall|k: int| 0 <= k < n implies (#[trigger] self.entries@[k]).node_id@
                        != node@ by {
                        assert(self.entries@[k] == old(self).entries@[k]);
                    }
                    assert(document_at(self.entries@, node@, n));
                }
            },
        }
    }

    /// Keep nothing.
    pub fn clear(&mut self)
        ensures
            final(self).entries.len() == 0,
    {
        self.entries.clear();
    }
}

/// A text without slashes at its end.
pub open spec fn without_slashes(s: Seq<char>) -> Seq<char>
    decreases s.len(),
{
    if s.len() > 0 && s.last() == '/' {
        without_slashes(s.drop_last())
    } else {
        s
    }
}

fn trim_slashes(s: &str) -> (r: &str)
    ensures
        r@ == without_slashes(s@),
{
    let mut n: usize = s.unicode_len();
    proof {
        assert(s@.subrange(0, n as int) =~= s@);
    }
    while n > 0 && s.get_char(n - 1) == '/'
        invariant
            n <= s@.len(),
            without_slashes(s@) == without_slashes(s@.subrange(0, n as int)),
        ensures
            n <= s@.len(),
            without_slashes(s@) == s@.subrange(0, n as int),
        decreases n,
    {
        proof {
            assert(s@.subrange(0, n as int).drop_last() =~= s@.subrange(0, n - 1));
        }
        n = n - 1;
    }
    s.substring_char(0, n)
}

/// The first step to a document: it is kept, or it is to be fetched from here.
#[derive(Debug)]
pub enum OpenApiStep {
    Cached(String),
    Fetch(String),
}

/// The first step to the document of the server on a node.
pub fn begin_openapi(
    cfg: &ConsoleConfig,
    cache: &OpenApiCache,
    node_id: &str,
    now_ms: u64,
) -> (r: Result<OpenApiStep, ApiError>)
    ensures
        match r {
            Ok(OpenApiStep::Cached(d)) => hosts_server(cfg.servers@, node_id@) && exists|i: int|
                #[trigger]
                document_at(cache.entries@, node_id@, i) && cache.entries@[i].fresh(now_ms) && d
                    == cache.entries@[i].document,
            Ok(OpenApiStep::Fetch(url)) => {
                &&& exists|i: int| #[trigger]
                    server_at(cfg.servers@, node_id@, i) && url@ == without_slashes(
                        cfg.servers@[i].url@,
                    ) + "/openapi.json"@
                &&& forall|i: int| #[trigger]
                    document_at(cache.entries@, node_id@, i) ==> !cache.entries@[i].fresh(now_ms)
            },
            Err(e) => !hosts_server(cfg.servers@, node_id@) && e.says(404, not_deployed(node_id@)),
        },
{
    match cfg.server_for_node(node_id) {
        Some(s) => {
            proof {
                let i = choose|i: int| #[trigger]
                    server_at(cfg.servers@, node_id@, i) && *s == cfg.servers@[i];
                assert(cfg.servers@[i].is_on(node_id@));
            }
            match cache.get(node_id, now_ms) {
                Some(d) => Ok(OpenApiStep::Cached(d.clone())),
                None => {
                    let base: &str = trim_slashes(s.url.as_str());
                    Ok(OpenApiStep::Fetch(concat2(base, "/openapi.json")))
                },
            }
        },
        None => Err(refuse(404, "no server deployed on node ", node_id, "")),
    }
}

/// What a fetch came to.
#[derive(Debug)]
pub enum Fetched {
    /// The server was not reached.
    Unreachable(String),
    /// It answered with this status.
    Status(String),
    /// Its answer is no document.
    Malformed(String),
    Document(String),
}

/// The answer after a fetch. A document is kept.
pub fn finish_openapi(
    cache: &mut OpenApiCache,
    node_id: &str,
    fetched: Fetched,
    now_ms: u64,
) -> (r: Result<String, ApiError>)
    ensures
        match fetched {
            Fetched::Unreachable(t) => *final(cache) == *old(cache) && (r matches Err(e) && e.says(
                502,
                "openapi proxy: "@ + t@,
            )),
            Fetched::Status(t) => *final(cache) == *old(cache) && (r matches Err(e) && e.says(
                502,
                "openapi proxy: upstream "@ + t@,
            )),
            Fetched::Malformed(t) => *final(cache) == *old(cache) && (r matches Err(e) && e.says(
                502,
                "openapi proxy: parse: "@ + t@,
            )),
            Fetched::Document(d) => {
                &&& r == Ok::<String, ApiError>(d)
                &&& document_kept(old(cache).entries@, final(cache).entries@, node_id@, d, now_ms)
            },
        },
{
    match fetched {
        Fetched::Unreachable(t) => Err(
            ApiError { status: 502, error: concat2("openapi proxy: ", t.as_str()) },
        ),
        Fetched::Status(t) => Err(
            ApiError { status: 502, error: concat2("openapi proxy: upstream ", t.as_str()) },
        ),
        Fetched::Malformed(t) => Err(
            ApiError { status: 502, error: concat2("openapi proxy: parse: ", t.as_str()) },
        ),
        Fetched::Document(d) => {
            cache.insert(node_id, d.clone(), now_ms);
            Ok(d)
        },
    }
}

// ── Laws of kept documents ───────────────────────────────────────
/// A document is kept for exactly as long as the limit says.
pub proof fn document_is_kept_until_the_limit(d: CachedDocument, now_ms: u64)
    requires
        d.fetched_ms <= now_ms,
    ensures
        d.fresh(now_ms) <==> now_ms < d.fetched_ms + OPENAPI_CACHE_TTL_MS,
{
}

/// Trimming slashes takes them from the end of a text and nothing else.
pub proof fn only_trailing_slashes_are_taken(s: Seq<char>)
    ensures
        without_slashes(s).is_prefix_of(s),
        without_slashes(s).len() > 0 ==> without_slashes(s).last() != '/',
        forall|i: int| without_slashes(s).len() <= i < s.len() ==> #[trigger] s[i] == '/',
    decreases s.len(),
{
    if s.len() > 0 && s.last() == '/' {
        let front = s.drop_last();
        only_trailing_slashes_are_taken(front);
        assert forall|i: int| without_slashes(s).len() <= i < s.len() implies #[trigger] s[i]
            == '/' by {
            if i < front.len() {
                assert(front[i] == s[i]);
            }
        }
        assert(s.subrange(0, without_slashes(s).len() as int) =~= front.subrange(
            0,
            without_slashes(s).len() as int,
        ));
    } else {
        assert(s.subrange(0, s.len() as int) =~= s);
    }
}

/// A document that was just kept is the one that is kept for its node, and
/// fresh; what is kept for other nodes stays as it was.
pub proof fn kept_document_is_found(
    before: Seq<CachedDocument>,
    after: Seq<CachedDocument>,
    node: Seq<char>,
    document: String,
    now_ms: u64,
    other: Seq<char>,
)
    requires
        document_kept(before, after, node, document, now_ms),
        OPENAPI_CACHE_TTL_MS > 0,
    ensures
        has_document(after, node),
        forall|i: int| #[trigger]
            document_at(after, node, i) ==> after[i].document == document && after[i].fresh(now_ms),
        other != node ==> (has_document(after, other) <==> has_document(before, other)),
        other != node ==> forall|i: int| #[trigger]
            document_at(before, other, i) ==> after.len() > i && after[i] == before[i],
{
    let i = choose|i: int|
        {
            &&& #[trigger] document_at(after, node, i)
            &&& after[i].document == document
            &&& after[i].fetched_ms == now_ms
            &&& if has_document(before, node) {
                &&& document_at(before, node, i)
                &&& after == before.update(i, after[i])
            } else {
                after == before.push(after[i])
            }
        };
    assert(after[i].node_id@ == node);
    assert forall|k: int| #[trigger] document_at(after, node, k) implies after[k].document
        == document && after[k].fresh(now_ms) by {
        if k < i {
            assert(after[k].node_id@ != node);
        } else if i < k {
            assert(after[i].node_id@ != node);
        }
    }
    if other != node {
        if has_document(after, other) {
            let k = choose|k: int| 0 <= k < after.len() && (#[trigger] after[k]).node_id@ == other;
            assert(k != i);
            assert(before[k] == after[k]);
        }
        if has_document(before, other) {
            let k = choose|k: int| 0 <= k < before.len() && (#[trigger] before[k]).node_id@ == other;
            assert(after[k] == before[k]);
        }
    }
}

} // verus!
