//! A request-dispatch pipeline with a CGI transport codec: route matching
//! with deepest-path priority, a pre/post middleware chain, header-injection
//! defense, bounded gzip decompression, and RFC 6265-aware response framing.
use vstd::prelude::*;
pub mod context;
pub mod error;
pub mod validate;
pub mod kvseq;
pub mod query;
pub mod cgi_frame;
pub mod redact;
pub mod gzip;
pub mod traits;
pub mod pattern;
pub mod dispatch;
pub mod cgi_ingest;
pub mod cookie;
pub mod sample_handler;
pub mod strmap;
pub mod http;
pub mod text;

use crate::traits::Handler;
use crate::traits::Middleware;
use crate::http::Method;
use crate::text::str_bytes;

verus! {

/// The number of `/` bytes in a byte sequence.
pub open spec fn count_slashes(b: Seq<u8>) -> int
    decreases b.len(),
{
    if b.len() == 0 {
        0
    } else {
        count_slashes(b.drop_last()) + if b.last() == 47 {
            1int
        } else {
            0int
        }
    }
}

/// The routing depth of a pattern: how many `/` its text carries.
pub open spec fn spec_depth(p: Seq<char>) -> int {
    count_slashes(vstd::utf8::encode_utf8(p))
}

/// Counts the `/` bytes of a pattern string.
#[verifier::loop_isolation(false)]
pub fn slash_count(s: &str) -> (r: usize)
    ensures
        r == spec_depth(s@),
{
    let bytes = str_bytes(s);
    let mut count: usize = 0;
    let mut i: usize = 0;
    proof {
        assert(bytes@.take(0) =~= Seq::<u8>::empty());
    }
    while i < bytes.len()
        invariant
            i <= bytes@.len(),
            count <= i,
            count == count_slashes(bytes@.take(i as int)),
        decreases bytes@.len() - i,
    {
        proof {
            assert(bytes@.take(i + 1).drop_last() =~= bytes@.take(i as int));
            assert(bytes@.take(i + 1).last() == bytes@[i as int]);
        }
        if bytes[i] == 47 {
            count = count + 1;
        }
        i = i + 1;
    }
    proof {
        assert(bytes@.take(bytes@.len() as int) =~= bytes@);
    }
    count
}

/// One row of the route table: the handler, boxed behind the `Handler`
/// trait.
pub struct RouteEntry {
    /// The handler that answers requests matched by this entry.
    pub handler: Box<dyn Handler>,
}

/// Entries stand in order of falling depth: deeper patterns are tried
/// before shallower ones.
pub open spec fn spec_sorted_by_depth(hs: Seq<RouteEntry>) -> bool {
    forall|i: int, j: int|
        0 <= i < j < hs.len() ==> spec_depth((#[trigger] hs[i]).handler.spec_pattern())
            >= spec_depth((#[trigger] hs[j]).handler.spec_pattern())
}

/// Where a new entry of the given depth goes: after every entry at least
/// as deep, before the first strictly shallower one.
pub open spec fn spec_insert_pos(hs: Seq<RouteEntry>, c: int) -> int
    decreases hs.len(),
{
    if hs.len() == 0 {
        0
    } else if spec_depth(hs[0].handler.spec_pattern()) < c {
        0
    } else {
        1 + spec_insert_pos(hs.drop_first(), c)
    }
}

/// The first handler that matches the path and method, if any.
pub open spec fn spec_find_handler(
    hs: Seq<RouteEntry>,
    path: Seq<char>,
    m: Method,
) -> Option<int>
    decreases hs.len(),
{
    if hs.len() == 0 {
        None
    } else if hs[0].handler.spec_matches(path, m) {
        Some(0int)
    } else {
        match spec_find_handler(hs.drop_first(), path, m) {
            Some(i) => Some(i + 1),
            None => None,
        }
    }
}

/// The boundary scanned by the sorted insertion pins the position down.
proof fn lemma_insert_pos_at(hs: Seq<RouteEntry>, c: int, i: int)
    requires
        0 <= i <= hs.len(),
        forall|j: int| 0 <= j < i ==> spec_depth((#[trigger] hs[j]).handler.spec_pattern()) >= c,
        i < hs.len() ==> spec_depth(hs[i].handler.spec_pattern()) < c,
    ensures
        spec_insert_pos(hs, c) == i,
    decreases i,
{
    if hs.len() == 0 {
    } else if i == 0 {
    } else {
        let t = hs.drop_first();
        assert forall|j: int|
            0 <= j < i - 1 implies spec_depth((#[trigger] t[j]).handler.spec_pattern()) >= c by {
            assert(t[j] == hs[j + 1]);
        }
        if i - 1 < t.len() {
            assert(t[i - 1] == hs[i]);
        }
        assert(spec_depth(hs[0].handler.spec_pattern()) >= c);
        lemma_insert_pos_at(t, c, i - 1);
    }
}

/// A first match pins the found index down.
proof fn lemma_find_handler_at(hs: Seq<RouteEntry>, path: Seq<char>, m: Method, i: int)
    requires
        0 <= i < hs.len(),
        hs[i].handler.spec_matches(path, m),
        forall|j: int| 0 <= j < i ==> !(#[trigger] hs[j]).handler.spec_matches(path, m),
    ensures
        spec_find_handler(hs, path, m) == Some(i),
    decreases i,
{
    if i == 0 {
    } else {
        let t = hs.drop_first();
        assert forall|j: int|
            0 <= j < i - 1 implies !(#[trigger] t[j]).handler.spec_matches(path, m) by {
            assert(t[j] == hs[j + 1]);
        }
        assert(t[i - 1] == hs[i]);
        lemma_find_handler_at(t, path, m, i - 1);
    }
}

/// With no match anywhere, nothing is found.
proof fn lemma_find_handler_none(hs: Seq<RouteEntry>, path: Seq<char>, m: Method)
    requires
        forall|j: int| 0 <= j < hs.len() ==> !(#[trigger] hs[j]).handler.spec_matches(path, m),
    ensures
        spec_find_handler(hs, path, m) is None,
    decreases hs.len(),
{
    if hs.len() > 0 {
        let t = hs.drop_first();
        assert forall|j: int|
            0 <= j < t.len() implies !(#[trigger] t[j]).handler.spec_matches(path, m) by {
            assert(t[j] == hs[j + 1]);
        }
        lemma_find_handler_none(t, path, m);
    }
}

/// Builds the application: handlers are kept sorted so that the deepest
/// path pattern is tried first, middleware in registration order.
pub struct RunBridgeBuilder {
    /// Handlers registered so far, deepest pattern first.
    pub handlers: Vec<RouteEntry>,
    /// Middleware in registration order.
    pub middlewares: Vec<Box<dyn Middleware>>,
}

impl RunBridgeBuilder {
    /// The handlers stand in order of falling depth.
    pub open spec fn wf(&self) -> bool {
        spec_sorted_by_depth(self.handlers@)
    }

    /// An empty builder.
    pub fn new() -> (r: RunBridgeBuilder)
        ensures
            r.handlers@.len() == 0,
            r.middlewares@.len() == 0,
            r.wf(),
    {
        RunBridgeBuilder { handlers: Vec::new(), middlewares: Vec::new() }
    }

    /// Registers a route entry. The table is kept sorted by the number of
    /// `/` in the path pattern, deepest first; among equally deep patterns
    /// the earlier registration keeps its precedence.
    #[verifier::loop_isolation(false)]
    pub fn handler(self, entry: RouteEntry) -> (r: RunBridgeBuilder)
        requires
            self.wf(),
        ensures
            r.wf(),
            r.middlewares@ == self.middlewares@,
            r.handlers@ == self.handlers@.insert(
                spec_insert_pos(self.handlers@, spec_depth(entry.handler.spec_pattern())),
                entry,
            ),
    {
        let c = slash_count(entry.handler.path_pattern());
        let ghost ev = entry;
        let mut s = self;
        let ghost hs = s.handlers@;
        let mut i: usize = 0;
        while i < s.handlers.len() && slash_count(s.handlers[i].handler.path_pattern()) >= c
            invariant
                i <= hs.len(),
                s.handlers@ == hs,
                forall|j: int|
                    0 <= j < i ==> spec_depth((#[trigger] hs[j]).handler.spec_pattern()) >= c,
            decreases hs.len() - i,
        {
            i = i + 1;
        }
        proof {
            lemma_insert_pos_at(hs, c as int, i as int);
        }
        s.handlers.insert(i, entry);
        proof {
            hs.insert_ensures(i as int, ev);
            let n = s.handlers@;
            let pos = i as int;
            assert forall|a: int, b: int|
                0 <= a < b < n.len() implies spec_depth((#[trigger] n[a]).handler.spec_pattern())
                >= spec_depth((#[trigger] n[b]).handler.spec_pattern()) by {
                if a < pos {
                    assert(n[a] == hs[a]);
                } else if a == pos {
                    assert(n[a] == ev);
                } else {
                    assert(n[a] == hs[a - 1]);
                }
                if b < pos {
                    assert(n[b] == hs[b]);
                } else if b == pos {
                    assert(n[b] == ev);
                } else {
                    assert(n[b] == hs[b - 1]);
                }
                if b == pos {
                    assert(spec_depth(ev.handler.spec_pattern()) == c);
                    assert(spec_depth(hs[a].handler.spec_pattern()) >= c);
                } else if a == pos {
                    assert(pos < hs.len());
                    assert(spec_depth(hs[pos].handler.spec_pattern()) < c);
                    if b - 1 > pos {
                        assert(spec_depth(hs[b - 1].handler.spec_pattern()) <= spec_depth(
                            hs[pos].handler.spec_pattern(),
                        ));
                    }
                } else if a < pos && b > pos {
                    assert(a < b - 1);
                    assert(spec_depth(hs[a].handler.spec_pattern()) >= spec_depth(
                        hs[b - 1].handler.spec_pattern(),
                    ));
                }
            }
        }
        s
    }

    /// Registers a middleware at the end of the chain.
    pub fn middleware(self, middleware: Box<dyn Middleware>) -> (r: RunBridgeBuilder)
        ensures
            r.handlers@ == self.handlers@,
            r.middlewares@ == self.middlewares@.push(middleware),
            self.wf() ==> r.wf(),
    {
        let mut s = self;
        s.middlewares.push(middleware);
        s
    }

    /// Finishes the application.
    pub fn build(self) -> (r: RunBridge)
        ensures
            r.handlers@ == self.handlers@,
            r.middlewares@ == self.middlewares@,
            self.wf() ==> r.wf(),
    {
        RunBridge { handlers: self.handlers, middlewares: self.middlewares }
    }
}

/// The application: an ordered route table and a middleware chain, built
/// once at startup and read-only afterwards.
pub struct RunBridge {
    /// Handlers, deepest path pattern first.
    pub handlers: Vec<RouteEntry>,
    /// Middleware in registration order.
    pub middlewares: Vec<Box<dyn Middleware>>,
}

impl RunBridge {
    /// The handlers stand in order of falling depth.
    pub open spec fn wf(&self) -> bool {
        spec_sorted_by_depth(self.handlers@)
    }

    /// A fresh builder.
    pub fn builder() -> (r: RunBridgeBuilder)
        ensures
            r.handlers@.len() == 0,
            r.middlewares@.len() == 0,
            r.wf(),
    {
        RunBridgeBuilder::new()
    }

    /// The first handler whose pattern matches the path and method, in
    /// table order, so the deepest registered pattern wins.
    #[verifier::loop_isolation(false)]
    pub fn find_handler(&self, path: &str, method: &Method) -> (r: Option<&Box<dyn Handler>>)
        ensures
            match spec_find_handler(self.handlers@, path@, *method) {
                Some(i) => r matches Some(h) && *h == self.handlers@[i].handler,
                None => r is None,
            },
    {
        let mut i: usize = 0;
        while i < self.handlers.len()
            invariant
                i <= self.handlers@.len(),
                forall|j: int|
                    0 <= j < i ==> !(#[trigger] self.handlers@[j]).handler.spec_matches(
                        path@,
                        *method,
                    ),
            decreases self.handlers@.len() - i,
        {
            if self.handlers[i].handler.matches(path, method) {
                proof {
                    lemma_find_handler_at(self.handlers@, path@, *method, i as int);
                }
                return Some(&self.handlers[i].handler);
            }
            i = i + 1;
        }
        proof {
            lemma_find_handler_none(self.handlers@, path@, *method);
        }
        None
    }

    /// The middleware chain, in registration order.
    pub fn middlewares(&self) -> (r: &Vec<Box<dyn Middleware>>)
        ensures
            r@ == self.middlewares@,
    {
        &self.middlewares
    }
}

/// What a successful lookup means: the found index is in range, its
/// entry matches, and nothing before it does.
pub proof fn lemma_find_handler_props(hs: Seq<RouteEntry>, path: Seq<char>, m: Method)
    requires
        spec_find_handler(hs, path, m) is Some,
    ensures
        ({
            let k = spec_find_handler(hs, path, m).unwrap();
            &&& 0 <= k < hs.len()
            &&& hs[k].handler.spec_matches(path, m)
            &&& forall|j: int| 0 <= j < k ==> !(#[trigger] hs[j]).handler.spec_matches(path, m)
        }),
    decreases hs.len(),
{
    if hs.len() == 0 {
    } else if hs[0].handler.spec_matches(path, m) {
    } else {
        let t = hs.drop_first();
        lemma_find_handler_props(t, path, m);
        let k = spec_find_handler(hs, path, m).unwrap();
        assert(t[k - 1] == hs[k]);
        assert forall|j: int| 0 <= j < k implies !(#[trigger] hs[j]).handler.spec_matches(
            path,
            m,
        ) by {
            if j > 0 {
                assert(hs[j] == t[j - 1]);
            }
        }
    }
}

/// Of all the routes that match a path and method, the one the table
/// selects carries a pattern at least as deep as any other match: the
/// deepest registered pattern wins.
pub proof fn lemma_found_route_deepest(app: &RunBridge, path: Seq<char>, m: Method, j: int)
    requires
        app.wf(),
        spec_find_handler(app.handlers@, path, m) is Some,
        0 <= j < app.handlers@.len(),
        app.handlers@[j].handler.spec_matches(path, m),
    ensures
        ({
            let k = spec_find_handler(app.handlers@, path, m).unwrap();
            spec_depth(app.handlers@[k].handler.spec_pattern()) >= spec_depth(
                app.handlers@[j].handler.spec_pattern(),
            )
        }),
{
    lemma_find_handler_props(app.handlers@, path, m);
    let k = spec_find_handler(app.handlers@, path, m).unwrap();
    if j < k {
        assert(!app.handlers@[j].handler.spec_matches(path, m));
    }
}

/// In a well-formed table, a strictly deeper pattern always stands before
/// a shallower one, whatever the registration order was, so the deeper
/// route is attempted first.
pub proof fn lemma_deeper_route_first(app: &RunBridge, i: int, j: int)
    requires
        app.wf(),
        0 <= i < app.handlers@.len(),
        0 <= j < app.handlers@.len(),
        spec_depth(app.handlers@[i].handler.spec_pattern()) > spec_depth(
            app.handlers@[j].handler.spec_pattern(),
        ),
    ensures
        i < j,
{
    if i >= j {
        if i == j {
        } else {
            assert(spec_depth(app.handlers@[j].handler.spec_pattern()) >= spec_depth(
                app.handlers@[i].handler.spec_pattern(),
            ));
        }
    }
}

} // verus!
