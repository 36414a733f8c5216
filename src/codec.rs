//! Translation between invocation events and plain HTTP requests and responses.
use vstd::prelude::*;
use crate::query::{decode_query_value, escapes_are_ascii, query_value_of};
use vstd::string::StringExecFns;
use crate::text::chars_of;

verus! {

/// Origin of the application server that runs beside the bridge.
pub const LOCAL_APP_ORIGIN: &'static str = "http://127.0.0.1:3457";

/// The body of an invocation event or of an outbound request.
pub enum Body {
    Empty,
    Text(String),
    Binary(Vec<u8>),
}

/// One HTTP-style request as the load balancer delivers it. Single- and
/// multi-valued headers and query parameters are both held as lists of pairs,
/// a key once per value, in the order given.
pub struct InvocationEvent {
    pub method: String,
    pub path: String,
    pub query: Vec<(String, String)>,
    pub headers: Vec<(String, String)>,
    pub body: Body,
    pub is_base64_encoded: bool,
}

/// The request that the bridge sends to the local application.
pub struct OutboundRequest {
    pub method: String,
    pub url: String,
    pub headers: Vec<(String, String)>,
    pub query: Vec<(String, String)>,
    pub body: Body,
}

/// The response handed back to the invocation source.
pub struct ResponseEvent {
    pub status_code: u16,
    pub headers: Vec<(String, String)>,
    pub body: String,
    pub is_base64_encoded: bool,
}

/// What can go wrong while one invocation is bridged.
#[derive(PartialEq, Eq, Structural, Clone, Copy, Debug)]
pub enum BridgeError {
    /// The event's path is absent or a query value does not decode.
    MalformedEvent,
    /// The local application cannot be reached.
    Connect,
    /// The local application did not answer before the deadline.
    Timeout,
    /// The local application's response body could not be read.
    UpstreamRead,
}

impl BridgeError {
    /// Whether the error stops the whole process rather than one invocation:
    /// only an unreachable local application does.
    pub fn is_fatal(&self) -> (r: bool)
        ensures
            r == (*self == BridgeError::Connect),
    {
        match self {
            BridgeError::Connect => true,
            _ => false,
        }
    }
}

/// A list of string pairs as character sequences.
pub open spec fn pairs_view(v: Seq<(String, String)>) -> Seq<(Seq<char>, Seq<char>)> {
    v.map_values(|p: (String, String)| (p.0@, p.1@))
}

/// The keys that occur in a list of pairs.
pub open spec fn keys_of(h: Seq<(Seq<char>, Seq<char>)>) -> Set<Seq<char>> {
    Set::new(|k: Seq<char>| exists|i: int| 0 <= i < h.len() && #[trigger] h[i].0 == k)
}

/// No key occurs twice.
pub open spec fn unique_keys(r: Seq<(Seq<char>, Seq<char>)>) -> bool {
    forall|a: int, b: int| 0 <= a < r.len() && 0 <= b < r.len() && a != b ==> #[trigger] r[a].0 != #[trigger] r[b].0
}

/// `p` is the last pair of `h` with its key.
pub open spec fn is_last_for_key(h: Seq<(Seq<char>, Seq<char>)>, p: (Seq<char>, Seq<char>)) -> bool {
    exists|i: int|
        0 <= i < h.len() && #[trigger] h[i] == p && forall|j: int| i < j < h.len() ==> #[trigger] h[j].0 != p.0
}

/// The keys of `r` come in the order in which they first occur in `h`.
pub open spec fn in_first_occurrence_order(
    h: Seq<(Seq<char>, Seq<char>)>,
    r: Seq<(Seq<char>, Seq<char>)>,
) -> bool {
    forall|a: int, b: int, i: int|
        #![trigger r[a], r[b], h[i]]
        0 <= a < b < r.len() && 0 <= i < h.len() && h[i].0 == r[b].0 ==> occurs_before(h, r[a].0, i)
}

/// Key `k` occurs in `h` before index `i`.
pub open spec fn occurs_before(h: Seq<(Seq<char>, Seq<char>)>, k: Seq<char>, i: int) -> bool {
    exists|j: int| 0 <= j < i && #[trigger] h[j].0 == k
}

/// `r` holds one pair per key of `h`, in the order in which the keys first
/// occur, each with the last value that `h` gives it.
pub open spec fn folds_to(h: Seq<(Seq<char>, Seq<char>)>, r: Seq<(Seq<char>, Seq<char>)>) -> bool {
    &&& unique_keys(r)
    &&& in_first_occurrence_order(h, r)
    &&& keys_of(r) == keys_of(h)
    &&& forall|a: int| 0 <= a < r.len() ==> is_last_for_key(h, #[trigger] r[a])
}

/// The two bodies are the same variant with the same contents.
pub open spec fn same_body(a: Body, b: Body) -> bool {
    match (a, b) {
        (Body::Empty, Body::Empty) => true,
        (Body::Text(x), Body::Text(y)) => x@ == y@,
        (Body::Binary(x), Body::Binary(y)) => x@ == y@,
        _ => false,
    }
}

/// A path that can be appended to the local origin.
pub open spec fn valid_path(p: Seq<char>) -> bool {
    p.len() > 0 && p[0] == '/'
}

/// Every query value of the list decodes to text.
pub open spec fn query_decodes(q: Seq<(Seq<char>, Seq<char>)>) -> bool {
    forall|i: int| 0 <= i < q.len() ==> escapes_are_ascii(#[trigger] q[i].1)
}

/// `d` is the query list `q` with every value decoded that is known to decode.
pub open spec fn decoded_query(q: Seq<(Seq<char>, Seq<char>)>, d: Seq<(Seq<char>, Seq<char>)>) -> bool {
    &&& d.len() == q.len()
    &&& forall|i: int| 0 <= i < q.len() ==> #[trigger] d[i].0 == q[i].0
    &&& forall|i: int|
        0 <= i < q.len() && escapes_are_ascii(q[i].1) ==> #[trigger] d[i].1 == query_value_of(q[i].1)
}

/// `r` is the outbound request for event `e`.
pub open spec fn translates_to(e: InvocationEvent, r: OutboundRequest) -> bool {
    &&& r.method@ == e.method@
    &&& r.url@ == LOCAL_APP_ORIGIN@ + e.path@
    &&& pairs_view(r.headers@) == pairs_view(e.headers@)
    &&& decoded_query(pairs_view(e.query@), pairs_view(r.query@))
    &&& same_body(e.body, r.body)
}

/// `r` is the response event for an application reply with `status`, `headers` and text `body`.
pub open spec fn responds_with(
    status: u16,
    headers: Seq<(String, String)>,
    body: Seq<char>,
    r: ResponseEvent,
) -> bool {
    &&& r.status_code == status
    &&& folds_to(pairs_view(headers), pairs_view(r.headers@))
    &&& r.body@ == body
    &&& !r.is_base64_encoded
}

/// A copy of a list of string pairs.
pub fn copy_pairs(v: &Vec<(String, String)>) -> (r: Vec<(String, String)>)
    ensures
        pairs_view(r@) == pairs_view(v@),
{
    let mut r: Vec<(String, String)> = Vec::new();
    let mut i: usize = 0;
    while i < v.len()
        invariant
            i <= v@.len(),
            r@.len() == i,
            forall|j: int| 0 <= j < i ==> (#[trigger] r@[j]).0@ == v@[j].0@ && r@[j].1@ == v@[j].1@,
        decreases v@.len() - i,
    {
        let k = v[i].0.clone();
        let x = v[i].1.clone();
        r.push((k, x));
        i = i + 1;
    }
    assert(pairs_view(r@) =~= pairs_view(v@));
    r
}

/// A copy of a body.
pub fn copy_body(b: &Body) -> (r: Body)
    ensures
        same_body(*b, r),
{
    match b {
        Body::Empty => Body::Empty,
        Body::Text(s) => Body::Text(s.clone()),
        Body::Binary(v) => {
            let c = v.clone();
            assert(c@ =~= v@);
            Body::Binary(c)
        },
    }
}

/// The absolute URL of `path` on the local application.
pub fn local_url(path: &str) -> (r: String)
    ensures
        r@ == LOCAL_APP_ORIGIN@ + path@,
{
    let mut r = LOCAL_APP_ORIGIN.to_owned();
    r.append(path);
    r
}

/// Decodes the value of each query pair. `None` where some value does not decode.
pub fn decode_query(q: &Vec<(String, String)>) -> (r: Option<Vec<(String, String)>>)
    ensures
        query_decodes(pairs_view(q@)) ==> r is Some,
        r matches Some(d) ==> decoded_query(pairs_view(q@), pairs_view(d@)),
        r is None ==> !query_decodes(pairs_view(q@)),
{
    let mut d: Vec<(String, String)> = Vec::new();
    let mut i: usize = 0;
    while i < q.len()
        invariant
            i <= q@.len(),
            d@.len() == i,
            forall|j: int| 0 <= j < i ==> (#[trigger] d@[j]).0@ == q@[j].0@,
            forall|j: int|
                0 <= j < i && escapes_are_ascii(q@[j].1@) ==> (#[trigger] d@[j]).1@ == query_value_of(
                    q@[j].1@,
                ),
        decreases q@.len() - i,
    {
        match decode_query_value(q[i].1.as_str()) {
            None => {
                assert(!escapes_are_ascii(pairs_view(q@)[i as int].1));
                return None;
            },
            Some(v) => {
                let k = q[i].0.clone();
                d.push((k, v));
            },
        }
        i = i + 1;
    }
    proof {
        let qv = pairs_view(q@);
        let dv = pairs_view(d@);
        assert forall|j: int| 0 <= j < qv.len() implies #[trigger] dv[j].0 == qv[j].0 by {
            assert(d@[j].0@ == q@[j].0@);
        }
        assert forall|j: int| 0 <= j < qv.len() && escapes_are_ascii(qv[j].1) implies #[trigger] dv[j].1
            == query_value_of(qv[j].1) by {
            assert(d@[j].1@ == query_value_of(q@[j].1@));
        }
    }
    Some(d)
}

/// Translates an invocation event into the request for the local application:
/// method, headers and body as they are, the path appended to the local origin,
/// each query value decoded once with `+` read as a space.
pub fn to_outbound_request(event: &InvocationEvent) -> (r: Result<OutboundRequest, BridgeError>)
    ensures
        !valid_path(event.path@) ==> r == Err::<OutboundRequest, BridgeError>(
            BridgeError::MalformedEvent,
        ),
        valid_path(event.path@) && query_decodes(pairs_view(event.query@)) ==> r is Ok,
        r matches Ok(req) ==> translates_to(*event, req),
        r matches Err(e) ==> e == BridgeError::MalformedEvent,
{
    let p = chars_of(event.path.as_str());
    if p.len() == 0 || p[0] != '/' {
        return Err(BridgeError::MalformedEvent);
    }
    let query = match decode_query(&event.query) {
        None => {
            return Err(BridgeError::MalformedEvent);
        },
        Some(d) => d,
    };
    Ok(OutboundRequest {
        method: event.method.clone(),
        url: local_url(event.path.as_str()),
        headers: copy_pairs(&event.headers),
        query,
        body: copy_body(&event.body),
    })
}

/// Folds a header list into one pair per key: keys in the order they first
/// occur, each with the last value given for it.
pub fn fold_headers(h: &Vec<(String, String)>) -> (r: Vec<(String, String)>)
    ensures
        folds_to(pairs_view(h@), pairs_view(r@)),
{
    let ghost hv = pairs_view(h@);
    let mut r: Vec<(String, String)> = Vec::new();
    let mut i: usize = 0;
    assert(hv.take(0) =~= Seq::<(Seq<char>, Seq<char>)>::empty());
    assert(pairs_view(r@) =~= Seq::<(Seq<char>, Seq<char>)>::empty());
    assert(keys_of(hv.take(0)) =~= keys_of(pairs_view(r@)));
    while i < h.len()
        invariant
            i <= h@.len(),
            hv == pairs_view(h@),
            folds_to(hv.take(i as int), pairs_view(r@)),
        decreases h@.len() - i,
    {
        let ghost rv0 = pairs_view(r@);
        let ghost p = hv[i as int];
        let ghost pre = hv.take(i as int);
        let ghost pre1 = hv.take(i + 1);
        assert(pre1 =~= pre.push(p));
        let mut j: usize = 0;
        let mut found = false;
        while j < r.len() && !found
            invariant
                j <= r@.len(),
                rv0 == pairs_view(r@),
                p == hv[i as int],
                hv == pairs_view(h@),
                i < h@.len(),
                found ==> j < r@.len() && rv0[j as int].0 == p.0,
                forall|a: int| 0 <= a < j ==> (#[trigger] rv0[a]).0 != p.0,
            decreases r@.len() - j + (if found {
                0int
            } else {
                1int
            }),
        {
            if r[j].0 == h[i].0 {
                found = true;
            } else {
                j = j + 1;
            }
        }
        let k = h[i].0.clone();
        let x = h[i].1.clone();
        if found {
            r.set(j, (k, x));
            proof {
                let rv = pairs_view(r@);
                assert(rv =~= rv0.update(j as int, p));
                assert(rv0[j as int].0 == p.0);
                assert forall|a: int, b: int| 0 <= a < rv.len() && 0 <= b < rv.len() && a != b implies #[trigger] rv[a].0
                    != #[trigger] rv[b].0 by {
                    assert(rv[a].0 == rv0[a].0 && rv[b].0 == rv0[b].0);
                }
                assert forall|kk: Seq<char>| keys_of(rv).contains(kk) == keys_of(pre1).contains(kk) by {
                    if keys_of(rv).contains(kk) {
                        let a = choose|a: int| 0 <= a < rv.len() && #[trigger] rv[a].0 == kk;
                        assert(rv0[a].0 == kk);
                        assert(keys_of(rv0).contains(kk));
                        assert(keys_of(pre).contains(kk));
                        let b = choose|b: int| 0 <= b < pre.len() && #[trigger] pre[b].0 == kk;
                        assert(pre1[b].0 == kk);
                    }
                    if keys_of(pre1).contains(kk) {
                        let b = choose|b: int| 0 <= b < pre1.len() && #[trigger] pre1[b].0 == kk;
                        if b == i {
                            assert(rv[j as int].0 == kk);
                        } else {
                            assert(pre[b].0 == kk);
                            assert(keys_of(pre).contains(kk));
                            assert(keys_of(rv0).contains(kk));
                            let a = choose|a: int| 0 <= a < rv0.len() && #[trigger] rv0[a].0 == kk;
                            assert(rv[a].0 == kk);
                        }
                    }
                }
                assert(keys_of(rv) =~= keys_of(pre1));
                assert forall|a: int, b: int, t: int|
                    #![trigger rv[a], rv[b], pre1[t]]
                    0 <= a < b < rv.len() && 0 <= t < pre1.len() && pre1[t].0 == rv[b].0 implies occurs_before(
                        pre1,
                        rv[a].0,
                        t,
                    ) by {
                    assert(rv[a].0 == rv0[a].0 && rv[b].0 == rv0[b].0);
                    if t < i {
                        assert(pre[t] == pre1[t]);
                        assert(occurs_before(pre, rv0[a].0, t));
                        let u = choose|u: int| 0 <= u < t && #[trigger] pre[u].0 == rv0[a].0;
                        assert(pre1[u].0 == rv[a].0);
                    } else {
                        assert(keys_of(rv0).contains(rv0[a].0));
                        let u = choose|u: int| 0 <= u < pre.len() && #[trigger] pre[u].0 == rv0[a].0;
                        assert(pre1[u].0 == rv[a].0);
                    }
                }
                assert forall|a: int| 0 <= a < rv.len() implies is_last_for_key(pre1, #[trigger] rv[a]) by {
                    if a == j {
                        assert(pre1[i as int] == p);
                    } else {
                        assert(is_last_for_key(pre, rv0[a]));
                        let w = choose|w: int|
                            0 <= w < pre.len() && #[trigger] pre[w] == rv0[a] && forall|t: int|
                                w < t < pre.len() ==> #[trigger] pre[t].0 != rv0[a].0;
                        assert(pre1[w] == rv[a]);
                        assert(rv0[a].0 != rv0[j as int].0);
                        assert forall|t: int| w < t < pre1.len() implies #[trigger] pre1[t].0 != rv[a].0 by {
                            if t < i {
                                assert(pre[t].0 != rv0[a].0);
                            }
                        }
                    }
                }
            }
        } else {
            r.push((k, x));
            proof {
                let rv = pairs_view(r@);
                assert(rv =~= rv0.push(p));
                assert forall|a: int, b: int| 0 <= a < rv.len() && 0 <= b < rv.len() && a != b implies #[trigger] rv[a].0
                    != #[trigger] rv[b].0 by {
                    if a < rv0.len() && b < rv0.len() {
                        assert(rv[a].0 == rv0[a].0 && rv[b].0 == rv0[b].0);
                    }
                }
                assert forall|kk: Seq<char>| keys_of(rv).contains(kk) == keys_of(pre1).contains(kk) by {
                    if keys_of(rv).contains(kk) {
                        let a = choose|a: int| 0 <= a < rv.len() && #[trigger] rv[a].0 == kk;
                        if a == rv0.len() {
                            assert(pre1[i as int].0 == kk);
                        } else {
                            assert(rv0[a].0 == kk);
                            assert(keys_of(rv0).contains(kk));
                            assert(keys_of(pre).contains(kk));
                            let b = choose|b: int| 0 <= b < pre.len() && #[trigger] pre[b].0 == kk;
                            assert(pre1[b].0 == kk);
                        }
                    }
                    if keys_of(pre1).contains(kk) {
                        let b = choose|b: int| 0 <= b < pre1.len() && #[trigger] pre1[b].0 == kk;
                        if b == i {
                            assert(rv[rv0.len() as int].0 == kk);
                        } else {
                            assert(pre[b].0 == kk);
                            assert(keys_of(pre).contains(kk));
                            assert(keys_of(rv0).contains(kk));
                            let a = choose|a: int| 0 <= a < rv0.len() && #[trigger] rv0[a].0 == kk;
                            assert(rv[a].0 == kk);
                        }
                    }
                }
                assert(keys_of(rv) =~= keys_of(pre1));
                assert(!keys_of(pre).contains(p.0)) by {
                    if keys_of(pre).contains(p.0) {
                        assert(keys_of(rv0).contains(p.0));
                        let a = choose|a: int| 0 <= a < rv0.len() && #[trigger] rv0[a].0 == p.0;
                        assert(rv0[a].0 != p.0);
                    }
                }
                assert forall|a: int, b: int, t: int|
                    #![trigger rv[a], rv[b], pre1[t]]
                    0 <= a < b < rv.len() && 0 <= t < pre1.len() && pre1[t].0 == rv[b].0 implies occurs_before(
                        pre1,
                        rv[a].0,
                        t,
                    ) by {
                    assert(rv[a] == rv0[a]);
                    if b < rv0.len() {
                        assert(rv[b] == rv0[b]);
                        if t < i {
                            assert(pre[t] == pre1[t]);
                            assert(occurs_before(pre, rv0[a].0, t));
                        let u = choose|u: int| 0 <= u < t && #[trigger] pre[u].0 == rv0[a].0;
                            assert(pre1[u].0 == rv[a].0);
                        } else {
                            assert(keys_of(rv0).contains(rv0[a].0));
                            let u = choose|u: int| 0 <= u < pre.len() && #[trigger] pre[u].0 == rv0[a].0;
                            assert(pre1[u].0 == rv[a].0);
                        }
                    } else {
                        if t < i {
                            assert(pre[t].0 == p.0);
                            assert(keys_of(pre).contains(p.0));
                        }
                        assert(keys_of(rv0).contains(rv0[a].0));
                        let u = choose|u: int| 0 <= u < pre.len() && #[trigger] pre[u].0 == rv0[a].0;
                        assert(pre1[u].0 == rv[a].0);
                    }
                }
                assert forall|a: int| 0 <= a < rv.len() implies is_last_for_key(pre1, #[trigger] rv[a]) by {
                    if a == rv0.len() {
                        assert(pre1[i as int] == p);
                    } else {
                        assert(is_last_for_key(pre, rv0[a]));
                        let w = choose|w: int|
                            0 <= w < pre.len() && #[trigger] pre[w] == rv0[a] && forall|t: int|
                                w < t < pre.len() ==> #[trigger] pre[t].0 != rv0[a].0;
                        assert(pre1[w] == rv[a]);
                        assert(rv0[a].0 != p.0);
                        assert forall|t: int| w < t < pre1.len() implies #[trigger] pre1[t].0 != rv[a].0 by {
                            if t < i {
                                assert(pre[t].0 != rv0[a].0);
                            }
                        }
                    }
                }
            }
        }
        i = i + 1;
    }
    assert(hv.take(i as int) =~= hv);
    r
}

/// Translates the local application's reply into the response event: the
/// status as it is, the headers folded to one value per key, the body as text.
pub fn to_response_event(status: u16, headers: &Vec<(String, String)>, body: String) -> (r:
    ResponseEvent)
    ensures
        responds_with(status, headers@, body@, r),
{
    ResponseEvent { status_code: status, headers: fold_headers(headers), body, is_base64_encoded: false }
}

/// The text that a body carries: none for an empty body.
pub open spec fn body_text(b: Body) -> Seq<char> {
    match b {
        Body::Text(s) => s@,
        _ => Seq::empty(),
    }
}

/// An event translated to a request, answered by an application that echoes
/// the request's headers and body, and translated back, keeps the status, the
/// set of header keys and the body. Binary bodies are left out: the response
/// event carries text.
pub proof fn lemma_round_trip(
    event: InvocationEvent,
    req: OutboundRequest,
    status: u16,
    resp: ResponseEvent,
)
    requires
        !(event.body is Binary),
        translates_to(event, req),
        responds_with(status, req.headers@, body_text(req.body), resp),
    ensures
        resp.status_code == status,
        keys_of(pairs_view(resp.headers@)) == keys_of(pairs_view(event.headers@)),
        resp.body@ == body_text(event.body),
{
}

/// A redirect passes through untranslated: the response event keeps the 301
/// or 302 status and the `Location` header's value as the application sent it
/// (the last one, where it sent several).
pub proof fn lemma_redirect_passes_through(
    status: u16,
    headers: Seq<(String, String)>,
    body: Seq<char>,
    resp: ResponseEvent,
    i: int,
)
    requires
        status == 301 || status == 302,
        responds_with(status, headers, body, resp),
        0 <= i < headers.len(),
        headers[i].0@ == "Location"@,
        forall|j: int| i < j < headers.len() ==> headers[j].0@ != "Location"@,
    ensures
        resp.status_code == status,
        pairs_view(resp.headers@).contains(pairs_view(headers)[i]),
{
    let h = pairs_view(headers);
    let r = pairs_view(resp.headers@);
    let k = h[i].0;
    assert(keys_of(h).contains(k));
    assert(keys_of(r).contains(k));
    let a = choose|a: int| 0 <= a < r.len() && #[trigger] r[a].0 == k;
    assert(is_last_for_key(h, r[a]));
    let w = choose|w: int|
        0 <= w < h.len() && #[trigger] h[w] == r[a] && forall|t: int| w < t < h.len() ==> #[trigger] h[t].0 != r[a].0;
    if w < i {
        assert(h[i].0 != r[a].0);
    } else if w > i {
        assert(h[w].0 == headers[w].0@);
    }
    assert(r[a] == h[i]);
}

} // verus!
