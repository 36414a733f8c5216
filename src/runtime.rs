//! The decisions of a fake runtime API: which route a request takes, and what
//! the server does on each poll, message and posted response. Invocations are
//! handed out one at a time; a shutdown message stops the server for good.
use vstd::prelude::*;
use vstd::string::StrSliceExecFns;
use crate::text::{chars_of, has_char, same_chars};

verus! {

/// Path of the long poll for the next invocation.
pub const NEXT_INVOCATION_PATH: &'static str = "/2018-06-01/runtime/invocation/next";

/// What precedes the invocation id in the path of a posted response.
pub const INVOCATION_PREFIX: &'static str = "/2018-06-01/runtime/invocation/";

/// What follows the invocation id in the path of a posted response.
pub const RESPONSE_SUFFIX: &'static str = "/response";

/// The route that a request to the fake runtime takes.
pub enum Route {
    /// `GET` of the next invocation.
    NextInvocation,
    /// `POST` of the response to the invocation with this id.
    InvocationResponse(String),
    /// Anything else.
    NotFound,
}

/// An invocation id: not empty, without a slash.
pub open spec fn valid_id(id: Seq<char>) -> bool {
    id.len() > 0 && !id.contains('/')
}

/// The path on which the response to invocation `id` is posted.
pub open spec fn response_path(id: Seq<char>) -> Seq<char> {
    INVOCATION_PREFIX@ + id + RESPONSE_SUFFIX@
}

/// Whether some valid id has `path` as its response path.
pub open spec fn is_response_path(path: Seq<char>) -> bool {
    exists|id: Seq<char>| valid_id(id) && #[trigger] response_path(id) == path
}

/// `r` is the route of a request with `method` and `path`.
pub open spec fn routes_to(method: Seq<char>, path: Seq<char>, r: Route) -> bool {
    match r {
        Route::NextInvocation => method == "GET"@ && path == NEXT_INVOCATION_PATH@,
        Route::InvocationResponse(id) => method == "POST"@ && valid_id(id@) && path
            == response_path(id@),
        Route::NotFound => !(method == "GET"@ && path == NEXT_INVOCATION_PATH@) && !(method
            == "POST"@ && is_response_path(path)),
    }
}

/// The characters of `v` from `from` up to `to`.
fn slice_chars(v: &Vec<char>, from: usize, to: usize) -> (r: Vec<char>)
    requires
        from <= to <= v@.len(),
    ensures
        r@ == v@.subrange(from as int, to as int),
{
    let mut r: Vec<char> = Vec::new();
    let mut i: usize = from;
    while i < to
        invariant
            from <= i <= to,
            to <= v@.len(),
            r@ == v@.subrange(from as int, i as int),
        decreases to - i,
    {
        r.push(v[i]);
        i = i + 1;
        assert(r@ =~= v@.subrange(from as int, i as int));
    }
    r
}

/// The id in `text` where it is a response path.
fn response_id(text: &str) -> (r: Option<String>)
    ensures
        r matches Some(id) ==> valid_id(id@) && text@ == response_path(id@),
        r is None ==> !is_response_path(text@),
{
    let path = &chars_of(text);
    let prefix = chars_of(INVOCATION_PREFIX);
    let suffix = chars_of(RESPONSE_SUFFIX);
    let plen = prefix.len();
    let slen = suffix.len();
    if path.len() < plen || path.len() - plen < slen {
        proof {
            if is_response_path(path@) {
                let id = choose|id: Seq<char>| valid_id(id) && #[trigger] response_path(id) == path@;
                assert(response_path(id).len() == plen + id.len() + slen);
            }
        }
        return None;
    }
    let end = path.len() - slen;
    let head = slice_chars(path, 0, plen);
    let id = slice_chars(path, plen, end);
    let tail = slice_chars(path, end, path.len());
    let ok = same_chars(&head, &prefix) && same_chars(&tail, &suffix) && id.len() > 0 && !has_char(
        &id,
        '/',
    );
    proof {
        if is_response_path(path@) {
            let w = choose|w: Seq<char>| valid_id(w) && #[trigger] response_path(w) == path@;
            let full = response_path(w);
            assert(full.len() == plen + w.len() + slen);
            assert(full.subrange(0, plen as int) =~= prefix@);
            assert(full.subrange(plen as int, end as int) =~= w);
            assert(full.subrange(end as int, full.len() as int) =~= suffix@);
        }
        if ok {
            assert(path@ =~= response_path(id@));
        }
    }
    if ok {
        let s = text.substring_char(plen, end).to_owned();
        Some(s)
    } else {
        None
    }
}

/// Picks the route of a request to the fake runtime.
pub fn route(method: &str, path: &str) -> (r: Route)
    ensures
        routes_to(method@, path@, r),
{
    let m = chars_of(method);
    let p = chars_of(path);
    let get = chars_of("GET");
    let post = chars_of("POST");
    let next = chars_of(NEXT_INVOCATION_PATH);
    if same_chars(&m, &get) && same_chars(&p, &next) {
        return Route::NextInvocation;
    }
    if same_chars(&m, &post) {
        if let Some(id) = response_id(path) {
            return Route::InvocationResponse(id);
        }
    }
    Route::NotFound
}

/// A message on the request channel: an invocation to hand out, or the signal
/// to shut down.
pub enum RequestMessage {
    Invocation { id: String, payload: String },
    Shutdown,
}

/// What happens to the fake runtime.
pub enum RuntimeEvent {
    /// A poll for the next invocation arrives.
    Poll,
    /// A message is taken from the request channel.
    Message(RequestMessage),
    /// A response to the invocation with this id is posted.
    ResponsePosted(String),
}

/// Where the fake runtime stands in its cycle.
#[derive(PartialEq, Eq, Structural, Clone, Copy, Debug)]
pub enum Phase {
    /// Idle: the next poll takes a message from the request channel.
    WaitingForRequest,
    /// A poll waits for a message from the request channel.
    Receiving,
    /// An invocation is out; its response has not come back.
    Dispatched,
    /// A shutdown message was taken: nothing more is served.
    Stopped,
}

/// What the server is to do after an event.
pub enum RuntimeAction {
    /// Take the next message from the request channel for the waiting poll.
    ReceiveRequest,
    /// Answer the waiting poll with this invocation id and payload.
    Deliver(String, String),
    /// Keep the poll waiting until the invocation out has been answered.
    Hold,
    /// Stop accepting connections and park the thread.
    Park,
    /// Push the posted body onto the response channel and answer 200.
    ForwardResponse,
    /// Answer 404.
    NotFound,
    /// Nothing to do: the event does not fit the current phase.
    Ignore,
}

/// The kind of an action, without its data.
#[derive(PartialEq, Eq, Structural, Clone, Copy, Debug)]
pub enum ActionKind {
    ReceiveRequest,
    Deliver,
    Hold,
    Park,
    ForwardResponse,
    NotFound,
    Ignore,
}

/// The kind of `a`.
pub open spec fn kind(a: RuntimeAction) -> ActionKind {
    match a {
        RuntimeAction::ReceiveRequest => ActionKind::ReceiveRequest,
        RuntimeAction::Deliver(_, _) => ActionKind::Deliver,
        RuntimeAction::Hold => ActionKind::Hold,
        RuntimeAction::Park => ActionKind::Park,
        RuntimeAction::ForwardResponse => ActionKind::ForwardResponse,
        RuntimeAction::NotFound => ActionKind::NotFound,
        RuntimeAction::Ignore => ActionKind::Ignore,
    }
}

/// The state of the fake runtime as a phase and the id of the invocation last handed out.
pub type RuntimeView = (Phase, Seq<char>);

/// The state before anything has happened.
pub open spec fn initial_view() -> RuntimeView {
    (Phase::WaitingForRequest, Seq::empty())
}

/// The state after event `e` in state `st`.
pub open spec fn next_view(st: RuntimeView, e: RuntimeEvent) -> RuntimeView {
    match (st.0, e) {
        (Phase::WaitingForRequest, RuntimeEvent::Poll) => (Phase::Receiving, st.1),
        (Phase::Receiving, RuntimeEvent::Message(RequestMessage::Invocation { id, payload: _ })) => (
            Phase::Dispatched,
            id@,
        ),
        (Phase::Receiving, RuntimeEvent::Message(RequestMessage::Shutdown)) => (Phase::Stopped, st.1),
        (Phase::Dispatched, RuntimeEvent::ResponsePosted(id)) => if id@ == st.1 {
            (Phase::WaitingForRequest, st.1)
        } else {
            st
        },
        _ => st,
    }
}

/// The kind of action that event `e` calls for in state `st`.
pub open spec fn next_kind(st: RuntimeView, e: RuntimeEvent) -> ActionKind {
    match (st.0, e) {
        (Phase::Stopped, _) => ActionKind::Park,
        (Phase::WaitingForRequest, RuntimeEvent::Poll) => ActionKind::ReceiveRequest,
        (_, RuntimeEvent::Poll) => ActionKind::Hold,
        (Phase::Receiving, RuntimeEvent::Message(RequestMessage::Invocation { .. })) => ActionKind::Deliver,
        (Phase::Receiving, RuntimeEvent::Message(RequestMessage::Shutdown)) => ActionKind::Park,
        (_, RuntimeEvent::Message(_)) => ActionKind::Ignore,
        (Phase::Dispatched, RuntimeEvent::ResponsePosted(id)) => if id@ == st.1 {
            ActionKind::ForwardResponse
        } else {
            ActionKind::NotFound
        },
        (_, RuntimeEvent::ResponsePosted(_)) => ActionKind::NotFound,
    }
}

/// The fake runtime's state machine.
pub struct FakeRuntime {
    pub phase: Phase,
    pub in_flight: String,
}

impl FakeRuntime {
    /// The state as a phase and an id.
    pub open spec fn view(&self) -> RuntimeView {
        (self.phase, self.in_flight@)
    }

    /// A runtime waiting for its first poll.
    pub fn new() -> (r: FakeRuntime)
        ensures
            r.view() == initial_view(),
    {
        FakeRuntime { phase: Phase::WaitingForRequest, in_flight: String::new() }
    }

    /// Takes one event and says what the server is to do.
    pub fn step(&mut self, event: RuntimeEvent) -> (a: RuntimeAction)
        ensures
            final(self).view() == next_view(old(self).view(), event),
            kind(a) == next_kind(old(self).view(), event),
            a matches RuntimeAction::Deliver(id, payload) ==> event matches RuntimeEvent::Message(
                RequestMessage::Invocation { id: i, payload: p },
            ) && id@ == i@ && payload@ == p@,
    {
        match self.phase {
            Phase::Stopped => RuntimeAction::Park,
            Phase::WaitingForRequest => match event {
                RuntimeEvent::Poll => {
                    self.phase = Phase::Receiving;
                    RuntimeAction::ReceiveRequest
                },
                RuntimeEvent::Message(_) => RuntimeAction::Ignore,
                RuntimeEvent::ResponsePosted(_) => RuntimeAction::NotFound,
            },
            Phase::Receiving => match event {
                RuntimeEvent::Poll => RuntimeAction::Hold,
                RuntimeEvent::Message(RequestMessage::Invocation { id, payload }) => {
                    self.phase = Phase::Dispatched;
                    self.in_flight = id.clone();
                    RuntimeAction::Deliver(id, payload)
                },
                RuntimeEvent::Message(RequestMessage::Shutdown) => {
                    self.phase = Phase::Stopped;
                    RuntimeAction::Park
                },
                RuntimeEvent::ResponsePosted(_) => RuntimeAction::NotFound,
            },
            Phase::Dispatched => match event {
                RuntimeEvent::Poll => RuntimeAction::Hold,
                RuntimeEvent::Message(_) => RuntimeAction::Ignore,
                RuntimeEvent::ResponsePosted(id) => {
                    if id == self.in_flight {
                        self.phase = Phase::WaitingForRequest;
                        RuntimeAction::ForwardResponse
                    } else {
                        RuntimeAction::NotFound
                    }
                },
            },
        }
    }
}

/// The state after the events `evs`, taken in order from `st`.
pub open spec fn run_view(st: RuntimeView, evs: Seq<RuntimeEvent>) -> RuntimeView
    decreases evs.len(),
{
    if evs.len() == 0 {
        st
    } else {
        next_view(run_view(st, evs.drop_last()), evs.last())
    }
}

/// The kinds of action that the events `evs` call for, taken in order from `st`.
pub open spec fn run_kinds(st: RuntimeView, evs: Seq<RuntimeEvent>) -> Seq<ActionKind>
    decreases evs.len(),
{
    if evs.len() == 0 {
        Seq::empty()
    } else {
        run_kinds(st, evs.drop_last()).push(next_kind(run_view(st, evs.drop_last()), evs.last()))
    }
}

/// How many times `k` occurs in `ks`.
pub open spec fn count_kind(ks: Seq<ActionKind>, k: ActionKind) -> nat
    decreases ks.len(),
{
    if ks.len() == 0 {
        0
    } else {
        count_kind(ks.drop_last(), k) + if ks.last() == k {
            1nat
        } else {
            0nat
        }
    }
}

/// One invocation out, or none.
pub open spec fn pending(st: RuntimeView) -> nat {
    if st.0 == Phase::Dispatched {
        1
    } else {
        0
    }
}

proof fn lemma_pending_balance(st: RuntimeView, evs: Seq<RuntimeEvent>)
    ensures
        count_kind(run_kinds(st, evs), ActionKind::Deliver) + pending(st) == count_kind(
            run_kinds(st, evs),
            ActionKind::ForwardResponse,
        ) + pending(run_view(st, evs)),
    decreases evs.len(),
{
    if evs.len() > 0 {
        lemma_pending_balance(st, evs.drop_last());
        let ks = run_kinds(st, evs);
        assert(ks.drop_last() =~= run_kinds(st, evs.drop_last()));
    }
}

/// Invocations go out one at a time: over any run from the start, every
/// invocation handed out but the last has had its response forwarded, and a
/// new one goes out only once the one before has been answered.
pub proof fn lemma_single_in_flight(evs: Seq<RuntimeEvent>)
    ensures
        count_kind(run_kinds(initial_view(), evs), ActionKind::Deliver) == count_kind(
            run_kinds(initial_view(), evs),
            ActionKind::ForwardResponse,
        ) + pending(run_view(initial_view(), evs)),
        count_kind(run_kinds(initial_view(), evs), ActionKind::Deliver) <= count_kind(
            run_kinds(initial_view(), evs),
            ActionKind::ForwardResponse,
        ) + 1,
        forall|st: RuntimeView, e: RuntimeEvent|
            #[trigger] next_kind(st, e) == ActionKind::Deliver ==> pending(st) == 0 && pending(
                next_view(st, e),
            ) == 1,
{
    lemma_pending_balance(initial_view(), evs);
}

proof fn lemma_stopped_stays(st: RuntimeView, evs: Seq<RuntimeEvent>)
    requires
        st.0 == Phase::Stopped,
    ensures
        run_view(st, evs) == st,
        forall|i: int| 0 <= i < evs.len() ==> #[trigger] run_kinds(st, evs)[i] == ActionKind::Park,
        run_kinds(st, evs).len() == evs.len(),
    decreases evs.len(),
{
    if evs.len() > 0 {
        lemma_stopped_stays(st, evs.drop_last());
    }
}

proof fn lemma_run_append(st: RuntimeView, a: Seq<RuntimeEvent>, b: Seq<RuntimeEvent>)
    ensures
        run_view(st, a + b) == run_view(run_view(st, a), b),
        run_kinds(st, a + b) == run_kinds(st, a) + run_kinds(run_view(st, a), b),
    decreases b.len(),
{
    if b.len() == 0 {
        assert(a + b =~= a);
        assert(run_kinds(st, a) + run_kinds(run_view(st, a), b) =~= run_kinds(st, a));
    } else {
        lemma_run_append(st, a, b.drop_last());
        assert((a + b).drop_last() =~= a + b.drop_last());
        assert((a + b).last() == b.last());
        assert(run_kinds(st, a + b) =~= run_kinds(st, a) + run_kinds(run_view(st, a), b));
    }
}

/// Once a shutdown message has been taken, the server stays stopped: whatever
/// comes after, it only parks, hands out no invocation and forwards no response.
pub proof fn lemma_shutdown_is_final(before: Seq<RuntimeEvent>, after: Seq<RuntimeEvent>)
    requires
        before.len() > 0,
        before.last() matches RuntimeEvent::Message(RequestMessage::Shutdown),
        run_view(initial_view(), before.drop_last()).0 == Phase::Receiving,
    ensures
        run_view(initial_view(), before + after).0 == Phase::Stopped,
        forall|i: int|
            before.len() <= i < before.len() + after.len() ==> #[trigger] run_kinds(
                initial_view(),
                before + after,
            )[i] == ActionKind::Park,
{
    let st = run_view(initial_view(), before);
    assert(st.0 == Phase::Stopped);
    lemma_run_append(initial_view(), before, after);
    lemma_stopped_stays(st, after);
    let ks = run_kinds(initial_view(), before + after);
    let ka = run_kinds(initial_view(), before);
    assert(ka.len() == before.len()) by {
        lemma_kinds_len(initial_view(), before);
    }
    assert forall|i: int| before.len() <= i < before.len() + after.len() implies #[trigger] ks[i]
        == ActionKind::Park by {
        assert(ks[i] == run_kinds(st, after)[i - before.len()]);
    }
}

proof fn lemma_kinds_len(st: RuntimeView, evs: Seq<RuntimeEvent>)
    ensures
        run_kinds(st, evs).len() == evs.len(),
    decreases evs.len(),
{
    if evs.len() > 0 {
        lemma_kinds_len(st, evs.drop_last());
    }
}

/// Header naming the invocation id in a delivered invocation.
pub const REQUEST_ID_HEADER: &'static str = "Lambda-Runtime-Aws-Request-Id";

/// Header naming the invoked function in a delivered invocation.
pub const FUNCTION_ARN_HEADER: &'static str = "Lambda-Runtime-Invoked-Function-Arn";

/// Header carrying the deadline of a delivered invocation.
pub const DEADLINE_HEADER: &'static str = "Lambda-Runtime-Deadline-Ms";

/// The placeholder function ARN that the fake runtime reports.
pub const PLACEHOLDER_ARN: &'static str = "an-arn";

/// The deadline, in milliseconds, that the fake runtime reports.
pub const PLACEHOLDER_DEADLINE_MS: &'static str = "1000";

/// The headers of the answer that delivers invocation `id`: its id, the
/// placeholder function ARN and the deadline.
pub fn invocation_headers(id: &str) -> (r: Vec<(String, String)>)
    ensures
        r@.len() == 3,
        r@[0].0@ == REQUEST_ID_HEADER@ && r@[0].1@ == id@,
        r@[1].0@ == FUNCTION_ARN_HEADER@ && r@[1].1@ == PLACEHOLDER_ARN@,
        r@[2].0@ == DEADLINE_HEADER@ && r@[2].1@ == PLACEHOLDER_DEADLINE_MS@,
{
    let mut r: Vec<(String, String)> = Vec::new();
    r.push((REQUEST_ID_HEADER.to_owned(), id.to_owned()));
    r.push((FUNCTION_ARN_HEADER.to_owned(), PLACEHOLDER_ARN.to_owned()));
    r.push((DEADLINE_HEADER.to_owned(), PLACEHOLDER_DEADLINE_MS.to_owned()));
    r
}

} // verus!
