//! The coordinator of one request: decode the pipeline token, derive the
//! cache key, look the key up, and on a miss have the source fetched and
//! transformed and store what comes back. Fetching and pixel work happen
//! outside; this module decides what is to happen next and alone touches the
//! cache, so that a request that fails never leaves an entry behind.
//!
//! A request runs as a loop around these functions: `start`, then whatever
//! the last `Action` asked for, until it is `Respond` or `Fail`. The two
//! functions that take `Shared` are to be called with its lock held; nothing
//! else needs the lock, and no fetch and no pixel work happens under it.

use crate::cache::{
    after_get, after_put, in_order, lemma_after_get, lemma_after_put, value_of, Cache, Entries,
};
use crate::engine::{EncodeError, OutputFormat, RenderError, TransformError};
use crate::flight::Flights;
use crate::pb::ImageSpec;
use crate::token::{decoded, DecodeError};
use percent_encoding::percent_decode_str;
use vstd::prelude::*;
use vstd::utf8::encode_utf8;

verus! {

/// The offset basis of the 64-bit FNV-1a hash.
pub const FNV_OFFSET: u64 = 0xcbf2_9ce4_8422_2325;

/// The prime of the 64-bit FNV-1a hash.
pub const FNV_PRIME: u64 = 0x0000_0100_0000_01b3;

/// The byte that parts the token from the URL in what is hashed; it occurs in
/// no UTF-8 text.
pub const PART: u8 = 0xff;

/// One round of FNV-1a: mix the byte in, then multiply.
pub open spec fn fnv_step(h: u64, b: u8) -> u64 {
    (h ^ (b as u64)).wrapping_mul(FNV_PRIME)
}

/// FNV-1a over `bytes`, from the state `h`.
pub open spec fn fnv_fold(h: u64, bytes: Seq<u8>) -> u64
    decreases bytes.len(),
{
    if bytes.len() == 0 {
        h
    } else {
        fnv_step(fnv_fold(h, bytes.drop_last()), bytes.last())
    }
}

/// The cache key of a request: the FNV-1a hash of the token, a parting byte
/// and the source URL, all as UTF-8. It depends on the two texts alone.
pub open spec fn key_of(token: Seq<char>, url: Seq<char>) -> u64 {
    fnv_fold(FNV_OFFSET, encode_utf8(token) + seq![PART] + encode_utf8(url))
}

/// Hashing two runs of bytes one after the other is hashing them joined.
pub proof fn lemma_fnv_fold_add(h: u64, a: Seq<u8>, b: Seq<u8>)
    ensures
        fnv_fold(h, a + b) == fnv_fold(fnv_fold(h, a), b),
    decreases b.len(),
{
    if b.len() == 0 {
        assert(a + b =~= a);
    } else {
        lemma_fnv_fold_add(h, a, b.drop_last());
        assert((a + b).drop_last() =~= a + b.drop_last());
    }
}

/// Feeds `bytes` into the hash state `h`.
fn fnv_feed(h: u64, bytes: &[u8]) -> (r: u64)
    ensures
        r == fnv_fold(h, bytes@),
{
    let mut state: u64 = h;
    let mut i: usize = 0;
    while i < bytes.len()
        invariant
            i <= bytes.len(),
            state == fnv_fold(h, bytes@.take(i as int)),
        decreases bytes.len() - i,
    {
        proof {
            assert(bytes@.take(i + 1).drop_last() =~= bytes@.take(i as int));
        }
        state = (state ^ (bytes[i] as u64)).wrapping_mul(FNV_PRIME);
        i = i + 1;
    }
    proof {
        assert(bytes@.take(i as int) =~= bytes@);
    }
    state
}

/// The cache key of a token and a source URL.
pub fn fingerprint(token: &str, url: &str) -> (key: u64)
    ensures
        key == key_of(token@, url@),
{
    let first = fnv_feed(FNV_OFFSET, token.as_bytes());
    let parted = (first ^ (PART as u64)).wrapping_mul(FNV_PRIME);
    let key = fnv_feed(parted, url.as_bytes());
    proof {
        let t = encode_utf8(token@);
        let u = encode_utf8(url@);
        assert((t + seq![PART]).drop_last() =~= t);
        assert(fnv_fold(FNV_OFFSET, t + seq![PART]) == parted);
        lemma_fnv_fold_add(FNV_OFFSET, t + seq![PART], u);
    }
    key
}

/// What `percent_encoding::percent_decode_str` followed by
/// `decode_utf8_lossy` makes of `raw`.
pub uninterp spec fn percent_decoded(raw: Seq<char>) -> Seq<char>;

/// `percent_encoding::percent_decode_str` and `decode_utf8_lossy`: `raw` with
/// every `%` and two hexadecimal digits replaced by the byte they name, read
/// as UTF-8, with the replacement character where the bytes are none.
#[verifier::external_body]
fn percent_decode(raw: &str) -> (url: String)
    ensures
        url@ == percent_decoded(raw@),
{
    percent_decode_str(raw).decode_utf8_lossy().into_owned()
}

/// Why the source could not be had.
#[derive(Clone, Copy, Debug, PartialEq, Eq, Structural)]
pub enum FetchError {
    /// The source could not be reached.
    Unreachable,
    /// The source answered with a status that is no success.
    Status(u16),
    /// What came back is no image that the engine can read.
    Unreadable,
}

/// Why a request ends without output.
#[derive(Clone, Copy, Debug, PartialEq, Eq, Structural)]
pub enum CoreError {
    /// The pipeline token is malformed: the client's fault.
    BadRequest(DecodeError),
    /// The source image could not be had.
    Upstream(FetchError),
    /// The pipeline is valid but cannot be applied to this image.
    Transform(TransformError),
    /// The output could not be encoded.
    Encode(EncodeError),
    /// An event arrived that the request was not waiting for.
    OutOfTurn,
}

/// A request whose token is decoded and whose key is computed.
#[derive(Clone, Debug, PartialEq, Eq)]
pub struct Request {
    pub key: u64,
    pub url: String,
    pub pipeline: ImageSpec,
}

/// Where a request stands.
#[derive(Clone, Debug, PartialEq, Eq)]
pub enum State {
    /// Token decoded, key computed; the cache is to be asked.
    KeyComputed(Request),
    /// A miss; the source is being fetched.
    Fetching { key: u64, pipeline: ImageSpec, format: OutputFormat },
    /// The source is here; the engine is at work.
    Transforming { key: u64 },
    /// The output is here; it is to be stored.
    Storing { key: u64, output: Vec<u8> },
    /// The request has failed after a miss; its key is to be given up.
    Failing { key: u64, error: CoreError },
    /// The request is answered.
    Responding,
    /// The request has failed.
    Failed,
}

/// What came back from outside.
#[derive(Debug, PartialEq, Eq)]
pub enum Event {
    /// The fetch ended.
    Fetched(Result<Vec<u8>, FetchError>),
    /// The engine ended.
    Rendered(Result<Vec<u8>, RenderError>),
}

/// What is to happen next.
#[derive(Clone, Debug, PartialEq, Eq)]
pub enum Action {
    /// Call `look_up`, with the lock held.
    LookUp,
    /// Another request is producing this key's output: wait until a request
    /// has settled, then call `look_up` again.
    Wait,
    /// Fetch the source at this URL and hand `Fetched` to `step`.
    Fetch(String),
    /// Run the pipeline on the source bytes, encode the result in `format`,
    /// and hand `Rendered` to `step`.
    Render { pipeline: ImageSpec, source: Vec<u8>, format: OutputFormat },
    /// Call `settle`, with the lock held.
    Settle,
    /// Answer with these bytes, which are in this format.
    Respond { output: Vec<u8>, format: OutputFormat },
    /// Answer with this error.
    Fail(CoreError),
}

/// What the requests of one process share, behind one lock: the cache, the
/// keys in flight, whether requests claim their key at all, and the format
/// that every output is encoded in.
pub struct Shared {
    pub cache: Cache,
    pub flights: Flights,
    /// The format of every output; the cache holds no other.
    pub format: OutputFormat,
    /// Where set, a request that misses claims its key, and a second request
    /// for a key in flight waits; where not, both do the work, and the one
    /// that stores last wins.
    pub single_flight: bool,
}

impl Shared {
    /// Cache and flights are in good order.
    pub open spec fn wf(&self) -> bool {
        self.cache.wf() && self.flights.wf()
    }

    /// An empty cache of at most `capacity` entries with no key in flight;
    /// none for a capacity of zero.
    pub fn new(capacity: usize, single_flight: bool, format: OutputFormat) -> (shared: Option<
        Shared,
    >)
        ensures
            capacity == 0 <==> shared is None,
            shared matches Some(s) ==> {
                &&& s.wf()
                &&& s.cache@.len() == 0
                &&& s.cache.limit() == capacity
                &&& s.flights@ == Set::<u64>::empty()
                &&& s.single_flight == single_flight
                &&& s.format == format
            },
    {
        match Cache::new(capacity) {
            Some(cache) => Some(Shared { cache, flights: Flights::new(), single_flight, format }),
            None => None,
        }
    }
}

/// The key that a request in this state may have claimed: every state
/// between a miss and the settling has one.
pub open spec fn claim_of(state: State) -> Option<u64> {
    match state {
        State::Fetching { key, .. } => Some(key),
        State::Transforming { key } => Some(key),
        State::Storing { key, .. } => Some(key),
        State::Failing { key, .. } => Some(key),
        _ => None,
    }
}

/// The keys in flight once a claim, if there is one, is given up.
pub open spec fn given_up(flights: Set<u64>, claim: Option<u64>) -> Set<u64> {
    match claim {
        Some(key) => flights.remove(key),
        None => flights,
    }
}

/// Takes a request in: decodes the pipeline token, reads the source URL out
/// of its percent-encoding and computes the cache key. A token that does not
/// decode ends the request as a bad request.
pub fn start(token: &str, raw_url: &str) -> (r: (State, Action))
    ensures
        match decoded(token@) {
            Ok(p) => {
                &&& r.1 == Action::LookUp
                &&& r.0 matches State::KeyComputed(request)
                &&& request.pipeline@ == p
                &&& request.url@ == percent_decoded(raw_url@)
                &&& request.key == key_of(token@, percent_decoded(raw_url@))
            },
            Err(e) => r == (State::Failed, Action::Fail(CoreError::BadRequest(e))),
        },
{
    match ImageSpec::decode(token) {
        Ok(pipeline) => {
            let url = percent_decode(raw_url);
            let key = fingerprint(token, url.as_str());
            (State::KeyComputed(Request { key, url, pipeline }), Action::LookUp)
        },
        Err(e) => (State::Failed, Action::Fail(CoreError::BadRequest(e))),
    }
}

/// Gives up the key that a request in `state` may have claimed, and fails the
/// request for having come out of turn.
fn abandon(shared: &mut Shared, state: State) -> (r: (State, Action))
    requires
        old(shared).wf(),
    ensures
        final(shared).wf(),
        final(shared).cache == old(shared).cache,
        final(shared).single_flight == old(shared).single_flight,
        final(shared).format == old(shared).format,
        final(shared).flights@ == given_up(old(shared).flights@, claim_of(state)),
        r == (State::Failed, Action::Fail(CoreError::OutOfTurn)),
{
    match state {
        State::Fetching { key, pipeline: _, format: _ } => shared.flights.release(key),
        State::Transforming { key } => shared.flights.release(key),
        State::Storing { key, output: _ } => shared.flights.release(key),
        State::Failing { key, error: _ } => shared.flights.release(key),
        _ => {},
    }
    (State::Failed, Action::Fail(CoreError::OutOfTurn))
}

/// Asks the cache for the request's key. A hit answers with the stored bytes
/// and marks the entry as used; nothing is fetched. A miss leaves the cache
/// as it is and has the source fetched, unless requests claim their keys and
/// this one is in flight already: then the request is to wait and ask again.
/// A request that goes on to fetch has claimed its key, where keys are
/// claimed: no second request goes on for that key until it is settled.
pub fn look_up(shared: &mut Shared, state: State) -> (r: (State, Action))
    requires
        old(shared).wf(),
    ensures
        final(shared).wf(),
        final(shared).cache.limit() == old(shared).cache.limit(),
        final(shared).single_flight == old(shared).single_flight,
        final(shared).format == old(shared).format,
        match state {
            State::KeyComputed(request) => match value_of(old(shared).cache@, request.key) {
                Some(bytes) => {
                    &&& final(shared).cache@ == after_get(old(shared).cache@, request.key)
                    &&& final(shared).flights@ == old(shared).flights@
                    &&& r.0 == State::Responding
                    &&& r.1 matches Action::Respond { output, format }
                    &&& output@ == bytes
                    &&& format == old(shared).format
                },
                None => {
                    &&& final(shared).cache@ == old(shared).cache@
                    &&& if old(shared).single_flight && old(shared).flights@.contains(
                        request.key,
                    ) {
                        &&& final(shared).flights@ == old(shared).flights@
                        &&& r == (State::KeyComputed(request), Action::Wait)
                    } else {
                        &&& final(shared).flights@ == if old(shared).single_flight {
                            old(shared).flights@.insert(request.key)
                        } else {
                            old(shared).flights@
                        }
                        &&& r.0 == (State::Fetching {
                            key: request.key,
                            pipeline: request.pipeline,
                            format: old(shared).format,
                        })
                        &&& r.1 == Action::Fetch(request.url)
                    }
                },
            },
            _ => {
                &&& final(shared).cache@ == old(shared).cache@
                &&& final(shared).flights@ == given_up(old(shared).flights@, claim_of(state))
                &&& r == (State::Failed, Action::Fail(CoreError::OutOfTurn))
            },
        },
{
    match state {
        State::KeyComputed(request) => match shared.cache.get(request.key) {
            Some(output) => (
                State::Responding,
                Action::Respond { output, format: shared.format },
            ),
            None => {
                if shared.single_flight && !shared.flights.claim(request.key) {
                    (State::KeyComputed(request), Action::Wait)
                } else {
                    (
                        State::Fetching {
                            key: request.key,
                            pipeline: request.pipeline,
                            format: shared.format,
                        },
                        Action::Fetch(request.url),
                    )
                }
            },
        },
        other => abandon(shared, other),
    }
}

/// What an event makes of a request: source bytes go on to the engine, the
/// engine's output goes on to be stored, and a fetch or an engine that failed
/// goes on to give up the key and fail with that error. An event that the
/// request was not waiting for fails it too.
pub open spec fn stepped(state: State, event: Event) -> (State, Action) {
    match (state, event) {
        (State::Fetching { key, pipeline, format }, Event::Fetched(Ok(source))) => (
            State::Transforming { key },
            Action::Render { pipeline, source, format },
        ),
        (State::Fetching { key, .. }, Event::Fetched(Err(e))) => (
            State::Failing { key, error: CoreError::Upstream(e) },
            Action::Settle,
        ),
        (State::Transforming { key }, Event::Rendered(Ok(output))) => (
            State::Storing { key, output },
            Action::Settle,
        ),
        (State::Transforming { key }, Event::Rendered(Err(RenderError::Transform(e)))) => (
            State::Failing { key, error: CoreError::Transform(e) },
            Action::Settle,
        ),
        (State::Transforming { key }, Event::Rendered(Err(RenderError::Encode(e)))) => (
            State::Failing { key, error: CoreError::Encode(e) },
            Action::Settle,
        ),
        _ => match claim_of(state) {
            Some(key) => (State::Failing { key, error: CoreError::OutOfTurn }, Action::Settle),
            None => (State::Failed, Action::Fail(CoreError::OutOfTurn)),
        },
    }
}

/// Takes what came back from outside and says what is to happen next. Cache
/// and flights are not within reach here: nothing is stored, and nothing is
/// claimed or given up.
pub fn step(state: State, event: Event) -> (r: (State, Action))
    ensures
        r == stepped(state, event),
{
    match (state, event) {
        (State::Fetching { key, pipeline, format }, Event::Fetched(Ok(source))) => (
            State::Transforming { key },
            Action::Render { pipeline, source, format },
        ),
        (State::Fetching { key, pipeline: _, format: _ }, Event::Fetched(Err(e))) => (
            State::Failing { key, error: CoreError::Upstream(e) },
            Action::Settle,
        ),
        (State::Transforming { key }, Event::Rendered(Ok(output))) => (
            State::Storing { key, output },
            Action::Settle,
        ),
        (State::Transforming { key }, Event::Rendered(Err(RenderError::Transform(e)))) => (
            State::Failing { key, error: CoreError::Transform(e) },
            Action::Settle,
        ),
        (State::Transforming { key }, Event::Rendered(Err(RenderError::Encode(e)))) => (
            State::Failing { key, error: CoreError::Encode(e) },
            Action::Settle,
        ),
        (State::Fetching { key, pipeline: _, format: _ }, _) => (
            State::Failing { key, error: CoreError::OutOfTurn },
            Action::Settle,
        ),
        (State::Transforming { key }, _) => (
            State::Failing { key, error: CoreError::OutOfTurn },
            Action::Settle,
        ),
        (State::Storing { key, output: _ }, _) => (
            State::Failing { key, error: CoreError::OutOfTurn },
            Action::Settle,
        ),
        (State::Failing { key, error: _ }, _) => (
            State::Failing { key, error: CoreError::OutOfTurn },
            Action::Settle,
        ),
        _ => (State::Failed, Action::Fail(CoreError::OutOfTurn)),
    }
}

/// Settles a request: stores the output under its key and answers with it,
/// or fails with the error that ended it and stores nothing. Either way the
/// request's key is no longer in flight.
pub fn settle(shared: &mut Shared, state: State) -> (r: (State, Action))
    requires
        old(shared).wf(),
    ensures
        final(shared).wf(),
        final(shared).cache.limit() == old(shared).cache.limit(),
        final(shared).single_flight == old(shared).single_flight,
        final(shared).format == old(shared).format,
        final(shared).flights@ == given_up(old(shared).flights@, claim_of(state)),
        match state {
            State::Storing { key, output } => {
                &&& final(shared).cache@ == after_put(
                    old(shared).cache@,
                    old(shared).cache.limit(),
                    key,
                    output@,
                )
                &&& value_of(final(shared).cache@, key) == Some(output@)
                &&& r == (State::Responding, Action::Respond { output, format: old(shared).format })
            },
            State::Failing { key, error } => {
                &&& final(shared).cache@ == old(shared).cache@
                &&& r == (State::Failed, Action::Fail(error))
            },
            _ => {
                &&& final(shared).cache@ == old(shared).cache@
                &&& r == (State::Failed, Action::Fail(CoreError::OutOfTurn))
            },
        },
{
    match state {
        State::Storing { key, output } => {
            let copy = copy_bytes(&output);
            proof {
                shared.cache.lemma_wf();
                lemma_after_put(shared.cache@, shared.cache.limit(), key, output@);
            }
            shared.cache.put(key, copy);
            shared.flights.release(key);
            (State::Responding, Action::Respond { output, format: shared.format })
        },
        State::Failing { key, error } => {
            shared.flights.release(key);
            (State::Failed, Action::Fail(error))
        },
        other => abandon(shared, other),
    }
}

/// A copy of `bytes`.
fn copy_bytes(bytes: &Vec<u8>) -> (copy: Vec<u8>)
    ensures
        copy@ == bytes@,
{
    let mut copy: Vec<u8> = Vec::new();
    let mut i: usize = 0;
    while i < bytes.len()
        invariant
            i <= bytes.len(),
            copy@ == bytes@.take(i as int),
        decreases bytes.len() - i,
    {
        copy.push(bytes[i]);
        proof {
            assert(bytes@.take(i as int).push(bytes@[i as int]) =~= bytes@.take(i + 1));
        }
        i = i + 1;
    }
    proof {
        assert(bytes@.take(i as int) =~= bytes@);
    }
    copy
}

/// Nothing is stored unless the engine handed back output, and then it is
/// that output under the request's key: the only way into `Storing` is
/// through `Transforming` and a successful `Rendered`.
pub proof fn lemma_store_needs_output(state: State, event: Event)
    ensures
        stepped(state, event).0 is Storing <==> (state is Transforming
            && event matches Event::Rendered(Ok(_))),
        stepped(state, event).0 matches State::Storing { key, output } ==> {
            &&& state == (State::Transforming { key })
            &&& event == Event::Rendered(Ok(output))
        },
{
}

/// A fetch or an engine that failed ends the request: whatever state it was
/// in, it goes on to fail and never to store, and where it was waiting for
/// just that event it fails with the error that came back.
pub proof fn lemma_failure_stores_nothing(state: State, event: Event)
    requires
        event matches Event::Fetched(Err(_)) || event matches Event::Rendered(Err(_)),
    ensures
        stepped(state, event).0 is Failing || stepped(state, event).0 is Failed,
        event matches Event::Rendered(Err(RenderError::Transform(e))) ==> (state is Transforming
            ==> stepped(state, event).0->Failing_error == CoreError::Transform(e)),
        event matches Event::Fetched(Err(e)) ==> (state is Fetching ==> stepped(
            state,
            event,
        ).0->Failing_error == CoreError::Upstream(e)),
{
}

/// A step keeps the claim: the state after an event holds the key that the
/// state before held, until `settle` gives it up.
pub proof fn lemma_step_keeps_claim(state: State, event: Event)
    ensures
        claim_of(stepped(state, event).0) == claim_of(state),
        claim_of(state) is Some <==> (stepped(state, event).1 is Render || stepped(
            state,
            event,
        ).1 is Settle),
{
}

/// A request that was stored is found again: in a cache in good order, what
/// `settle` put under a key is what the next `look_up` of that key answers
/// with, byte for byte, and that lookup is a hit, so nothing is fetched. The
/// key depends on the token and the URL alone, so the same request meets the
/// same entry.
pub proof fn lemma_repeat_is_hit(entries: Entries, limit: nat, key: u64, output: Seq<u8>)
    requires
        in_order(entries, limit),
    ensures
        in_order(after_put(entries, limit, key, output), limit),
        value_of(after_put(entries, limit, key, output), key) == Some(output),
        value_of(after_get(after_put(entries, limit, key, output), key), key) == Some(output),
{
    lemma_after_put(entries, limit, key, output);
    lemma_after_get(after_put(entries, limit, key, output), limit, key);
}

} // verus!
