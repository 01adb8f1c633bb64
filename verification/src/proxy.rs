//! The request handler: one request from its two path segments to its
//! response, with a cache, a fetcher and an engine at hand.

use crate::cache::CacheStore;
use crate::codec::{decoded_is_valid, spec_decode};
use crate::engine::{Engine, EngineError};
use crate::operation::{Operation, TransformSpec};
use crate::orchestrator::{
    awaits, output_format, remaining, spec_step, step_makes_progress, Action, ActionView, Event,
    EventView, RequestContext, RequestError, RequestView, Stage,
};
use crate::recency::{inserted, lookup, touched, Entries};
use crate::source::{
    fingerprint, retrieve_data, spec_fingerprint, spec_resolve, Fetch, FetchError,
};
use vstd::pervasive::unreached;
use vstd::prelude::*;

verus! {

/// What `retrieve_image` returns, and what it leaves in the cache, as far as
/// the source identifier and the cache decide it.
pub open spec fn retrieved(
    source_id: Seq<char>,
    before: Entries,
    capacity: nat,
    now: Entries,
    outcome: Result<Seq<u8>, FetchError>,
) -> bool {
    let key = spec_fingerprint(source_id);
    match lookup(before, key) {
        Some(bytes) => outcome == Ok::<Seq<u8>, FetchError>(bytes) && now == touched(before, key),
        None => match outcome {
            Ok(bytes) => spec_resolve(source_id) is Some && now == inserted(
                before,
                capacity,
                key,
                bytes,
            ),
            Err(FetchError::UnsupportedScheme) => spec_resolve(source_id) is None && now == before,
            Err(FetchError::Transport) => spec_resolve(source_id) is Some && now == before,
        },
    }
}

/// Gets the bytes of the source image `source_id`: from the cache where it
/// holds them, which counts as a use of the entry, and else from the fetcher,
/// which is asked once; what it delivers is stored in the cache. A failure
/// leaves the cache as it was.
pub fn retrieve_image<F: Fetch>(cache: &mut CacheStore, fetcher: &F, source_id: &str) -> (outcome:
    Result<Vec<u8>, FetchError>)
    ensures
        final(cache).capacity() == old(cache).capacity(),
        retrieved(
            source_id@,
            old(cache)@,
            old(cache).capacity(),
            final(cache)@,
            match outcome {
                Ok(bytes) => Ok(bytes@),
                Err(e) => Err(e),
            },
        ),
{
    let key = fingerprint(source_id);
    match cache.get(key) {
        Some(bytes) => Ok(bytes),
        None => match retrieve_data(fetcher, source_id) {
            Err(e) => Err(e),
            Ok(bytes) => {
                let copy = bytes.clone();
                assert(copy@ =~= bytes@);
                cache.put(key, copy);
                Ok(bytes)
            },
        },
    }
}

/// Whether `engine` may make `made` of `image` by applying `ops` strictly in
/// their order, each operation to what the one before it made.
pub open spec fn applies_all<E: Engine>(
    engine: &E,
    image: E::Image,
    ops: Seq<Operation>,
    made: E::Image,
) -> bool
    decreases ops.len(),
{
    if ops.len() == 0 {
        made == image
    } else {
        exists|before: E::Image|
            applies_all(engine, image, ops.drop_last(), before) && #[trigger] engine.applies(
                before,
                ops.last(),
                Some(made),
            )
    }
}

/// What is made of an image by some operations and then by one more is made of
/// it by all of them.
proof fn lemma_applies_one_more<E: Engine>(
    engine: &E,
    image: E::Image,
    ops: Seq<Operation>,
    before: E::Image,
    made: E::Image,
)
    requires
        ops.len() > 0,
        applies_all(engine, image, ops.drop_last(), before),
        engine.applies(before, ops.last(), Some(made)),
    ensures
        applies_all(engine, image, ops, made),
{
}

/// Whether `engine` may fail on `ops` at `index`: it may apply the operations
/// before `index` in their order and then cannot apply the one at `index`.
pub open spec fn fails_at<E: Engine>(engine: &E, image: E::Image, ops: Seq<Operation>, index: int)
    -> bool {
    &&& 0 <= index < ops.len()
    &&& exists|before: E::Image|
        applies_all(engine, image, ops.take(index), before) && #[trigger] engine.applies(
            before,
            ops[index],
            None,
        )
}

/// Applies the operations of `spec` to `image`, strictly in their order, each to
/// what the one before it made, and returns what the last one made. The first
/// operation that the engine cannot apply ends the work: no later operation is
/// tried, and the error names the position of the one that failed.
pub fn transform<E: Engine>(engine: &E, image: E::Image, spec: &TransformSpec) -> (made: Result<
    E::Image,
    EngineError,
>)
    ensures
        match made {
            Ok(result) => applies_all(engine, image, spec@, result),
            Err(e) => fails_at(engine, image, spec@, e.index as int),
        },
{
    let ghost ops = spec@;
    let (first, first_action) = RequestContext::decoding(spec.clone()).step(Event::Decoded);
    let mut context = first;
    let mut action = first_action;
    let mut current = image;
    proof {
        assert(ops.take(0) =~= Seq::<Operation>::empty());
    }
    loop
        invariant
            ops == spec@,
            context@.well_formed(),
            context@.ops == ops,
            awaits(context@, action@),
            context@.stage == Stage::Transforming || context@.stage == Stage::Encoding,
            context@.next <= ops.len(),
            context@.stage == Stage::Encoding ==> context@.next == ops.len(),
            applies_all(engine, image, ops.take(context@.next as int), current),
        decreases remaining(context@),
    {
        let ghost request = context@;
        let ghost before = current;
        let event = match action {
            Action::Apply { index, operation } => match engine.apply(current, &operation) {
                Some(next) => {
                    proof {
                        let done = ops.take(index + 1);
                        assert(done.drop_last() =~= ops.take(index as int));
                        assert(done.last() == ops[index as int]);
                        assert(applies_all(engine, image, done.drop_last(), before));
                        assert(engine.applies(before, done.last(), Some(next)));
                        lemma_applies_one_more(engine, image, done, before, next);
                    }
                    current = next;
                    Event::Applied
                },
                None => {
                    return Err(EngineError { index });
                },
            },
            Action::Encode { .. } => {
                proof {
                    assert(ops.take(ops.len() as int) =~= ops);
                }
                return Ok(current);
            },
            _ => unreached(),
        };
        proof {
            step_makes_progress(request, event@);
        }
        let (next, next_action) = context.step(event);
        context = next;
        action = next_action;
    }
}

/// What a request has done to the cache once its source bytes are at hand: a
/// hit has made the entry the most recently used one; a miss has stored what was
/// fetched from the origin that the source identifier resolves to.
pub open spec fn supplied(source_id: Seq<char>, before: Entries, capacity: nat, now: Entries)
    -> bool {
    let key = spec_fingerprint(source_id);
    if lookup(before, key) is Some {
        now == touched(before, key)
    } else {
        spec_resolve(source_id) is Some && exists|bytes: Seq<u8>|
            now == inserted(before, capacity, key, bytes)
    }
}

/// What `handle` answers, and what it leaves in the cache, as far as the
/// request and the cache decide it.
pub open spec fn answered(
    spec_text: Seq<char>,
    source_id: Seq<char>,
    before: Entries,
    capacity: nat,
    now: Entries,
    response: Result<(Seq<char>, Seq<u8>), RequestError>,
) -> bool {
    let missed = lookup(before, spec_fingerprint(source_id)) is None;
    match spec_decode(spec_text) {
        Err(cause) => response == Err::<(Seq<char>, Seq<u8>), RequestError>(
            RequestError::SpecInvalid { cause },
        ) && now == before,
        Ok(ops) => match response {
            Ok((content_type, _)) => content_type == output_format().media_type() && supplied(
                source_id,
                before,
                capacity,
                now,
            ),
            Err(RequestError::SpecInvalid { .. }) => false,
            Err(RequestError::UnsupportedSource) => missed && spec_resolve(source_id) is None
                && now == before,
            Err(RequestError::FetchFailed) => missed && spec_resolve(source_id) is Some && now
                == before,
            Err(RequestError::DecodeFailed) => supplied(source_id, before, capacity, now),
            Err(RequestError::TransformFailed { index }) => index < ops.len() && supplied(
                source_id,
                before,
                capacity,
                now,
            ),
        },
    }
}

/// What holds between two steps of `handle`.
spec fn on_course(
    spec_text: Seq<char>,
    source_id: Seq<char>,
    before: Entries,
    capacity: nat,
    now: Entries,
    request: RequestView,
    action: ActionView,
    has_image: bool,
) -> bool {
    let key = spec_fingerprint(source_id);
    let hit = lookup(before, key) is Some;
    &&& request.well_formed()
    &&& awaits(request, action)
    &&& request.stage != Stage::Received
    &&& request.source_id == source_id
    &&& request.stage == Stage::SpecInvalid <==> spec_decode(spec_text) is Err
    &&& request.stage != Stage::SpecInvalid ==> request.ops == spec_decode(spec_text)->Ok_0
        && request.key == key
    &&& match request.stage {
        Stage::SpecInvalid => now == before && action == (ActionView::Fail {
            error: RequestError::SpecInvalid { cause: spec_decode(spec_text)->Err_0 },
        }),
        Stage::CacheLookup => now == before,
        Stage::Fetching => now == before && !hit,
        Stage::FetchFailed => now == before && !hit,
        Stage::Decoding => if action->cache_as is None {
            hit && now == touched(before, key)
        } else {
            !hit && now == before && spec_resolve(source_id) is Some
        },
        Stage::Transforming => has_image && supplied(source_id, before, capacity, now),
        Stage::Encoding => has_image && supplied(source_id, before, capacity, now),
        _ => supplied(source_id, before, capacity, now),
    }
}

/// Handles one request: decodes the pipeline, takes the source bytes from the
/// cache or, on a miss, from the fetcher, which is then asked once, stores what
/// was fetched, and lets the engine decode the bytes, apply the operations in
/// their order and encode the result. Returns the content type and the body of
/// the response, or the error that ended the request.
///
/// The cache is held for the whole call. Where requests share one cache, each
/// of them takes its own steps with `RequestContext::step` and holds the cache
/// for a lookup and for a store only, never while a source is fetched.
pub fn handle<F: Fetch, E: Engine>(
    cache: &mut CacheStore,
    fetcher: &F,
    engine: &E,
    spec_text: &str,
    source_id: &str,
) -> (response: Result<(&'static str, Vec<u8>), RequestError>)
    ensures
        final(cache).capacity() == old(cache).capacity(),
        answered(
            spec_text@,
            source_id@,
            old(cache)@,
            old(cache).capacity(),
            final(cache)@,
            match response {
                Ok((content_type, body)) => Ok((content_type@, body@)),
                Err(e) => Err(e),
            },
        ),
{
    let ghost before = cache@;
    let ghost capacity = cache.capacity();
    let ghost key = spec_fingerprint(source_id@);
    let (first, first_action) = RequestContext::new().step(
        Event::Request { spec_text: spec_text.to_owned(), source_id: source_id.to_owned() },
    );
    let mut context = first;
    let mut action = first_action;
    let mut image: Option<E::Image> = None;
    loop
        invariant
            before == old(cache)@,
            capacity == old(cache).capacity(),
            cache.capacity() == capacity,
            on_course(
                spec_text@,
                source_id@,
                before,
                capacity,
                cache@,
                context@,
                action@,
                image is Some,
            ),
        decreases remaining(context@),
    {
        let ghost request = context@;
        let event = match action {
            Action::Lookup { key } => match cache.get(key) {
                Some(bytes) => Event::CacheHit { bytes },
                None => Event::CacheMiss,
            },
            Action::Fetch { origin } => match fetcher.fetch(&origin) {
                Ok(bytes) => Event::Fetched { bytes },
                Err(_) => Event::FetchFailed,
            },
            Action::Decode { bytes, cache_as } => {
                image = engine.decode(bytes.as_slice());
                match cache_as {
                    Some(key) => {
                        cache.put(key, bytes);
                    },
                    None => {},
                }
                if image.is_some() {
                    Event::Decoded
                } else {
                    Event::Undecodable
                }
            },
            Action::Apply { index, operation } => {
                image =
                match image {
                    Some(current) => engine.apply(current, &operation),
                    None => unreached(),
                };
                if image.is_some() {
                    Event::Applied
                } else {
                    Event::NotApplied
                }
            },
            Action::Encode { format } => Event::Encoded {
                bytes: match &image {
                    Some(current) => engine.encode(current, format),
                    None => unreached(),
                },
            },
            Action::Respond { content_type, body } => {
                proof {
                    decoded_is_valid(spec_text@);
                }
                return Ok((content_type, body));
            },
            Action::Fail { error } => {
                proof {
                    if spec_decode(spec_text@) is Ok {
                        decoded_is_valid(spec_text@);
                    }
                }
                return Err(error);
            },
            Action::Idle => unreached(),
        };
        proof {
            step_makes_progress(request, event@);
        }
        let (next, next_action) = context.step(event);
        context = next;
        action = next_action;
    }
}

} // verus!
