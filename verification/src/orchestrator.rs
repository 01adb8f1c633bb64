//! The request protocol: which outside work a request needs next, given what
//! the work before it brought back.
//!
//! A request passes through the stages
//! `Received -> CacheLookup -> (Fetching ->)? Decoding -> Transforming* ->
//! Encoding -> Responding`, or ends in one of four failure stages. The pipeline
//! is decoded on the way out of `Received`. Nothing is retried.

use crate::codec::{decode, spec_decode, DecodeError};
use crate::engine::OutputFormat;
use crate::operation::{Operation, TransformSpec, MAX_OPERATIONS};
use crate::source::{fingerprint, resolve, spec_fingerprint, spec_resolve, Origin, OriginView};
use vstd::prelude::*;

verus! {

/// Why a request has no response.
#[derive(Clone, Copy, Debug, PartialEq, Eq, Structural)]
pub enum RequestError {
    /// The text of the pipeline is malformed, for the reason given.
    SpecInvalid { cause: DecodeError },
    /// The source identifier names a scheme that is not supported.
    UnsupportedSource,
    /// The source could not be retrieved.
    FetchFailed,
    /// The source bytes are no image that the engine can decode.
    DecodeFailed,
    /// The engine could not apply the operation at `index`.
    TransformFailed { index: usize },
}

impl RequestError {
    /// The HTTP status that reports this error: 400 where the request is at
    /// fault, 500 where the engine is.
    pub open spec fn spec_status(self) -> u16 {
        match self {
            RequestError::TransformFailed { .. } => 500,
            _ => 400,
        }
    }

    pub fn status(&self) -> (code: u16)
        ensures
            code == self.spec_status(),
    {
        match self {
            RequestError::TransformFailed { .. } => 500,
            _ => 400,
        }
    }

    /// The stage in which a request that failed with this error rests.
    pub open spec fn stage(self) -> Stage {
        match self {
            RequestError::SpecInvalid { .. } => Stage::SpecInvalid,
            RequestError::UnsupportedSource => Stage::FetchFailed,
            RequestError::FetchFailed => Stage::FetchFailed,
            RequestError::DecodeFailed => Stage::DecodeFailed,
            RequestError::TransformFailed { .. } => Stage::TransformFailed,
        }
    }
}

/// The HTTP status of a response.
pub const STATUS_OK: u16 = 200;

/// Where a request stands.
#[derive(Clone, Copy, Debug, PartialEq, Eq, Structural)]
pub enum Stage {
    /// Nothing is known of the request yet.
    Received,
    /// The cache is being asked for the source bytes.
    CacheLookup,
    /// The source bytes are being retrieved from their origin.
    Fetching,
    /// The engine is decoding the source bytes.
    Decoding,
    /// The engine is applying an operation of the pipeline.
    Transforming,
    /// The engine is encoding the result.
    Encoding,
    /// The response is ready.
    Responding,
    SpecInvalid,
    FetchFailed,
    DecodeFailed,
    TransformFailed,
}

impl Stage {
    /// Whether a request rests in this stage for good.
    pub open spec fn is_terminal(self) -> bool {
        self == Stage::Responding || self.is_failure()
    }

    pub open spec fn is_failure(self) -> bool {
        ||| self == Stage::SpecInvalid
        ||| self == Stage::FetchFailed
        ||| self == Stage::DecodeFailed
        ||| self == Stage::TransformFailed
    }
}

/// What the outside work brought back.
#[derive(Debug, PartialEq, Eq)]
pub enum Event {
    /// A request arrived, with the text of its pipeline and its source
    /// identifier.
    Request { spec_text: String, source_id: String },
    /// The cache holds the source bytes.
    CacheHit { bytes: Vec<u8> },
    /// The cache does not hold the source bytes.
    CacheMiss,
    /// The origin delivered the source bytes.
    Fetched { bytes: Vec<u8> },
    /// The origin delivered nothing.
    FetchFailed,
    /// The engine decoded the source bytes and holds the image.
    Decoded,
    /// The engine found that the source bytes are no image.
    Undecodable,
    /// The engine applied the operation it was given.
    Applied,
    /// The engine could not apply the operation it was given.
    NotApplied,
    /// The engine encoded the image.
    Encoded { bytes: Vec<u8> },
}

/// The outside work that a request needs next.
#[derive(Debug, PartialEq, Eq)]
pub enum Action {
    /// Ask the cache for the bytes under `key`; a hit counts as a use.
    Lookup { key: u64 },
    /// Retrieve the bytes of `origin`.
    Fetch { origin: Origin },
    /// Let the engine decode `bytes`. Where `cache_as` holds a key, also store
    /// the bytes in the cache under it, whether they decode or not.
    Decode { bytes: Vec<u8>, cache_as: Option<u64> },
    /// Let the engine apply `operation`, which stands at `index` in the pipeline,
    /// to the image that it holds.
    Apply { index: usize, operation: Operation },
    /// Let the engine encode the image that it holds.
    Encode { format: OutputFormat },
    /// Answer with status 200, `content_type` and `body`.
    Respond { content_type: &'static str, body: Vec<u8> },
    /// Answer with the status of `error`.
    Fail { error: RequestError },
    /// Nothing: the event did not belong to the stage of the request.
    Idle,
}

/// An event as a value of the model.
pub enum EventView {
    Request { spec_text: Seq<char>, source_id: Seq<char> },
    CacheHit { bytes: Seq<u8> },
    CacheMiss,
    Fetched { bytes: Seq<u8> },
    FetchFailed,
    Decoded,
    Undecodable,
    Applied,
    NotApplied,
    Encoded { bytes: Seq<u8> },
}

/// An action as a value of the model.
pub enum ActionView {
    Lookup { key: u64 },
    Fetch { origin: OriginView },
    Decode { bytes: Seq<u8>, cache_as: Option<u64> },
    Apply { index: nat, operation: Operation },
    Encode { format: OutputFormat },
    Respond { content_type: Seq<char>, body: Seq<u8> },
    Fail { error: RequestError },
    Idle,
}

impl View for Event {
    type V = EventView;

    open spec fn view(&self) -> EventView {
        match self {
            Event::Request { spec_text, source_id } => EventView::Request {
                spec_text: spec_text@,
                source_id: source_id@,
            },
            Event::CacheHit { bytes } => EventView::CacheHit { bytes: bytes@ },
            Event::CacheMiss => EventView::CacheMiss,
            Event::Fetched { bytes } => EventView::Fetched { bytes: bytes@ },
            Event::FetchFailed => EventView::FetchFailed,
            Event::Decoded => EventView::Decoded,
            Event::Undecodable => EventView::Undecodable,
            Event::Applied => EventView::Applied,
            Event::NotApplied => EventView::NotApplied,
            Event::Encoded { bytes } => EventView::Encoded { bytes: bytes@ },
        }
    }
}

impl View for Action {
    type V = ActionView;

    open spec fn view(&self) -> ActionView {
        match self {
            Action::Lookup { key } => ActionView::Lookup { key: *key },
            Action::Fetch { origin } => ActionView::Fetch { origin: origin@ },
            Action::Decode { bytes, cache_as } => ActionView::Decode {
                bytes: bytes@,
                cache_as: *cache_as,
            },
            Action::Apply { index, operation } => ActionView::Apply {
                index: *index as nat,
                operation: *operation,
            },
            Action::Encode { format } => ActionView::Encode { format: *format },
            Action::Respond { content_type, body } => ActionView::Respond {
                content_type: content_type@,
                body: body@,
            },
            Action::Fail { error } => ActionView::Fail { error: *error },
            Action::Idle => ActionView::Idle,
        }
    }
}

/// A request as a value of the model.
pub struct RequestView {
    pub stage: Stage,
    /// The decoded pipeline; empty until it is decoded.
    pub ops: Seq<Operation>,
    pub source_id: Seq<char>,
    /// The fingerprint of the source identifier.
    pub key: u64,
    /// The number of operations that were applied: while transforming, the
    /// position of the operation that is being applied.
    pub next: nat,
}

impl RequestView {
    /// What holds of every request: while one transforms, the operation that is
    /// being applied is one of its pipeline, and where a transform failed, the
    /// operation that failed is; while one fetches, its source identifier points
    /// somewhere.
    pub open spec fn well_formed(self) -> bool {
        &&& self.stage == Stage::Transforming || self.stage == Stage::TransformFailed
            ==> self.next < self.ops.len()
        &&& self.stage == Stage::Fetching ==> spec_resolve(self.source_id) is Some
    }

    /// This request in another stage.
    pub open spec fn at(self, stage: Stage) -> RequestView {
        RequestView { stage, ..self }
    }

    /// This request in the stage that follows the decoding of the source, and
    /// the work that it needs there: the first operation, or the encoding where
    /// the pipeline is empty.
    pub open spec fn transform_from(self, next: nat) -> (RequestView, ActionView) {
        if next < self.ops.len() {
            (
                RequestView { stage: Stage::Transforming, next, ..self },
                ActionView::Apply { index: next, operation: self.ops[next as int] },
            )
        } else {
            (
                RequestView { stage: Stage::Encoding, next, ..self },
                ActionView::Encode { format: output_format() },
            )
        }
    }
}

/// The format of every response: JPEG at the highest quality.
pub open spec fn output_format() -> OutputFormat {
    OutputFormat::Jpeg { quality: 100 }
}

/// The request in the stage `Received`.
pub open spec fn fresh() -> RequestView {
    RequestView {
        stage: Stage::Received,
        ops: Seq::empty(),
        source_id: Seq::empty(),
        key: 0,
        next: 0,
    }
}

/// The protocol: the request after `event`, and the work that it needs next. An
/// event that does not belong to the stage of the request changes nothing.
pub open spec fn spec_step(request: RequestView, event: EventView) -> (RequestView, ActionView) {
    match event {
        EventView::Request { spec_text, source_id } => if request.stage == Stage::Received {
            match spec_decode(spec_text) {
                Err(cause) => (
                    RequestView { stage: Stage::SpecInvalid, source_id, ..request },
                    ActionView::Fail { error: RequestError::SpecInvalid { cause } },
                ),
                Ok(ops) => (
                    RequestView {
                        stage: Stage::CacheLookup,
                        ops,
                        source_id,
                        key: spec_fingerprint(source_id),
                        next: 0,
                    },
                    ActionView::Lookup { key: spec_fingerprint(source_id) },
                ),
            }
        } else {
            (request, ActionView::Idle)
        },
        EventView::CacheHit { bytes } => if request.stage == Stage::CacheLookup {
            (request.at(Stage::Decoding), ActionView::Decode { bytes, cache_as: None })
        } else {
            (request, ActionView::Idle)
        },
        EventView::CacheMiss => if request.stage == Stage::CacheLookup {
            match spec_resolve(request.source_id) {
                Some(origin) => (request.at(Stage::Fetching), ActionView::Fetch { origin }),
                None => (
                    request.at(Stage::FetchFailed),
                    ActionView::Fail { error: RequestError::UnsupportedSource },
                ),
            }
        } else {
            (request, ActionView::Idle)
        },
        EventView::Fetched { bytes } => if request.stage == Stage::Fetching {
            (
                request.at(Stage::Decoding),
                ActionView::Decode { bytes, cache_as: Some(request.key) },
            )
        } else {
            (request, ActionView::Idle)
        },
        EventView::FetchFailed => if request.stage == Stage::Fetching {
            (
                request.at(Stage::FetchFailed),
                ActionView::Fail { error: RequestError::FetchFailed },
            )
        } else {
            (request, ActionView::Idle)
        },
        EventView::Decoded => if request.stage == Stage::Decoding {
            request.transform_from(0)
        } else {
            (request, ActionView::Idle)
        },
        EventView::Undecodable => if request.stage == Stage::Decoding {
            (
                request.at(Stage::DecodeFailed),
                ActionView::Fail { error: RequestError::DecodeFailed },
            )
        } else {
            (request, ActionView::Idle)
        },
        EventView::Applied => if request.stage == Stage::Transforming {
            request.transform_from(request.next + 1)
        } else {
            (request, ActionView::Idle)
        },
        EventView::NotApplied => if request.stage == Stage::Transforming {
            (
                request.at(Stage::TransformFailed),
                ActionView::Fail {
                    error: RequestError::TransformFailed { index: request.next as usize },
                },
            )
        } else {
            (request, ActionView::Idle)
        },
        EventView::Encoded { bytes } => if request.stage == Stage::Encoding {
            (
                request.at(Stage::Responding),
                ActionView::Respond { content_type: output_format().media_type(), body: bytes },
            )
        } else {
            (request, ActionView::Idle)
        },
    }
}

/// The format of every response.
pub fn response_format() -> (format: OutputFormat)
    ensures
        format == output_format(),
{
    OutputFormat::Jpeg { quality: 100 }
}

/// One request on its way through the protocol. It belongs to the call that
/// handles the request and is shared with nobody.
pub struct RequestContext {
    stage: Stage,
    spec: TransformSpec,
    source_id: String,
    key: u64,
    next: usize,
}

impl View for RequestContext {
    type V = RequestView;

    closed spec fn view(&self) -> RequestView {
        RequestView {
            stage: self.stage,
            ops: self.spec@,
            source_id: self.source_id@,
            key: self.key,
            next: self.next as nat,
        }
    }
}

impl RequestContext {
    #[verifier::type_invariant]
    spec fn consistent(self) -> bool {
        &&& self.stage == Stage::Transforming || self.stage == Stage::TransformFailed
            ==> self.next < self.spec@.len()
        &&& self.stage == Stage::Fetching ==> spec_resolve(self.source_id@) is Some
    }

    /// The context of a request of which nothing is known yet.
    pub fn new() -> (context: RequestContext)
        ensures
            context@ == fresh(),
    {
        RequestContext {
            stage: Stage::Received,
            spec: TransformSpec::empty(),
            source_id: String::new(),
            key: 0,
            next: 0,
        }
    }

    /// The context of a request whose source bytes are being decoded and whose
    /// pipeline is `spec`.
    pub(crate) fn decoding(spec: TransformSpec) -> (context: RequestContext)
        ensures
            context@ == (RequestView { stage: Stage::Decoding, ops: spec@, ..fresh() }),
    {
        RequestContext {
            stage: Stage::Decoding,
            spec,
            source_id: String::new(),
            key: 0,
            next: 0,
        }
    }

    /// Where the request stands.
    pub fn stage(&self) -> (stage: Stage)
        ensures
            stage == self@.stage,
            self@.well_formed(),
    {
        proof {
            use_type_invariant(self);
        }
        self.stage
    }

    /// The key under which the source bytes of the request are cached.
    pub fn key(&self) -> (key: u64)
        ensures
            key == self@.key,
    {
        self.key
    }

    /// The work that follows the decoding of the source or the operation before
    /// `next`: the operation at `next`, or the encoding behind the last one.
    fn transform_from(self, next: usize) -> (out: (RequestContext, Action))
        requires
            self@.stage == Stage::Decoding || self@.stage == Stage::Transforming,
            next <= self@.ops.len(),
        ensures
            (out.0@, out.1@) == self@.transform_from(next as nat),
    {
        let mut context = self;
        if next < context.spec.len() {
            let operation = context.spec.operations()[next];
            context.stage = Stage::Decoding;
            context.next = next;
            context.stage = Stage::Transforming;
            (context, Action::Apply { index: next, operation })
        } else {
            context.stage = Stage::Encoding;
            context.next = next;
            (context, Action::Encode { format: response_format() })
        }
    }

    /// Takes the request one step on: the context after `event`, and the outside
    /// work that the request needs next.
    pub fn step(self, event: Event) -> (out: (RequestContext, Action))
        ensures
            (out.0@, out.1@) == spec_step(self@, event@),
            out.0@.well_formed(),
    {
        proof {
            use_type_invariant(&self);
        }
        let mut context = self;
        match event {
            Event::Request { spec_text, source_id } => {
                if context.stage != Stage::Received {
                    return (context, Action::Idle);
                }
                match decode(spec_text.as_str()) {
                    Err(cause) => {
                        context.source_id = source_id;
                        context.stage = Stage::SpecInvalid;
                        (context, Action::Fail { error: RequestError::SpecInvalid { cause } })
                    },
                    Ok(spec) => {
                        let key = fingerprint(source_id.as_str());
                        context.spec = spec;
                        context.source_id = source_id;
                        context.key = key;
                        context.next = 0;
                        context.stage = Stage::CacheLookup;
                        (context, Action::Lookup { key })
                    },
                }
            },
            Event::CacheHit { bytes } => {
                if context.stage != Stage::CacheLookup {
                    return (context, Action::Idle);
                }
                context.stage = Stage::Decoding;
                (context, Action::Decode { bytes, cache_as: None })
            },
            Event::CacheMiss => {
                if context.stage != Stage::CacheLookup {
                    return (context, Action::Idle);
                }
                match resolve(context.source_id.as_str()) {
                    Ok(origin) => {
                        context.stage = Stage::Fetching;
                        (context, Action::Fetch { origin })
                    },
                    Err(_) => {
                        context.stage = Stage::FetchFailed;
                        (context, Action::Fail { error: RequestError::UnsupportedSource })
                    },
                }
            },
            Event::Fetched { bytes } => {
                if context.stage != Stage::Fetching {
                    return (context, Action::Idle);
                }
                context.stage = Stage::Decoding;
                let key = context.key;
                (context, Action::Decode { bytes, cache_as: Some(key) })
            },
            Event::FetchFailed => {
                if context.stage != Stage::Fetching {
                    return (context, Action::Idle);
                }
                context.stage = Stage::FetchFailed;
                (context, Action::Fail { error: RequestError::FetchFailed })
            },
            Event::Decoded => {
                if context.stage != Stage::Decoding {
                    return (context, Action::Idle);
                }
                context.transform_from(0)
            },
            Event::Undecodable => {
                if context.stage != Stage::Decoding {
                    return (context, Action::Idle);
                }
                context.stage = Stage::DecodeFailed;
                (context, Action::Fail { error: RequestError::DecodeFailed })
            },
            Event::Applied => {
                if context.stage != Stage::Transforming {
                    return (context, Action::Idle);
                }
                let length: usize = context.spec.len();
                let next: usize = if context.next < length {
                    context.next + 1
                } else {
                    length
                };
                context.transform_from(next)
            },
            Event::NotApplied => {
                if context.stage != Stage::Transforming {
                    return (context, Action::Idle);
                }
                let index: usize = context.next;
                context.stage = Stage::TransformFailed;
                (context, Action::Fail { error: RequestError::TransformFailed { index } })
            },
            Event::Encoded { bytes } => {
                if context.stage != Stage::Encoding {
                    return (context, Action::Idle);
                }
                context.stage = Stage::Responding;
                (
                    context,
                    Action::Respond { content_type: response_format().content_type(), body: bytes },
                )
            },
        }
    }
}

/// The number of events that a request can still take, at most.
pub open spec fn remaining(request: RequestView) -> nat {
    match request.stage {
        Stage::Received => MAX_OPERATIONS as nat + 6,
        Stage::CacheLookup => request.ops.len() + 5,
        Stage::Fetching => request.ops.len() + 4,
        Stage::Decoding => request.ops.len() + 3,
        Stage::Transforming => (request.ops.len() - request.next + 1) as nat,
        Stage::Encoding => 1,
        _ => 0,
    }
}

/// Whether `action` is the work that a request in the state `request` waits
/// for.
pub open spec fn awaits(request: RequestView, action: ActionView) -> bool {
    match request.stage {
        Stage::Received => false,
        Stage::CacheLookup => action == (ActionView::Lookup { key: request.key }),
        Stage::Fetching => action is Fetch && spec_resolve(request.source_id) == Some(
            action->origin,
        ),
        Stage::Decoding => action is Decode && (action->cache_as is Some ==> action->cache_as
            == Some(request.key)),
        Stage::Transforming => request.next < request.ops.len() && action == (ActionView::Apply {
            index: request.next,
            operation: request.ops[request.next as int],
        }),
        Stage::Encoding => action == (ActionView::Encode { format: output_format() }),
        Stage::Responding => action is Respond && action->content_type
            == output_format().media_type(),
        Stage::SpecInvalid => action is Fail && action->error is SpecInvalid,
        Stage::FetchFailed => action == (ActionView::Fail {
            error: if spec_resolve(request.source_id) is None {
                RequestError::UnsupportedSource
            } else {
                RequestError::FetchFailed
            },
        }),
        Stage::DecodeFailed => action == (ActionView::Fail { error: RequestError::DecodeFailed }),
        Stage::TransformFailed => action == (ActionView::Fail {
            error: RequestError::TransformFailed { index: request.next as usize },
        }),
    }
}

/// A request that has its response or has failed takes no further step:
/// nothing is retried.
pub proof fn terminal_stages_absorb(request: RequestView, event: EventView)
    requires
        request.stage.is_terminal(),
    ensures
        spec_step(request, event) == (request, ActionView::Idle),
{
}

/// Every step that does anything brings the request nearer to its end, keeps it
/// well formed, and names the very work that the new stage waits for.
pub proof fn step_makes_progress(request: RequestView, event: EventView)
    requires
        request.well_formed(),
        !(spec_step(request, event).1 is Idle),
    ensures
        remaining(spec_step(request, event).0) < remaining(request),
        spec_step(request, event).0.well_formed(),
        awaits(spec_step(request, event).0, spec_step(request, event).1),
{
    if request.stage == Stage::Received {
        let text = event->spec_text;
        if spec_decode(text) is Ok {
            crate::codec::decoded_is_valid(text);
        }
    }
}

/// A failure is surfaced at once and keeps its kind: a step ends in a failure
/// stage exactly when it asks for the failing answer, and the error of that
/// answer belongs to that stage.
pub proof fn failure_is_surfaced(request: RequestView, event: EventView)
    requires
        !request.stage.is_terminal(),
    ensures
        spec_step(request, event).0.stage.is_failure() <==> spec_step(request, event).1 is Fail,
        spec_step(request, event).1 is Fail ==> spec_step(request, event).1->error.stage()
            == spec_step(request, event).0.stage,
{
}

/// A pipeline text that does not decode fails the request before anything else
/// happens, with the reason why it does not decode.
pub proof fn invalid_spec_is_refused(spec_text: Seq<char>, source_id: Seq<char>)
    requires
        spec_decode(spec_text) is Err,
    ensures
        spec_step(fresh(), EventView::Request { spec_text, source_id }).1 == (ActionView::Fail {
            error: RequestError::SpecInvalid { cause: spec_decode(spec_text)->Err_0 },
        }),
        spec_step(fresh(), EventView::Request { spec_text, source_id }).0.stage
            == Stage::SpecInvalid,
{
}

/// A cache hit goes straight to decoding: the bytes of the cache are decoded,
/// nothing is fetched and nothing is stored.
pub proof fn hit_avoids_fetch(request: RequestView, bytes: Seq<u8>)
    requires
        request.stage == Stage::CacheLookup,
    ensures
        spec_step(request, EventView::CacheHit { bytes }) == (
            request.at(Stage::Decoding),
            ActionView::Decode { bytes, cache_as: None },
        ),
{
}

/// A source identifier with an unsupported scheme fails the request on the
/// cache miss, and a fetch is only ever asked for the origin that the source
/// identifier resolves to.
pub proof fn unsupported_source_is_refused(request: RequestView, event: EventView)
    ensures
        request.stage == Stage::CacheLookup && event is CacheMiss && spec_resolve(
            request.source_id,
        ) is None ==> spec_step(request, event) == (
            request.at(Stage::FetchFailed),
            ActionView::Fail { error: RequestError::UnsupportedSource },
        ),
        spec_step(request, event).1 is Fetch ==> spec_resolve(request.source_id) == Some(
            spec_step(request, event).1->origin,
        ),
{
}

/// The cache is only ever given source bytes: a step asks to store bytes only
/// when they have just been fetched, and then under the key of the request.
/// What the engine makes of them is never stored.
pub proof fn only_fetched_bytes_are_cached(request: RequestView, event: EventView)
    requires
        spec_step(request, event).1 is Decode,
        spec_step(request, event).1->cache_as is Some,
    ensures
        request.stage == Stage::Fetching,
        event == (EventView::Fetched { bytes: spec_step(request, event).1->bytes }),
        spec_step(request, event).1->cache_as == Some(request.key),
{
}

/// The request after the source was decoded and `applied` operations were
/// applied one after the other.
pub open spec fn after_applied(request: RequestView, applied: nat) -> (RequestView, ActionView)
    decreases applied,
{
    if applied == 0 {
        spec_step(request, EventView::Decoded)
    } else {
        spec_step(after_applied(request, (applied - 1) as nat).0, EventView::Applied)
    }
}

/// Operations are applied strictly in the order of the pipeline: once `applied`
/// of them are applied, the engine is asked for the one at `applied`, and for
/// the encoding once all are applied.
pub proof fn operations_apply_in_order(request: RequestView, applied: nat)
    requires
        request.stage == Stage::Decoding,
        applied <= request.ops.len(),
    ensures
        after_applied(request, applied) == request.transform_from(applied),
    decreases applied,
{
    if applied > 0 {
        operations_apply_in_order(request, (applied - 1) as nat);
    }
}

/// An operation that cannot be applied ends the request: the failure carries the
/// position of that operation, and no later operation is asked for.
pub proof fn failed_operation_aborts(request: RequestView, applied: nat)
    requires
        request.stage == Stage::Decoding,
        applied < request.ops.len(),
        applied <= usize::MAX,
    ensures
        spec_step(after_applied(request, applied).0, EventView::NotApplied).1 == (
        ActionView::Fail { error: RequestError::TransformFailed { index: applied as usize } }),
        spec_step(after_applied(request, applied).0, EventView::NotApplied).0.stage.is_terminal(),
{
    operations_apply_in_order(request, applied);
}

} // verus!
