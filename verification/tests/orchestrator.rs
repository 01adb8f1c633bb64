use tumbor::codec::{encode, DecodeError};
use tumbor::engine::OutputFormat;
use tumbor::operation::{FilterKind, Operation, SampleFilter, TransformSpec};
use tumbor::orchestrator::{
    response_format, Action, Event, RequestContext, RequestError, Stage, STATUS_OK,
};
use tumbor::source::{fingerprint, Origin};

fn request(ops: Vec<Operation>, source_id: &str) -> Event {
    Event::Request {
        spec_text: encode(&TransformSpec::new(ops).unwrap()),
        source_id: source_id.to_string(),
    }
}

fn two_operations() -> Vec<Operation> {
    vec![
        Operation::new_resize(600, 400, SampleFilter::Nearest),
        Operation::new_filter(FilterKind::Oceanic),
    ]
}

/// Takes a fresh request as far as the decoding of its source.
fn decoding(ops: Vec<Operation>) -> RequestContext {
    let (context, _) = RequestContext::new().step(request(ops, "http://example.com/a.jpg"));
    let (context, _) = context.step(Event::CacheHit { bytes: vec![1] });
    assert_eq!(context.stage(), Stage::Decoding);
    context
}

#[test]
fn a_request_on_a_miss_passes_through_every_stage() {
    let id = "https://example.com/a.jpg";
    let context = RequestContext::new();
    assert_eq!(context.stage(), Stage::Received);

    let (context, action) = context.step(request(two_operations(), id));
    assert_eq!(context.stage(), Stage::CacheLookup);
    assert_eq!(context.key(), fingerprint(id));
    assert_eq!(action, Action::Lookup { key: fingerprint(id) });

    let (context, action) = context.step(Event::CacheMiss);
    assert_eq!(context.stage(), Stage::Fetching);
    assert_eq!(action, Action::Fetch { origin: Origin::Remote { url: id.to_string() } });

    let (context, action) = context.step(Event::Fetched { bytes: vec![1, 2, 3] });
    assert_eq!(context.stage(), Stage::Decoding);
    assert_eq!(
        action,
        Action::Decode { bytes: vec![1, 2, 3], cache_as: Some(fingerprint(id)) }
    );

    let (context, action) = context.step(Event::Decoded);
    assert_eq!(context.stage(), Stage::Transforming);
    assert_eq!(action, Action::Apply { index: 0, operation: two_operations()[0] });

    let (context, action) = context.step(Event::Applied);
    assert_eq!(context.stage(), Stage::Transforming);
    assert_eq!(action, Action::Apply { index: 1, operation: two_operations()[1] });

    let (context, action) = context.step(Event::Applied);
    assert_eq!(context.stage(), Stage::Encoding);
    assert_eq!(action, Action::Encode { format: OutputFormat::Jpeg { quality: 100 } });

    let (context, action) = context.step(Event::Encoded { bytes: vec![9, 9] });
    assert_eq!(context.stage(), Stage::Responding);
    assert_eq!(action, Action::Respond { content_type: "image/jpeg", body: vec![9, 9] });
    assert_eq!(STATUS_OK, 200);
}

#[test]
fn a_hit_skips_the_fetch_and_stores_nothing() {
    let (context, _) = RequestContext::new().step(request(vec![], "file:///tmp/sample.jpg"));
    let (context, action) = context.step(Event::CacheHit { bytes: vec![4, 5] });
    assert_eq!(context.stage(), Stage::Decoding);
    assert_eq!(action, Action::Decode { bytes: vec![4, 5], cache_as: None });
}

#[test]
fn a_local_source_is_fetched_by_its_path() {
    let (context, _) = RequestContext::new().step(request(vec![], "file:///tmp/sample.jpg"));
    let (_, action) = context.step(Event::CacheMiss);
    assert_eq!(
        action,
        Action::Fetch { origin: Origin::Local { path: "/tmp/sample.jpg".to_string() } }
    );
}

#[test]
fn an_empty_pipeline_goes_from_decoding_to_encoding() {
    let (context, action) = decoding(vec![]).step(Event::Decoded);
    assert_eq!(context.stage(), Stage::Encoding);
    assert_eq!(action, Action::Encode { format: response_format() });
}

#[test]
fn a_pipeline_that_does_not_decode_ends_the_request() {
    let event = Event::Request {
        spec_text: "AQE".to_string(),
        source_id: "http://example.com/a.jpg".to_string(),
    };
    let (context, action) = RequestContext::new().step(event);
    assert_eq!(context.stage(), Stage::SpecInvalid);
    let error = RequestError::SpecInvalid { cause: DecodeError::Truncated };
    assert_eq!(action, Action::Fail { error });
    assert_eq!(error.status(), 400);
}

#[test]
fn an_unsupported_scheme_ends_the_request_on_the_miss() {
    let (context, _) = RequestContext::new().step(request(vec![], "ftp://host/path"));
    let (context, action) = context.step(Event::CacheMiss);
    assert_eq!(context.stage(), Stage::FetchFailed);
    assert_eq!(action, Action::Fail { error: RequestError::UnsupportedSource });
    assert_eq!(RequestError::UnsupportedSource.status(), 400);
}

#[test]
fn a_failed_fetch_ends_the_request() {
    let (context, _) = RequestContext::new().step(request(vec![], "http://example.com/a.jpg"));
    let (context, _) = context.step(Event::CacheMiss);
    let (context, action) = context.step(Event::FetchFailed);
    assert_eq!(context.stage(), Stage::FetchFailed);
    assert_eq!(action, Action::Fail { error: RequestError::FetchFailed });
    assert_eq!(RequestError::FetchFailed.status(), 400);
}

#[test]
fn bytes_that_are_no_image_end_the_request() {
    let (context, action) = decoding(two_operations()).step(Event::Undecodable);
    assert_eq!(context.stage(), Stage::DecodeFailed);
    assert_eq!(action, Action::Fail { error: RequestError::DecodeFailed });
    assert_eq!(RequestError::DecodeFailed.status(), 400);
}

#[test]
fn an_operation_that_fails_ends_the_request_with_its_position() {
    let (context, _) = decoding(two_operations()).step(Event::Decoded);
    let (context, _) = context.step(Event::Applied);
    let (context, action) = context.step(Event::NotApplied);
    assert_eq!(context.stage(), Stage::TransformFailed);
    let error = RequestError::TransformFailed { index: 1 };
    assert_eq!(action, Action::Fail { error });
    assert_eq!(error.status(), 500);
}

#[test]
fn an_event_out_of_turn_changes_nothing() {
    let (context, action) = RequestContext::new().step(Event::CacheMiss);
    assert_eq!(context.stage(), Stage::Received);
    assert_eq!(action, Action::Idle);

    let (context, _) = context.step(request(two_operations(), "http://example.com/a.jpg"));
    for event in [
        request(vec![], "http://example.com/b.jpg"),
        Event::Fetched { bytes: vec![1] },
        Event::FetchFailed,
        Event::Decoded,
        Event::Undecodable,
        Event::Applied,
        Event::NotApplied,
        Event::Encoded { bytes: vec![1] },
    ] {
        let context = {
            let (context, _) =
                RequestContext::new().step(request(two_operations(), "http://example.com/a.jpg"));
            context
        };
        let (after, action) = context.step(event);
        assert_eq!(after.stage(), Stage::CacheLookup);
        assert_eq!(after.key(), fingerprint("http://example.com/a.jpg"));
        assert_eq!(action, Action::Idle);
    }
    assert_eq!(context.stage(), Stage::CacheLookup);
}

#[test]
fn a_request_that_has_ended_takes_no_further_step() {
    let (context, _) = decoding(vec![]).step(Event::Undecodable);
    let (context, action) = context.step(Event::Decoded);
    assert_eq!(context.stage(), Stage::DecodeFailed);
    assert_eq!(action, Action::Idle);

    let (context, _) = decoding(vec![]).step(Event::Decoded);
    let (context, _) = context.step(Event::Encoded { bytes: vec![] });
    let (context, action) = context.step(Event::Encoded { bytes: vec![1] });
    assert_eq!(context.stage(), Stage::Responding);
    assert_eq!(action, Action::Idle);
}

#[test]
fn formats_name_their_media_types() {
    assert_eq!(response_format(), OutputFormat::Jpeg { quality: 100 });
    assert_eq!(OutputFormat::Jpeg { quality: 10 }.content_type(), "image/jpeg");
    assert_eq!(OutputFormat::Png.content_type(), "image/png");
}
