use std::cell::Cell;
use tumbor::cache::CacheStore;
use tumbor::codec::{encode, DecodeError};
use tumbor::engine::{Engine, EngineError, OutputFormat};
use tumbor::operation::{FilterKind, Operation, SampleFilter, TransformSpec};
use tumbor::orchestrator::RequestError;
use tumbor::proxy::{handle, transform};
use tumbor::source::{fingerprint, Fetch, Origin};

/// Delivers the same bytes for every origin, and fails from the call after
/// `good_calls` on.
struct Flaky {
    good_calls: usize,
    calls: Cell<usize>,
}

impl Flaky {
    fn new(good_calls: usize) -> Flaky {
        Flaky { good_calls, calls: Cell::new(0) }
    }
}

impl Fetch for Flaky {
    type Error = ();

    fn fetch(&self, _origin: &Origin) -> Result<Vec<u8>, ()> {
        self.calls.set(self.calls.get() + 1);
        if self.calls.get() <= self.good_calls {
            Ok(vec![20, 10])
        } else {
            Err(())
        }
    }
}

/// A canvas of a given size and the share of it that a ten by ten watermark
/// covers, in parts per ten thousand.
#[derive(Debug, Clone, PartialEq)]
struct Canvas {
    width: u32,
    height: u32,
    covered: u32,
}

/// Keeps track of the canvas only. It cannot apply the filter `Islands`.
struct Sketch;

impl Engine for Sketch {
    type Image = Canvas;

    fn decode(&self, bytes: &[u8]) -> Option<Canvas> {
        if bytes.len() == 2 {
            Some(Canvas { width: bytes[0] as u32, height: bytes[1] as u32, covered: 0 })
        } else {
            None
        }
    }

    fn apply(&self, image: Canvas, operation: &Operation) -> Option<Canvas> {
        match operation {
            Operation::Resize { target_width, target_height, .. } => {
                Some(Canvas { width: *target_width, height: *target_height, ..image })
            }
            Operation::Watermark { .. } => {
                Some(Canvas { covered: 10 * 10 * 10_000 / (image.width * image.height), ..image })
            }
            Operation::Filter { kind: FilterKind::Islands } => None,
            Operation::Filter { .. } => Some(image),
        }
    }

    fn encode(&self, image: &Canvas, format: OutputFormat) -> Vec<u8> {
        format!("{:?} {}x{} {}", format, image.width, image.height, image.covered).into_bytes()
    }
}

fn text(ops: Vec<Operation>) -> String {
    encode(&TransformSpec::new(ops).unwrap())
}

#[test]
fn a_request_is_answered_with_a_jpeg() {
    let mut cache = CacheStore::new(4);
    let spec = text(vec![Operation::new_resize(600, 400, SampleFilter::Nearest)]);
    let response = handle(&mut cache, &Flaky::new(1), &Sketch, &spec, "file:///tmp/sample.jpg");
    assert_eq!(
        response,
        Ok(("image/jpeg", b"Jpeg { quality: 100 } 600x400 0".to_vec()))
    );
}

#[test]
fn a_cache_hit_avoids_the_fetch() {
    let mut cache = CacheStore::new(4);
    let fetcher = Flaky::new(1);
    let spec = text(vec![Operation::new_resize(30, 30, SampleFilter::Triangle)]);
    let first = handle(&mut cache, &fetcher, &Sketch, &spec, "https://example.com/a.jpg");
    let second = handle(&mut cache, &fetcher, &Sketch, &spec, "https://example.com/a.jpg");
    assert!(first.is_ok());
    assert_eq!(first, second);
    assert_eq!(fetcher.calls.get(), 1);
    let third = handle(&mut cache, &fetcher, &Sketch, &spec, "https://example.com/b.jpg");
    assert_eq!(third, Err(RequestError::FetchFailed));
    assert_eq!(fetcher.calls.get(), 2);
}

#[test]
fn the_cache_holds_the_source_bytes_and_not_the_result() {
    let mut cache = CacheStore::new(4);
    let spec = text(vec![Operation::new_resize(30, 30, SampleFilter::Triangle)]);
    let id = "https://example.com/a.jpg";
    assert!(handle(&mut cache, &Flaky::new(1), &Sketch, &spec, id).is_ok());
    assert_eq!(cache.get(fingerprint(id)), Some(vec![20, 10]));
}

#[test]
fn the_order_of_the_operations_matters() {
    let mut cache = CacheStore::new(4);
    let fetcher = Flaky::new(1);
    let id = "https://example.com/a.jpg";
    let resize = Operation::new_resize(100, 100, SampleFilter::Nearest);
    let watermark = Operation::new_watermark(0, 0);
    let one = handle(&mut cache, &fetcher, &Sketch, &text(vec![resize, watermark]), id);
    let other = handle(&mut cache, &fetcher, &Sketch, &text(vec![watermark, resize]), id);
    assert_eq!(one, Ok(("image/jpeg", b"Jpeg { quality: 100 } 100x100 100".to_vec())));
    assert_eq!(other, Ok(("image/jpeg", b"Jpeg { quality: 100 } 100x100 5000".to_vec())));
    assert_ne!(one, other);
}

#[test]
fn an_unsupported_scheme_fails_without_a_fetch() {
    let mut cache = CacheStore::new(4);
    let fetcher = Flaky::new(1);
    let spec = text(vec![]);
    let response = handle(&mut cache, &fetcher, &Sketch, &spec, "ftp://host/path");
    assert_eq!(response, Err(RequestError::UnsupportedSource));
    assert_eq!(response.unwrap_err().status(), 400);
    assert_eq!(fetcher.calls.get(), 0);
    assert_eq!(cache.get(fingerprint("ftp://host/path")), None);
}

#[test]
fn an_invalid_pipeline_fails_before_anything_is_fetched() {
    let mut cache = CacheStore::new(4);
    let fetcher = Flaky::new(1);
    let response = handle(&mut cache, &fetcher, &Sketch, "AQE", "https://example.com/a.jpg");
    assert_eq!(response, Err(RequestError::SpecInvalid { cause: DecodeError::Truncated }));
    assert_eq!(response.unwrap_err().status(), 400);
    assert_eq!(fetcher.calls.get(), 0);
}

#[test]
fn bytes_that_are_no_image_fail_the_request_and_stay_cached() {
    struct Short;
    impl Fetch for Short {
        type Error = ();
        fn fetch(&self, _origin: &Origin) -> Result<Vec<u8>, ()> {
            Ok(vec![1])
        }
    }
    let mut cache = CacheStore::new(4);
    let id = "https://example.com/a.txt";
    let response = handle(&mut cache, &Short, &Sketch, &text(vec![]), id);
    assert_eq!(response, Err(RequestError::DecodeFailed));
    assert_eq!(response.unwrap_err().status(), 400);
    assert_eq!(cache.get(fingerprint(id)), Some(vec![1]));
}

#[test]
fn a_failing_operation_ends_the_request_with_its_position() {
    let mut cache = CacheStore::new(4);
    let spec = text(vec![
        Operation::new_watermark(-5, 7),
        Operation::new_filter(FilterKind::Marine),
        Operation::new_filter(FilterKind::Islands),
        Operation::new_resize(1, 1, SampleFilter::Gaussian),
    ]);
    let response = handle(&mut cache, &Flaky::new(1), &Sketch, &spec, "http://example.com/a");
    assert_eq!(response, Err(RequestError::TransformFailed { index: 2 }));
    assert_eq!(response.unwrap_err().status(), 500);
}

#[test]
fn a_pipeline_is_applied_in_its_order() {
    let canvas = Canvas { width: 20, height: 10, covered: 0 };
    let resize = Operation::new_resize(100, 100, SampleFilter::Nearest);
    let watermark = Operation::new_watermark(0, 0);
    let one = TransformSpec::new(vec![resize, watermark]).unwrap();
    let other = TransformSpec::new(vec![watermark, resize]).unwrap();
    assert_eq!(
        transform(&Sketch, canvas.clone(), &one),
        Ok(Canvas { width: 100, height: 100, covered: 100 })
    );
    assert_eq!(
        transform(&Sketch, canvas.clone(), &other),
        Ok(Canvas { width: 100, height: 100, covered: 5000 })
    );
}

#[test]
fn an_empty_pipeline_leaves_the_image_as_it_is() {
    let canvas = Canvas { width: 20, height: 10, covered: 7 };
    let spec = TransformSpec::new(vec![]).unwrap();
    assert_eq!(transform(&Sketch, canvas.clone(), &spec), Ok(canvas));
}

#[test]
fn the_first_operation_that_fails_ends_the_pipeline() {
    let canvas = Canvas { width: 20, height: 10, covered: 0 };
    let spec = TransformSpec::new(vec![
        Operation::new_filter(FilterKind::Oceanic),
        Operation::new_filter(FilterKind::Islands),
        Operation::new_filter(FilterKind::Islands),
    ])
    .unwrap();
    assert_eq!(transform(&Sketch, canvas, &spec), Err(EngineError { index: 1 }));
}
