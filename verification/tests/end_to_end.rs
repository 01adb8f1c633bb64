use image::imageops::FilterType;
use image::{DynamicImage, GenericImageView, ImageOutputFormat, Rgb, RgbImage};
use std::io::Cursor;
use tumbor::cache::CacheStore;
use tumbor::codec::encode;
use tumbor::engine::{Engine, OutputFormat};
use tumbor::operation::{FilterKind, Operation, SampleFilter, TransformSpec};
use tumbor::orchestrator::RequestError;
use tumbor::proxy::handle;
use tumbor::source::{Fetch, Origin};

/// An engine that works on real pixels.
struct Pixels;

impl Engine for Pixels {
    type Image = DynamicImage;

    fn decode(&self, bytes: &[u8]) -> Option<DynamicImage> {
        image::load_from_memory(bytes).ok()
    }

    fn apply(&self, image: DynamicImage, operation: &Operation) -> Option<DynamicImage> {
        match *operation {
            Operation::Resize { target_width, target_height, filter_kind } => {
                let filter = match filter_kind {
                    SampleFilter::Nearest => FilterType::Nearest,
                    SampleFilter::Triangle => FilterType::Triangle,
                    SampleFilter::CatmullRom => FilterType::CatmullRom,
                    SampleFilter::Gaussian => FilterType::Gaussian,
                    SampleFilter::Lanczos3 => FilterType::Lanczos3,
                };
                Some(image.resize_exact(target_width, target_height, filter))
            }
            Operation::Watermark { x, y } => {
                let mut canvas = image;
                let mark = DynamicImage::ImageRgb8(RgbImage::from_pixel(8, 8, Rgb([255, 255, 255])));
                image::imageops::overlay(&mut canvas, &mark, x as i64, y as i64);
                Some(canvas)
            }
            Operation::Filter { kind } => match kind {
                FilterKind::Oceanic => Some(image.huerotate(180)),
                FilterKind::Islands => Some(image.brighten(20)),
                FilterKind::Marine => Some(image.grayscale()),
            },
        }
    }

    fn encode(&self, image: &DynamicImage, format: OutputFormat) -> Vec<u8> {
        let mut out = Cursor::new(Vec::new());
        let format = match format {
            OutputFormat::Jpeg { quality } => ImageOutputFormat::Jpeg(quality),
            OutputFormat::Png => ImageOutputFormat::Png,
        };
        image.to_rgb8().write_to(&mut out, format).unwrap();
        out.into_inner()
    }
}

/// Serves one JPEG of 64 by 48 pixels as the local file `/tmp/sample.jpg`.
struct Disk;

fn sample_jpeg() -> Vec<u8> {
    let picture = RgbImage::from_fn(64, 48, |x, y| Rgb([(4 * x) as u8, (5 * y) as u8, 128]));
    let mut out = Cursor::new(Vec::new());
    picture.write_to(&mut out, ImageOutputFormat::Jpeg(90)).unwrap();
    out.into_inner()
}

impl Fetch for Disk {
    type Error = ();

    fn fetch(&self, origin: &Origin) -> Result<Vec<u8>, ()> {
        match origin {
            Origin::Local { path } if path == "/tmp/sample.jpg" => Ok(sample_jpeg()),
            Origin::Local { path } if path == "/tmp/notes.txt" => Ok(b"no image".to_vec()),
            _ => Err(()),
        }
    }
}

fn text(ops: Vec<Operation>) -> String {
    encode(&TransformSpec::new(ops).unwrap())
}

#[test]
fn a_local_jpeg_is_resized_to_600_by_400() {
    let mut cache = CacheStore::new(16);
    let spec = text(vec![Operation::new_resize(600, 400, SampleFilter::Nearest)]);
    assert_eq!(spec, "AQEBAAACWAAAAZAB");
    let (content_type, body) =
        handle(&mut cache, &Disk, &Pixels, &spec, "file:///tmp/sample.jpg").unwrap();
    assert_eq!(content_type, "image/jpeg");
    assert_eq!(image::guess_format(&body).unwrap(), image::ImageFormat::Jpeg);
    let result = image::load_from_memory(&body).unwrap();
    assert_eq!(result.dimensions(), (600, 400));
}

#[test]
fn the_order_of_a_resize_and_a_watermark_shows_in_the_pixels() {
    let mut cache = CacheStore::new(16);
    let resize = Operation::new_resize(100, 100, SampleFilter::Nearest);
    let watermark = Operation::new_watermark(0, 0);
    let id = "file:///tmp/sample.jpg";
    let (_, one) = handle(&mut cache, &Disk, &Pixels, &text(vec![resize, watermark]), id).unwrap();
    let (_, other) =
        handle(&mut cache, &Disk, &Pixels, &text(vec![watermark, resize]), id).unwrap();
    let one = image::load_from_memory(&one).unwrap();
    let other = image::load_from_memory(&other).unwrap();
    assert_eq!(one.dimensions(), (100, 100));
    assert_eq!(other.dimensions(), (100, 100));
    // The mark is eight pixels wide where it was put on last, and wider where
    // the resize came after it.
    let bright = |picture: &DynamicImage, x: u32| picture.get_pixel(x, 2).0[2] > 220;
    assert!(bright(&one, 2) && bright(&other, 2));
    assert!(!bright(&one, 11) && bright(&other, 11));
}

#[test]
fn a_whole_pipeline_runs_on_real_pixels() {
    let mut cache = CacheStore::new(16);
    let spec = text(vec![
        Operation::new_resize(50, 80, SampleFilter::CatmullRom),
        Operation::new_watermark(20, 20),
        Operation::new_filter(FilterKind::Marine),
    ]);
    let (content_type, body) =
        handle(&mut cache, &Disk, &Pixels, &spec, "file:///tmp/sample.jpg").unwrap();
    assert_eq!(content_type, "image/jpeg");
    assert_eq!(image::load_from_memory(&body).unwrap().dimensions(), (50, 80));
}

#[test]
fn a_file_that_is_no_image_fails_the_request() {
    let mut cache = CacheStore::new(16);
    let response = handle(&mut cache, &Disk, &Pixels, "AQA", "file:///tmp/notes.txt");
    assert_eq!(response, Err(RequestError::DecodeFailed));
}

#[test]
fn a_file_that_is_not_there_fails_the_request() {
    let mut cache = CacheStore::new(16);
    let response = handle(&mut cache, &Disk, &Pixels, "AQA", "file:///tmp/none.jpg");
    assert_eq!(response, Err(RequestError::FetchFailed));
}
