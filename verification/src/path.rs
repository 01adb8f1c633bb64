//! Request paths: a pipeline and a source identifier as the two path segments
//! of a request, and back.

use crate::cache::CacheStore;
use crate::codec::{encode, spec_encode};
use crate::engine::Engine;
use crate::operation::{FilterKind, Operation, SampleFilter, TransformSpec};
use crate::orchestrator::RequestError;
use crate::proxy::{answered, handle};
use crate::source::Fetch;
use percent_encoding::{percent_decode_str, percent_encode, NON_ALPHANUMERIC};
use vstd::prelude::*;
use vstd::string::*;
use vstd::utf8::encode_utf8;

verus! {

/// Whether `byte` is an ASCII letter or digit.
pub open spec fn is_alphanumeric(byte: u8) -> bool {
    ||| 0x30 <= byte <= 0x39
    ||| 0x41 <= byte <= 0x5a
    ||| 0x61 <= byte <= 0x7a
}

/// The sixteen hexadecimal digits, upper case.
pub open spec fn hex_digits() -> Seq<char> {
    "0123456789ABCDEF"@
}

/// What stands for `byte` in a percent-encoded segment: the byte itself if it
/// is an ASCII letter or digit, else a percent sign and its two hexadecimal
/// digits.
pub open spec fn escaped(byte: u8) -> Seq<char> {
    if is_alphanumeric(byte) {
        seq![byte as char]
    } else {
        seq!['%', hex_digits()[byte as int / 16], hex_digits()[byte as int % 16]]
    }
}

/// The percent-encoding of `bytes` that escapes everything but ASCII letters
/// and digits.
pub open spec fn percent_encoded(bytes: Seq<u8>) -> Seq<char>
    decreases bytes.len(),
{
    if bytes.len() == 0 {
        Seq::empty()
    } else {
        percent_encoded(bytes.drop_last()) + escaped(bytes.last())
    }
}

/// A character that a percent-encoded segment may hold.
pub open spec fn segment_safe(c: char) -> bool {
    ||| 'A' <= c <= 'Z'
    ||| 'a' <= c <= 'z'
    ||| '0' <= c <= '9'
    ||| c == '%'
}

/// A percent-encoded segment holds ASCII letters, digits and percent signs
/// only: it never ends a path segment early.
pub proof fn escaped_is_segment_safe(bytes: Seq<u8>)
    ensures
        forall|i: int|
            0 <= i < percent_encoded(bytes).len() ==> segment_safe(
                #[trigger] percent_encoded(bytes)[i],
            ),
    decreases bytes.len(),
{
    reveal_strlit("0123456789ABCDEF");
    if bytes.len() > 0 {
        escaped_is_segment_safe(bytes.drop_last());
        let head = percent_encoded(bytes.drop_last());
        let tail = escaped(bytes.last());
        assert forall|i: int| 0 <= i < tail.len() implies segment_safe(#[trigger] tail[i]) by {}
        assert forall|i: int| 0 <= i < percent_encoded(bytes).len() implies segment_safe(
            #[trigger] percent_encoded(bytes)[i],
        ) by {
            if i >= head.len() {
                assert(percent_encoded(bytes)[i] == tail[i - head.len()]);
            } else {
                assert(percent_encoded(bytes)[i] == head[i]);
            }
        }
    }
}

/// The text that `percent_encoding::percent_decode_str` followed by
/// `decode_utf8_lossy` makes of `segment`: each percent sign with two
/// hexadecimal digits behind it becomes the byte they name, and the bytes are
/// read as UTF-8, with a replacement character where they are not.
pub uninterp spec fn percent_decoded(segment: Seq<char>) -> Seq<char>;

/// Calls `percent_encoding::percent_encode` with the set `NON_ALPHANUMERIC`,
/// which leaves ASCII letters and digits as they are and writes every other
/// byte as `%` and two upper-case hexadecimal digits.
#[verifier::external_body]
fn percent_encode_bytes(bytes: &[u8]) -> (text: String)
    ensures
        text@ == percent_encoded(bytes@),
{
    percent_encode(bytes, NON_ALPHANUMERIC).to_string()
}

/// Calls `percent_encoding::percent_decode_str` and `decode_utf8_lossy` on what
/// it returns. The result is a function of `segment` alone.
#[verifier::external_body]
fn percent_decode_lossy(segment: &str) -> (text: String)
    ensures
        text@ == percent_decoded(segment@),
{
    percent_decode_str(segment).decode_utf8_lossy().into_owned()
}

/// The path segment that carries `source_id`.
pub fn escape_source(source_id: &str) -> (segment: String)
    ensures
        segment@ == percent_encoded(encode_utf8(source_id@)),
{
    percent_encode_bytes(source_id.as_bytes())
}

/// The source identifier that the path segment `segment` carries.
pub fn unescape_source(segment: &str) -> (source_id: String)
    ensures
        source_id@ == percent_decoded(segment@),
{
    percent_decode_lossy(segment)
}

/// The path of the request for `ops` applied to `source_id`.
pub open spec fn spec_request_path(ops: Seq<Operation>, source_id: Seq<char>) -> Seq<char> {
    "/image/"@ + spec_encode(ops) + "/"@ + percent_encoded(encode_utf8(source_id))
}

/// Builds the path of the request that applies `spec` to the image at
/// `source_id`.
pub fn request_path(spec: &TransformSpec, source_id: &str) -> (path: String)
    ensures
        path@ == spec_request_path(spec@, source_id@),
{
    let mut path = String::from_str("/image/");
    path.append(encode(spec).as_str());
    path.append("/");
    path.append(escape_source(source_id).as_str());
    path
}

/// The pipeline of the sample request: a resize to 500 by 800 with the
/// Catmull-Rom filter, a watermark at (20, 20), and the filter `Marine`.
pub open spec fn sample_pipeline() -> Seq<Operation> {
    seq![
        Operation::Resize {
            target_width: 500,
            target_height: 800,
            filter_kind: SampleFilter::CatmullRom,
        },
        Operation::Watermark { x: 20, y: 20 },
        Operation::Filter { kind: FilterKind::Marine },
    ]
}

/// Builds the URL of a sample request to a proxy on this machine, for trying
/// the proxy out by hand on the image at `source_url`.
pub fn test_url(source_url: &str) -> (url: String)
    ensures
        url@ == "http://localhost:3000"@ + spec_request_path(sample_pipeline(), source_url@),
{
    let mut ops: Vec<Operation> = Vec::new();
    ops.push(Operation::new_resize(500, 800, SampleFilter::CatmullRom));
    ops.push(Operation::new_watermark(20, 20));
    ops.push(Operation::new_filter(FilterKind::Marine));
    assert(ops@ =~= sample_pipeline());
    let spec = TransformSpec::from_valid(ops);
    let mut url = String::from_str("http://localhost:3000");
    url.append(request_path(&spec, source_url).as_str());
    url
}

/// Handles the request whose path holds the segments `spec_segment` and
/// `source_segment`: the source identifier is percent-decoded, and the request
/// is then handled as `handle` does.
pub fn handle_path<F: Fetch, E: Engine>(
    cache: &mut CacheStore,
    fetcher: &F,
    engine: &E,
    spec_segment: &str,
    source_segment: &str,
) -> (response: Result<(&'static str, Vec<u8>), RequestError>)
    ensures
        final(cache).capacity() == old(cache).capacity(),
        answered(
            spec_segment@,
            percent_decoded(source_segment@),
            old(cache)@,
            old(cache).capacity(),
            final(cache)@,
            match response {
                Ok((content_type, body)) => Ok((content_type@, body@)),
                Err(e) => Err(e),
            },
        ),
{
    let source_id = unescape_source(source_segment);
    handle(cache, fetcher, engine, spec_segment, source_id.as_str())
}

} // verus!
