//! The pipeline codec: a pipeline to and from the text that carries it in a URL.

use crate::operation::{valid_pipeline, Operation, TransformSpec};
use crate::text::{
    decode_text, encode_text, from_text, lemma_text_canonical, lemma_text_prefix,
    lemma_text_round_trip, to_text, url_safe,
};
use crate::wire::{
    decode_binary, encode_binary, encode_records, from_bytes, lemma_bad_record,
    lemma_binary_canonical, lemma_binary_round_trip, lemma_decoded_is_valid,
    lemma_truncated_binary, to_bytes, word_at, FORMAT_VERSION, TAG_FILTER, TAG_RESIZE,
    TAG_WATERMARK,
};
use vstd::prelude::*;

verus! {

/// Why a text or a byte string is not the encoding of a pipeline.
#[derive(Clone, Copy, Debug, PartialEq, Eq, Structural)]
pub enum DecodeError {
    /// The text is not unpadded URL-safe base64 in canonical form.
    InvalidText,
    /// The input ends before the header or before the last record is complete.
    Truncated,
    /// The input was written in a version of the format that is not known here.
    UnsupportedVersion { version: u8 },
    /// A record begins with a tag that names no operation.
    UnknownTag { tag: u8 },
    /// A resize asks for a width or a height of zero.
    ZeroDimension,
    /// A record names a sample filter or a stylistic filter that is not known.
    UnknownFilter { code: u8 },
    /// Bytes follow the last record.
    TrailingBytes,
}

/// The text that carries the pipeline `ops`.
pub open spec fn spec_encode(ops: Seq<Operation>) -> Seq<char> {
    encode_text(encode_binary(ops))
}

/// The pipeline that `text` carries, or the reason why it carries none.
pub open spec fn spec_decode(text: Seq<char>) -> Result<Seq<Operation>, DecodeError> {
    match decode_text(text) {
        None => Err(DecodeError::InvalidText),
        Some(bytes) => decode_binary(bytes),
    }
}

/// Writes a pipeline as URL-safe text.
pub fn encode(spec: &TransformSpec) -> (text: String)
    ensures
        text@ == spec_encode(spec@),
{
    let bytes = to_bytes(spec);
    to_text(bytes.as_slice())
}

/// Reads a pipeline from its text, or says why `text` carries none.
pub fn decode(text: &str) -> (read: Result<TransformSpec, DecodeError>)
    ensures
        match read {
            Ok(spec) => spec_decode(text@) == Ok::<Seq<Operation>, DecodeError>(spec@),
            Err(e) => spec_decode(text@) == Err::<Seq<Operation>, DecodeError>(e),
        },
{
    match from_text(text) {
        None => Err(DecodeError::InvalidText),
        Some(bytes) => from_bytes(bytes.as_slice()),
    }
}

/// Decoding the encoding of a pipeline gives the pipeline back.
pub proof fn round_trip(ops: Seq<Operation>)
    requires
        valid_pipeline(ops),
    ensures
        spec_decode(spec_encode(ops)) == Ok::<Seq<Operation>, DecodeError>(ops),
{
    lemma_text_round_trip(encode_binary(ops));
    lemma_binary_round_trip(ops);
}

/// What decodes is a valid pipeline.
pub proof fn decoded_is_valid(text: Seq<char>)
    requires
        spec_decode(text) is Ok,
    ensures
        valid_pipeline(spec_decode(text)->Ok_0),
{
    lemma_decoded_is_valid(decode_text(text)->Some_0);
}

/// Only encodings decode: a text that decodes is the encoding of the pipeline
/// that it decodes to, so no two texts carry the same pipeline.
pub proof fn decodes_only_encodings(text: Seq<char>)
    requires
        spec_decode(text) is Ok,
    ensures
        spec_encode(spec_decode(text)->Ok_0) == text,
{
    lemma_binary_canonical(decode_text(text)->Some_0);
    lemma_text_canonical(text);
}

/// The encoding of a pipeline cut short anywhere is rejected: what is left is
/// no canonical text, or it carries a truncated binary form.
pub proof fn truncated_text_is_rejected(ops: Seq<Operation>, cut: int)
    requires
        valid_pipeline(ops),
        0 <= cut < spec_encode(ops).len(),
    ensures
        spec_decode(spec_encode(ops).take(cut)) == Err::<Seq<Operation>, DecodeError>(
            DecodeError::InvalidText,
        ) || spec_decode(spec_encode(ops).take(cut)) == Err::<Seq<Operation>, DecodeError>(
            DecodeError::Truncated,
        ),
{
    let bytes = encode_binary(ops);
    lemma_text_prefix(bytes, cut);
    match decode_text(spec_encode(ops).take(cut)) {
        None => {},
        Some(part) => {
            lemma_truncated_binary(ops, part.len() as int);
        },
    }
}

/// The encoding of a pipeline holds only characters that a URL path segment
/// holds without escaping.
pub proof fn encoding_is_url_safe(ops: Seq<Operation>)
    ensures
        forall|i: int| 0 <= i < spec_encode(ops).len() ==> url_safe(#[trigger] spec_encode(ops)[i]),
{
    lemma_text_round_trip(encode_binary(ops));
}

/// The text of any byte string decodes as the byte string itself does: what the
/// binary layer rejects, and why, the codec rejects for the same reason.
pub proof fn text_carries_bytes(bytes: Seq<u8>)
    ensures
        spec_decode(encode_text(bytes)) == decode_binary(bytes),
{
    lemma_text_round_trip(bytes);
}

/// The binary form of a pipeline cut short anywhere is rejected as truncated.
pub proof fn truncated_is_rejected(ops: Seq<Operation>, cut: int)
    requires
        valid_pipeline(ops),
        0 <= cut < encode_binary(ops).len(),
    ensures
        spec_decode(encode_text(encode_binary(ops).take(cut))) == Err::<
            Seq<Operation>,
            DecodeError,
        >(DecodeError::Truncated),
{
    lemma_text_round_trip(encode_binary(ops).take(cut));
    lemma_truncated_binary(ops, cut);
}

/// Whether `bytes` begins with the header of a pipeline of `count` operations
/// and the records of `ops`, which are fewer than `count`, so that one more
/// record is due at `due_at(ops)`.
pub open spec fn record_due(bytes: Seq<u8>, count: u8, ops: Seq<Operation>) -> bool {
    &&& forall|i: int| 0 <= i < ops.len() ==> (#[trigger] ops[i]).valid()
    &&& ops.len() < count
    &&& due_at(ops) <= bytes.len()
    &&& bytes.subrange(0, due_at(ops)) == seq![FORMAT_VERSION, count] + encode_records(ops)
}

/// The position behind the header and the records of `ops`.
pub open spec fn due_at(ops: Seq<Operation>) -> int {
    2 + encode_records(ops).len() as int
}

/// A tag that names no operation is rejected wherever a record is due, whatever
/// follows it.
pub proof fn unknown_tag_is_rejected(bytes: Seq<u8>, count: u8, ops: Seq<Operation>)
    requires
        record_due(bytes, count, ops),
        due_at(ops) < bytes.len(),
        bytes[due_at(ops)] != TAG_RESIZE,
        bytes[due_at(ops)] != TAG_WATERMARK,
        bytes[due_at(ops)] != TAG_FILTER,
    ensures
        decode_binary(bytes) == Err::<Seq<Operation>, DecodeError>(
            DecodeError::UnknownTag { tag: bytes[due_at(ops)] },
        ),
        spec_decode(encode_text(bytes)) == Err::<Seq<Operation>, DecodeError>(
            DecodeError::UnknownTag { tag: bytes[due_at(ops)] },
        ),
{
    lemma_bad_record(ops, count, bytes);
    text_carries_bytes(bytes);
}

/// A complete resize record with a width or a height of zero is rejected
/// wherever a record is due, whatever follows it.
pub proof fn zero_dimension_is_rejected(bytes: Seq<u8>, count: u8, ops: Seq<Operation>)
    requires
        record_due(bytes, count, ops),
        due_at(ops) + 10 <= bytes.len(),
        bytes[due_at(ops)] == TAG_RESIZE,
        word_at(bytes, due_at(ops) + 1) == 0 || word_at(bytes, due_at(ops) + 5) == 0,
    ensures
        decode_binary(bytes) == Err::<Seq<Operation>, DecodeError>(DecodeError::ZeroDimension),
        spec_decode(encode_text(bytes)) == Err::<Seq<Operation>, DecodeError>(
            DecodeError::ZeroDimension,
        ),
{
    lemma_bad_record(ops, count, bytes);
    text_carries_bytes(bytes);
}

} // verus!
