//! The binary layer of the pipeline codec.
//!
//! A pipeline is written as a format version, the number of its operations, and
//! one record for each operation. A record is a tag that names the variant,
//! followed by the variant's fields at their fixed widths, integers big-endian:
//!
//! ```text
//! pipeline  := version count record*
//! record    := 0x01 width:u32 height:u32 filter:u8
//!            | 0x02 x:i32 y:i32
//!            | 0x03 kind:u8
//! ```

use crate::codec::DecodeError;
use crate::operation::{valid_pipeline, FilterKind, Operation, SampleFilter, TransformSpec};
use vstd::prelude::*;

verus! {

/// The version of the format that this library reads and writes.
pub const FORMAT_VERSION: u8 = 1;

pub const TAG_RESIZE: u8 = 1;

pub const TAG_WATERMARK: u8 = 2;

pub const TAG_FILTER: u8 = 3;

/// The four bytes of `v`, most significant first.
pub open spec fn be32(v: u32) -> Seq<u8> {
    seq![
        (v / 0x100_0000) as u8,
        (v / 0x1_0000 % 0x100) as u8,
        (v / 0x100 % 0x100) as u8,
        (v % 0x100) as u8,
    ]
}

/// The number whose big-endian bytes stand at `at` in `bytes`.
pub open spec fn word_at(bytes: Seq<u8>, at: int) -> u32 {
    (bytes[at] * 0x100_0000 + bytes[at + 1] * 0x1_0000 + bytes[at + 2] * 0x100 + bytes[at
        + 3]) as u32
}

/// The two's complement of `v` in 32 bits.
pub open spec fn twos(v: i32) -> u32 {
    if v >= 0 {
        v as u32
    } else {
        (v + 0x1_0000_0000) as u32
    }
}

/// The signed number whose two's complement is `bits`.
pub open spec fn untwos(bits: u32) -> i32 {
    if bits < 0x8000_0000 {
        bits as i32
    } else {
        (bits - 0x1_0000_0000) as i32
    }
}

impl SampleFilter {
    /// The byte that stands for this filter. Zero stands for none.
    pub open spec fn code(self) -> u8 {
        match self {
            SampleFilter::Nearest => 1,
            SampleFilter::Triangle => 2,
            SampleFilter::CatmullRom => 3,
            SampleFilter::Gaussian => 4,
            SampleFilter::Lanczos3 => 5,
        }
    }

    pub open spec fn of_code(code: u8) -> Option<SampleFilter> {
        if code == 1 {
            Some(SampleFilter::Nearest)
        } else if code == 2 {
            Some(SampleFilter::Triangle)
        } else if code == 3 {
            Some(SampleFilter::CatmullRom)
        } else if code == 4 {
            Some(SampleFilter::Gaussian)
        } else if code == 5 {
            Some(SampleFilter::Lanczos3)
        } else {
            None
        }
    }

    pub fn to_code(self) -> (code: u8)
        ensures
            code == self.code(),
    {
        match self {
            SampleFilter::Nearest => 1,
            SampleFilter::Triangle => 2,
            SampleFilter::CatmullRom => 3,
            SampleFilter::Gaussian => 4,
            SampleFilter::Lanczos3 => 5,
        }
    }

    pub fn from_code(code: u8) -> (filter: Option<SampleFilter>)
        ensures
            filter == SampleFilter::of_code(code),
    {
        match code {
            1 => Some(SampleFilter::Nearest),
            2 => Some(SampleFilter::Triangle),
            3 => Some(SampleFilter::CatmullRom),
            4 => Some(SampleFilter::Gaussian),
            5 => Some(SampleFilter::Lanczos3),
            _ => None,
        }
    }
}

impl FilterKind {
    /// The byte that stands for this filter. Zero stands for none.
    pub open spec fn code(self) -> u8 {
        match self {
            FilterKind::Oceanic => 1,
            FilterKind::Islands => 2,
            FilterKind::Marine => 3,
        }
    }

    pub open spec fn of_code(code: u8) -> Option<FilterKind> {
        if code == 1 {
            Some(FilterKind::Oceanic)
        } else if code == 2 {
            Some(FilterKind::Islands)
        } else if code == 3 {
            Some(FilterKind::Marine)
        } else {
            None
        }
    }

    pub fn to_code(self) -> (code: u8)
        ensures
            code == self.code(),
    {
        match self {
            FilterKind::Oceanic => 1,
            FilterKind::Islands => 2,
            FilterKind::Marine => 3,
        }
    }

    pub fn from_code(code: u8) -> (kind: Option<FilterKind>)
        ensures
            kind == FilterKind::of_code(code),
    {
        match code {
            1 => Some(FilterKind::Oceanic),
            2 => Some(FilterKind::Islands),
            3 => Some(FilterKind::Marine),
            _ => None,
        }
    }
}

/// The record of one operation.
pub open spec fn encode_record(op: Operation) -> Seq<u8> {
    match op {
        Operation::Resize { target_width, target_height, filter_kind } => seq![TAG_RESIZE] + be32(
            target_width,
        ) + be32(target_height) + seq![filter_kind.code()],
        Operation::Watermark { x, y } => seq![TAG_WATERMARK] + be32(twos(x)) + be32(twos(y)),
        Operation::Filter { kind } => seq![TAG_FILTER, kind.code()],
    }
}

/// The records of `ops`, one after the other.
pub open spec fn encode_records(ops: Seq<Operation>) -> Seq<u8>
    decreases ops.len(),
{
    if ops.len() == 0 {
        Seq::empty()
    } else {
        encode_record(ops[0]) + encode_records(ops.skip(1))
    }
}

/// The binary form of the pipeline `ops`.
pub open spec fn encode_binary(ops: Seq<Operation>) -> Seq<u8> {
    seq![FORMAT_VERSION, ops.len() as u8] + encode_records(ops)
}

/// Reads the record that starts at `at`: the operation and the position behind
/// it, or the reason why there is no record.
pub open spec fn decode_record(bytes: Seq<u8>, at: int) -> Result<(Operation, int), DecodeError> {
    if at >= bytes.len() {
        Err(DecodeError::Truncated)
    } else if bytes[at] == TAG_RESIZE {
        if at + 10 > bytes.len() {
            Err(DecodeError::Truncated)
        } else if word_at(bytes, at + 1) == 0 || word_at(bytes, at + 5) == 0 {
            Err(DecodeError::ZeroDimension)
        } else {
            match SampleFilter::of_code(bytes[at + 9]) {
                None => Err(DecodeError::UnknownFilter { code: bytes[at + 9] }),
                Some(filter_kind) => Ok(
                    (
                        Operation::Resize {
                            target_width: word_at(bytes, at + 1),
                            target_height: word_at(bytes, at + 5),
                            filter_kind,
                        },
                        at + 10,
                    ),
                ),
            }
        }
    } else if bytes[at] == TAG_WATERMARK {
        if at + 9 > bytes.len() {
            Err(DecodeError::Truncated)
        } else {
            Ok(
                (
                    Operation::Watermark {
                        x: untwos(word_at(bytes, at + 1)),
                        y: untwos(word_at(bytes, at + 5)),
                    },
                    at + 9,
                ),
            )
        }
    } else if bytes[at] == TAG_FILTER {
        if at + 2 > bytes.len() {
            Err(DecodeError::Truncated)
        } else {
            match FilterKind::of_code(bytes[at + 1]) {
                None => Err(DecodeError::UnknownFilter { code: bytes[at + 1] }),
                Some(kind) => Ok((Operation::Filter { kind }, at + 2)),
            }
        }
    } else {
        Err(DecodeError::UnknownTag { tag: bytes[at] })
    }
}

/// Reads `count` records from `at` on: the operations and the position behind
/// the last record, or the first reason why a record could not be read.
pub open spec fn decode_records(bytes: Seq<u8>, at: int, count: nat) -> Result<
    (Seq<Operation>, int),
    DecodeError,
>
    decreases count,
{
    if count == 0 {
        Ok((Seq::empty(), at))
    } else {
        match decode_record(bytes, at) {
            Err(e) => Err(e),
            Ok((op, next)) => match decode_records(bytes, next, (count - 1) as nat) {
                Err(e) => Err(e),
                Ok((rest, end)) => Ok((seq![op] + rest, end)),
            },
        }
    }
}

/// Reads a pipeline from its binary form. Nothing may follow the last record.
pub open spec fn decode_binary(bytes: Seq<u8>) -> Result<Seq<Operation>, DecodeError> {
    if bytes.len() == 0 {
        Err(DecodeError::Truncated)
    } else if bytes[0] != FORMAT_VERSION {
        Err(DecodeError::UnsupportedVersion { version: bytes[0] })
    } else if bytes.len() == 1 {
        Err(DecodeError::Truncated)
    } else {
        match decode_records(bytes, 2, bytes[1] as nat) {
            Err(e) => Err(e),
            Ok((ops, end)) => if end < bytes.len() {
                Err(DecodeError::TrailingBytes)
            } else {
                Ok(ops)
            },
        }
    }
}

/// What is read in all when `done` was read before and `rest` is read after it.
pub open spec fn prepend(done: Seq<Operation>, rest: Result<(Seq<Operation>, int), DecodeError>)
    -> Result<(Seq<Operation>, int), DecodeError> {
    match rest {
        Err(e) => Err(e),
        Ok((ops, end)) => Ok((done + ops, end)),
    }
}

/// Appending an operation to a list appends its record to the list's records.
pub proof fn lemma_encode_records_push(ops: Seq<Operation>, op: Operation)
    ensures
        encode_records(ops.push(op)) == encode_records(ops) + encode_record(op),
    decreases ops.len(),
{
    if ops.len() == 0 {
        assert(ops.push(op).skip(1) =~= Seq::<Operation>::empty());
        assert(encode_records(ops.push(op).skip(1)) =~= Seq::<u8>::empty());
        assert(encode_records(ops.push(op)) =~= encode_records(ops) + encode_record(op));
    } else {
        lemma_encode_records_push(ops.skip(1), op);
        assert(ops.push(op).skip(1) =~= ops.skip(1).push(op));
        assert(encode_records(ops.push(op)) =~= encode_records(ops) + encode_record(op));
    }
}

/// Reading one record and then the rest is reading them all.
proof fn lemma_decode_records_step(bytes: Seq<u8>, done: Seq<Operation>, at: int, count: nat)
    requires
        count > 0,
        decode_record(bytes, at) is Ok,
    ensures
        prepend(done, decode_records(bytes, at, count)) == prepend(
            done.push(decode_record(bytes, at)->Ok_0.0),
            decode_records(bytes, decode_record(bytes, at)->Ok_0.1, (count - 1) as nat),
        ),
{
    let (op, next) = decode_record(bytes, at)->Ok_0;
    match decode_records(bytes, next, (count - 1) as nat) {
        Err(_) => {},
        Ok((rest, _)) => {
            assert(done + (seq![op] + rest) =~= done.push(op) + rest);
        },
    }
}

/// The number of bytes in the record of `op`.
pub open spec fn record_len(op: Operation) -> int {
    match op {
        Operation::Resize { .. } => 10,
        Operation::Watermark { .. } => 9,
        Operation::Filter { .. } => 2,
    }
}

/// Reading the big-endian bytes of a number gives the number back.
pub proof fn lemma_be32_round_trip(v: u32)
    ensures
        word_at(be32(v), 0) == v,
{
}

/// Reading a number in two's complement gives the number back.
pub proof fn lemma_twos_round_trip(v: i32)
    ensures
        untwos(twos(v)) == v,
{
}

/// Wherever the record of a valid operation stands, that operation is read there.
pub proof fn lemma_record_round_trip(bytes: Seq<u8>, at: int, op: Operation)
    requires
        op.valid(),
        0 <= at,
        at + record_len(op) <= bytes.len(),
        bytes.subrange(at, at + record_len(op)) == encode_record(op),
    ensures
        decode_record(bytes, at) == Ok::<(Operation, int), DecodeError>((op, at + record_len(op))),
{
    let record = encode_record(op);
    assert forall|k: int| 0 <= k < record_len(op) implies bytes[at + k] == record[k] by {
        assert(bytes.subrange(at, at + record_len(op))[k] == bytes[at + k]);
    }
    match op {
        Operation::Resize { target_width, target_height, filter_kind } => {
            lemma_be32_round_trip(target_width);
            lemma_be32_round_trip(target_height);
            assert(bytes[at] == record[0]);
            assert(bytes[at + 1] == record[1] && bytes[at + 2] == record[2] && bytes[at + 3]
                == record[3] && bytes[at + 4] == record[4]);
            assert(bytes[at + 5] == record[5] && bytes[at + 6] == record[6] && bytes[at + 7]
                == record[7] && bytes[at + 8] == record[8]);
            assert(bytes[at + 9] == record[9]);
            assert(word_at(bytes, at + 1) == target_width);
            assert(word_at(bytes, at + 5) == target_height);
        },
        Operation::Watermark { x, y } => {
            lemma_be32_round_trip(twos(x));
            lemma_be32_round_trip(twos(y));
            assert(bytes[at] == record[0]);
            assert(bytes[at + 1] == record[1] && bytes[at + 2] == record[2] && bytes[at + 3]
                == record[3] && bytes[at + 4] == record[4]);
            assert(bytes[at + 5] == record[5] && bytes[at + 6] == record[6] && bytes[at + 7]
                == record[7] && bytes[at + 8] == record[8]);
            assert(word_at(bytes, at + 1) == twos(x));
            assert(word_at(bytes, at + 5) == twos(y));
        },
        Operation::Filter { kind } => {
            assert(bytes[at] == record[0]);
            assert(bytes[at + 1] == record[1]);
        },
    }
}

/// The record of an operation has the length that its variant fixes.
pub proof fn lemma_record_len(op: Operation)
    ensures
        encode_record(op).len() == record_len(op),
{
}

/// Where `first + rest` stands at `at`, `first` stands at `at` and `rest` behind
/// it.
proof fn lemma_split_at(bytes: Seq<u8>, at: int, first: Seq<u8>, rest: Seq<u8>)
    requires
        0 <= at,
        at + first.len() + rest.len() <= bytes.len(),
        bytes.subrange(at, at + first.len() + rest.len()) == first + rest,
    ensures
        bytes.subrange(at, at + first.len()) == first,
        bytes.subrange(at + first.len(), at + first.len() + rest.len()) == rest,
{
    let whole = bytes.subrange(at, at + first.len() + rest.len());
    assert forall|k: int| 0 <= k < first.len() implies bytes[at + k] == first[k] by {
        assert(whole[k] == bytes[at + k]);
    }
    assert forall|k: int| 0 <= k < rest.len() implies bytes[at + first.len() + k] == rest[k] by {
        assert(whole[first.len() + k] == bytes[at + first.len() + k]);
    }
    assert(bytes.subrange(at, at + first.len()) =~= first);
    assert(bytes.subrange(at + first.len(), at + first.len() + rest.len()) =~= rest);
}

/// The operations behind the first are valid where all are.
proof fn lemma_valid_tail(ops: Seq<Operation>)
    requires
        ops.len() > 0,
        forall|i: int| 0 <= i < ops.len() ==> (#[trigger] ops[i]).valid(),
    ensures
        forall|i: int| 0 <= i < ops.skip(1).len() ==> (#[trigger] ops.skip(1)[i]).valid(),
{
    assert forall|i: int| 0 <= i < ops.skip(1).len() implies (#[trigger] ops.skip(1)[i]).valid() by {
        assert(ops.skip(1)[i] == ops[i + 1]);
    }
}

/// Wherever the records of valid operations stand, those operations are read
/// there.
pub proof fn lemma_records_round_trip(bytes: Seq<u8>, at: int, ops: Seq<Operation>)
    requires
        forall|i: int| 0 <= i < ops.len() ==> (#[trigger] ops[i]).valid(),
        0 <= at,
        at + encode_records(ops).len() <= bytes.len(),
        bytes.subrange(at, at + encode_records(ops).len()) == encode_records(ops),
    ensures
        decode_records(bytes, at, ops.len()) == Ok::<(Seq<Operation>, int), DecodeError>(
            (ops, at + encode_records(ops).len()),
        ),
    decreases ops.len(),
{
    if ops.len() > 0 {
        let first = encode_record(ops[0]);
        let rest = encode_records(ops.skip(1));
        lemma_record_len(ops[0]);
        lemma_split_at(bytes, at, first, rest);
        lemma_record_round_trip(bytes, at, ops[0]);
        lemma_valid_tail(ops);
        lemma_records_round_trip(bytes, at + first.len(), ops.skip(1));
        assert(seq![ops[0]] + ops.skip(1) =~= ops);
        assert(encode_records(ops).len() == first.len() + rest.len());
        assert(decode_record(bytes, at) == Ok::<(Operation, int), DecodeError>(
            (ops[0], at + first.len()),
        ));
        assert(decode_records(bytes, at + first.len(), (ops.len() - 1) as nat) == Ok::<
            (Seq<Operation>, int),
            DecodeError,
        >((ops.skip(1), at + first.len() + rest.len())));
    } else {
        assert(ops =~= Seq::<Operation>::empty());
    }
}

/// Reading the binary form of a pipeline gives the pipeline back.
pub proof fn lemma_binary_round_trip(ops: Seq<Operation>)
    requires
        valid_pipeline(ops),
    ensures
        decode_binary(encode_binary(ops)) == Ok::<Seq<Operation>, DecodeError>(ops),
{
    let bytes = encode_binary(ops);
    let records = encode_records(ops);
    assert(bytes.subrange(2, 2 + records.len() as int) =~= records);
    lemma_records_round_trip(bytes, 2, ops);
}

/// Records that are cut short anywhere are not read: the reader reports that its
/// input is truncated.
proof fn lemma_truncated_records(full: Seq<u8>, cut: int, at: int, ops: Seq<Operation>)
    requires
        forall|i: int| 0 <= i < ops.len() ==> (#[trigger] ops[i]).valid(),
        0 <= at <= cut < at + encode_records(ops).len() <= full.len(),
        full.subrange(at, at + encode_records(ops).len()) == encode_records(ops),
    ensures
        decode_records(full.take(cut), at, ops.len()) == Err::<
            (Seq<Operation>, int),
            DecodeError,
        >(DecodeError::Truncated),
    decreases ops.len(),
{
    let bytes = full.take(cut);
    let first = encode_record(ops[0]);
    let rest = encode_records(ops.skip(1));
    lemma_record_len(ops[0]);
    lemma_split_at(full, at, first, rest);
    let next = at + first.len();
    if next <= cut {
        assert(bytes.subrange(at, next) =~= full.subrange(at, next));
        lemma_record_round_trip(bytes, at, ops[0]);
        lemma_valid_tail(ops);
        lemma_truncated_records(full, cut, next, ops.skip(1));
    } else {
        lemma_cut_record(bytes, full, at, ops[0]);
    }
}

/// A record whose end is missing is not read: the reader reports that its input
/// is truncated.
proof fn lemma_cut_record(bytes: Seq<u8>, full: Seq<u8>, at: int, op: Operation)
    requires
        0 <= at <= bytes.len() < at + record_len(op) <= full.len(),
        bytes == full.take(bytes.len() as int),
        full.subrange(at, at + record_len(op)) == encode_record(op),
    ensures
        decode_record(bytes, at) == Err::<(Operation, int), DecodeError>(DecodeError::Truncated),
{
    if at < bytes.len() {
        assert(full.subrange(at, at + record_len(op))[0] == full[at]);
        assert(bytes[at] == encode_record(op)[0]);
    }
}

/// No proper prefix of the binary form of a pipeline is read as a pipeline: the
/// reader reports that its input is truncated.
pub proof fn lemma_truncated_binary(ops: Seq<Operation>, cut: int)
    requires
        valid_pipeline(ops),
        0 <= cut < encode_binary(ops).len(),
    ensures
        decode_binary(encode_binary(ops).take(cut)) == Err::<Seq<Operation>, DecodeError>(
            DecodeError::Truncated,
        ),
{
    let full = encode_binary(ops);
    let records = encode_records(ops);
    if cut >= 2 {
        assert(full.subrange(2, 2 + records.len() as int) =~= records);
        lemma_truncated_records(full, cut, 2, ops);
    }
}

/// Behind valid records, a record that cannot be read fails the whole reading,
/// for its own reason.
proof fn lemma_records_then_bad(bytes: Seq<u8>, at: int, ops: Seq<Operation>, more: nat)
    requires
        forall|i: int| 0 <= i < ops.len() ==> (#[trigger] ops[i]).valid(),
        0 <= at,
        at + encode_records(ops).len() <= bytes.len(),
        bytes.subrange(at, at + encode_records(ops).len()) == encode_records(ops),
        more > 0,
        decode_record(bytes, at + encode_records(ops).len()) is Err,
    ensures
        decode_records(bytes, at, ops.len() + more) == Err::<(Seq<Operation>, int), DecodeError>(
            decode_record(bytes, at + encode_records(ops).len())->Err_0,
        ),
    decreases ops.len(),
{
    if ops.len() > 0 {
        let first = encode_record(ops[0]);
        let rest = encode_records(ops.skip(1));
        lemma_record_len(ops[0]);
        lemma_split_at(bytes, at, first, rest);
        lemma_record_round_trip(bytes, at, ops[0]);
        lemma_valid_tail(ops);
        assert(encode_records(ops).len() == first.len() + rest.len());
        lemma_records_then_bad(bytes, at + first.len(), ops.skip(1), more);
        assert((ops.len() + more - 1) as nat == ops.skip(1).len() + more);
    } else {
        assert(encode_records(ops).len() == 0);
    }
}

/// Behind the header and valid records, a record that cannot be read fails the
/// whole reading, for its own reason.
pub proof fn lemma_bad_record(ops: Seq<Operation>, count: u8, bytes: Seq<u8>)
    requires
        forall|i: int| 0 <= i < ops.len() ==> (#[trigger] ops[i]).valid(),
        ops.len() < count,
        bytes.len() >= 2 + encode_records(ops).len(),
        bytes.subrange(0, 2 + encode_records(ops).len() as int) == seq![FORMAT_VERSION, count]
            + encode_records(ops),
        decode_record(bytes, 2 + encode_records(ops).len() as int) is Err,
    ensures
        decode_binary(bytes) == Err::<Seq<Operation>, DecodeError>(
            decode_record(bytes, 2 + encode_records(ops).len() as int)->Err_0,
        ),
{
    let records = encode_records(ops);
    let head = bytes.subrange(0, 2 + records.len() as int);
    assert(head[0] == bytes[0] && head[1] == bytes[1]);
    assert(bytes.subrange(2, 2 + records.len() as int) =~= records) by {
        assert forall|k: int| 0 <= k < records.len() implies bytes[2 + k] == records[k] by {
            assert(head[2 + k] == bytes[2 + k]);
        }
    }
    lemma_records_then_bad(bytes, 2, ops, (count - ops.len()) as nat);
}

/// The digits of a number to the base 256 are the digits it was made of.
proof fn lemma_digits(b0: int, b1: int, b2: int, b3: int)
    requires
        0 <= b0 < 0x100,
        0 <= b1 < 0x100,
        0 <= b2 < 0x100,
        0 <= b3 < 0x100,
    ensures
        ({
            let v = b0 * 0x100_0000 + b1 * 0x1_0000 + b2 * 0x100 + b3;
            &&& 0 <= v < 0x1_0000_0000
            &&& v / 0x100_0000 == b0
            &&& v / 0x1_0000 % 0x100 == b1
            &&& v / 0x100 % 0x100 == b2
            &&& v % 0x100 == b3
        }),
{
}

/// The big-endian bytes of the number that is read at `at` are the bytes at `at`.
proof fn lemma_word_bytes(bytes: Seq<u8>, at: int)
    requires
        0 <= at,
        at + 4 <= bytes.len(),
    ensures
        be32(word_at(bytes, at)) == bytes.subrange(at, at + 4),
{
    lemma_digits(
        bytes[at] as int,
        bytes[at + 1] as int,
        bytes[at + 2] as int,
        bytes[at + 3] as int,
    );
    let word = be32(word_at(bytes, at));
    let part = bytes.subrange(at, at + 4);
    assert(word[0] == part[0]);
    assert(word[1] == part[1]);
    assert(word[2] == part[2]);
    assert(word[3] == part[3]);
    assert(word =~= part);
}

/// The two's complement of the number that some bits are read as is those bits.
proof fn lemma_untwos_round_trip(bits: u32)
    ensures
        twos(untwos(bits)) == bits,
{
}

/// A tag byte, two words and, for `tail` of one, a last byte, as they stand at
/// `at`, are the bytes from `at` on.
proof fn lemma_fields_at(bytes: Seq<u8>, at: int, tail: int)
    requires
        0 <= at,
        0 <= tail <= 1,
        at + 9 + tail <= bytes.len(),
    ensures
        bytes.subrange(at, at + 9 + tail) == seq![bytes[at]] + bytes.subrange(at + 1, at + 5)
            + bytes.subrange(at + 5, at + 9) + bytes.subrange(at + 9, at + 9 + tail),
{
    assert(bytes.subrange(at, at + 9 + tail) =~= seq![bytes[at]] + bytes.subrange(at + 1, at + 5)
        + bytes.subrange(at + 5, at + 9) + bytes.subrange(at + 9, at + 9 + tail));
}

/// A record that is read is the record of the operation it is read as, which is
/// valid.
pub proof fn lemma_record_canonical(bytes: Seq<u8>, at: int)
    requires
        0 <= at,
        decode_record(bytes, at) is Ok,
    ensures
        ({
            let (op, next) = decode_record(bytes, at)->Ok_0;
            &&& op.valid()
            &&& next == at + record_len(op)
            &&& next <= bytes.len()
            &&& bytes.subrange(at, next) == encode_record(op)
        }),
{
    let (op, next) = decode_record(bytes, at)->Ok_0;
    match op {
        Operation::Resize { target_width, target_height, filter_kind } => {
            lemma_word_bytes(bytes, at + 1);
            lemma_word_bytes(bytes, at + 5);
            lemma_fields_at(bytes, at, 1);
            assert(bytes.subrange(at + 9, at + 10) =~= seq![filter_kind.code()]);
        },
        Operation::Watermark { x, y } => {
            lemma_word_bytes(bytes, at + 1);
            lemma_word_bytes(bytes, at + 5);
            lemma_untwos_round_trip(word_at(bytes, at + 1));
            lemma_untwos_round_trip(word_at(bytes, at + 5));
            lemma_fields_at(bytes, at, 0);
            assert(bytes.subrange(at + 9, at + 9) =~= Seq::<u8>::empty());
            assert(encode_record(op) =~= encode_record(op) + Seq::<u8>::empty());
        },
        Operation::Filter { kind } => {
            assert(bytes.subrange(at, next) =~= encode_record(op));
        },
    }
}

/// The records that are read are the records of the operations they are read
/// as.
proof fn lemma_records_canonical(bytes: Seq<u8>, at: int, count: nat)
    requires
        0 <= at <= bytes.len(),
        decode_records(bytes, at, count) is Ok,
    ensures
        ({
            let (ops, end) = decode_records(bytes, at, count)->Ok_0;
            &&& at <= end <= bytes.len()
            &&& bytes.subrange(at, end) == encode_records(ops)
        }),
    decreases count,
{
    let (ops, end) = decode_records(bytes, at, count)->Ok_0;
    if count == 0 {
        assert(bytes.subrange(at, end) =~= encode_records(ops));
    } else {
        let (op, next) = decode_record(bytes, at)->Ok_0;
        lemma_record_canonical(bytes, at);
        lemma_records_canonical(bytes, next, (count - 1) as nat);
        let rest = decode_records(bytes, next, (count - 1) as nat)->Ok_0.0;
        assert(ops == seq![op] + rest);
        assert(ops.skip(1) =~= rest);
        assert(bytes.subrange(at, end) =~= bytes.subrange(at, next) + bytes.subrange(next, end));
    }
}

/// What is read as a pipeline is the binary form of that pipeline: no two byte
/// strings are read as the same pipeline.
pub proof fn lemma_binary_canonical(bytes: Seq<u8>)
    requires
        decode_binary(bytes) is Ok,
    ensures
        encode_binary(decode_binary(bytes)->Ok_0) == bytes,
{
    lemma_records_canonical(bytes, 2, bytes[1] as nat);
    lemma_decoded_records_valid(bytes, 2, bytes[1] as nat);
    let ops = decode_binary(bytes)->Ok_0;
    assert(encode_binary(ops) =~= bytes) by {
        assert(bytes =~= bytes.subrange(0, 2) + bytes.subrange(2, bytes.len() as int));
        assert(bytes.subrange(0, 2) =~= seq![FORMAT_VERSION, ops.len() as u8]);
    }
}

/// The records that are read hold valid operations, as many as were asked for.
proof fn lemma_decoded_records_valid(bytes: Seq<u8>, at: int, count: nat)
    requires
        decode_records(bytes, at, count) is Ok,
    ensures
        decode_records(bytes, at, count)->Ok_0.0.len() == count,
        forall|i: int|
            0 <= i < count ==> (#[trigger] decode_records(bytes, at, count)->Ok_0.0[i]).valid(),
    decreases count,
{
    if count > 0 {
        let (op, next) = decode_record(bytes, at)->Ok_0;
        lemma_decoded_records_valid(bytes, next, (count - 1) as nat);
        let rest = decode_records(bytes, next, (count - 1) as nat)->Ok_0.0;
        let all = decode_records(bytes, at, count)->Ok_0.0;
        assert(all == seq![op] + rest);
        assert forall|i: int| 0 <= i < count implies (#[trigger] all[i]).valid() by {
            if i > 0 {
                assert(all[i] == rest[i - 1]);
            }
        }
    }
}

/// What is read from a binary form is a valid pipeline.
pub proof fn lemma_decoded_is_valid(bytes: Seq<u8>)
    requires
        decode_binary(bytes) is Ok,
    ensures
        valid_pipeline(decode_binary(bytes)->Ok_0),
{
    lemma_decoded_records_valid(bytes, 2, bytes[1] as nat);
}

fn push_u32(out: &mut Vec<u8>, v: u32)
    ensures
        final(out)@ == old(out)@ + be32(v),
{
    out.push((v / 0x100_0000) as u8);
    out.push((v / 0x1_0000 % 0x100) as u8);
    out.push((v / 0x100 % 0x100) as u8);
    out.push((v % 0x100) as u8);
    proof {
        assert(out@ =~= old(out)@ + be32(v));
    }
}

fn read_u32(bytes: &[u8], at: usize) -> (v: u32)
    requires
        at + 4 <= bytes.len(),
    ensures
        v == word_at(bytes@, at as int),
{
    let b0: u32 = bytes[at] as u32;
    let b1: u32 = bytes[at + 1] as u32;
    let b2: u32 = bytes[at + 2] as u32;
    let b3: u32 = bytes[at + 3] as u32;
    b0 * 0x100_0000 + b1 * 0x1_0000 + b2 * 0x100 + b3
}

fn to_twos(v: i32) -> (bits: u32)
    ensures
        bits == twos(v),
{
    if v >= 0 {
        v as u32
    } else {
        ((v + 0x7fff_ffff + 1) as u32) + 0x8000_0000
    }
}

fn from_twos(bits: u32) -> (v: i32)
    ensures
        v == untwos(bits),
{
    if bits < 0x8000_0000 {
        bits as i32
    } else {
        ((bits - 0x8000_0000) as i32) - 0x7fff_ffff - 1
    }
}

fn push_record(out: &mut Vec<u8>, op: &Operation)
    ensures
        final(out)@ == old(out)@ + encode_record(*op),
{
    match op {
        Operation::Resize { target_width, target_height, filter_kind } => {
            out.push(TAG_RESIZE);
            push_u32(out, *target_width);
            push_u32(out, *target_height);
            out.push(filter_kind.to_code());
        },
        Operation::Watermark { x, y } => {
            out.push(TAG_WATERMARK);
            push_u32(out, to_twos(*x));
            push_u32(out, to_twos(*y));
        },
        Operation::Filter { kind } => {
            out.push(TAG_FILTER);
            out.push(kind.to_code());
        },
    }
    proof {
        assert(out@ =~= old(out)@ + encode_record(*op));
    }
}

/// Writes a pipeline in its binary form.
pub fn to_bytes(spec: &TransformSpec) -> (out: Vec<u8>)
    ensures
        out@ == encode_binary(spec@),
{
    let ops = spec.operations();
    let mut out: Vec<u8> = Vec::new();
    out.push(FORMAT_VERSION);
    out.push(ops.len() as u8);
    let mut i: usize = 0;
    proof {
        assert(out@ =~= seq![FORMAT_VERSION, ops.len() as u8] + encode_records(ops@.take(0)));
    }
    while i < ops.len()
        invariant
            i <= ops.len(),
            out@ == seq![FORMAT_VERSION, ops.len() as u8] + encode_records(ops@.take(i as int)),
        decreases ops.len() - i,
    {
        push_record(&mut out, &ops[i]);
        proof {
            lemma_encode_records_push(ops@.take(i as int), ops@[i as int]);
            assert(ops@.take(i + 1) =~= ops@.take(i as int).push(ops@[i as int]));
            assert(out@ =~= seq![FORMAT_VERSION, ops.len() as u8] + encode_records(
                ops@.take(i + 1),
            ));
        }
        i += 1;
    }
    proof {
        assert(ops@.take(ops.len() as int) =~= ops@);
    }
    out
}

fn read_record(bytes: &[u8], at: usize) -> (read: Result<(Operation, usize), DecodeError>)
    requires
        at <= bytes.len(),
    ensures
        match read {
            Ok((op, next)) => {
                &&& decode_record(bytes@, at as int) == Ok::<(Operation, int), DecodeError>(
                    (op, next as int),
                )
                &&& op.valid()
                &&& at < next <= bytes.len()
            },
            Err(e) => decode_record(bytes@, at as int) == Err::<(Operation, int), DecodeError>(e),
        },
{
    let left: usize = bytes.len() - at;
    if left == 0 {
        return Err(DecodeError::Truncated);
    }
    let tag: u8 = bytes[at];
    if tag == TAG_RESIZE {
        if left < 10 {
            return Err(DecodeError::Truncated);
        }
        let target_width: u32 = read_u32(bytes, at + 1);
        let target_height: u32 = read_u32(bytes, at + 5);
        if target_width == 0 || target_height == 0 {
            return Err(DecodeError::ZeroDimension);
        }
        match SampleFilter::from_code(bytes[at + 9]) {
            None => Err(DecodeError::UnknownFilter { code: bytes[at + 9] }),
            Some(filter_kind) => Ok(
                (Operation::Resize { target_width, target_height, filter_kind }, at + 10),
            ),
        }
    } else if tag == TAG_WATERMARK {
        if left < 9 {
            return Err(DecodeError::Truncated);
        }
        let x: i32 = from_twos(read_u32(bytes, at + 1));
        let y: i32 = from_twos(read_u32(bytes, at + 5));
        Ok((Operation::Watermark { x, y }, at + 9))
    } else if tag == TAG_FILTER {
        if left < 2 {
            return Err(DecodeError::Truncated);
        }
        match FilterKind::from_code(bytes[at + 1]) {
            None => Err(DecodeError::UnknownFilter { code: bytes[at + 1] }),
            Some(kind) => Ok((Operation::Filter { kind }, at + 2)),
        }
    } else {
        Err(DecodeError::UnknownTag { tag })
    }
}

/// Reads a pipeline from its binary form, or says why `bytes` holds none.
pub fn from_bytes(bytes: &[u8]) -> (read: Result<TransformSpec, DecodeError>)
    ensures
        match read {
            Ok(spec) => decode_binary(bytes@) == Ok::<Seq<Operation>, DecodeError>(spec@),
            Err(e) => decode_binary(bytes@) == Err::<Seq<Operation>, DecodeError>(e),
        },
{
    if bytes.len() == 0 {
        return Err(DecodeError::Truncated);
    }
    if bytes[0] != FORMAT_VERSION {
        return Err(DecodeError::UnsupportedVersion { version: bytes[0] });
    }
    if bytes.len() == 1 {
        return Err(DecodeError::Truncated);
    }
    let count: usize = bytes[1] as usize;
    let mut ops: Vec<Operation> = Vec::new();
    let mut at: usize = 2;
    proof {
        assert(Seq::<Operation>::empty() + decode_records(bytes@, 2, count as nat)->Ok_0.0
            =~= decode_records(bytes@, 2, count as nat)->Ok_0.0);
    }
    while ops.len() < count
        invariant
            2 <= at <= bytes.len(),
            bytes@[0] == FORMAT_VERSION,
            count == bytes@[1],
            ops.len() <= count <= 255,
            forall|j: int| 0 <= j < ops.len() ==> (#[trigger] ops@[j]).valid(),
            decode_records(bytes@, 2, count as nat) == prepend(
                ops@,
                decode_records(bytes@, at as int, (count - ops.len()) as nat),
            ),
        decreases count - ops.len(),
    {
        match read_record(bytes, at) {
            Err(e) => {
                return Err(e);
            },
            Ok((op, next)) => {
                proof {
                    lemma_decode_records_step(
                        bytes@,
                        ops@,
                        at as int,
                        (count - ops.len()) as nat,
                    );
                }
                ops.push(op);
                at = next;
            },
        }
    }
    proof {
        assert(ops@ + Seq::<Operation>::empty() =~= ops@);
    }
    if at < bytes.len() {
        return Err(DecodeError::TrailingBytes);
    }
    Ok(TransformSpec::from_valid(ops))
}

} // verus!
