//! The result message: the keypoints of one inference as a framed binary
//! record, followed by the rendered image as a second frame.
//!
//! A keypoint value is held as the bit pattern of its 32-bit float, so that
//! what goes over the wire is exactly what the inference engine produced.

use crate::wire::{
    decode_frame,
    encode_frame,
    frame_of,
    lemma_base_256_digits,
    lemma_frame_round_trip,
    spec_decode_frame,
    ProtocolError,
};
use vstd::prelude::*;

verus! {

/// Number of keypoints of one pose.
pub const KEYPOINTS: usize = 17;

/// Number of values of one result: `(y, x, confidence)` for each keypoint.
pub const KEYPOINT_VALUES: usize = 51;

/// The keypoints of one inference, as the bit patterns of their floats, in
/// the order `y`, `x`, `confidence` for each keypoint in turn.
#[derive(Clone, Debug, PartialEq, Eq)]
pub struct InferenceResult {
    pub keypoints: Vec<u32>,
}

/// `bincode::ErrorKind`, the error of bincode's functions. Nothing is
/// claimed of it: the library only tells it from success.
#[verifier::external_type_specification]
#[verifier::external_body]
pub struct ExBincodeErrorKind(bincode::ErrorKind);

/// The four bytes of `w`, least significant first.
pub open spec fn le32(w: u32) -> Seq<u8> {
    seq![
        (w % 0x100) as u8,
        (w / 0x100 % 0x100) as u8,
        (w / 0x1_0000 % 0x100) as u8,
        (w / 0x100_0000) as u8,
    ]
}

/// The number that the first four bytes of `b` spell, least significant
/// first.
pub open spec fn le32_value(b: Seq<u8>) -> int {
    b[0] as int + b[1] as int * 0x100 + b[2] as int * 0x1_0000 + b[3] as int * 0x100_0000
}

/// The eight bytes of `n`, least significant first.
pub open spec fn le64(n: u64) -> Seq<u8> {
    le32((n % 0x1_0000_0000) as u32) + le32((n / 0x1_0000_0000) as u32)
}

/// The number that the first eight bytes of `b` spell, least significant
/// first.
pub open spec fn le64_value(b: Seq<u8>) -> int {
    le32_value(b.subrange(0, 4)) + le32_value(b.subrange(4, 8)) * 0x1_0000_0000
}

/// The words of `words` one after the other, four bytes each, least
/// significant byte first.
pub open spec fn words_le(words: Seq<u32>) -> Seq<u8>
    decreases words.len(),
{
    if words.len() == 0 {
        Seq::empty()
    } else {
        words_le(words.drop_last()) + le32(words.last())
    }
}

/// The binary record of a sequence of words: their count as eight bytes,
/// least significant first, then the words.
pub open spec fn record_of(words: Seq<u32>) -> Seq<u8> {
    le64(words.len() as u64) + words_le(words)
}

/// The count that the first eight bytes of a record declare.
pub open spec fn declared_count(bytes: Seq<u8>) -> nat {
    le64_value(bytes.subrange(0, 8)) as nat
}

/// True if `bytes` starts with a whole record: a count and at least as
/// many words as it declares.
pub open spec fn holds_record(bytes: Seq<u8>) -> bool {
    bytes.len() >= 8 && 4 * declared_count(bytes) <= bytes.len() - 8
}

/// Word `i` of the record that `bytes` starts with.
pub open spec fn word_at(bytes: Seq<u8>, i: int) -> u32 {
    le32_value(bytes.subrange(8 + 4 * i, 12 + 4 * i)) as u32
}

/// The words of the record that `bytes` starts with.
pub open spec fn words_in(bytes: Seq<u8>) -> Seq<u32> {
    Seq::new(declared_count(bytes), |i: int| word_at(bytes, i))
}

/// Calls `bincode::serialize` on a vector of 32-bit words. With its fixed
/// configuration (fixed-width integers, little endian, no size limit)
/// bincode writes the length of the vector as a `u64` and then each word,
/// and cannot fail on a writer in memory.
#[verifier::external_body]
fn serialize_words(words: &Vec<u32>) -> (bytes: Vec<u8>)
    requires
        words@.len() == KEYPOINT_VALUES,
    ensures
        bytes@ == record_of(words@),
{
    bincode::serialize(words).expect("a vector of words serializes into memory")
}

/// Calls `bincode::deserialize` for a vector of 32-bit words. It reads the
/// count, then that many words, and ignores what follows them; it fails
/// exactly if the bytes end before the last declared word does.
#[verifier::external_body]
fn deserialize_words(bytes: &[u8]) -> (words: Result<Vec<u32>, Box<bincode::ErrorKind>>)
    ensures
        words is Ok <==> holds_record(bytes@),
        words matches Ok(w) ==> w@ == words_in(bytes@),
{
    bincode::deserialize::<Vec<u32>>(bytes)
}

/// The two frames of a result: keypoints first, image second.
pub open spec fn spec_encode_result(words: Seq<u32>, image: Seq<u8>) -> Seq<u8> {
    frame_of(record_of(words)) + frame_of(image)
}

/// The keypoints that a keypoint payload holds: the payload must start
/// with a whole record of exactly as many words as a result has.
pub open spec fn spec_parse_keypoints(payload: Seq<u8>) -> Option<Seq<u32>> {
    if holds_record(payload) && declared_count(payload) == KEYPOINT_VALUES {
        Some(words_in(payload))
    } else {
        None
    }
}

/// The result message that `bytes` starts with: the keypoints, the image
/// and the number of bytes taken. The keypoint frame is checked before
/// the image frame is looked at.
pub open spec fn spec_decode_result(bytes: Seq<u8>) -> Result<
    (Seq<u32>, Seq<u8>, nat),
    ProtocolError,
> {
    match spec_decode_frame(bytes) {
        None => Err(ProtocolError::Truncated),
        Some((payload, used)) => match spec_parse_keypoints(payload) {
            None => Err(ProtocolError::Malformed),
            Some(words) => match spec_decode_frame(
                bytes.subrange(used as int, bytes.len() as int),
            ) {
                None => Err(ProtocolError::Truncated),
                Some((image, more)) => Ok((words, image, used + more)),
            },
        },
    }
}

impl InferenceResult {
    /// True if the result holds exactly `KEYPOINT_VALUES` values.
    pub open spec fn wf(&self) -> bool {
        self.keypoints@.len() == KEYPOINT_VALUES
    }

    /// Makes a result of the values that the inference engine gave.
    /// `None` unless there are exactly `KEYPOINT_VALUES` of them.
    pub fn new(keypoints: Vec<u32>) -> (result: Option<InferenceResult>)
        ensures
            result is Some <==> keypoints@.len() == KEYPOINT_VALUES,
            result matches Some(r) ==> r.keypoints@ == keypoints@,
    {
        if keypoints.len() == KEYPOINT_VALUES {
            Some(InferenceResult { keypoints })
        } else {
            None
        }
    }

    /// The values `(y, x, confidence)` of keypoint `index`. `None` if the
    /// result has no such keypoint.
    pub fn keypoint(&self, index: usize) -> (triplet: Option<(u32, u32, u32)>)
        ensures
            triplet == if 3 * index + 2 < self.keypoints@.len() {
                Some(
                    (
                        self.keypoints@[3 * index],
                        self.keypoints@[3 * index + 1],
                        self.keypoints@[3 * index + 2],
                    ),
                )
            } else {
                None
            },
    {
        if index < self.keypoints.len() / 3 {
            Some(
                (
                    self.keypoints[3 * index],
                    self.keypoints[3 * index + 1],
                    self.keypoints[3 * index + 2],
                ),
            )
        } else {
            None
        }
    }
}

/// The payload of the keypoint frame. Fails exactly if the result does not
/// hold `KEYPOINT_VALUES` values.
pub fn keypoint_payload(result: &InferenceResult) -> (payload: Result<Vec<u8>, ProtocolError>)
    ensures
        match payload {
            Ok(bytes) => result.wf() && bytes@ == record_of(result.keypoints@),
            Err(e) => !result.wf() && e == ProtocolError::Malformed,
        },
{
    if result.keypoints.len() != KEYPOINT_VALUES {
        return Err(ProtocolError::Malformed);
    }
    Ok(serialize_words(&result.keypoints))
}

/// Reads the keypoints out of the payload of a keypoint frame. Fails
/// exactly if the payload does not start with a whole record of
/// `KEYPOINT_VALUES` words. Bytes behind the record are ignored.
pub fn parse_keypoints(payload: &[u8]) -> (result: Result<InferenceResult, ProtocolError>)
    ensures
        match result {
            Ok(r) => r.wf() && spec_parse_keypoints(payload@) == Some(r.keypoints@),
            Err(e) => spec_parse_keypoints(payload@) is None && e == ProtocolError::Malformed,
        },
{
    match deserialize_words(payload) {
        Ok(words) => match InferenceResult::new(words) {
            Some(result) => Ok(result),
            None => Err(ProtocolError::Malformed),
        },
        Err(_) => Err(ProtocolError::Malformed),
    }
}

/// Encodes a result as two framed messages in the fixed order: the
/// keypoints, then the image. Fails if the result does not hold
/// `KEYPOINT_VALUES` values, else if the image is longer than a length
/// prefix can say, and in no other case.
pub fn encode_result(result: &InferenceResult, image: &[u8]) -> (message: Result<
    Vec<u8>,
    ProtocolError,
>)
    ensures
        match message {
            Ok(bytes) => {
                &&& result.wf()
                &&& image@.len() <= u32::MAX
                &&& bytes@ == spec_encode_result(result.keypoints@, image@)
            },
            Err(e) => if !result.wf() {
                e == ProtocolError::Malformed
            } else {
                image@.len() > u32::MAX && e == ProtocolError::Oversized
            },
        },
{
    let payload: Vec<u8> = match keypoint_payload(result) {
        Ok(payload) => payload,
        Err(e) => {
            return Err(e);
        },
    };
    proof {
        lemma_record_length(result.keypoints@);
    }
    let mut message: Vec<u8> = match encode_frame(payload.as_slice()) {
        Ok(frame) => frame,
        Err(e) => {
            return Err(e);
        },
    };
    let mut second: Vec<u8> = match encode_frame(image) {
        Ok(frame) => frame,
        Err(e) => {
            return Err(e);
        },
    };
    message.append(&mut second);
    Ok(message)
}

/// Reads the result message that `bytes` starts with: the keypoints, the
/// image and the number of bytes taken.
pub fn decode_result(bytes: &[u8]) -> (message: Result<
    (InferenceResult, Vec<u8>, usize),
    ProtocolError,
>)
    ensures
        match message {
            Ok((result, image, used)) => {
                &&& result.wf()
                &&& spec_decode_result(bytes@) == Ok::<(Seq<u32>, Seq<u8>, nat), ProtocolError>(
                    (result.keypoints@, image@, used as nat),
                )
            },
            Err(e) => spec_decode_result(bytes@) == Err::<(Seq<u32>, Seq<u8>, nat), ProtocolError>(
                e,
            ),
        },
{
    let (payload, used) = match decode_frame(bytes) {
        Ok(frame) => frame,
        Err(e) => {
            return Err(e);
        },
    };
    let result: InferenceResult = match parse_keypoints(payload.as_slice()) {
        Ok(result) => result,
        Err(e) => {
            return Err(e);
        },
    };
    let rest: &[u8] = vstd::slice::slice_subrange(bytes, used, bytes.len());
    let (image, more) = match decode_frame(rest) {
        Ok(frame) => frame,
        Err(e) => {
            return Err(e);
        },
    };
    Ok((result, image, used + more))
}

/// Four bytes, least significant first, spell the number that they were
/// made from, and are the bytes of the number that they spell.
pub proof fn lemma_le32_round_trip(w: u32, b: Seq<u8>)
    requires
        b.len() == 4,
    ensures
        le32(w).len() == 4,
        le32_value(le32(w)) == w,
        0 <= le32_value(b) <= u32::MAX,
        le32(le32_value(b) as u32) == b,
{
    lemma_base_256_digits(b[3] as int, b[2] as int, b[1] as int, b[0] as int);
    let n = le32_value(b) as u32;
    assert(le32(n)[0] == b[0]);
    assert(le32(n)[1] == b[1]);
    assert(le32(n)[2] == b[2]);
    assert(le32(n)[3] == b[3]);
    assert(le32(n) =~= b);
}

/// Eight bytes, least significant first, spell the number that they were
/// made from.
pub proof fn lemma_le64_round_trip(n: u64)
    ensures
        le64(n).len() == 8,
        le64_value(le64(n)) == n,
{
    let low = (n % 0x1_0000_0000) as u32;
    let high = (n / 0x1_0000_0000) as u32;
    lemma_le32_round_trip(low, le32(low));
    lemma_le32_round_trip(high, le32(high));
    assert(le64(n).subrange(0, 4) =~= le32(low));
    assert(le64(n).subrange(4, 8) =~= le32(high));
}

/// A record is eight bytes longer than its words, which take four bytes
/// each.
pub proof fn lemma_record_length(words: Seq<u32>)
    ensures
        words_le(words).len() == 4 * words.len(),
        record_of(words).len() == 8 + 4 * words.len(),
    decreases words.len(),
{
    if words.len() > 0 {
        lemma_record_length(words.drop_last());
    }
}

proof fn lemma_words_le_at(words: Seq<u32>, i: int)
    requires
        0 <= i < words.len(),
    ensures
        words_le(words).len() == 4 * words.len(),
        words_le(words).subrange(4 * i, 4 * i + 4) == le32(words[i]),
    decreases words.len(),
{
    lemma_record_length(words);
    lemma_record_length(words.drop_last());
    let head = words_le(words.drop_last());
    let last = le32(words.last());
    if i == words.len() - 1 {
        assert((head + last).subrange(4 * i, 4 * i + 4) =~= last);
    } else {
        lemma_words_le_at(words.drop_last(), i);
        assert((head + last).subrange(4 * i, 4 * i + 4) =~= head.subrange(4 * i, 4 * i + 4));
    }
}

/// Reading a record gives back the words that it was written from,
/// whatever follows it.
pub proof fn lemma_record_round_trip(words: Seq<u32>, rest: Seq<u8>)
    requires
        words.len() <= u64::MAX,
    ensures
        holds_record(record_of(words) + rest),
        declared_count(record_of(words) + rest) == words.len(),
        words_in(record_of(words) + rest) == words,
{
    lemma_record_length(words);
    lemma_le64_round_trip(words.len() as u64);
    let count = le64(words.len() as u64);
    let bytes = record_of(words) + rest;
    assert(bytes.subrange(0, 8) =~= count);
    assert forall|i: int| 0 <= i < words.len() implies word_at(bytes, i) == words[i] by {
        lemma_words_le_at(words, i);
        assert(bytes.subrange(8 + 4 * i, 12 + 4 * i) =~= words_le(words).subrange(
            4 * i,
            4 * i + 4,
        ));
        lemma_le32_round_trip(words[i], le32(words[i]));
    }
    assert(words_in(bytes) =~= words);
}

/// Decoding an encoded result gives back the keypoints and the image,
/// whatever the image holds: nothing, one byte, or megabytes.
pub proof fn lemma_result_round_trip(words: Seq<u32>, image: Seq<u8>, rest: Seq<u8>)
    requires
        words.len() == KEYPOINT_VALUES,
        image.len() <= u32::MAX,
    ensures
        spec_decode_result(spec_encode_result(words, image) + rest) == Ok::<
            (Seq<u32>, Seq<u8>, nat),
            ProtocolError,
        >((words, image, spec_encode_result(words, image).len())),
{
    let record = record_of(words);
    lemma_record_length(words);
    lemma_record_round_trip(words, Seq::empty());
    assert(record + Seq::<u8>::empty() =~= record);
    let tail = frame_of(image) + rest;
    let bytes = spec_encode_result(words, image) + rest;
    assert(bytes =~= frame_of(record) + tail);
    lemma_frame_round_trip(record, tail);
    lemma_frame_round_trip(image, rest);
}

} // verus!
