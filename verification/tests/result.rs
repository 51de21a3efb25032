use movenet_stream::result::{
    decode_result, encode_result, keypoint_payload, parse_keypoints, InferenceResult,
    KEYPOINTS, KEYPOINT_VALUES,
};
use movenet_stream::wire::ProtocolError;

fn sample_values() -> Vec<f32> {
    let mut values: Vec<f32> = Vec::new();
    let mut i: usize = 0;
    while i < KEYPOINT_VALUES {
        values.push(i as f32 / 64.0 - 0.125);
        i += 1;
    }
    values
}

fn bits_of(values: &[f32]) -> Vec<u32> {
    values.iter().map(|v| v.to_bits()).collect()
}

fn sample_result() -> InferenceResult {
    InferenceResult::new(bits_of(&sample_values())).unwrap()
}

fn record_by_hand(words: &[u32]) -> Vec<u8> {
    let mut bytes: Vec<u8> = Vec::new();
    bytes.extend_from_slice(&(words.len() as u64).to_le_bytes());
    for w in words {
        bytes.extend_from_slice(&w.to_le_bytes());
    }
    bytes
}

#[test]
fn a_result_has_seventeen_triplets() {
    assert_eq!(KEYPOINTS, 17);
    assert_eq!(KEYPOINT_VALUES, 51);
    assert!(InferenceResult::new(vec![0; 51]).is_some());
    assert_eq!(InferenceResult::new(vec![0; 50]), None);
    assert_eq!(InferenceResult::new(vec![0; 52]), None);
    assert_eq!(InferenceResult::new(Vec::new()), None);
}

#[test]
fn keypoint_gives_y_x_confidence() {
    let mut bits: Vec<u32> = Vec::new();
    let mut i: u32 = 0;
    while i < 51 {
        bits.push(1000 + i);
        i += 1;
    }
    let result: InferenceResult = InferenceResult::new(bits).unwrap();
    assert_eq!(result.keypoint(0), Some((1000, 1001, 1002)));
    assert_eq!(result.keypoint(16), Some((1048, 1049, 1050)));
    assert_eq!(result.keypoint(17), None);
    let short: InferenceResult = InferenceResult { keypoints: vec![1, 2, 3, 4, 5] };
    assert_eq!(short.keypoint(0), Some((1, 2, 3)));
    assert_eq!(short.keypoint(1), None);
}

#[test]
fn keypoint_payload_is_count_then_little_endian_words() {
    let result: InferenceResult = sample_result();
    let payload: Vec<u8> = keypoint_payload(&result).unwrap();
    assert_eq!(payload.len(), 8 + 4 * 51);
    assert_eq!(&payload[..8], &[51, 0, 0, 0, 0, 0, 0, 0]);
    assert_eq!(payload, record_by_hand(&result.keypoints));
    // 0.5 is 0x3F000000 and stands at index 40: 40 / 64 - 0.125.
    assert_eq!(result.keypoints[40], 0x3F00_0000);
    assert_eq!(&payload[8 + 160..8 + 164], &[0x00, 0x00, 0x00, 0x3F]);
}

#[test]
fn keypoint_payload_is_what_bincode_makes_of_the_floats() {
    let values: Vec<f32> = sample_values();
    let result: InferenceResult = InferenceResult::new(bits_of(&values)).unwrap();
    assert_eq!(keypoint_payload(&result).unwrap(), bincode::serialize(&values).unwrap());
}

#[test]
fn keypoint_payload_needs_a_whole_result() {
    let short: InferenceResult = InferenceResult { keypoints: vec![0; 3] };
    assert_eq!(keypoint_payload(&short), Err(ProtocolError::Malformed));
    assert_eq!(encode_result(&short, &[1, 2, 3]), Err(ProtocolError::Malformed));
}

#[test]
fn parse_keypoints_reads_what_was_written() {
    let result: InferenceResult = sample_result();
    let payload: Vec<u8> = keypoint_payload(&result).unwrap();
    assert_eq!(parse_keypoints(&payload), Ok(result));
}

#[test]
fn parse_keypoints_reads_what_bincode_wrote_of_floats() {
    let values: Vec<f32> = sample_values();
    let parsed: InferenceResult = parse_keypoints(&bincode::serialize(&values).unwrap()).unwrap();
    let back: Vec<f32> = parsed.keypoints.iter().map(|b| f32::from_bits(*b)).collect();
    assert_eq!(back, values);
}

#[test]
fn parse_keypoints_ignores_what_follows_the_record() {
    let result: InferenceResult = sample_result();
    let mut payload: Vec<u8> = keypoint_payload(&result).unwrap();
    payload.extend_from_slice(&[9, 9, 9]);
    assert_eq!(parse_keypoints(&payload), Ok(result));
}

#[test]
fn parse_keypoints_refuses_other_records() {
    assert_eq!(parse_keypoints(&[]), Err(ProtocolError::Malformed));
    assert_eq!(parse_keypoints(&[51, 0, 0, 0, 0, 0, 0]), Err(ProtocolError::Malformed));
    assert_eq!(parse_keypoints(&record_by_hand(&[7; 50])), Err(ProtocolError::Malformed));
    assert_eq!(parse_keypoints(&record_by_hand(&[7; 52])), Err(ProtocolError::Malformed));
    assert_eq!(parse_keypoints(&record_by_hand(&[])), Err(ProtocolError::Malformed));
    let mut cut: Vec<u8> = record_by_hand(&[7; 51]);
    cut.pop();
    assert_eq!(parse_keypoints(&cut), Err(ProtocolError::Malformed));
    let mut huge: Vec<u8> = vec![255; 8];
    huge.extend_from_slice(&[0; 204]);
    assert_eq!(parse_keypoints(&huge), Err(ProtocolError::Malformed));
    // 100 bytes of garbage
    assert_eq!(parse_keypoints(&[0xA5; 100]), Err(ProtocolError::Malformed));
}

#[test]
fn result_message_is_two_frames_in_fixed_order() {
    let result: InferenceResult = sample_result();
    let message: Vec<u8> = encode_result(&result, &[1, 2, 3]).unwrap();
    let mut expected: Vec<u8> = vec![0, 0, 0, 212];
    expected.extend_from_slice(&record_by_hand(&result.keypoints));
    expected.extend_from_slice(&[0, 0, 0, 3, 1, 2, 3]);
    assert_eq!(message, expected);
}

#[test]
fn result_round_trip_with_an_empty_image() {
    let result: InferenceResult = sample_result();
    let message: Vec<u8> = encode_result(&result, &[]).unwrap();
    assert_eq!(message.len(), 4 + 212 + 4);
    assert_eq!(decode_result(&message), Ok((result, Vec::new(), 220)));
}

#[test]
fn result_round_trip_with_an_image_of_one_byte() {
    let result: InferenceResult = sample_result();
    let message: Vec<u8> = encode_result(&result, &[0x5A]).unwrap();
    assert_eq!(decode_result(&message), Ok((result, vec![0x5A], 221)));
}

#[test]
fn result_round_trip_with_an_image_of_ten_megabytes() {
    let result: InferenceResult = sample_result();
    let mut image: Vec<u8> = Vec::with_capacity(10 * 1024 * 1024);
    let mut i: usize = 0;
    while i < 10 * 1024 * 1024 {
        image.push((i % 251) as u8);
        i += 1;
    }
    let message: Vec<u8> = encode_result(&result, &image).unwrap();
    let (back, picture, used): (InferenceResult, Vec<u8>, usize) =
        decode_result(&message).unwrap();
    assert_eq!(used, message.len());
    assert_eq!(back, result);
    assert!(picture == image);
}

#[test]
fn special_float_values_survive_the_wire() {
    let mut values: Vec<f32> = vec![0.0; 51];
    values[0] = f32::NAN;
    values[1] = f32::INFINITY;
    values[2] = -0.0;
    values[3] = f32::MIN_POSITIVE;
    values[4] = -1.5;
    let bits: Vec<u32> = bits_of(&values);
    let result: InferenceResult = InferenceResult::new(bits.clone()).unwrap();
    let (back, _, _): (InferenceResult, Vec<u8>, usize) =
        decode_result(&encode_result(&result, &[]).unwrap()).unwrap();
    assert_eq!(back.keypoints, bits);
}

#[test]
fn decode_result_tells_what_is_wrong() {
    let result: InferenceResult = sample_result();
    let message: Vec<u8> = encode_result(&result, &[1, 2, 3]).unwrap();
    assert_eq!(decode_result(&[]), Err(ProtocolError::Truncated));
    assert_eq!(decode_result(&message[..100]), Err(ProtocolError::Truncated));
    assert_eq!(decode_result(&message[..216]), Err(ProtocolError::Truncated));
    assert_eq!(decode_result(&message[..222]), Err(ProtocolError::Truncated));
    assert_eq!(decode_result(&[0, 0, 0, 2, 1, 2, 0, 0, 0, 0]), Err(ProtocolError::Malformed));
    // The keypoint frame is judged before the image frame is looked at.
    assert_eq!(decode_result(&[0, 0, 0, 2, 1, 2]), Err(ProtocolError::Malformed));
    let mut longer: Vec<u8> = message.clone();
    longer.extend_from_slice(&[7, 7]);
    assert_eq!(decode_result(&longer), Ok((result, vec![1, 2, 3], 223)));
}
