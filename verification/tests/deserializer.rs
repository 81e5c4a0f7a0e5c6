//! Reading chunks of every format.

use byteorder::{BigEndian, LittleEndian, WriteBytesExt};
use rml_rtmp::chunk_io::{ChunkDeserializationError, ChunkDeserializer};
use rml_rtmp::time::RtmpTimestamp;
use std::io::{Cursor, Write};

const INITIAL_MAX_CHUNK_SIZE: usize = 128;
const MAX_INITIAL_TIMESTAMP: u32 = 16777215;
const CHUNK_SIZE_VALUE: usize = 2147483648;

#[test]
fn can_read_type_0_chunk_with_small_chunk_stream_id_and_small_timestamp() {
    let csid = 50;
    let timestamp = 25u32;
    let message_stream_id = 5u32;
    let type_id = 3;
    let payload = [1_u8, 2_u8, 3_u8];

    let bytes = form_type_0_chunk(
        csid,
        timestamp,
        message_stream_id,
        type_id,
        &payload,
        INITIAL_MAX_CHUNK_SIZE,
    );
    let mut deserializer = ChunkDeserializer::new();
    let result = deserializer.get_next_message(&bytes).unwrap().unwrap();

    assert_eq!(result.type_id, 3, "Incorrect type id");
    assert_eq!(
        result.timestamp,
        RtmpTimestamp::new(timestamp),
        "Incorrect timestamp"
    );
    assert_eq!(&result.data[..], &payload[..], "Incorrect data");
}

#[test]
fn can_read_type_0_chunk_with_medium_chunk_stream_id_and_small_timestamp() {
    let csid = 500;
    let timestamp = 25u32;
    let message_stream_id = 5u32;
    let type_id = 3;
    let payload = [1_u8, 2_u8, 3_u8];

    let bytes = form_type_0_chunk(
        csid,
        timestamp,
        message_stream_id,
        type_id,
        &payload,
        INITIAL_MAX_CHUNK_SIZE,
    );
    let mut deserializer = ChunkDeserializer::new();
    let result = deserializer.get_next_message(&bytes).unwrap().unwrap();

    assert_eq!(result.type_id, 3, "Incorrect type id");
    assert_eq!(
        result.timestamp,
        RtmpTimestamp::new(timestamp),
        "Incorrect timestamp"
    );
    assert_eq!(&result.data[..], &payload[..], "Incorrect data");
}

#[test]
fn can_read_type_0_chunk_with_large_chunk_stream_id_and_small_timestamp() {
    let csid = 50000;
    let timestamp = 25u32;
    let message_stream_id = 5u32;
    let type_id = 3;
    let payload = [1_u8, 2_u8, 3_u8];

    let bytes = form_type_0_chunk(
        csid,
        timestamp,
        message_stream_id,
        type_id,
        &payload,
        INITIAL_MAX_CHUNK_SIZE,
    );
    let mut deserializer = ChunkDeserializer::new();
    let result = deserializer.get_next_message(&bytes).unwrap().unwrap();

    assert_eq!(result.type_id, 3, "Incorrect type id");
    assert_eq!(
        result.timestamp,
        RtmpTimestamp::new(timestamp),
        "Incorrect timestamp"
    );
    assert_eq!(&result.data[..], &payload[..], "Incorrect data");
}

#[test]
fn can_read_type_0_chunk_with_small_chunk_stream_id_and_large_timestamp() {
    let csid = 50;
    let timestamp = 16777216u32;
    let message_stream_id = 5u32;
    let type_id = 3;
    let payload = [1_u8, 2_u8, 3_u8];

    let bytes = form_type_0_chunk(
        csid,
        timestamp,
        message_stream_id,
        type_id,
        &payload,
        INITIAL_MAX_CHUNK_SIZE,
    );
    let mut deserializer = ChunkDeserializer::new();
    let result = deserializer.get_next_message(&bytes).unwrap().unwrap();

    assert_eq!(result.type_id, 3, "Incorrect type id");
    assert_eq!(
        result.timestamp,
        RtmpTimestamp::new(timestamp),
        "Incorrect timestamp"
    );
    assert_eq!(&result.data[..], &payload[..], "Incorrect data");
}

#[test]
fn can_read_type_0_chunk_with_medium_chunk_stream_id_and_large_timestamp() {
    let csid = 500;
    let timestamp = 16777216u32;
    let message_stream_id = 5u32;
    let type_id = 3;
    let payload = [1_u8, 2_u8, 3_u8];

    let bytes = form_type_0_chunk(
        csid,
        timestamp,
        message_stream_id,
        type_id,
        &payload,
        INITIAL_MAX_CHUNK_SIZE,
    );
    let mut deserializer = ChunkDeserializer::new();
    let result = deserializer.get_next_message(&bytes).unwrap().unwrap();

    assert_eq!(result.type_id, 3, "Incorrect type id");
    assert_eq!(
        result.timestamp,
        RtmpTimestamp::new(timestamp),
        "Incorrect timestamp"
    );
    assert_eq!(&result.data[..], &payload[..], "Incorrect data");
}

#[test]
fn can_read_type_0_chunk_with_large_chunk_stream_id_and_large_timestamp() {
    let csid = 50000;
    let timestamp = 16777216u32;
    let message_stream_id = 5u32;
    let type_id = 3;
    let payload = [1_u8, 2_u8, 3_u8];

    let bytes = form_type_0_chunk(
        csid,
        timestamp,
        message_stream_id,
        type_id,
        &payload,
        INITIAL_MAX_CHUNK_SIZE,
    );
    let mut deserializer = ChunkDeserializer::new();
    let result = deserializer.get_next_message(&bytes).unwrap().unwrap();

    assert_eq!(result.type_id, 3, "Incorrect type id");
    assert_eq!(
        result.timestamp,
        RtmpTimestamp::new(timestamp),
        "Incorrect timestamp"
    );
    assert_eq!(&result.data[..], &payload[..], "Incorrect data");
}

#[test]
fn can_read_type_1_chunk_with_small_chunk_stream_id_and_small_timestamp() {
    let csid = 50;
    let timestamp = 25u32;
    let delta = 10_u32;
    let message_stream_id = 5u32;
    let type_id1 = 3;
    let type_id2 = 4;
    let payload = [1_u8, 2_u8, 3_u8];

    let chunk_0_bytes = form_type_0_chunk(
        csid,
        timestamp,
        message_stream_id,
        type_id1,
        &payload,
        INITIAL_MAX_CHUNK_SIZE,
    );
    let chunk_1_bytes = form_type_1_chunk(csid, delta, type_id2, &payload);
    let mut deserializer = ChunkDeserializer::new();
    let _ = deserializer
        .get_next_message(&chunk_0_bytes)
        .unwrap()
        .unwrap();
    let result = deserializer
        .get_next_message(&chunk_1_bytes)
        .unwrap()
        .unwrap();

    assert_eq!(result.type_id, type_id2, "Incorrect type id");
    assert_eq!(
        result.timestamp,
        RtmpTimestamp::new(timestamp + delta),
        "Incorrect timestamp"
    );
    assert_eq!(&result.data[..], &payload[..], "Incorrect data");
}

#[test]
fn can_read_type_2_chunk_with_small_chunk_stream_id_and_small_timestamp() {
    let csid = 50;
    let timestamp = 25u32;
    let delta1 = 10_u32;
    let delta2 = 11_u32;
    let message_stream_id = 5u32;
    let type_id1 = 3;
    let type_id2 = 4;
    let payload = [1_u8, 2_u8, 3_u8];

    let chunk_0_bytes = form_type_0_chunk(
        csid,
        timestamp,
        message_stream_id,
        type_id1,
        &payload,
        INITIAL_MAX_CHUNK_SIZE,
    );
    let chunk_1_bytes = form_type_1_chunk(csid, delta1, type_id2, &payload);
    let chunk_2_bytes = form_type_2_chunk(csid, delta2, &payload);
    let mut deserializer = ChunkDeserializer::new();
    let _ = deserializer
        .get_next_message(&chunk_0_bytes)
        .unwrap()
        .unwrap();
    let _ = deserializer
        .get_next_message(&chunk_1_bytes)
        .unwrap()
        .unwrap();
    let result = deserializer
        .get_next_message(&chunk_2_bytes)
        .unwrap()
        .unwrap();

    assert_eq!(result.type_id, type_id2, "Incorrect type id");
    assert_eq!(
        result.timestamp,
        RtmpTimestamp::new(timestamp + delta1 + delta2),
        "Incorrect timestamp"
    );
    assert_eq!(&result.data[..], &payload[..], "Incorrect data");
}

#[test]
fn can_read_type_2_chunk_with_small_chunk_stream_id_and_large_timestamp() {
    let csid = 50;
    let timestamp = 25u32;
    let delta1 = 10_u32;
    let delta2 = 16777216_u32;
    let message_stream_id = 5u32;
    let type_id1 = 3;
    let type_id2 = 4;
    let payload = [1_u8, 2_u8, 3_u8];

    let chunk_0_bytes = form_type_0_chunk(
        csid,
        timestamp,
        message_stream_id,
        type_id1,
        &payload,
        INITIAL_MAX_CHUNK_SIZE,
    );
    let chunk_1_bytes = form_type_1_chunk(csid, delta1, type_id2, &payload);
    let chunk_2_bytes = form_type_2_chunk(csid, delta2, &payload);
    let mut deserializer = ChunkDeserializer::new();
    let _ = deserializer
        .get_next_message(&chunk_0_bytes)
        .unwrap()
        .unwrap();
    let _ = deserializer
        .get_next_message(&chunk_1_bytes)
        .unwrap()
        .unwrap();
    let result = deserializer
        .get_next_message(&chunk_2_bytes)
        .unwrap()
        .unwrap();

    assert_eq!(result.type_id, type_id2, "Incorrect type id");
    assert_eq!(
        result.timestamp,
        RtmpTimestamp::new(timestamp + delta1 + delta2),
        "Incorrect timestamp"
    );
    assert_eq!(&result.data[..], &payload[..], "Incorrect data");
}

#[test]
fn can_read_type_3_chunk_with_small_chunk_stream_id_and_small_timestamp() {
    let csid = 50;
    let timestamp = 25u32;
    let delta1 = 10_u32;
    let delta2 = 11_u32;
    let message_stream_id = 5u32;
    let type_id1 = 3;
    let type_id2 = 4;
    let payload = [1_u8, 2_u8, 3_u8];

    let chunk_0_bytes = form_type_0_chunk(
        csid,
        timestamp,
        message_stream_id,
        type_id1,
        &payload,
        INITIAL_MAX_CHUNK_SIZE,
    );
    let chunk_1_bytes = form_type_1_chunk(csid, delta1, type_id2, &payload);
    let chunk_2_bytes = form_type_2_chunk(csid, delta2, &payload);
    let chunk_3_bytes = form_type_3_chunk(csid, &payload, INITIAL_MAX_CHUNK_SIZE, None);
    let mut deserializer = ChunkDeserializer::new();
    let _ = deserializer
        .get_next_message(&chunk_0_bytes)
        .unwrap()
        .unwrap();
    let _ = deserializer
        .get_next_message(&chunk_1_bytes)
        .unwrap()
        .unwrap();
    let _ = deserializer
        .get_next_message(&chunk_2_bytes)
        .unwrap()
        .unwrap();
    let result = deserializer
        .get_next_message(&chunk_3_bytes)
        .unwrap()
        .unwrap();

    assert_eq!(result.type_id, type_id2, "Incorrect type id");
    assert_eq!(
        result.timestamp,
        RtmpTimestamp::new(timestamp + delta1 + delta2 + delta2),
        "Incorrect timestamp"
    );
    assert_eq!(&result.data[..], &payload[..], "Incorrect data");
}

#[test]
fn can_read_type_3_chunk_with_small_chunk_stream_id_and_large_timestamp() {
    let csid = 50;
    let timestamp = 10_u32;
    let delta1 = 10_u32;
    let delta2 = 16777216_u32;
    let message_stream_id = 5u32;
    let type_id1 = 3;
    let type_id2 = 4;
    let payload = [1_u8, 2_u8, 3_u8];

    let chunk_0_bytes = form_type_0_chunk(
        csid,
        timestamp,
        message_stream_id,
        type_id1,
        &payload,
        INITIAL_MAX_CHUNK_SIZE,
    );
    let chunk_1_bytes = form_type_1_chunk(csid, delta1, type_id2, &payload);
    let chunk_2_bytes = form_type_2_chunk(csid, delta2, &payload);
    let chunk_3_bytes = form_type_3_chunk(csid, &payload, INITIAL_MAX_CHUNK_SIZE, Some(delta2));
    let mut deserializer = ChunkDeserializer::new();
    let _ = deserializer
        .get_next_message(&chunk_0_bytes)
        .unwrap()
        .unwrap();
    let _ = deserializer
        .get_next_message(&chunk_1_bytes)
        .unwrap()
        .unwrap();
    let _ = deserializer
        .get_next_message(&chunk_2_bytes)
        .unwrap()
        .unwrap();
    let result = deserializer
        .get_next_message(&chunk_3_bytes)
        .unwrap()
        .unwrap();

    assert_eq!(result.type_id, type_id2, "Incorrect type id");
    assert_eq!(
        result.timestamp,
        RtmpTimestamp::new(timestamp + delta1 + delta2 + delta2),
        "Incorrect timestamp"
    );
    assert_eq!(&result.data[..], &payload[..], "Incorrect data");
}

#[test]
fn can_read_message_spread_across_multiple_deserialization_calls() {
    let csid = 50;
    let timestamp = 25u32;
    let message_stream_id = 5u32;
    let type_id = 3;
    let payload = [1_u8, 2_u8, 3_u8];

    let all_bytes = form_type_0_chunk(
        csid,
        timestamp,
        message_stream_id,
        type_id,
        &payload,
        INITIAL_MAX_CHUNK_SIZE,
    );
    let (first, second) = all_bytes.split_at(all_bytes.len() / 2);
    let mut deserializer = ChunkDeserializer::new();
    match deserializer.get_next_message(first).unwrap() {
        Some(x) => panic!("Expected None but received {:?}", x),
        None => (),
    };

    let result = deserializer.get_next_message(second).unwrap().unwrap();

    assert_eq!(result.type_id, 3, "Incorrect type id");
    assert_eq!(
        result.timestamp,
        RtmpTimestamp::new(timestamp),
        "Incorrect timestamp"
    );
    assert_eq!(&result.data[..], &payload[..], "Incorrect data");
}

#[test]
fn can_read_message_exceeding_maximum_chunk_size() {
    let csid = 50;
    let timestamp = 25u32;
    let message_stream_id = 5u32;
    let type_id = 3;
    let payload = [100_u8; 500];
    let max_chunk_size = 100;

    let bytes = form_type_0_chunk(
        csid,
        timestamp,
        message_stream_id,
        type_id,
        &payload,
        max_chunk_size,
    );
    let mut deserializer = ChunkDeserializer::new();
    deserializer.set_max_chunk_size(max_chunk_size).unwrap();
    let result = deserializer.get_next_message(&bytes).unwrap().unwrap();

    assert_eq!(result.type_id, 3, "Incorrect type id");
    assert_eq!(
        result.timestamp,
        RtmpTimestamp::new(timestamp),
        "Incorrect timestamp"
    );
    assert_eq!(&result.data[..], &payload[..], "Incorrect data");
}

#[test]
fn error_when_setting_chunk_size_too_large() {
    let mut deserializer = ChunkDeserializer::new();
    match deserializer.set_max_chunk_size(CHUNK_SIZE_VALUE) {
        Err(ChunkDeserializationError::InvalidMaxChunkSize {
            chunk_size: CHUNK_SIZE_VALUE,
        }) => {} // success
        x => panic!("Unexpected set max chunk size result of {:?}", x),
    }
}

#[test]
fn type_2_chunk_that_exceeds_max_chunk_size_does_not_keep_applying_delta_to_timestamp() {
    // It was noticed that OBS does not totally conform to the RTMP specification.  It will
    // send a type 1 chunk with a time delta for a video packet, but will send the remaining
    // parts of that chunk with a type 3 header (even though the delta should not be applied).
    // this test verifies we can handle that.

    let chunk1 = [
        0x04, 0x00, 0x00, 0x00, 0x00, 0x00, 0x01, 0x09, 0x01, 0x00, 0x00, 0x00, 0x01,
    ];
    let chunk2 = [
        0x44, 0x00, 0x00, 0x21, 0x00, 0x00, 0x05, 0x09, 0x01, 0x02, 0x03, 0x04, 0xc4, 0x05,
    ];

    let mut deserializer = ChunkDeserializer::new();
    deserializer.set_max_chunk_size(4).unwrap();

    let payload1 = deserializer.get_next_message(&chunk1).unwrap().unwrap();
    assert_eq!(payload1.type_id, 0x09, "Incorrect payload 1 type");
    assert_eq!(
        payload1.timestamp,
        RtmpTimestamp::new(0),
        "Incorrect payload 1 timestamp"
    );
    assert_eq!(&payload1.data[..], &[0x01], "Incorrect payload 1 data");

    let payload2 = deserializer.get_next_message(&chunk2).unwrap().unwrap();
    assert_eq!(payload2.type_id, 0x09, "Incorrect payload 2 type");
    assert_eq!(
        payload2.timestamp,
        RtmpTimestamp::new(33),
        "Incorrect payload 2 timestamp"
    );
    assert_eq!(
        &payload2.data[..],
        &[0x01, 0x02, 0x03, 0x04, 0x05],
        "Incorrect payload 2 data"
    );
}

#[test]
fn can_read_type_3_chunk_that_follows_type_0_has_extended_timestamp() {
    let chunk1 = [
        0x06, 0xff, 0xff, 0xff, 0x00, 0x00, 0x07, 0x09, 0x01, 0x00, 0x00, 0x00, 0x01, 0xff,
        0xff, 0xff, 0x01, 0x02, 0x03, 0x04,
    ];
    let chunk2 = [0xc6, 0x01, 0xff, 0xff, 0xff, 0x05, 0x06, 0x07];
    let mut deserializer = ChunkDeserializer::new();
    deserializer.set_max_chunk_size(4).unwrap();
    let _ = deserializer.get_next_message(&chunk1).unwrap();
    let payload = deserializer.get_next_message(&chunk2).unwrap().unwrap();
    assert_eq!(payload.type_id, 0x09, "Incorrect payload type");
    assert_eq!(
        payload.timestamp,
        RtmpTimestamp::new(0x1ffffff),
        "Incorrect payload timestamp"
    );
    assert_eq!(
        &payload.data[..],
        &[0x01, 0x02, 0x03, 0x04, 0x05, 0x06, 0x07],
        "Incorrect payload data"
    );
}

#[test]
fn can_handle_interleaved_chunks_from_different_csids() {
    // This test verifies that interleaved chunks from different chunk streams
    // don't corrupt each other's payload data. This is the root cause fix for
    // the RTMP desync issue where audio (csid 4) and video (csid 6) chunks
    // would get their payloads mixed when interleaved.
    let type_id_audio = 8u8;
    let type_id_video = 9u8;
    let audio_payload = [0xAA, 0xAA, 0xAA, 0xAA, 0xAA, 0xAA, 0xAA, 0xAA]; // 8 bytes
    let video_payload = [0xBB, 0xBB, 0xBB, 0xBB, 0xBB, 0xBB, 0xBB, 0xBB]; // 8 bytes
    let max_chunk_size = 4usize;

    // Build chunks manually:
    // Type 0 header: 1 byte basic header + 3 timestamp + 3 msg_len + 1 type_id + 4 stream_id = 12 bytes

    // csid 4 first chunk (type 0, first 4 bytes of audio)
    let csid4_chunk1: Vec<u8> = vec![
        0x04,                   // fmt=0, csid=4
        0x00, 0x00, 0x64,       // timestamp=100
        0x00, 0x00, 0x08,       // message_length=8
        type_id_audio,          // type_id=8
        0x01, 0x00, 0x00, 0x00, // message_stream_id=1 (little endian)
        0xAA, 0xAA, 0xAA, 0xAA, // first 4 bytes of payload
    ];

    // csid 6 first chunk (type 0, first 4 bytes of video) - INTERLEAVED
    let csid6_chunk1: Vec<u8> = vec![
        0x06,                   // fmt=0, csid=6
        0x00, 0x00, 0x64,       // timestamp=100
        0x00, 0x00, 0x08,       // message_length=8
        type_id_video,          // type_id=9
        0x01, 0x00, 0x00, 0x00, // message_stream_id=1 (little endian)
        0xBB, 0xBB, 0xBB, 0xBB, // first 4 bytes of payload
    ];

    // csid 4 continuation chunk (type 3, remaining 4 bytes of audio)
    let csid4_chunk2: Vec<u8> = vec![
        0xC4,                   // fmt=3, csid=4
        0xAA, 0xAA, 0xAA, 0xAA, // remaining 4 bytes of payload
    ];

    // csid 6 continuation chunk (type 3, remaining 4 bytes of video)
    let csid6_chunk2: Vec<u8> = vec![
        0xC6,                   // fmt=3, csid=6
        0xBB, 0xBB, 0xBB, 0xBB, // remaining 4 bytes of payload
    ];

    let mut deserializer = ChunkDeserializer::new();
    deserializer.set_max_chunk_size(max_chunk_size).unwrap();

    // Feed interleaved chunks: audio1 -> video1 -> audio2 -> video2
    // This is the pattern that caused the bug - payloads would get mixed

    // Process csid 4 first chunk - should return None (incomplete)
    let result1 = deserializer.get_next_message(&csid4_chunk1).unwrap();
    assert!(result1.is_none(), "Audio chunk 1 should not complete message");

    // Process csid 6 first chunk (interleaved) - should return None (incomplete)
    let result2 = deserializer.get_next_message(&csid6_chunk1).unwrap();
    assert!(result2.is_none(), "Video chunk 1 should not complete message");

    // Process csid 4 continuation - should complete audio message
    let audio_msg = deserializer.get_next_message(&csid4_chunk2).unwrap();
    assert!(audio_msg.is_some(), "Audio message should be complete");
    let audio_msg = audio_msg.unwrap();
    assert_eq!(audio_msg.type_id, type_id_audio, "Audio type_id mismatch");
    assert_eq!(&audio_msg.data[..], &audio_payload[..], "Audio payload corrupted by interleaving");

    // Process csid 6 continuation - should complete video message
    let video_msg = deserializer.get_next_message(&csid6_chunk2).unwrap();
    assert!(video_msg.is_some(), "Video message should be complete");
    let video_msg = video_msg.unwrap();
    assert_eq!(video_msg.type_id, type_id_video, "Video type_id mismatch");
    assert_eq!(&video_msg.data[..], &video_payload[..], "Video payload corrupted by interleaving");
}

fn form_type_0_chunk(
    csid: u32,
    timestamp: u32,
    message_stream_id: u32,
    type_id: u8,
    payload: &[u8],
    max_chunk_length: usize,
) -> Vec<u8> {
    let mut cursor = Cursor::new(Vec::new());
    if csid < 64 {
        cursor.write_u8(csid as u8).unwrap();
    } else if csid < 319 {
        cursor.write_u8(0_u8).unwrap();
        cursor.write_u8((csid - 64) as u8).unwrap();
    } else {
        cursor.write_u8(1_u8).unwrap();
        cursor.write_u16::<BigEndian>((csid - 64) as u16).unwrap();
    }

    let standard_timestamp = if timestamp >= 16777215 {
        16777215
    } else {
        timestamp
    };
    cursor.write_u24::<BigEndian>(standard_timestamp).unwrap();
    cursor.write_u24::<BigEndian>(payload.len() as u32).unwrap();
    cursor.write_u8(type_id).unwrap();
    cursor.write_u32::<LittleEndian>(message_stream_id).unwrap();

    let mut option_extended_timestamp = None;
    if timestamp > 16777215 {
        cursor.write_u32::<BigEndian>(timestamp).unwrap();
        option_extended_timestamp = Some(timestamp);
    }

    // If the payload is over max_chunk_length, assume we want to form a split message
    // and therefore need to only write the max chunk amount of the payload in this request
    // and append a type 3 chunk with the rest
    if payload.len() > max_chunk_length {
        cursor.write(&payload[..max_chunk_length]).unwrap();

        let next_chunk = form_type_3_chunk(
            csid,
            &payload[max_chunk_length..],
            max_chunk_length,
            option_extended_timestamp,
        );
        cursor.write(&next_chunk).unwrap();
    } else {
        cursor.write(payload).unwrap();
    }

    cursor.into_inner()
}

fn form_type_1_chunk(csid: u32, delta: u32, type_id: u8, payload: &[u8]) -> Vec<u8> {
    let mut cursor = Cursor::new(Vec::new());
    if csid < 64 {
        cursor.write_u8((csid as u8) | 0b01000000).unwrap();
    } else if csid < 319 {
        cursor.write_u8(0_u8 | 0b01000000).unwrap();
        cursor.write_u8((csid - 64) as u8).unwrap();
    } else {
        cursor.write_u8(1_u8 | 0b01000000).unwrap();
        cursor.write_u16::<BigEndian>((csid - 64) as u16).unwrap();
    }

    let standard_timestamp = if delta >= 16777215 { 16777215 } else { delta };
    cursor.write_u24::<BigEndian>(standard_timestamp).unwrap();
    cursor.write_u24::<BigEndian>(payload.len() as u32).unwrap();
    cursor.write_u8(type_id).unwrap();

    if delta > 16777215 {
        cursor.write_u32::<BigEndian>(delta).unwrap();
    }

    cursor.write(payload).unwrap();

    cursor.into_inner()
}

fn form_type_2_chunk(csid: u32, delta: u32, payload: &[u8]) -> Vec<u8> {
    let mut cursor = Cursor::new(Vec::new());
    if csid < 64 {
        cursor.write_u8((csid as u8) | 0b10000000).unwrap();
    } else if csid < 319 {
        cursor.write_u8(0_u8 | 0b10000000).unwrap();
        cursor.write_u8((csid - 64) as u8).unwrap();
    } else {
        cursor.write_u8(1_u8 | 0b10000000).unwrap();
        cursor.write_u16::<BigEndian>((csid - 64) as u16).unwrap();
    }

    let standard_timestamp = if delta >= 16777215 { 16777215 } else { delta };
    cursor.write_u24::<BigEndian>(standard_timestamp).unwrap();

    if delta > 16777215 {
        cursor.write_u32::<BigEndian>(delta).unwrap();
    }

    cursor.write(payload).unwrap();

    cursor.into_inner()
}

fn form_type_3_chunk(
    csid: u32,
    payload: &[u8],
    max_chunk_length: usize,
    option_extended_timestamp: Option<u32>,
) -> Vec<u8> {
    let mut cursor = Cursor::new(Vec::new());
    if csid < 64 {
        cursor.write_u8((csid as u8) | 0b11000000).unwrap();
    } else if csid < 319 {
        cursor.write_u8(0_u8 | 0b11000000).unwrap();
        cursor.write_u8((csid - 64) as u8).unwrap();
    } else {
        cursor.write_u8(1_u8 | 0b11000000).unwrap();
        cursor.write_u16::<BigEndian>((csid - 64) as u16).unwrap();
    }

    if option_extended_timestamp != None {
        assert_eq!(
            option_extended_timestamp.unwrap() >= MAX_INITIAL_TIMESTAMP,
            true,
            "timestamp was less than 0xffffff"
        );
        cursor
            .write_u32::<BigEndian>(option_extended_timestamp.unwrap())
            .unwrap();
    }

    // If the payload is over max_chunk_length, assume we want to form a split message
    // and therefore need to only write the max chunk amount of the payload in this request
    // and append a type 3 chunk with the rest
    if payload.len() > max_chunk_length {
        cursor.write(&payload[..max_chunk_length]).unwrap();

        let next_chunk = form_type_3_chunk(
            csid,
            &payload[max_chunk_length..],
            max_chunk_length,
            option_extended_timestamp,
        );
        cursor.write(&next_chunk).unwrap();
    } else {
        cursor.write(payload).unwrap();
    }

    cursor.into_inner()
}
