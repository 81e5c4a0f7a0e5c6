//! Whole connections: several messages, several chunk streams, and what goes wrong.

use bytes::Bytes;
use rml_rtmp::chunk_io::{
    get_csid, get_format, ChunkDeserializationError, ChunkDeserializer, ChunkHeader,
    ChunkHeaderFormat, ParsedValue,
};
use rml_rtmp::messages::MessagePayload;
use rml_rtmp::sessions::server::{ActiveStream, PublishMode, StreamState};
use rml_rtmp::time::RtmpTimestamp;

fn payload(time: u32, type_id: u8, stream: u32, data: &[u8]) -> MessagePayload {
    MessagePayload {
        timestamp: RtmpTimestamp::new(time),
        type_id,
        message_stream_id: stream,
        data: Bytes::copy_from_slice(data),
    }
}

/// A full header on chunk stream 4, type 15, message stream 1.
fn full(time: u32, data: &[u8]) -> Vec<u8> {
    let mut bytes = vec![0x04];
    bytes.extend_from_slice(&time.to_be_bytes()[1..]);
    bytes.extend_from_slice(&(data.len() as u32).to_be_bytes()[1..]);
    bytes.extend_from_slice(&[15, 1, 0, 0, 0]);
    bytes.extend_from_slice(data);
    bytes
}

fn drain(deserializer: &mut ChunkDeserializer, bytes: &[u8]) -> Vec<MessagePayload> {
    let mut messages = Vec::new();
    let mut next = deserializer.get_next_message(bytes).unwrap();
    while let Some(message) = next {
        messages.push(message);
        next = deserializer.get_next_message(&[]).unwrap();
    }
    messages
}

#[test]
fn several_messages_come_one_per_call() {
    let mut bytes = full(55, &[1, 2, 3, 4, 5, 6]);
    bytes.extend_from_slice(&[0x44, 0, 0, 10, 0, 0, 3, 15, 8, 9, 10]);
    bytes.extend_from_slice(&[0xc4, 1, 2, 3]);

    let mut deserializer = ChunkDeserializer::new();
    let message1 = deserializer.get_next_message(&bytes).unwrap();
    let message2 = deserializer.get_next_message(&[]).unwrap();
    let message3 = deserializer.get_next_message(&[]).unwrap();
    let message4 = deserializer.get_next_message(&[]).unwrap();

    assert_eq!(message1, Some(payload(55, 15, 1, &[1, 2, 3, 4, 5, 6])));
    assert_eq!(message2, Some(payload(65, 15, 1, &[8, 9, 10])));
    assert_eq!(message3, Some(payload(75, 15, 1, &[1, 2, 3])));
    assert_eq!(message4, None);
}

#[test]
fn waiting_changes_nothing() {
    let bytes = full(7, &[1, 2, 3]);
    let mut deserializer = ChunkDeserializer::new();
    assert_eq!(deserializer.get_next_message(&bytes[..9]).unwrap(), None);
    assert_eq!(deserializer.get_next_message(&[]).unwrap(), None);
    assert_eq!(deserializer.get_next_message(&[]).unwrap(), None);
    assert_eq!(
        deserializer.get_next_message(&bytes[9..]).unwrap(),
        Some(payload(7, 15, 1, &[1, 2, 3]))
    );
}

#[test]
fn portions_do_not_matter() {
    let mut bytes = full(1000, &[5; 300]);
    // Chunks after the first, at 128 bytes of data each.
    bytes.insert(12 + 256, 0xc4);
    bytes.insert(12 + 128, 0xc4);
    // A chunk stream that takes two bytes to name, with an extended timestamp.
    bytes.extend_from_slice(&[
        0x00, 0x24, 0xff, 0xff, 0xff, 0, 0, 2, 8, 3, 0, 0, 0, 2, 0, 0, 1, 0xaa, 0xbb,
    ]);
    let expected = vec![
        payload(1000, 15, 1, &[5; 300]),
        payload(0x0200_0001, 8, 3, &[0xaa, 0xbb]),
    ];

    let mut at_once = ChunkDeserializer::new();
    assert_eq!(drain(&mut at_once, &bytes), expected);

    for size in 1..20 {
        let mut deserializer = ChunkDeserializer::new();
        let mut messages = Vec::new();
        for portion in bytes.chunks(size) {
            messages.append(&mut drain(&mut deserializer, portion));
        }
        assert_eq!(messages, expected);
    }
}

#[test]
fn time_starts_over() {
    let mut deserializer = ChunkDeserializer::new();
    let bytes = [
        0x04, 0xff, 0xff, 0xff, 0, 0, 0, 15, 1, 0, 0, 0, 0xff, 0xff, 0xff, 0xfe, // full
        0x84, 0, 0, 3, // three milliseconds later
    ];
    assert_eq!(
        drain(&mut deserializer, &bytes),
        vec![payload(0xffff_fffe, 15, 1, &[]), payload(1, 15, 1, &[])]
    );
}

#[test]
fn extended_difference_may_be_small() {
    let mut deserializer = ChunkDeserializer::new();
    let bytes = [
        0x04, 0, 0, 100, 0, 0, 0, 15, 1, 0, 0, 0, // full
        0x84, 0xff, 0xff, 0xff, 0, 0, 0, 5, // five milliseconds later
    ];
    assert_eq!(
        drain(&mut deserializer, &bytes),
        vec![payload(100, 15, 1, &[]), payload(105, 15, 1, &[])]
    );
}

#[test]
fn small_times_may_be_written_in_32_bits() {
    let of_four: [&[u8]; 3] = [
        &[0x04, 0xff, 0xff, 0xff, 0, 0, 3, 8, 1, 0, 0, 0, 0, 0, 0, 9, 1, 2], // full, at 9
        &[0xc4, 0, 0, 0, 9, 3],                                            // its end
        &[0x84, 0xff, 0xff, 0xff, 0, 0, 0, 5, 4, 5],                       // 5 later
    ];
    let of_six: [&[u8]; 2] = [
        &[0x46, 0xff, 0xff, 0xff, 0, 0, 3, 9, 0, 0, 0, 2, 11, 12], // no predecessor, at 2
        &[0xc6, 0, 0, 0, 2, 13],
    ];
    let last: &[u8] = &[0xc4, 0, 0, 0, 5, 6];
    let six = payload(2, 9, 0, &[11, 12, 13]);

    let mut alone = ChunkDeserializer::new();
    alone.set_max_chunk_size(2).unwrap();
    assert_eq!(
        drain(&mut alone, &[of_four[0], of_four[1], of_four[2], last].concat()),
        vec![payload(9, 8, 1, &[1, 2, 3]), payload(14, 8, 1, &[4, 5, 6])]
    );

    let mut mixed = ChunkDeserializer::new();
    mixed.set_max_chunk_size(2).unwrap();
    assert_eq!(
        drain(
            &mut mixed,
            &[of_four[0], of_six[0], of_four[1], of_four[2], of_six[1], last].concat()
        ),
        vec![payload(9, 8, 1, &[1, 2, 3]), six, payload(14, 8, 1, &[4, 5, 6])]
    );
}

#[test]
fn extended_difference_counts_once() {
    let mut deserializer = ChunkDeserializer::new();
    let bytes = [
        0x04, 0, 0, 100, 0, 0, 0, 15, 1, 0, 0, 0, // full
        0x84, 0xff, 0xff, 0xff, 1, 0, 0, 0, // 0x0100_0000 milliseconds later
    ];
    assert_eq!(
        drain(&mut deserializer, &bytes),
        vec![payload(100, 15, 1, &[]), payload(0x0100_0064, 15, 1, &[])]
    );
}

#[test]
fn difference_in_the_middle_of_a_message_counts_with_24_bits() {
    let mut deserializer = ChunkDeserializer::new();
    deserializer.set_max_chunk_size(1).unwrap();
    let bytes = [
        0x04, 0, 0, 1, 0, 0, 2, 15, 1, 0, 0, 0, 0xaa, // full, one byte of two
        0x84, 0xff, 0xff, 0xff, 1, 0, 0, 0, 0xbb, // the other byte
    ];
    assert_eq!(
        drain(&mut deserializer, &bytes),
        vec![payload(0x0100_0000, 15, 1, &[0xaa, 0xbb])]
    );
}

#[test]
fn chunk_size_may_change_between_messages() {
    let mut deserializer = ChunkDeserializer::new();
    deserializer.set_max_chunk_size(2).unwrap();
    assert_eq!(deserializer.get_max_chunk_size(), 2);
    let mut bytes = full(1, &[1, 2]);
    bytes.extend_from_slice(&full(2, &[3, 4, 5, 6]));
    assert_eq!(
        deserializer.get_next_message(&bytes).unwrap(),
        Some(payload(1, 15, 1, &[1, 2]))
    );
    deserializer.set_max_chunk_size(4).unwrap();
    assert_eq!(
        deserializer.get_next_message(&[]).unwrap(),
        Some(payload(2, 15, 1, &[3, 4, 5, 6]))
    );
}

#[test]
fn reading_keeps_the_chunk_size() {
    let mut deserializer = ChunkDeserializer::new();
    // A message that announces another chunk size is only passed on.
    let bytes = [0x02, 0, 0, 0, 0, 0, 4, 1, 0, 0, 0, 0, 0, 0, 16, 0];
    assert_eq!(
        deserializer.get_next_message(&bytes).unwrap(),
        Some(payload(0, 1, 0, &[0, 0, 16, 0]))
    );
    assert_eq!(deserializer.get_max_chunk_size(), 128);
    assert_eq!(deserializer.get_next_message(&[0x02, 0, 0]).unwrap(), None);
    assert_eq!(deserializer.get_max_chunk_size(), 128);
}

#[test]
fn later_bytes_wait() {
    let first = full(1, &[1, 2]);
    let second = full(2, &[3, 4, 5]);
    let mut one_by_one = ChunkDeserializer::new();
    let mut at_once = ChunkDeserializer::new();
    one_by_one.set_max_chunk_size(2).unwrap();
    at_once.set_max_chunk_size(2).unwrap();
    let message = one_by_one.get_next_message(&first).unwrap();
    assert_eq!(message, Some(payload(1, 15, 1, &[1, 2])));
    assert_eq!(at_once.get_next_message(&[first, second.clone()].concat()).unwrap(), message);

    one_by_one.set_max_chunk_size(3).unwrap();
    at_once.set_max_chunk_size(3).unwrap();
    let message = one_by_one.get_next_message(&second).unwrap();
    assert_eq!(message, Some(payload(2, 15, 1, &[3, 4, 5])));
    assert_eq!(at_once.get_next_message(&[]).unwrap(), message);
}

#[test]
fn refused_chunk_size_changes_nothing() {
    let mut deserializer = ChunkDeserializer::new();
    assert_eq!(deserializer.get_max_chunk_size(), 128);
    assert!(deserializer.set_max_chunk_size(2147483647).is_ok());
    assert!(deserializer.set_max_chunk_size(2147483648).is_err());
    assert_eq!(deserializer.get_max_chunk_size(), 2147483647);
}

#[test]
fn chunks_without_data_still_end() {
    let mut deserializer = ChunkDeserializer::new();
    deserializer.set_max_chunk_size(0).unwrap();
    let bytes = [0x04, 0, 0, 1, 0, 0, 2, 15, 1, 0, 0, 0, 0xc4, 0xc4];
    assert_eq!(deserializer.get_next_message(&bytes).unwrap(), None);
    deserializer.set_max_chunk_size(2).unwrap();
    assert_eq!(
        deserializer.get_next_message(&[0xc4, 7, 8]).unwrap(),
        // No data came before, so each empty header has begun the message again.
        Some(payload(4, 15, 1, &[7, 8]))
    );
}

#[test]
fn data_that_exceeds_its_message_is_dropped() {
    let mut deserializer = ChunkDeserializer::new();
    deserializer.set_max_chunk_size(4).unwrap();
    let bytes = [
        0x04, 0, 0, 1, 0, 0, 8, 15, 1, 0, 0, 0, 1, 2, 3, 4, // four bytes of eight
        0x44, 0, 0, 0, 0, 0, 2, 15, // but the message has only two
        0xc4, 9, 10,
    ];
    assert_eq!(
        drain(&mut deserializer, &bytes),
        vec![payload(1, 15, 1, &[9, 10])]
    );
}

#[test]
fn data_that_fills_a_shortened_message_completes_it() {
    let mut deserializer = ChunkDeserializer::new();
    deserializer.set_max_chunk_size(4).unwrap();
    let bytes = [
        0x04, 0, 0, 1, 0, 0, 8, 15, 1, 0, 0, 0, 1, 2, 3, 4, // four bytes of eight
        0x44, 0, 0, 0, 0, 0, 4, 15, // but the message has only four
    ];
    assert_eq!(
        drain(&mut deserializer, &bytes),
        vec![payload(1, 15, 1, &[1, 2, 3, 4])]
    );
}

#[test]
fn fifth_chunk_without_predecessor_is_reported() {
    let mut deserializer = ChunkDeserializer::new();
    for csid in 10..14u8 {
        assert_eq!(
            deserializer.get_next_message(&[0xc0 + csid]).unwrap(),
            Some(payload(0, 0, 0, &[]))
        );
    }
    for _ in 0..3 {
        match deserializer.get_next_message(&[0xc0 + 14]) {
            Err(ChunkDeserializationError::NoPreviousChunkOnStream { csid: 14 }) => {}
            x => panic!("Unexpected result of {:?}", x),
        }
    }
}

#[test]
fn reports_are_repeated_when_more_bytes_come() {
    let mut deserializer = ChunkDeserializer::new();
    for csid in 10..14u8 {
        assert!(deserializer.get_next_message(&[0xc0 + csid]).unwrap().is_some());
    }
    assert!(deserializer.get_next_message(&[0xc0 + 14]).is_err());
    match deserializer.get_next_message(&full(1, &[1])) {
        Err(ChunkDeserializationError::NoPreviousChunkOnStream { csid: 14 }) => {}
        x => panic!("Unexpected result of {:?}", x),
    }
}

#[test]
fn known_predecessor_ends_a_row_of_missing_ones() {
    let mut deserializer = ChunkDeserializer::new();
    for csid in 10..14u8 {
        assert!(deserializer.get_next_message(&[0xc0 + csid]).unwrap().is_some());
    }
    assert!(deserializer.get_next_message(&[0xc0 + 10]).unwrap().is_some());
    for csid in 20..24u8 {
        assert!(deserializer.get_next_message(&[0xc0 + csid]).unwrap().is_some());
    }
    // A full header has no need of a predecessor and ends the row too.
    assert!(deserializer.get_next_message(&full(1, &[])).unwrap().is_some());
    assert_eq!(
        deserializer.get_next_message(&[0xc0 + 30]).unwrap(),
        Some(payload(0, 0, 0, &[]))
    );
}

#[test]
fn full_header_ends_a_row_of_missing_predecessors() {
    let mut deserializer = ChunkDeserializer::new();
    for csid in 2..6u8 {
        assert!(deserializer.get_next_message(&[0xc0 + csid]).unwrap().is_some());
    }
    assert_eq!(
        deserializer.get_next_message(&[7, 0, 0, 0, 0, 0, 1, 9, 1, 0, 0, 0, 1]).unwrap(),
        Some(payload(0, 9, 1, &[1]))
    );
    // The count starts over, so four more are recovered and the fifth is reported.
    for csid in 10..14u8 {
        assert_eq!(
            deserializer.get_next_message(&[0xc0 + csid]).unwrap(),
            Some(payload(0, 0, 0, &[]))
        );
    }
    match deserializer.get_next_message(&[0xc0 + 14]) {
        Err(ChunkDeserializationError::NoPreviousChunkOnStream { csid: 14 }) => {}
        x => panic!("Unexpected result of {:?}", x),
    }
}

#[test]
fn made_up_predecessors_do_not_disturb_other_streams() {
    let of_four: [&[u8]; 2] = [
        &[0x44, 0, 0, 7, 0, 0, 4, 8, 1, 2], // no predecessor, first part
        &[0xc4, 3, 4],
    ];
    let of_six: [&[u8]; 2] = [
        &[0x06, 0, 0, 2, 0, 0, 3, 9, 1, 0, 0, 0, 11, 12],
        &[0xc6, 13],
    ];
    let four = payload(7, 8, 0, &[1, 2, 3, 4]);
    let six = payload(2, 9, 1, &[11, 12, 13]);

    let mut alone = ChunkDeserializer::new();
    alone.set_max_chunk_size(2).unwrap();
    assert_eq!(drain(&mut alone, &of_four.concat()), vec![payload(7, 8, 0, &[1, 2, 3, 4])]);

    let mut mixed = ChunkDeserializer::new();
    mixed.set_max_chunk_size(2).unwrap();
    let bytes = [of_four[0], of_six[0], of_four[1], of_six[1]].concat();
    assert_eq!(drain(&mut mixed, &bytes), vec![four, six]);
}

#[test]
fn finished_messages_leave_nothing_behind() {
    let mut deserializer = ChunkDeserializer::new();
    deserializer.set_max_chunk_size(2).unwrap();
    let mut bytes = full(1, &[1, 2]);
    bytes.extend_from_slice(&[0xc4, 3, 4]);
    assert_eq!(
        drain(&mut deserializer, &bytes),
        vec![payload(1, 15, 1, &[1, 2]), payload(2, 15, 1, &[3, 4])]
    );
}

#[test]
fn interleaved_messages_stay_whole() {
    let mut deserializer = ChunkDeserializer::new();
    deserializer.set_max_chunk_size(2).unwrap();
    let bytes = [
        0x04, 0, 0, 1, 0, 0, 5, 8, 1, 0, 0, 0, 1, 2, // first part of 4
        0x06, 0, 0, 2, 0, 0, 3, 9, 1, 0, 0, 0, 11, 12, // first part of 6
        0xc4, 3, 4, // second part of 4
        0xc6, 13, // last part of 6
        0xc4, 5, // last part of 4
    ];
    assert_eq!(
        drain(&mut deserializer, &bytes),
        vec![
            payload(2, 9, 1, &[11, 12, 13]),
            payload(1, 8, 1, &[1, 2, 3, 4, 5])
        ]
    );
}

#[test]
fn basic_headers() {
    assert_eq!(get_format(&0x3f), ChunkHeaderFormat::Full);
    assert_eq!(get_format(&0x40), ChunkHeaderFormat::TimeDeltaWithoutMessageStreamId);
    assert_eq!(get_format(&0xbf), ChunkHeaderFormat::TimeDeltaOnly);
    assert_eq!(get_format(&0xc0), ChunkHeaderFormat::Empty);

    assert!(matches!(get_csid(&[]), ParsedValue::NotEnoughBytes));
    assert!(matches!(get_csid(&[0xc0]), ParsedValue::NotEnoughBytes));
    assert!(matches!(get_csid(&[0x01, 5]), ParsedValue::NotEnoughBytes));
    assert!(matches!(get_csid(&[0xc2]), ParsedValue::Value { val: 2, next_index: 1 }));
    assert!(matches!(get_csid(&[0x3f, 9]), ParsedValue::Value { val: 63, next_index: 1 }));
    assert!(matches!(get_csid(&[0x40, 255]), ParsedValue::Value { val: 319, next_index: 2 }));
    assert!(matches!(get_csid(&[0x81, 2, 3]), ParsedValue::Value { val: 834, next_index: 3 }));
    assert!(matches!(
        get_csid(&[0x01, 255, 255, 7]),
        ParsedValue::Value { val: 65599, next_index: 3 }
    ));
}

#[test]
fn numbers_in_headers_have_their_byte_orders() {
    let mut deserializer = ChunkDeserializer::new();
    let mut bytes = vec![0x05, 0x01, 0x02, 0x03, 0x00, 0x01, 0x02, 0x07, 0x01, 0x02, 0x03, 0x04];
    bytes.extend_from_slice(&[9; 128]);
    bytes.push(0xc5);
    bytes.extend_from_slice(&[9; 128]);
    bytes.push(0xc5);
    bytes.extend_from_slice(&[8; 2]);
    let message = deserializer.get_next_message(&bytes).unwrap().unwrap();
    assert_eq!(message.timestamp.value, 0x01_0203);
    assert_eq!(message.data.len(), 0x0102);
    assert_eq!(message.message_stream_id, 0x0403_0201);
    assert_eq!(&message.data[254..], &[9, 9, 8, 8]);
}

#[test]
fn blank_values() {
    assert_eq!(MessagePayload::new(), payload(0, 0, 0, &[]));
    let header = ChunkHeader::new();
    assert_eq!(header.chunk_stream_id, 0);
    assert_eq!(header.timestamp, RtmpTimestamp::new(0));
    assert_eq!(header.timestamp_field, 0);
    assert_eq!(header.message_length, 0);
    assert_eq!(header.message_type_id, 0);
    assert_eq!(header.message_stream_id, 0);
}

#[test]
fn timestamps() {
    let mut timestamp = RtmpTimestamp::new(5);
    timestamp.set(0xffff_ffff);
    assert_eq!(timestamp.value, 0xffff_ffff);
    assert_eq!(timestamp + 1, RtmpTimestamp::new(0));
    assert_eq!(RtmpTimestamp::new(40) + 2, RtmpTimestamp::new(42));
}

#[test]
fn streams_go_through_their_states() {
    let mut stream = ActiveStream { current_state: StreamState::Created };
    stream.current_state = StreamState::Publishing {
        stream_key: String::from("key"),
        mode: PublishMode::Live,
    };
    match &stream.current_state {
        StreamState::Publishing { stream_key, mode } => {
            assert_eq!(stream_key, "key");
            assert_eq!(*mode, PublishMode::Live);
        }
        _ => panic!("not publishing"),
    }
    stream.current_state = StreamState::Playing { stream_key: String::from("other") };
    assert!(matches!(&stream.current_state, StreamState::Playing { stream_key } if stream_key == "other"));
    stream.current_state = StreamState::Completed;
    assert!(matches!(stream.current_state, StreamState::Completed));
}
