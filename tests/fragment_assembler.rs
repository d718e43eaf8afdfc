use fragment_assembly::{
    FragmentAssembler, FragmentError, Header, MessageLog, MessageTooLong, BEGIN_FRAG,
    DATA_FRAME_HEADER_LENGTH, END_FRAG, UNFRAGMENTED,
};

const STREAM_ID: i32 = 10;
const SESSION_ID: i32 = 200;
const TERM_LENGTH: usize = 64 * 1024;
const INITIAL_TERM_ID: i32 = -1234;
const ACTIVE_TERM_ID: i32 = INITIAL_TERM_ID + 5;
const MTU_LENGTH: usize = 128;
const MIDDLE_FRAG: u8 = 0;

/// A term buffer into which frames are written as the transport would.
struct TermFixture {
    buffer: Vec<u8>,
}

impl TermFixture {
    fn new() -> Self {
        TermFixture {
            buffer: vec![0u8; TERM_LENGTH],
        }
    }

    /// Writes the payload of a frame at `offset` (after its header) with
    /// bytes counting up from `initial_payload_value`, and returns the
    /// frame's header.
    fn fill_frame(
        &mut self,
        flags: u8,
        offset: usize,
        length: usize,
        initial_payload_value: u8,
    ) -> Header {
        let mut value = initial_payload_value;
        for i in 0..length {
            self.buffer[i + offset + DATA_FRAME_HEADER_LENGTH] = value;
            value = value.wrapping_add(1);
        }
        Header {
            session_id: SESSION_ID,
            stream_id: STREAM_ID,
            term_id: ACTIVE_TERM_ID,
            term_offset: offset as i32,
            frame_length: (DATA_FRAME_HEADER_LENGTH + length) as i32,
            flags,
        }
    }
}

fn verify_payload(payload: &[u8]) {
    for (i, b) in payload.iter().enumerate() {
        assert_eq!(*b as usize, i % 256);
    }
}

#[test]
fn should_pass_through_unfragmented_message() {
    let mut test = TermFixture::new();
    let msg_length: usize = 158;
    let header = test.fill_frame(UNFRAGMENTED, 0, msg_length, 0);
    let mut adapter = FragmentAssembler::new(MessageLog::new(), None);

    adapter
        .handler(&test.buffer, DATA_FRAME_HEADER_LENGTH, msg_length, &header)
        .unwrap();

    let log = adapter.delegate();
    assert_eq!(log.len(), 1);
    let header = log.header(0);
    assert_eq!(log.offset(0), DATA_FRAME_HEADER_LENGTH);
    assert_eq!(log.payload(0).len(), msg_length);
    assert_eq!(header.session_id, SESSION_ID);
    assert_eq!(header.stream_id, STREAM_ID);
    assert_eq!(header.term_id, ACTIVE_TERM_ID);
    assert_eq!(header.term_offset, 0);
    assert_eq!(header.frame_length, (DATA_FRAME_HEADER_LENGTH + msg_length) as i32);
    assert_eq!(header.flags, UNFRAGMENTED);
    verify_payload(log.payload(0));
    assert_eq!(
        *log.payload(0),
        test.buffer[DATA_FRAME_HEADER_LENGTH..DATA_FRAME_HEADER_LENGTH + msg_length].to_vec()
    );
}

#[test]
fn should_reassemble_from_two_fragments() {
    let mut test = TermFixture::new();
    let msg_length = MTU_LENGTH - DATA_FRAME_HEADER_LENGTH;
    let mut adapter = FragmentAssembler::new(MessageLog::new(), None);

    let header = test.fill_frame(BEGIN_FRAG, 0, msg_length, 0);
    adapter
        .handler(&test.buffer, DATA_FRAME_HEADER_LENGTH, msg_length, &header)
        .unwrap();
    assert_eq!(adapter.delegate().len(), 0);

    let header = test.fill_frame(END_FRAG, MTU_LENGTH, msg_length, (msg_length % 256) as u8);
    adapter
        .handler(&test.buffer, MTU_LENGTH + DATA_FRAME_HEADER_LENGTH, msg_length, &header)
        .unwrap();

    let log = adapter.delegate();
    assert_eq!(log.len(), 1);
    let header = log.header(0);
    assert_eq!(log.offset(0), DATA_FRAME_HEADER_LENGTH);
    assert_eq!(log.payload(0).len(), msg_length * 2);
    assert_eq!(header.session_id, SESSION_ID);
    assert_eq!(header.stream_id, STREAM_ID);
    assert_eq!(header.term_id, ACTIVE_TERM_ID);
    assert_eq!(header.term_offset, MTU_LENGTH as i32);
    assert_eq!(header.frame_length, (DATA_FRAME_HEADER_LENGTH + msg_length) as i32);
    assert_eq!(header.flags, END_FRAG);
    verify_payload(log.payload(0));
}

#[test]
fn should_reassemble_from_three_fragments() {
    let mut test = TermFixture::new();
    let msg_length = MTU_LENGTH - DATA_FRAME_HEADER_LENGTH;
    let mut adapter = FragmentAssembler::new(MessageLog::new(), None);

    let header = test.fill_frame(BEGIN_FRAG, 0, msg_length, 0);
    adapter
        .handler(&test.buffer, DATA_FRAME_HEADER_LENGTH, msg_length, &header)
        .unwrap();
    assert_eq!(adapter.delegate().len(), 0);

    let header = test.fill_frame(MIDDLE_FRAG, MTU_LENGTH, msg_length, (msg_length % 256) as u8);
    adapter
        .handler(&test.buffer, MTU_LENGTH + DATA_FRAME_HEADER_LENGTH, msg_length, &header)
        .unwrap();
    assert_eq!(adapter.delegate().len(), 0);

    let header = test.fill_frame(
        END_FRAG,
        MTU_LENGTH * 2,
        msg_length,
        ((msg_length * 2) % 256) as u8,
    );
    adapter
        .handler(&test.buffer, MTU_LENGTH * 2 + DATA_FRAME_HEADER_LENGTH, msg_length, &header)
        .unwrap();

    let log = adapter.delegate();
    assert_eq!(log.len(), 1);
    let header = log.header(0);
    assert_eq!(log.offset(0), DATA_FRAME_HEADER_LENGTH);
    assert_eq!(log.payload(0).len(), msg_length * 3);
    assert_eq!(header.session_id, SESSION_ID);
    assert_eq!(header.stream_id, STREAM_ID);
    assert_eq!(header.term_id, ACTIVE_TERM_ID);
    assert_eq!(header.term_offset, (MTU_LENGTH * 2) as i32);
    assert_eq!(header.frame_length, (DATA_FRAME_HEADER_LENGTH + msg_length) as i32);
    assert_eq!(header.flags, END_FRAG);
    verify_payload(log.payload(0));
}

#[test]
fn should_not_reassemble_if_end_first_fragment() {
    let mut test = TermFixture::new();
    let msg_length = MTU_LENGTH - DATA_FRAME_HEADER_LENGTH;
    let mut adapter = FragmentAssembler::new(MessageLog::new(), None);

    let header = test.fill_frame(END_FRAG, MTU_LENGTH, msg_length, (msg_length % 256) as u8);
    adapter
        .handler(&test.buffer, MTU_LENGTH + DATA_FRAME_HEADER_LENGTH, msg_length, &header)
        .unwrap();
    assert_eq!(adapter.delegate().len(), 0);
}

#[test]
fn should_not_reassemble_if_missing_begin() {
    let mut test = TermFixture::new();
    let msg_length = MTU_LENGTH - DATA_FRAME_HEADER_LENGTH;
    let mut adapter = FragmentAssembler::new(MessageLog::new(), None);

    let header = test.fill_frame(END_FRAG, MTU_LENGTH, msg_length, (msg_length % 256) as u8);
    adapter
        .handler(&test.buffer, MTU_LENGTH + DATA_FRAME_HEADER_LENGTH, msg_length, &header)
        .unwrap();
    assert_eq!(adapter.delegate().len(), 0);

    let header = test.fill_frame(
        END_FRAG,
        MTU_LENGTH * 2,
        msg_length,
        ((msg_length * 2) % 256) as u8,
    );
    adapter
        .handler(&test.buffer, MTU_LENGTH * 2 + DATA_FRAME_HEADER_LENGTH, msg_length, &header)
        .unwrap();
    assert_eq!(adapter.delegate().len(), 0);
}

#[test]
fn two_fragments_of_120_bytes_deliver_240() {
    let mut test = TermFixture::new();
    let mut adapter = FragmentAssembler::new(MessageLog::new(), None);

    let header = test.fill_frame(BEGIN_FRAG, 0, 120, 0);
    adapter.handler(&test.buffer, 0, 120, &header).unwrap();
    let header = test.fill_frame(END_FRAG, 128, 120, 120);
    adapter.handler(&test.buffer, 128, 120, &header).unwrap();

    let log = adapter.delegate();
    assert_eq!(log.len(), 1);
    assert_eq!(log.payload(0).len(), 240);
    assert_eq!(log.header(0).flags, END_FRAG);
    let mut expected = test.buffer[0..120].to_vec();
    expected.extend_from_slice(&test.buffer[128..248]);
    assert_eq!(*log.payload(0), expected);
}

#[test]
fn lone_end_of_120_bytes_delivers_nothing() {
    let mut test = TermFixture::new();
    let mut adapter = FragmentAssembler::new(MessageLog::new(), None);

    let header = test.fill_frame(END_FRAG, 128, 120, 0);
    adapter.handler(&test.buffer, 128, 120, &header).unwrap();
    assert_eq!(adapter.delegate().len(), 0);
}

fn header_of(session_id: i32, flags: u8) -> Header {
    Header {
        session_id,
        stream_id: STREAM_ID,
        term_id: ACTIVE_TERM_ID,
        term_offset: 0,
        frame_length: 0,
        flags,
    }
}

#[test]
fn stray_ends_leave_no_trace_for_a_later_message() {
    let data: Vec<u8> = (0u8..16).collect();
    let mut adapter = FragmentAssembler::new(MessageLog::new(), None);

    adapter.handler(&data, 0, 4, &header_of(7, END_FRAG)).unwrap();
    adapter.handler(&data, 4, 4, &header_of(7, END_FRAG)).unwrap();
    adapter.handler(&data, 8, 2, &header_of(7, BEGIN_FRAG)).unwrap();
    adapter.handler(&data, 10, 3, &header_of(7, END_FRAG)).unwrap();

    let log = adapter.delegate();
    assert_eq!(log.len(), 1);
    assert_eq!(*log.payload(0), vec![8, 9, 10, 11, 12]);
}

#[test]
fn begin_discards_an_incomplete_message() {
    let data: Vec<u8> = (0u8..32).collect();
    let mut adapter = FragmentAssembler::new(MessageLog::new(), None);

    adapter.handler(&data, 0, 5, &header_of(3, BEGIN_FRAG)).unwrap();
    adapter.handler(&data, 5, 5, &header_of(3, MIDDLE_FRAG)).unwrap();
    adapter.handler(&data, 20, 2, &header_of(3, BEGIN_FRAG)).unwrap();
    adapter.handler(&data, 22, 1, &header_of(3, MIDDLE_FRAG)).unwrap();
    adapter.handler(&data, 23, 2, &header_of(3, END_FRAG)).unwrap();

    let log = adapter.delegate();
    assert_eq!(log.len(), 1);
    assert_eq!(*log.payload(0), vec![20, 21, 22, 23, 24]);
}

#[test]
fn evicted_session_drops_its_remaining_fragments() {
    let data: Vec<u8> = (0u8..16).collect();
    let mut adapter = FragmentAssembler::new(MessageLog::new(), None);

    adapter.handler(&data, 0, 4, &header_of(9, BEGIN_FRAG)).unwrap();
    adapter.delete_session_buffer(9);
    adapter.handler(&data, 4, 4, &header_of(9, MIDDLE_FRAG)).unwrap();
    adapter.handler(&data, 8, 4, &header_of(9, END_FRAG)).unwrap();
    assert_eq!(adapter.delegate().len(), 0);

    adapter.delete_session_buffer(12345);
    adapter.handler(&data, 0, 2, &header_of(9, BEGIN_FRAG)).unwrap();
    adapter.handler(&data, 2, 2, &header_of(9, END_FRAG)).unwrap();
    assert_eq!(adapter.delegate().len(), 1);
    assert_eq!(*adapter.delegate().payload(0), vec![0, 1, 2, 3]);
}

#[test]
fn sessions_are_assembled_independently() {
    let data: Vec<u8> = (0u8..16).collect();
    let mut adapter = FragmentAssembler::new(MessageLog::new(), Some(8));

    adapter.handler(&data, 0, 2, &header_of(1, BEGIN_FRAG)).unwrap();
    adapter.handler(&data, 10, 2, &header_of(2, BEGIN_FRAG)).unwrap();
    adapter.handler(&data, 2, 2, &header_of(1, END_FRAG)).unwrap();
    adapter.handler(&data, 12, 2, &header_of(2, END_FRAG)).unwrap();

    let log = adapter.delegate();
    assert_eq!(log.len(), 2);
    assert_eq!(*log.payload(0), vec![0, 1, 2, 3]);
    assert_eq!(log.header(0).session_id, 1);
    assert_eq!(*log.payload(1), vec![10, 11, 12, 13]);
    assert_eq!(log.header(1).session_id, 2);
}

#[test]
fn empty_begin_leaves_the_session_idle() {
    let data: Vec<u8> = (0u8..16).collect();
    let mut adapter = FragmentAssembler::new(MessageLog::new(), None);

    adapter.handler(&data, 0, 0, &header_of(4, BEGIN_FRAG)).unwrap();
    adapter.handler(&data, 0, 3, &header_of(4, END_FRAG)).unwrap();
    assert_eq!(adapter.delegate().len(), 0);
}

#[test]
fn unfragmented_frame_does_not_disturb_an_assembly() {
    let data: Vec<u8> = (0u8..16).collect();
    let mut adapter = FragmentAssembler::new(MessageLog::new(), None);

    adapter.handler(&data, 0, 2, &header_of(5, BEGIN_FRAG)).unwrap();
    adapter.handler(&data, 6, 3, &header_of(5, UNFRAGMENTED)).unwrap();
    adapter.handler(&data, 2, 2, &header_of(5, END_FRAG)).unwrap();

    let log = adapter.delegate();
    assert_eq!(log.len(), 2);
    assert_eq!(log.offset(0), 6);
    assert_eq!(log.payload(0).len(), 3);
    assert_eq!(*log.payload(0), vec![6, 7, 8]);
    assert_eq!(*log.payload(1), vec![0, 1, 2, 3]);
}

#[test]
fn refused_unfragmented_message_is_passed_on() {
    let data: Vec<u8> = (0u8..16).collect();
    let mut adapter = FragmentAssembler::new(MessageLog::with_max_length(3), None);

    match adapter.handler(&data, 0, 4, &header_of(5, UNFRAGMENTED)) {
        Err(FragmentError::Handler(e)) => assert_eq!(e, MessageTooLong { length: 4 }),
        other => panic!("unexpected result {:?}", other),
    }
    assert_eq!(adapter.delegate().len(), 1);
    adapter.handler(&data, 0, 3, &header_of(5, UNFRAGMENTED)).unwrap();
    assert_eq!(adapter.delegate().len(), 2);
}

#[test]
fn refused_assembled_message_keeps_its_buffer_until_next_begin() {
    let data: Vec<u8> = (0u8..16).collect();
    let mut adapter = FragmentAssembler::new(MessageLog::with_max_length(3), None);

    adapter.handler(&data, 0, 2, &header_of(6, BEGIN_FRAG)).unwrap();
    match adapter.handler(&data, 2, 2, &header_of(6, END_FRAG)) {
        Err(FragmentError::Handler(e)) => assert_eq!(e, MessageTooLong { length: 4 }),
        other => panic!("unexpected result {:?}", other),
    }
    assert_eq!(*adapter.delegate().payload(0), vec![0, 1, 2, 3]);

    // The buffer was not reset: a further end frame completes a longer message.
    match adapter.handler(&data, 4, 1, &header_of(6, END_FRAG)) {
        Err(FragmentError::Handler(e)) => assert_eq!(e, MessageTooLong { length: 5 }),
        other => panic!("unexpected result {:?}", other),
    }
    assert_eq!(adapter.delegate().len(), 2);
    assert_eq!(*adapter.delegate().payload(1), vec![0, 1, 2, 3, 4]);
    assert_eq!(adapter.delegate().answer(1), Err(MessageTooLong { length: 5 }));

    // A begin frame discards it; the next message is accepted and the buffer
    // is idle again afterwards.
    adapter.handler(&data, 8, 1, &header_of(6, BEGIN_FRAG)).unwrap();
    adapter.handler(&data, 9, 2, &header_of(6, END_FRAG)).unwrap();
    assert_eq!(adapter.delegate().len(), 3);
    assert_eq!(*adapter.delegate().payload(2), vec![8, 9, 10]);
    assert_eq!(adapter.delegate().answer(2), Ok(()));
    adapter.handler(&data, 11, 1, &header_of(6, END_FRAG)).unwrap();
    assert_eq!(adapter.delegate().len(), 3);
}

#[test]
fn initial_buffer_length_changes_nothing_delivered() {
    let data: Vec<u8> = (0u8..64).collect();
    let mut small = FragmentAssembler::new(MessageLog::new(), Some(1));
    let mut large = FragmentAssembler::new(MessageLog::new(), Some(100000));
    for adapter in [&mut small, &mut large] {
        adapter.handler(&data, 0, 20, &header_of(1, BEGIN_FRAG)).unwrap();
        adapter.handler(&data, 20, 20, &header_of(1, MIDDLE_FRAG)).unwrap();
        adapter.handler(&data, 40, 20, &header_of(1, END_FRAG)).unwrap();
    }
    assert_eq!(small.delegate().len(), 1);
    assert_eq!(large.delegate().len(), 1);
    assert_eq!(*small.delegate().payload(0), data[0..60].to_vec());
    assert_eq!(*small.delegate().payload(0), *large.delegate().payload(0));
    assert_eq!(small.delegate().offset(0), large.delegate().offset(0));
}
