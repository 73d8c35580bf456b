use kernel_core::frame::{
    build_response_frame, frame_payload_size, parse_frame, push_word_le, read_word_le,
    reader_action, ReaderAction, FRAME_BYTES,
};
use kernel_core::syscall::{
    MemoryMessage, Message, ScalarMessage, SysCall, SysResult, MSG_BORROW, NR_SEND_MESSAGE,
};
use kernel_core::Error;

fn round_trip_call(c: SysCall) {
    let a = c.to_args();
    assert_eq!(a.len(), 8);
    let back = SysCall::from_args(a[0], a[1], a[2], a[3], a[4], a[5], a[6], a[7]);
    assert_eq!(back, Ok(c));
}

fn round_trip_result(r: SysResult) {
    let a = r.to_args();
    assert_eq!(a.len(), 8);
    let back = SysResult::from_args(a[0], a[1], a[2], a[3], a[4], a[5], a[6], a[7]);
    assert_eq!(back, Ok(r));
}

fn mem_msg() -> MemoryMessage {
    MemoryMessage { id: 11, addr: 0x2000_0000, size: 4096, offset: 3, valid: 4096 }
}

#[test]
fn every_syscall_round_trips_through_eight_words() {
    let scalar = ScalarMessage { id: 1, arg1: 2, arg2: 3, arg3: 4, arg4: 5 };
    round_trip_call(SysCall::SendMessage(7, Message::MutableBorrow(mem_msg())));
    round_trip_call(SysCall::SendMessage(7, Message::Borrow(mem_msg())));
    round_trip_call(SysCall::SendMessage(7, Message::Move(mem_msg())));
    round_trip_call(SysCall::SendMessage(7, Message::Scalar(scalar)));
    round_trip_call(SysCall::ReturnMemory(9, 0x4000_0000, 4096));
    round_trip_call(SysCall::ReturnScalar2(9, 0xaaaa, 0xbbbb));
    round_trip_call(SysCall::ReceiveMessage(0x5c4e));
    round_trip_call(SysCall::CreateServer(0x5c4e));
    round_trip_call(SysCall::Connect(0x5c4e));
    round_trip_call(SysCall::Yield);
    round_trip_call(SysCall::TerminateProcess);
    round_trip_call(SysCall::Shutdown);
}

#[test]
fn every_result_round_trips_through_eight_words() {
    round_trip_result(SysResult::Okay);
    round_trip_result(SysResult::Error(Error::BadAddress));
    round_trip_result(SysResult::Error(Error::ShareViolation));
    round_trip_result(SysResult::Scalar1(77));
    round_trip_result(SysResult::Scalar2(0x1234, 0x5678));
    round_trip_result(SysResult::MemoryRange(0x4000_0000, 8192));
    round_trip_result(SysResult::BlockedProcess);
    round_trip_result(SysResult::Message(3, Message::Borrow(mem_msg())));
    round_trip_result(SysResult::Message(
        3,
        Message::Scalar(ScalarMessage { id: 1, arg1: 2, arg2: 3, arg3: 4, arg4: 5 }),
    ));
}

#[test]
fn unknown_call_number_is_invalid() {
    assert_eq!(SysCall::from_args(999, 0, 0, 0, 0, 0, 0, 0), Err(Error::InvalidSyscall));
    // A memory envelope without a real buffer is refused too.
    assert_eq!(
        SysCall::from_args(NR_SEND_MESSAGE, 1, MSG_BORROW, 0, 0, 4096, 0, 0),
        Err(Error::InvalidSyscall)
    );
    // An unknown message kind is refused.
    assert_eq!(
        SysCall::from_args(NR_SEND_MESSAGE, 1, 9, 0, 0x1000, 4096, 0, 0),
        Err(Error::InvalidSyscall)
    );
}

#[test]
fn error_codes_round_trip() {
    for e in [
        Error::BadAddress,
        Error::BadAlignment,
        Error::OutOfMemory,
        Error::ShareViolation,
        Error::ProcessNotFound,
        Error::ThreadNotFound,
        Error::ServerNotFound,
        Error::InvalidSyscall,
        Error::AlreadyMapped,
    ] {
        assert_eq!(Error::from_code(e.code()), e);
    }
}

#[test]
fn words_round_trip_little_endian() {
    let mut bytes: Vec<u8> = Vec::new();
    push_word_le(&mut bytes, 0x1122_3344_5566_7788);
    assert_eq!(bytes, vec![0x88, 0x77, 0x66, 0x55, 0x44, 0x33, 0x22, 0x11]);
    assert_eq!(read_word_le(&bytes, 0), 0x1122_3344_5566_7788);
}

#[test]
fn frames_parse_into_nine_words() {
    let mut bytes: Vec<u8> = Vec::new();
    for w in 0..9u64 {
        push_word_le(&mut bytes, w * 0x0101);
    }
    assert_eq!(bytes.len(), FRAME_BYTES);
    let words = parse_frame(&bytes);
    assert_eq!(words.len(), 9);
    for w in 0..9u64 {
        assert_eq!(words[w as usize], w * 0x0101);
    }
}

#[test]
fn payload_follows_only_memory_send_frames() {
    let call = SysCall::SendMessage(1, Message::Borrow(mem_msg()));
    let args = call.to_args();
    let mut words: Vec<u64> = vec![5];
    for a in &args {
        words.push(*a as u64);
    }
    assert_eq!(frame_payload_size(&words), Some(4096));

    let scalar = SysCall::SendMessage(
        1,
        Message::Scalar(ScalarMessage { id: 0, arg1: 0, arg2: 0, arg3: 0, arg4: 0 }),
    );
    let args = scalar.to_args();
    let mut words: Vec<u64> = vec![5];
    for a in &args {
        words.push(*a as u64);
    }
    assert_eq!(frame_payload_size(&words), None);
    let yld = SysCall::Yield.to_args();
    let mut words: Vec<u64> = vec![5];
    for a in &yld {
        words.push(*a as u64);
    }
    assert_eq!(frame_payload_size(&words), None);
}

#[test]
fn reader_ignores_undecodable_frames_and_delivers_good_ones() {
    // A frame whose opcode does not decode is ignored; reading continues.
    let bad: Vec<u64> = vec![1, 999, 0, 0, 0, 0, 0, 0, 0];
    assert_eq!(reader_action(&bad), ReaderAction::Ignore);

    let args = SysCall::Yield.to_args();
    let mut good: Vec<u64> = vec![3];
    for a in &args {
        good.push(*a as u64);
    }
    assert_eq!(reader_action(&good), ReaderAction::Deliver(3, SysCall::Yield));
}

#[test]
fn response_frame_carries_tid_then_result_words() {
    let res = SysResult::Scalar2(0xdead, 0xbeef);
    let frame = build_response_frame(7, &res);
    assert_eq!(frame.len(), FRAME_BYTES);
    assert_eq!(read_word_le(&frame, 0), 7);
    let args = res.to_args();
    for (i, a) in args.iter().enumerate() {
        assert_eq!(read_word_le(&frame, 8 * (i + 1)), *a as u64);
    }
}
