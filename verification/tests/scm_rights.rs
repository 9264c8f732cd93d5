use custos::bytes::{decode_uint, encode_uint, ByteOrder};
use custos::scm_rights::{
    receive_buffers, recv_fds, send_fds, send_outcome, ControlAbi, Reply, TransferError, WordSize,
};

const LITTLE_64: ControlAbi =
    ControlAbi { order: ByteOrder::Little, word: WordSize::Eight, level: 1, rights: 1 };

const BIG_32: ControlAbi =
    ControlAbi { order: ByteOrder::Big, word: WordSize::Four, level: 0xffff, rights: 1 };

fn reply_with(control: Vec<u8>) -> Reply {
    let control_len = control.len();
    Reply { received: 1, control, control_len }
}

#[test]
fn integers_are_laid_out_in_the_given_order() {
    assert_eq!(encode_uint(ByteOrder::Little, 0x0102_0304, 4), vec![4, 3, 2, 1]);
    assert_eq!(encode_uint(ByteOrder::Big, 0x0102_0304, 4), vec![1, 2, 3, 4]);
    assert_eq!(encode_uint(ByteOrder::Little, 24, 8), vec![24, 0, 0, 0, 0, 0, 0, 0]);
    assert_eq!(encode_uint(ByteOrder::Big, u64::MAX, 8), vec![255; 8]);
    assert_eq!(encode_uint(ByteOrder::Big, 0x1_0000_0007, 4), vec![0, 0, 0, 7]);
    assert_eq!(encode_uint(ByteOrder::Little, 7, 0), Vec::<u8>::new());
}

#[test]
fn integers_are_read_back() {
    let buffer = [9u8, 4, 3, 2, 1, 9];
    assert_eq!(decode_uint(ByteOrder::Little, &buffer, 1, 4), 0x0102_0304);
    assert_eq!(decode_uint(ByteOrder::Big, &buffer, 1, 4), 0x0403_0201);
    for value in [0u64, 1, 255, 256, 0xdead_beef, u64::MAX] {
        for order in [ByteOrder::Little, ByteOrder::Big] {
            assert_eq!(decode_uint(order, &encode_uint(order, value, 8), 0, 8), value);
        }
    }
}

#[test]
fn order_is_told_from_the_bytes_of_one() {
    assert_eq!(ByteOrder::of_one([1, 0, 0, 0]), ByteOrder::Little);
    assert_eq!(ByteOrder::of_one([0, 0, 0, 1]), ByteOrder::Big);
    assert_eq!(ByteOrder::of_one(1u32.to_le_bytes()), ByteOrder::Little);
    assert_eq!(ByteOrder::of_one(1u32.to_be_bytes()), ByteOrder::Big);
}

#[test]
fn native_layout_is_that_of_the_c_library() {
    let abi = ControlAbi::native();
    assert_eq!(abi.level, libc::SOL_SOCKET);
    assert_eq!(abi.rights, libc::SCM_RIGHTS);
    assert_eq!(encode_uint(abi.order, 0x0102_0304, 4), 0x0102_0304u32.to_ne_bytes().to_vec());
    assert_eq!(
        encode_uint(abi.order, 5, std::mem::size_of::<usize>()),
        5usize.to_ne_bytes().to_vec()
    );
    assert_eq!(abi.cmsg_len(0) as usize, std::mem::size_of::<libc::cmsghdr>());
    assert_eq!(send_fds(&abi, &[7]).control.len(), std::mem::size_of::<libc::cmsghdr>() + 4);
}

#[test]
fn layout_follows_the_machine() {
    let abi = ControlAbi::of_machine([0, 0, 0, 1], 0xffff, 7);
    assert_eq!(abi.order, ByteOrder::Big);
    assert_eq!(abi.level, 0xffff);
    assert_eq!(abi.rights, 7);
    assert_eq!(abi.word == WordSize::Eight, usize::BITS == 64);
    assert_eq!(ControlAbi::of_machine([1, 0, 0, 0], 1, 1).order, ByteOrder::Little);
}

#[test]
fn message_lengths() {
    assert_eq!(LITTLE_64.cmsg_len(0), 16);
    assert_eq!(LITTLE_64.cmsg_len(8), 24);
    assert_eq!(BIG_32.cmsg_len(0), 12);
    assert_eq!(BIG_32.cmsg_len(3), 15);
    assert_eq!(LITTLE_64.cmsg_len(u32::MAX - 16), u32::MAX);
}

#[test]
fn message_carries_as_much_as_its_length_can_say() {
    assert!(LITTLE_64.can_carry(0));
    assert!(LITTLE_64.can_carry(2));
    assert!(LITTLE_64.can_carry(1_073_741_819));
    assert!(!LITTLE_64.can_carry(1_073_741_820));
    assert!(BIG_32.can_carry(1_073_741_820));
    assert!(!BIG_32.can_carry(1_073_741_821));
    assert!(!LITTLE_64.can_carry(usize::MAX));
}

#[test]
fn message_has_header_and_descriptors() {
    let message = send_fds(&LITTLE_64, &[3, -1]);
    assert_eq!(message.payload, vec![0]);
    assert_eq!(
        message.control,
        vec![
            24, 0, 0, 0, 0, 0, 0, 0, 1, 0, 0, 0, 1, 0, 0, 0, 3, 0, 0, 0, 255, 255, 255, 255
        ]
    );
    let message = send_fds(&BIG_32, &[0x0102_0304]);
    assert_eq!(message.payload, vec![0]);
    assert_eq!(
        message.control,
        vec![0, 0, 0, 16, 0, 0, 255, 255, 0, 0, 0, 1, 1, 2, 3, 4]
    );
}

#[test]
fn message_without_descriptors_is_a_header() {
    let message = send_fds(&LITTLE_64, &[]);
    assert_eq!(message.control, vec![16, 0, 0, 0, 0, 0, 0, 0, 1, 0, 0, 0, 1, 0, 0, 0]);
    let mut fds = [-1; 2];
    let mut control = message.control.clone();
    control.resize(24, 0);
    let reply = Reply { received: 1, control, control_len: 16 };
    assert!(reply.is_valid(&LITTLE_64, 2));
    assert_eq!(recv_fds(&LITTLE_64, &reply, &mut fds), Ok(0));
    assert_eq!(fds, [-1, -1]);
}

#[test]
fn two_descriptors_arrive_as_two() {
    for abi in [LITTLE_64, BIG_32, ControlAbi::native()] {
        let sent = [5, 1_000_000];
        let message = send_fds(&abi, &sent);
        assert_eq!(receive_buffers(&abi, 2).control.len(), message.control.len());
        let reply = reply_with(message.control);
        assert!(reply.is_valid(&abi, 2));
        let mut received = [-1; 2];
        let count = recv_fds(&abi, &reply, &mut received).expect("receive descriptors");
        assert_eq!(count, sent.len());
        assert_eq!(received, sent);
    }
}

#[test]
fn receiver_takes_no_more_than_it_has_places_for() {
    let reply = reply_with(send_fds(&LITTLE_64, &[10, 11, 12]).control);
    let mut fds = [-1; 2];
    assert_eq!(recv_fds(&LITTLE_64, &reply, &mut fds), Ok(2));
    assert_eq!(fds, [10, 11]);
    assert_eq!(recv_fds(&LITTLE_64, &reply, &mut []), Ok(0));
}

#[test]
fn places_without_a_descriptor_stay_as_they_were() {
    let mut control = receive_buffers(&LITTLE_64, 3).control;
    let message = send_fds(&LITTLE_64, &[42]).control;
    control[..message.len()].copy_from_slice(&message);
    let reply = Reply { received: 1, control, control_len: message.len() };
    let mut fds = [-1, -2, -3];
    assert_eq!(recv_fds(&LITTLE_64, &reply, &mut fds), Ok(1));
    assert_eq!(fds, [42, -2, -3]);
}

#[test]
fn part_of_a_descriptor_does_not_count() {
    let mut control = send_fds(&LITTLE_64, &[10, 11]).control;
    control[0] = 23;
    let mut fds = [-1; 2];
    assert_eq!(recv_fds(&LITTLE_64, &reply_with(control), &mut fds), Ok(1));
    assert_eq!(fds, [10, -1]);
}

#[test]
fn failed_call_is_an_error_of_the_system() {
    let mut reply = reply_with(send_fds(&LITTLE_64, &[10]).control);
    reply.received = -1;
    let mut fds = [-1];
    assert_eq!(recv_fds(&LITTLE_64, &reply, &mut fds), Err(TransferError::Os));
    assert_eq!(fds, [-1]);
    assert_eq!(TransferError::Os.text(), None);
}

#[test]
fn reply_without_control_message_is_an_error() {
    let mut reply = reply_with(send_fds(&LITTLE_64, &[10]).control);
    reply.control_len = 15;
    let mut fds = [-1];
    assert_eq!(recv_fds(&LITTLE_64, &reply, &mut fds), Err(TransferError::NoControlMessage));
    assert_eq!(fds, [-1]);
    assert_eq!(TransferError::NoControlMessage.text(), Some("No control message received"));
}

#[test]
fn control_message_of_another_kind_is_an_error() {
    for place in [8, 12] {
        let mut control = send_fds(&LITTLE_64, &[10]).control;
        control[place] = 2;
        let mut fds = [-1];
        let outcome = recv_fds(&LITTLE_64, &reply_with(control), &mut fds);
        assert_eq!(outcome, Err(TransferError::InvalidControlMessage));
        assert_eq!(fds, [-1]);
    }
    assert_eq!(
        TransferError::InvalidControlMessage.text(),
        Some("Received invalid control message")
    );
}

#[test]
fn header_that_does_not_cover_itself_is_not_valid() {
    let mut control = send_fds(&LITTLE_64, &[10]).control;
    control[0] = 15;
    assert!(!reply_with(control.clone()).is_valid(&LITTLE_64, 1));
    control[8] = 2;
    assert!(reply_with(control.clone()).is_valid(&LITTLE_64, 1));
    assert!(!reply_with(control.clone()).is_valid(&LITTLE_64, 2));
    assert!(!reply_with(control).is_valid(&LITTLE_64, usize::MAX));
    assert!(!reply_with(vec![0; 15]).is_valid(&LITTLE_64, 0));
}

#[test]
fn receive_buffers_are_zero() {
    let message = receive_buffers(&LITTLE_64, 2);
    assert_eq!(message.payload, vec![0]);
    assert_eq!(message.control, vec![0; 24]);
    assert_eq!(receive_buffers(&BIG_32, 0).control, vec![0; 12]);
}

#[test]
fn send_fails_on_a_negative_result_only() {
    assert_eq!(send_outcome(-1), Err(TransferError::Os));
    assert_eq!(send_outcome(0), Ok(()));
    assert_eq!(send_outcome(1), Ok(()));
}
