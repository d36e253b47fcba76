use rtxlink::dat::{read_ack, receive, send, send_ack, wait_ack, Receiver, ACK, DAT_FRAME_SIZE, DAT_PAYLOAD_SIZE};
use rtxlink::error::{Errno, Error};
use rtxlink::link::{Link, Protocol};
use rtxlink::slip::encode;

fn dat_peer_bytes(proto: u8, data: &[u8]) -> Vec<u8> {
    let mut body = vec![proto];
    body.extend_from_slice(data);
    let crc = crc16::State::<crc16::AUG_CCITT>::calculate(&body);
    body.push((crc >> 8) as u8);
    body.push((crc & 0xff) as u8);
    encode(&body)
}

fn block_bytes(number: u8, payload: &[u8]) -> Vec<u8> {
    let mut data = vec![number, 255 - number];
    data.extend_from_slice(payload);
    data
}

fn ack_bytes() -> Vec<u8> {
    encode(&[0x03, 0x06, 0x55, 0xB1])
}

#[test]
fn dat_sizes_are_the_documented_numbers() {
    assert_eq!(DAT_FRAME_SIZE, 1024);
    assert_eq!(DAT_PAYLOAD_SIZE, 1022);
    assert_eq!(ACK, 0x06);
}

#[test]
fn send_ack_writes_the_acknowledgement_frame() {
    let mut link = Link::new();
    link.acquire();
    assert_eq!(send_ack(&link), ack_bytes());
}

#[test]
fn read_ack_accepts_only_the_acknowledgement_byte() {
    assert_eq!(read_ack(&[0x06]), Ok(()));
    assert_eq!(read_ack(&[0x06, 1]), Ok(()));
    assert_eq!(read_ack(&[7]), Err(Error::Peer(Errno::E2BIG)));
    assert_eq!(read_ack(&[0]), Err(Error::Peer(Errno::OK)));
    assert_eq!(read_ack(&[0x15]), Err(Error::Peer(Errno::EGENERIC)));
    assert_eq!(read_ack(&[]), Err(Error::Protocol));
}

#[test]
fn wait_ack_waits_and_frees_the_link() {
    let mut link = Link::new();
    link.acquire();
    assert_eq!(wait_ack(&mut link, &dat_peer_bytes(0, b"log")), Ok(false));
    assert!(link.is_held());
    assert_eq!(wait_ack(&mut link, &dat_peer_bytes(3, &[0x06])), Ok(true));
    assert!(!link.is_held());
}

#[test]
fn wait_ack_surfaces_the_status() {
    let mut link = Link::new();
    link.acquire();
    assert_eq!(wait_ack(&mut link, &dat_peer_bytes(3, &[53])), Err(Error::Peer(Errno::EBADR)));
    assert!(!link.is_held());
}

#[test]
fn accept_takes_blocks_in_sequence() {
    let mut receiver = Receiver::new(5);
    assert_eq!(receiver.accept(&block_bytes(1, &[10, 11])), Ok(vec![10, 11]));
    assert_eq!(receiver.received(), 2);
    assert!(!receiver.is_complete());
    assert_eq!(receiver.accept(&block_bytes(2, &[12, 13, 14])), Ok(vec![12, 13, 14]));
    assert_eq!(receiver.received(), 5);
    assert!(receiver.is_complete());
}

#[test]
fn accept_refuses_a_first_block_not_numbered_one() {
    let mut receiver = Receiver::new(5);
    assert_eq!(receiver.accept(&block_bytes(0, &[1])), Err(Error::Protocol));
    assert_eq!(receiver.accept(&block_bytes(2, &[1])), Err(Error::Protocol));
    assert_eq!(receiver.received(), 0);
    assert_eq!(receiver.accept(&block_bytes(1, &[1])), Ok(vec![1]));
}

#[test]
fn accept_refuses_a_repeated_or_skipped_block() {
    let mut receiver = Receiver::new(10);
    assert_eq!(receiver.accept(&block_bytes(1, &[1])), Ok(vec![1]));
    assert_eq!(receiver.accept(&block_bytes(1, &[2])), Err(Error::Protocol));
    assert_eq!(receiver.accept(&block_bytes(3, &[2])), Err(Error::Protocol));
    assert_eq!(receiver.received(), 1);
    assert_eq!(receiver.accept(&block_bytes(2, &[2])), Ok(vec![2]));
}

#[test]
fn accept_refuses_a_wrong_complement() {
    let mut receiver = Receiver::new(10);
    assert_eq!(receiver.accept(&[1, 253, 9]), Err(Error::Protocol));
    assert_eq!(receiver.accept(&[1, 255, 9]), Err(Error::Protocol));
    assert_eq!(receiver.accept(&[1, 1, 9]), Err(Error::Protocol));
    assert_eq!(receiver.accept(&[1, 254, 9]), Ok(vec![9]));
}

#[test]
fn accept_refuses_a_block_without_header() {
    let mut receiver = Receiver::new(10);
    assert_eq!(receiver.accept(&[]), Err(Error::Protocol));
    assert_eq!(receiver.accept(&[1]), Err(Error::Protocol));
}

#[test]
fn accept_refuses_more_bytes_than_the_image_lacks() {
    let mut receiver = Receiver::new(3);
    assert_eq!(receiver.accept(&block_bytes(1, &[1, 2, 3, 4])), Err(Error::SizeMismatch));
    assert_eq!(receiver.received(), 0);
    assert_eq!(receiver.accept(&block_bytes(1, &[1, 2, 3])), Ok(vec![1, 2, 3]));
    assert_eq!(receiver.accept(&block_bytes(2, &[4])), Err(Error::SizeMismatch));
    assert!(receiver.is_complete());
}

#[test]
fn accept_takes_a_block_without_payload() {
    let mut receiver = Receiver::new(1);
    assert_eq!(receiver.accept(&block_bytes(1, &[])), Ok(vec![]));
    assert_eq!(receiver.received(), 0);
    assert_eq!(receiver.accept(&block_bytes(2, &[7])), Ok(vec![7]));
}

#[test]
fn block_numbers_wrap_after_255() {
    let mut receiver = Receiver::new(300);
    for i in 1..=300u32 {
        let number = (i % 256) as u8;
        assert_eq!(receiver.accept(&block_bytes(number, &[number])), Ok(vec![number]));
    }
    assert!(receiver.is_complete());
}

#[test]
fn receive_scenario_of_2050_bytes() {
    let image: Vec<u8> = (0..2050u32).map(|i| (i * 7 % 256) as u8).collect();
    let mut link = Link::new();
    let (mut receiver, start) = receive(&mut link, 2050);
    assert_eq!(start, ack_bytes());
    assert!(link.is_held());
    let mut output: Vec<u8> = Vec::new();
    let mut acks = 0;
    for (i, part) in image.chunks(1022).enumerate() {
        let wire = dat_peer_bytes(3, &block_bytes((i + 1) as u8, part));
        let block = receiver.block(&mut link, &wire).unwrap().unwrap();
        assert_eq!(block.ack, ack_bytes());
        output.extend(block.payload);
        acks += 1;
        assert_eq!(link.is_held(), i < 2);
    }
    assert_eq!(acks, 3);
    assert_eq!(output.len(), 2050);
    assert_eq!(output, image);
    assert!(receiver.is_complete());
    assert!(!link.is_held());
}

#[test]
fn receive_of_nothing_is_complete_at_once() {
    let mut link = Link::new();
    let (receiver, start) = receive(&mut link, 0);
    assert_eq!(start, ack_bytes());
    assert!(receiver.is_complete());
    assert!(!link.is_held());
}

#[test]
fn block_waits_and_passes_over_other_protocols() {
    let mut link = Link::new();
    let (mut receiver, _) = receive(&mut link, 4);
    assert_eq!(receiver.block(&mut link, &[]), Ok(None));
    assert_eq!(receiver.block(&mut link, &dat_peer_bytes(0, b"log")), Ok(None));
    assert!(link.is_held());
    let wire = dat_peer_bytes(3, &block_bytes(1, &[1, 2, 3, 4]));
    let (first, second) = wire.split_at(5);
    assert_eq!(receiver.block(&mut link, first), Ok(None));
    let block = receiver.block(&mut link, second).unwrap().unwrap();
    assert_eq!(block.payload, vec![1, 2, 3, 4]);
    assert!(!link.is_held());
}

#[test]
fn block_out_of_sequence_aborts_the_transfer() {
    let mut link = Link::new();
    let (mut receiver, _) = receive(&mut link, 10);
    assert_eq!(
        receiver.block(&mut link, &dat_peer_bytes(3, &block_bytes(2, &[1]))),
        Err(Error::Protocol)
    );
    assert!(!link.is_held());
    assert_eq!(receiver.received(), 0);
}

#[test]
fn block_with_a_bad_crc_aborts_the_transfer() {
    let mut link = Link::new();
    let (mut receiver, _) = receive(&mut link, 10);
    let mut wire = dat_peer_bytes(3, &block_bytes(1, &[1]));
    wire[3] ^= 1;
    assert_eq!(receiver.block(&mut link, &wire), Err(Error::Crc));
    assert!(!link.is_held());
}

#[test]
fn send_cuts_2050_bytes_into_three_blocks() {
    let image: Vec<u8> = (0..2050u32).map(|i| (i * 3 % 256) as u8).collect();
    let frames = send(&image, 2050).unwrap();
    assert_eq!(frames.len(), 3);
    for (i, frame) in frames.iter().enumerate() {
        assert_eq!(frame.proto, Protocol::DAT);
        assert_eq!(frame.data[0], (i + 1) as u8);
        assert_eq!(frame.data[1], 255 - (i + 1) as u8);
    }
    assert_eq!(frames[0].data[2..], image[..1022]);
    assert_eq!(frames[1].data[2..], image[1022..2044]);
    assert_eq!(frames[2].data[2..], image[2044..]);
    assert_eq!(frames[2].data.len(), 8);
}

#[test]
fn send_of_a_multiple_of_the_payload_size_has_no_short_block() {
    let image = vec![5u8; 2044];
    let frames = send(&image, 2044).unwrap();
    assert_eq!(frames.len(), 2);
    assert_eq!(frames[0].data.len(), 1024);
    assert_eq!(frames[1].data.len(), 1024);
}

#[test]
fn send_of_nothing_has_no_block() {
    assert_eq!(send(&[], 0), Ok(vec![]));
}

#[test]
fn send_of_one_byte_is_one_block() {
    let frames = send(&[0xAB], 1).unwrap();
    assert_eq!(frames.len(), 1);
    assert_eq!(frames[0].data, vec![1, 254, 0xAB]);
}

#[test]
fn send_refuses_content_of_another_size() {
    assert_eq!(send(&[1, 2, 3], 4), Err(Error::SizeMismatch));
    assert_eq!(send(&[1, 2, 3], 2), Err(Error::SizeMismatch));
    assert_eq!(send(&[], 1), Err(Error::SizeMismatch));
}

#[test]
fn send_numbers_wrap_after_255() {
    let image = vec![1u8; 1022 * 256 + 1];
    let frames = send(&image, image.len()).unwrap();
    assert_eq!(frames.len(), 257);
    assert_eq!(frames[254].data[..2], [255, 0]);
    assert_eq!(frames[255].data[..2], [0, 255]);
    assert_eq!(frames[256].data, vec![1, 254, 1]);
}

#[test]
fn receiver_accepts_what_send_builds() {
    for size in [0usize, 1, 1021, 1022, 1023, 2044, 2050, 5000] {
        let image: Vec<u8> = (0..size).map(|i| (i * 11 % 256) as u8).collect();
        let frames = send(&image, size).unwrap();
        let mut receiver = Receiver::new(size);
        let mut output: Vec<u8> = Vec::new();
        for frame in frames {
            output.extend(receiver.accept(&frame.data).unwrap());
        }
        assert!(receiver.is_complete());
        assert_eq!(output, image);
    }
}
