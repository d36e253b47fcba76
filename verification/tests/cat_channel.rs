use rtxlink::cat::{
    build_request, freq, freq_reply, ftm, get, get_reply, info, read_freq, read_get_answer,
    read_info, read_set_answer, set_reply, Opcode, ID,
};
use rtxlink::error::{Errno, Error};
use rtxlink::link::{Frame, Link, Protocol};
use rtxlink::slip::encode;

fn cat_peer_bytes(proto: u8, data: &[u8]) -> Vec<u8> {
    let mut body = vec![proto];
    body.extend_from_slice(data);
    let crc = crc16::State::<crc16::AUG_CCITT>::calculate(&body);
    body.push((crc >> 8) as u8);
    body.push((crc & 0xff) as u8);
    encode(&body)
}

#[test]
fn cat_opcodes_are_the_documented_letters() {
    assert_eq!(Opcode::GET.code(), b'G');
    assert_eq!(Opcode::SET.code(), b'S');
    assert_eq!(Opcode::DATA.code(), b'D');
    assert_eq!(Opcode::ACK.code(), b'A');
}

#[test]
fn cat_opcode_try_from_reads_the_closed_set() {
    assert_eq!(Opcode::try_from(0x47), Ok(Opcode::GET));
    assert_eq!(Opcode::try_from(0x53), Ok(Opcode::SET));
    assert_eq!(Opcode::try_from(0x44), Ok(Opcode::DATA));
    assert_eq!(Opcode::try_from(0x41), Ok(Opcode::ACK));
    for v in 0..=255u8 {
        let known = matches!(v, 0x47 | 0x53 | 0x44 | 0x41);
        assert_eq!(Opcode::try_from(v).is_ok(), known);
    }
}

#[test]
fn cat_ids_are_the_documented_numbers() {
    assert_eq!(ID::INFO.code(), 0x494E);
    assert_eq!(ID::FREQRX.code(), 0x5246);
    assert_eq!(ID::FREQTX.code(), 0x5446);
    assert_eq!(ID::FILETRANSFER.code(), 0x4654);
}

#[test]
fn request_puts_the_identifier_high_byte_first() {
    assert_eq!(
        build_request(Opcode::GET, ID::FREQRX, &[]),
        Frame { proto: Protocol::CAT, data: vec![0x47, 0x52, 0x46] }
    );
    assert_eq!(
        build_request(Opcode::SET, ID::FREQTX, &[1, 2]),
        Frame { proto: Protocol::CAT, data: vec![0x53, 0x54, 0x46, 1, 2] }
    );
}

#[test]
fn get_writes_the_info_request_and_holds_the_link() {
    let mut link = Link::new();
    let out = get(&mut link, ID::INFO);
    assert_eq!(out, vec![0xC0, 0x01, 0x47, 0x49, 0x4E, 0xC7, 0xFE, 0xC0]);
    assert!(link.is_held());
}

#[test]
fn answer_to_get_with_data_is_the_value() {
    assert_eq!(read_get_answer(&[0x44, 1, 2, 3]), Ok(vec![1, 2, 3]));
    assert_eq!(read_get_answer(&[0x44]), Ok(vec![]));
}

#[test]
fn answer_to_get_with_ack_zero_is_an_empty_value() {
    assert_eq!(read_get_answer(&[0x41, 0]), Ok(vec![]));
    assert_eq!(read_get_answer(&[0x41, 0, 9]), Ok(vec![]));
}

#[test]
fn answer_to_get_with_ack_status_is_the_peer_error() {
    assert_eq!(read_get_answer(&[0x41, 56]), Err(Error::Peer(Errno::EBADRQC)));
    assert_eq!(read_get_answer(&[0x41, 7]), Err(Error::Peer(Errno::E2BIG)));
    assert_eq!(read_get_answer(&[0x41, 99]), Err(Error::Peer(Errno::EGENERIC)));
}

#[test]
fn answer_to_get_with_another_opcode_is_a_protocol_error() {
    assert_eq!(read_get_answer(&[]), Err(Error::Protocol));
    assert_eq!(read_get_answer(&[0x47, 1]), Err(Error::Protocol));
    assert_eq!(read_get_answer(&[0x53, 1]), Err(Error::Protocol));
    assert_eq!(read_get_answer(&[0x00, 1]), Err(Error::Protocol));
    assert_eq!(read_get_answer(&[0x41]), Err(Error::Protocol));
}

#[test]
fn answer_to_set_is_an_acknowledgement() {
    assert_eq!(read_set_answer(&[0x41, 0]), Ok(()));
    assert_eq!(read_set_answer(&[0x41, 53]), Err(Error::Peer(Errno::EBADR)));
    assert_eq!(read_set_answer(&[0x41, 255]), Err(Error::Peer(Errno::EGENERIC)));
    assert_eq!(read_set_answer(&[0x41]), Err(Error::Protocol));
    assert_eq!(read_set_answer(&[0x44, 0]), Err(Error::Protocol));
    assert_eq!(read_set_answer(&[]), Err(Error::Protocol));
}

#[test]
fn get_reply_waits_passes_over_console_output_and_releases() {
    let mut link = Link::new();
    get(&mut link, ID::FREQRX);
    assert_eq!(get_reply(&mut link, &[]), Ok(None));
    assert_eq!(get_reply(&mut link, &cat_peer_bytes(0, b"hello")), Ok(None));
    assert!(link.is_held());
    assert_eq!(get_reply(&mut link, &cat_peer_bytes(1, &[0x44, 7, 8])), Ok(Some(vec![7, 8])));
    assert!(!link.is_held());
}

#[test]
fn get_reply_surfaces_the_status_and_releases() {
    let mut link = Link::new();
    get(&mut link, ID::FREQRX);
    assert_eq!(
        get_reply(&mut link, &cat_peer_bytes(1, &[0x41, 56])),
        Err(Error::Peer(Errno::EBADRQC))
    );
    assert!(!link.is_held());
}

#[test]
fn get_reply_surfaces_a_crc_error_and_releases() {
    let mut link = Link::new();
    get(&mut link, ID::FREQRX);
    let mut wire = cat_peer_bytes(1, &[0x44, 7, 8]);
    wire[3] ^= 0x10;
    assert_eq!(get_reply(&mut link, &wire), Err(Error::Crc));
    assert!(!link.is_held());
}

#[test]
fn info_scenario_returns_the_radio_name() {
    let mut link = Link::new();
    let request = get(&mut link, ID::INFO);
    assert_eq!(request, encode(&[0x01, 0x47, 0x49, 0x4E, 0xC7, 0xFE]));
    let reply = cat_peer_bytes(1, &[0x44, b'O', b'p', b'e', b'n', b'R', b'T', b'X']);
    assert_eq!(info(&mut link, &reply), Ok(Some(String::from("OpenRTX"))));
    assert!(!link.is_held());
}

#[test]
fn info_waits_for_the_answer() {
    let mut link = Link::new();
    get(&mut link, ID::INFO);
    let reply = cat_peer_bytes(1, &[0x44, b'M', b'D', b'3']);
    let (first, second) = reply.split_at(4);
    assert_eq!(info(&mut link, first), Ok(None));
    assert!(link.is_held());
    assert_eq!(info(&mut link, second), Ok(Some(String::from("MD3"))));
}

#[test]
fn info_refuses_a_name_that_is_no_utf8() {
    assert_eq!(read_info(&[0xFF, 0xFE]), Err(Error::Protocol));
    assert_eq!(read_info(&[0xC3]), Err(Error::Protocol));
    assert_eq!(read_info(&[0xC3, 0xA9]), Ok(String::from("é")));
    assert_eq!(read_info(&[]), Ok(String::new()));
    let mut link = Link::new();
    get(&mut link, ID::INFO);
    assert_eq!(info(&mut link, &cat_peer_bytes(1, &[0x44, 0x80])), Err(Error::Protocol));
    assert!(!link.is_held());
}

#[test]
fn read_freq_is_little_endian_hertz() {
    assert_eq!(read_freq(&[0x80, 0x6B, 0x95, 0x1A]), Ok(446_000_000));
    assert_eq!(read_freq(&[0x40, 0x8C, 0xB7, 0x1A]), Ok(0x1AB7_8C40));
    assert_eq!(read_freq(&[1, 0, 0, 0]), Ok(1));
    assert_eq!(read_freq(&[0, 1, 0, 0]), Ok(256));
    assert_eq!(read_freq(&[0, 0, 1, 0]), Ok(65_536));
    assert_eq!(read_freq(&[0, 0, 0, 1]), Ok(16_777_216));
    assert_eq!(read_freq(&[0xFF, 0xFF, 0xFF, 0xFF]), Ok(u32::MAX));
}

#[test]
fn read_freq_takes_the_first_four_bytes() {
    assert_eq!(read_freq(&[0x80, 0x6B, 0x95, 0x1A, 0xAA, 0xBB]), Ok(446_000_000));
}

#[test]
fn read_freq_refuses_a_short_value() {
    assert_eq!(read_freq(&[]), Err(Error::Protocol));
    assert_eq!(read_freq(&[1, 2, 3]), Err(Error::Protocol));
}

#[test]
fn freq_without_a_value_asks_for_the_frequency() {
    let mut link = Link::new();
    let out = freq(&mut link, None, false);
    assert_eq!(out, encode(&[0x01, 0x47, 0x52, 0x46, 0x46, 0xA0]));
    assert!(link.is_held());
    let mut link = Link::new();
    let out = freq(&mut link, None, true);
    assert_eq!(out[1..5], [0x01, 0x47, 0x54, 0x46]);
}

#[test]
fn freq_rx_scenario_reads_the_frequency() {
    let mut link = Link::new();
    freq(&mut link, None, false);
    let reply = cat_peer_bytes(1, &[0x44, 0x80, 0x6B, 0x95, 0x1A]);
    assert_eq!(freq_reply(&mut link, &reply), Ok(Some(446_000_000)));
    assert!(!link.is_held());
}

#[test]
fn freq_reply_refuses_an_acknowledgement_without_value() {
    let mut link = Link::new();
    freq(&mut link, None, true);
    assert_eq!(freq_reply(&mut link, &cat_peer_bytes(1, &[0x41, 0])), Err(Error::Protocol));
    assert!(!link.is_held());
}

#[test]
fn freq_tx_scenario_sets_the_frequency() {
    let mut link = Link::new();
    let out = freq(&mut link, Some(433_500_000), true);
    assert_eq!(out, encode(&[0x01, 0x53, 0x54, 0x46, 0x60, 0xAF, 0xD6, 0x19, 0xC1, 0xCA]));
    assert!(link.is_held());
    assert_eq!(set_reply(&mut link, &cat_peer_bytes(1, &[0x41, 0])), Ok(true));
    assert!(!link.is_held());
}

#[test]
fn freq_with_a_value_writes_it_low_byte_first() {
    let mut link = Link::new();
    let out = freq(&mut link, Some(0x19D5_0BC0), true);
    assert_eq!(out[..10], [0xC0, 0x01, 0x53, 0x54, 0x46, 0xDB, 0xDC, 0x0B, 0xD5, 0x19]);
    let mut link = Link::new();
    let out = freq(&mut link, Some(0x0403_0201), false);
    assert_eq!(out[1..9], [0x01, 0x53, 0x52, 0x46, 0x01, 0x02, 0x03, 0x04]);
}

#[test]
fn set_writes_the_value_behind_the_identifier() {
    let mut link = Link::new();
    let out = rtxlink::cat::set(&mut link, ID::FREQRX, &[9, 8, 7]);
    assert_eq!(out[1..7], [0x01, 0x53, 0x52, 0x46, 9, 8]);
    assert!(link.is_held());
}

#[test]
fn set_reply_waits_and_surfaces_the_status() {
    let mut link = Link::new();
    rtxlink::cat::set(&mut link, ID::FREQRX, &[0, 0, 0, 0]);
    assert_eq!(set_reply(&mut link, &cat_peer_bytes(2, &[0, 0, 0])), Ok(false));
    assert!(link.is_held());
    assert_eq!(set_reply(&mut link, &cat_peer_bytes(1, &[0x41, 7])), Err(Error::Peer(Errno::E2BIG)));
    assert!(!link.is_held());
}

#[test]
fn ftm_sets_file_transfer_with_no_value() {
    let mut link = Link::new();
    let out = ftm(&mut link);
    assert_eq!(out, encode(&[0x01, 0x53, 0x46, 0x54, 0x21, 0xC2]));
    assert!(link.is_held());
    assert_eq!(set_reply(&mut link, &cat_peer_bytes(1, &[0x41, 0])), Ok(true));
    assert!(!link.is_held());
}
