use rtxlink::error::{Errno, Error};
use rtxlink::fmp::{
    build_command, dump, dump_reply, flash, flash_reply, meminfo, meminfo_reply, read_meminfo,
    read_reply, send_cmd, wait_reply, MemInfo, Opcode, Reply,
};
use rtxlink::link::{Frame, Link, Protocol};
use rtxlink::slip::encode;

fn fmp_peer_bytes(proto: u8, data: &[u8]) -> Vec<u8> {
    let mut body = vec![proto];
    body.extend_from_slice(data);
    let crc = crc16::State::<crc16::AUG_CCITT>::calculate(&body);
    body.push((crc >> 8) as u8);
    body.push((crc & 0xff) as u8);
    encode(&body)
}

fn name27(text: &[u8]) -> [u8; 27] {
    let mut name = [0u8; 27];
    name[..text.len()].copy_from_slice(text);
    name
}

fn flash_record() -> Vec<u8> {
    let mut record = vec![0x00, 0x00, 0x10, 0x00, 0x00];
    record.extend_from_slice(&name27(b"FLASH"));
    record
}

#[test]
fn fmp_opcodes_are_the_documented_numbers() {
    let all = [
        (Opcode::ACK, 0x00),
        (Opcode::MEMINFO, 0x01),
        (Opcode::DUMP, 0x02),
        (Opcode::FLASH, 0x03),
        (Opcode::READ, 0x04),
        (Opcode::WRITE, 0x05),
        (Opcode::LIST, 0x06),
        (Opcode::MOVE, 0x07),
        (Opcode::COPY, 0x08),
        (Opcode::MKDIR, 0x09),
        (Opcode::RM, 0x0A),
        (Opcode::RESET, 0xFF),
    ];
    for (op, code) in all {
        assert_eq!(op.code(), code);
        assert_eq!(Opcode::try_from(code), Ok(op));
    }
}

#[test]
fn fmp_opcode_try_from_refuses_every_other_byte() {
    for v in 0x0B..=0xFEu8 {
        assert_eq!(Opcode::try_from(v), Err(()));
    }
}

#[test]
fn command_without_parameters() {
    assert_eq!(
        build_command(Opcode::MEMINFO, &vec![]),
        Frame { proto: Protocol::FMP, data: vec![0x01, 0] }
    );
}

#[test]
fn command_puts_each_parameter_behind_its_length() {
    let params = vec![vec![0xAA], vec![], vec![1, 2, 3]];
    assert_eq!(
        build_command(Opcode::MOVE, &params),
        Frame { proto: Protocol::FMP, data: vec![0x07, 3, 1, 0xAA, 0, 3, 1, 2, 3] }
    );
}

#[test]
fn command_sends_the_low_byte_of_long_lengths() {
    let params = vec![vec![7u8; 258]];
    let frame = build_command(Opcode::WRITE, &params);
    assert_eq!(frame.data.len(), 2 + 1 + 258);
    assert_eq!(frame.data[..4], [0x05, 1, 2, 7]);
    let many: Vec<Vec<u8>> = vec![vec![]; 257];
    let frame = build_command(Opcode::RM, &many);
    assert_eq!(frame.data.len(), 2 + 257);
    assert_eq!(frame.data[..3], [0x0A, 1, 0]);
}

#[test]
fn send_cmd_writes_the_command_and_frees_the_link() {
    let mut link = Link::new();
    let out = send_cmd(&mut link, Opcode::MEMINFO, vec![]);
    assert_eq!(out, encode(&[0x02, 0x01, 0x00, 0x5D, 0x4C]));
    assert!(!link.is_held());
}

#[test]
fn reply_without_parameters() {
    assert_eq!(
        read_reply(&[0x02, 0, 0], Opcode::DUMP),
        Ok(Reply { status: Errno::OK, params: vec![] })
    );
}

#[test]
fn reply_lengths_come_before_all_parameters() {
    let data = [0x06, 0, 3, 2, 0, 3, 10, 11, 20, 21, 22];
    assert_eq!(
        read_reply(&data, Opcode::LIST),
        Ok(Reply { status: Errno::OK, params: vec![vec![10, 11], vec![], vec![20, 21, 22]] })
    );
}

#[test]
fn reply_parameters_reproduce_the_body() {
    let lens = [5u8, 0, 1, 255, 3];
    let body: Vec<u8> = (0..264u32).map(|i| (i % 251) as u8).collect();
    let mut data = vec![0x04, 0, lens.len() as u8];
    data.extend_from_slice(&lens);
    data.extend_from_slice(&body);
    let reply = read_reply(&data, Opcode::READ).unwrap();
    assert_eq!(reply.params.len(), lens.len());
    for (p, len) in reply.params.iter().zip(lens) {
        assert_eq!(p.len(), len as usize);
    }
    assert_eq!(reply.params.concat(), body);
}

#[test]
fn reply_status_does_not_stop_the_reading() {
    assert_eq!(
        read_reply(&[0x02, 53, 1, 2, 8, 9], Opcode::DUMP),
        Ok(Reply { status: Errno::EBADR, params: vec![vec![8, 9]] })
    );
    assert_eq!(
        read_reply(&[0x02, 99, 0], Opcode::DUMP),
        Ok(Reply { status: Errno::EGENERIC, params: vec![] })
    );
}

#[test]
fn reply_ignores_bytes_behind_the_last_parameter() {
    assert_eq!(
        read_reply(&[0x02, 0, 1, 1, 8, 9, 9], Opcode::DUMP),
        Ok(Reply { status: Errno::OK, params: vec![vec![8]] })
    );
}

#[test]
fn reply_with_another_opcode_is_a_protocol_error() {
    assert_eq!(read_reply(&[0x03, 0, 0], Opcode::DUMP), Err(Error::Protocol));
    assert_eq!(read_reply(&[0x77, 0, 0], Opcode::DUMP), Err(Error::Protocol));
}

#[test]
fn reply_too_short_for_its_table_is_a_protocol_error() {
    assert_eq!(read_reply(&[], Opcode::DUMP), Err(Error::Protocol));
    assert_eq!(read_reply(&[0x02], Opcode::DUMP), Err(Error::Protocol));
    assert_eq!(read_reply(&[0x02, 0], Opcode::DUMP), Err(Error::Protocol));
    assert_eq!(read_reply(&[0x02, 0, 2, 1], Opcode::DUMP), Err(Error::Protocol));
    assert_eq!(read_reply(&[0x02, 0, 1, 3, 1, 2], Opcode::DUMP), Err(Error::Protocol));
    assert_eq!(read_reply(&[0x02, 0, 2, 1, 1, 5], Opcode::DUMP), Err(Error::Protocol));
}

#[test]
fn wait_reply_takes_the_link_and_gives_it_back() {
    let mut link = Link::new();
    assert_eq!(wait_reply(&mut link, Opcode::DUMP, &fmp_peer_bytes(0, b"log")), Ok(None));
    assert!(link.is_held());
    assert_eq!(
        wait_reply(&mut link, Opcode::DUMP, &fmp_peer_bytes(2, &[0x02, 0, 0])),
        Ok(Some(Reply { status: Errno::OK, params: vec![] }))
    );
    assert!(!link.is_held());
}

#[test]
fn wait_reply_refuses_a_mismatched_opcode() {
    let mut link = Link::new();
    assert_eq!(
        wait_reply(&mut link, Opcode::DUMP, &fmp_peer_bytes(2, &[0x01, 0, 0])),
        Err(Error::Protocol)
    );
    assert!(!link.is_held());
}

#[test]
fn meminfo_record_is_thirty_two_bytes() {
    let record = flash_record();
    assert_eq!(record.len(), 32);
    let mem = MemInfo::from_bytes(&record).unwrap();
    assert_eq!(mem, MemInfo { size: 0x0010_0000, flags: 0, name: name27(b"FLASH") });
    assert_eq!(mem.size, 1_048_576);
    assert_eq!(mem.to_bytes(), record);
}

#[test]
fn meminfo_reads_fields_at_their_offsets() {
    let record: Vec<u8> = (1..=32).collect();
    let mem = MemInfo::from_bytes(&record).unwrap();
    assert_eq!(mem.size, 0x0403_0201);
    assert_eq!(mem.flags, 5);
    let name: Vec<u8> = (6..=32).collect();
    assert_eq!(mem.name.to_vec(), name);
}

#[test]
fn meminfo_reads_the_first_record_of_a_longer_parameter() {
    let mut record = flash_record();
    record.extend_from_slice(&[1, 2, 3]);
    assert_eq!(
        MemInfo::from_bytes(&record),
        Ok(MemInfo { size: 0x0010_0000, flags: 0, name: name27(b"FLASH") })
    );
}

#[test]
fn meminfo_refuses_a_short_record() {
    assert_eq!(MemInfo::from_bytes(&[]), Err(Error::Protocol));
    assert_eq!(MemInfo::from_bytes(&flash_record()[..31]), Err(Error::Protocol));
}

#[test]
fn label_strips_trailing_padding() {
    let mem = MemInfo { size: 1, flags: 0, name: name27(b"FLASH") };
    assert_eq!(mem.label(), b"FLASH".to_vec());
    let mem = MemInfo { size: 1, flags: 0, name: name27(b"Ext Flash  ") };
    assert_eq!(mem.label(), b"Ext Flash".to_vec());
    let mem = MemInfo { size: 1, flags: 0, name: name27(b"A\0B \0 ") };
    assert_eq!(mem.label(), b"A\0B".to_vec());
    let mem = MemInfo { size: 1, flags: 0, name: [0u8; 27] };
    assert_eq!(mem.label(), Vec::<u8>::new());
    let mem = MemInfo { size: 1, flags: 0, name: [b'x'; 27] };
    assert_eq!(mem.label(), vec![b'x'; 27]);
}

#[test]
fn meminfo_scenario_lists_one_region() {
    let mut link = Link::new();
    let out = meminfo(&mut link);
    assert_eq!(out, encode(&[0x02, 0x01, 0x00, 0x5D, 0x4C]));
    assert!(!link.is_held());
    let mut data = vec![0x01, 0, 1, 32];
    data.extend(flash_record());
    let list = meminfo_reply(&mut link, &fmp_peer_bytes(2, &data)).unwrap().unwrap();
    assert_eq!(list.len(), 1);
    assert_eq!(list[0].size, 1024 * 1024);
    assert_eq!(list[0].flags, 0);
    assert_eq!(list[0].label(), b"FLASH".to_vec());
    assert!(!link.is_held());
}

#[test]
fn meminfo_reply_keeps_the_order_of_the_response() {
    let reply = Reply {
        status: Errno::OK,
        params: vec![
            MemInfo { size: 10, flags: 1, name: name27(b"A") }.to_bytes(),
            MemInfo { size: 20, flags: 2, name: name27(b"B") }.to_bytes(),
        ],
    };
    assert_eq!(
        read_meminfo(&reply),
        Ok(vec![
            MemInfo { size: 10, flags: 1, name: name27(b"A") },
            MemInfo { size: 20, flags: 2, name: name27(b"B") },
        ])
    );
}

#[test]
fn meminfo_reply_surfaces_the_status() {
    let reply = Reply { status: Errno::EBADRQC, params: vec![flash_record()] };
    assert_eq!(read_meminfo(&reply), Err(Error::Peer(Errno::EBADRQC)));
}

#[test]
fn meminfo_reply_refuses_a_short_record() {
    let reply = Reply { status: Errno::OK, params: vec![flash_record(), vec![1, 2, 3]] };
    assert_eq!(read_meminfo(&reply), Err(Error::Protocol));
    let mut link = Link::new();
    meminfo(&mut link);
    assert_eq!(meminfo_reply(&mut link, &fmp_peer_bytes(2, &[0x01, 0, 1, 2, 7, 7])), Err(Error::Protocol));
    assert!(!link.is_held());
}

#[test]
fn meminfo_reply_waits_for_the_response() {
    let mut link = Link::new();
    meminfo(&mut link);
    assert_eq!(meminfo_reply(&mut link, &[0xC0, 0x02]), Ok(None));
    assert!(link.is_held());
}

#[test]
fn dump_sends_the_low_byte_of_the_index() {
    let mut link = Link::new();
    assert_eq!(dump(&mut link, 0), encode(&[0x02, 0x02, 0x01, 0x01, 0x00, 0x24, 0x5C]));
    assert_eq!(dump(&mut link, 3)[1..6], [0x02, 0x02, 0x01, 0x01, 0x03]);
    assert_eq!(dump(&mut link, 258)[1..6], [0x02, 0x02, 0x01, 0x01, 0x02]);
    assert!(!link.is_held());
}

#[test]
fn dump_reply_opens_the_transfer() {
    let mut link = Link::new();
    let mem = MemInfo { size: 2050, flags: 0, name: name27(b"FLASH") };
    dump(&mut link, 0);
    assert_eq!(dump_reply(&mut link, &mem, &[]), Ok(None));
    assert!(link.is_held());
    let (receiver, start) = dump_reply(&mut link, &mem, &fmp_peer_bytes(2, &[0x02, 0, 0])).unwrap().unwrap();
    assert_eq!(receiver.size(), 2050);
    assert_eq!(receiver.received(), 0);
    assert_eq!(start, encode(&[0x03, 0x06, 0x55, 0xB1]));
    assert!(link.is_held());
}

#[test]
fn dump_reply_of_an_empty_memory_needs_no_block() {
    let mut link = Link::new();
    let mem = MemInfo { size: 0, flags: 0, name: name27(b"NONE") };
    dump(&mut link, 1);
    let (receiver, start) = dump_reply(&mut link, &mem, &fmp_peer_bytes(2, &[0x02, 0, 0])).unwrap().unwrap();
    assert!(receiver.is_complete());
    assert_eq!(start, encode(&[0x03, 0x06, 0x55, 0xB1]));
    assert!(!link.is_held());
}

#[test]
fn dump_reply_surfaces_the_status() {
    let mut link = Link::new();
    let mem = MemInfo { size: 10, flags: 0, name: name27(b"FLASH") };
    dump(&mut link, 9);
    assert_eq!(
        dump_reply(&mut link, &mem, &fmp_peer_bytes(2, &[0x02, 53, 0])),
        Err(Error::Peer(Errno::EBADR))
    );
    assert!(!link.is_held());
}

#[test]
fn flash_sends_the_low_byte_of_the_index() {
    let mut link = Link::new();
    assert_eq!(flash(&mut link, 1)[1..6], [0x02, 0x03, 0x01, 0x01, 0x01]);
    assert!(!link.is_held());
}

#[test]
fn flash_reply_cuts_the_content_into_blocks() {
    let mut link = Link::new();
    let mem = MemInfo { size: 1025, flags: 0, name: name27(b"FLASH") };
    let content: Vec<u8> = (0..1025u32).map(|i| (i % 256) as u8).collect();
    flash(&mut link, 0);
    let frames = flash_reply(&mut link, &mem, &content, &fmp_peer_bytes(2, &[0x03, 0, 0])).unwrap().unwrap();
    assert_eq!(frames.len(), 2);
    assert_eq!(frames[0].data.len(), 1024);
    assert_eq!(frames[1].data, vec![2, 253, content[1022], content[1023], content[1024]]);
    assert!(!link.is_held());
}

#[test]
fn flash_reply_refuses_content_of_another_size() {
    let mut link = Link::new();
    let mem = MemInfo { size: 4, flags: 0, name: name27(b"FLASH") };
    flash(&mut link, 0);
    assert_eq!(
        flash_reply(&mut link, &mem, &[1, 2, 3], &fmp_peer_bytes(2, &[0x03, 0, 0])),
        Err(Error::SizeMismatch)
    );
    assert!(!link.is_held());
}

#[test]
fn flash_reply_surfaces_the_status() {
    let mut link = Link::new();
    let mem = MemInfo { size: 3, flags: 0, name: name27(b"FLASH") };
    flash(&mut link, 0);
    assert_eq!(
        flash_reply(&mut link, &mem, &[1, 2, 3], &fmp_peer_bytes(2, &[0x03, 7, 0])),
        Err(Error::Peer(Errno::E2BIG))
    );
}
