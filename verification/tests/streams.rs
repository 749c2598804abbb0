use smolv::decoder::{module_size, read_frame, read_heads, take_instructions, Cursor, Decoder};
use smolv::encoder::{encode_instructions, next_instruction, Encoder};
use smolv::frame::{append_bytes, read_section, write_section};
use smolv::header::{write_header, Header, COMPACT_MAGIC};
use smolv::stream::{DeltaState, Head};
use smolv::table::Role;
use smolv::{write_4, EncodeFlags, ErrorKind};

fn words(words: &[u32]) -> Vec<u8> {
    let mut bytes = Vec::new();
    for word in words {
        write_4(&mut bytes, *word);
    }
    bytes
}

#[test]
fn delta_state_packs_identifiers_against_the_last() {
    let mut state = DeltaState::new();
    assert_eq!(state, DeltaState { result: 0, ty: 0 });
    assert_eq!(state.pack(Role::ResultId, 7), 14);
    assert_eq!(state.pack(Role::ResultId, 8), 2);
    assert_eq!(state.pack(Role::ResultId, 6), 3);
    assert_eq!(state.pack(Role::TypeId, 6), 12);
    assert_eq!(state.pack(Role::TypeId, 6), 0);
    assert_eq!(state.pack(Role::IdRef, 6), 6);
    assert_eq!(state.pack(Role::Literal, 0xFFFF_FFFF), 0xFFFF_FFFF);
    assert_eq!(state, DeltaState { result: 6, ty: 6 });
    assert_eq!(state.pack(Role::ResultId, 0xFFFF_FFFF), 2 * (0xFFFF_FFFF - 6));
    assert_eq!(state.pack(Role::ResultId, 0), 2 * 0xFFFF_FFFF - 1);
}

#[test]
fn delta_state_unpacks_what_it_packed() {
    let mut writer = DeltaState::new();
    let mut reader = DeltaState::new();
    let operands = [
        (Role::ResultId, 5u32),
        (Role::TypeId, 9),
        (Role::ResultId, 2),
        (Role::IdRef, 77),
        (Role::Literal, u32::MAX),
        (Role::TypeId, u32::MAX),
        (Role::ResultId, 0),
        (Role::TypeId, 0),
    ];
    for (role, value) in operands {
        let code = writer.pack(role, value);
        assert_eq!(reader.unpack(role, code), Ok(value));
        assert_eq!(reader, writer);
    }
}

#[test]
fn delta_state_refuses_what_is_no_word() {
    let mut state = DeltaState { result: 3, ty: 0xFFFF_FFFF };
    assert_eq!(state.unpack(Role::ResultId, 7), Err(ErrorKind::Overflow));
    assert_eq!(state.unpack(Role::ResultId, 5), Ok(0));
    assert_eq!(state.unpack(Role::TypeId, 2), Err(ErrorKind::Overflow));
    assert_eq!(state.unpack(Role::TypeId, u64::MAX), Err(ErrorKind::Overflow));
    assert_eq!(state.unpack(Role::TypeId, u64::MAX - 1), Err(ErrorKind::Overflow));
    assert_eq!(state.unpack(Role::Literal, 0x1_0000_0000), Err(ErrorKind::Overflow));
    assert_eq!(state.unpack(Role::IdRef, 0x1_0000_0000), Err(ErrorKind::Overflow));
    assert_eq!(state, DeltaState { result: 0, ty: 0xFFFF_FFFF });
    assert_eq!(state.unpack(Role::TypeId, 2 * 0xFFFF_FFFF - 1), Ok(0));
}

#[test]
fn sections_are_length_then_bytes() {
    let mut out = vec![0xAAu8];
    write_section(&mut out, &[]);
    write_section(&mut out, &[7, 8, 9]);
    let long = vec![5u8; 200];
    write_section(&mut out, &long);
    assert_eq!(&out[..8], &[0xAA, 0, 3, 7, 8, 9, 0xC8, 0x01]);
    assert_eq!(out.len(), 8 + 200);
    assert_eq!(read_section(&out, 1), Ok((2, 2)));
    assert_eq!(read_section(&out, 2), Ok((3, 6)));
    assert_eq!(read_section(&out, 6), Ok((8, 208)));
    assert_eq!(read_section(&out, 208), Err(ErrorKind::Truncated));
    assert_eq!(read_section(&out[..207], 6), Err(ErrorKind::Truncated));
}

#[test]
fn append_bytes_appends() {
    let mut out = vec![1u8];
    append_bytes(&mut out, &[]);
    append_bytes(&mut out, &[2, 3]);
    assert_eq!(out, vec![1, 2, 3]);
}

#[test]
fn encoder_routes_operands_by_role() {
    let mut encoder = Encoder::new();
    encoder.put_head(128, 5);
    encoder.put_operand(Role::TypeId, 6);
    encoder.put_operand(Role::ResultId, 20);
    encoder.put_operand(Role::IdRef, 300);
    encoder.put_operand(Role::Literal, 1);
    assert_eq!(encoder.ops, vec![0x80, 0x01, 5]);
    assert_eq!(encoder.types, vec![12]);
    assert_eq!(encoder.results, vec![40]);
    assert_eq!(encoder.refs, vec![0xAC, 0x02]);
    assert_eq!(encoder.literals, vec![1]);
    assert_eq!(encoder.state, DeltaState { result: 20, ty: 6 });
    let header = Header { version: 1, generator: 2, bound: 3, schema: 4 };
    let out = encoder.finish(&header);
    let mut expected = Vec::new();
    write_header(&mut expected, COMPACT_MAGIC, &header);
    expected.extend([3, 0x80, 0x01, 5, 1, 40, 1, 12, 2, 0xAC, 0x02, 1, 1]);
    assert_eq!(out, expected);
}

#[test]
fn encoder_puts_an_instruction_from_its_words() {
    let body = words(&[(5 << 16) | 129, 6, 20, 300, 301, (2 << 16) | 248, 21]);
    assert_eq!(next_instruction(&body, 0), Ok((129, 5)));
    assert_eq!(next_instruction(&body, 20), Ok((248, 2)));
    let mut encoder = Encoder::new();
    encoder.put_instruction(&body, 0, 129, 5);
    encoder.put_instruction(&body, 20, 248, 2);
    assert_eq!(encoder.ops, vec![0x81, 0x01, 5, 0xF8, 0x01, 2]);
    assert_eq!(encoder.types, vec![12]);
    assert_eq!(encoder.results, vec![40, 2]);
    assert_eq!(encoder.refs, vec![0xAC, 0x02, 0xAD, 0x02]);
    assert!(encoder.literals.is_empty());
    let all = encode_instructions(&body, EncodeFlags::NoFlags).unwrap();
    assert_eq!(all.ops, encoder.ops);
    assert_eq!(all.results, encoder.results);
    assert_eq!(all.state, encoder.state);
}

#[test]
fn next_instruction_checks_the_word_count() {
    let body = words(&[(3 << 16) | 17, 1]);
    assert_eq!(next_instruction(&body, 0), Err(ErrorKind::Truncated));
    assert_eq!(next_instruction(&body, 4), Err(ErrorKind::InvalidFormat));
    assert_eq!(next_instruction(&body, 5), Err(ErrorKind::Truncated));
    assert_eq!(encode_instructions(&body, EncodeFlags::NoFlags).err(), Some(ErrorKind::Truncated));
}

#[test]
fn heads_are_read_from_the_opcode_stream() {
    assert_eq!(read_heads(&[]), Ok(vec![]));
    assert_eq!(
        read_heads(&[17, 2, 0xF8, 0x01, 2, 0xFF, 0xFF, 0x03, 0xFF, 0xFF, 0x03]),
        Ok(vec![
            Head { opcode: 17, words: 2 },
            Head { opcode: 248, words: 2 },
            Head { opcode: 0xFFFF, words: 0xFFFF }
        ])
    );
    assert_eq!(read_heads(&[17, 2, 5]), Err(ErrorKind::Truncated));
    assert_eq!(read_heads(&[17, 0]), Err(ErrorKind::InvalidFormat));
    assert_eq!(read_heads(&[0x80, 0x80, 0x04, 1]), Err(ErrorKind::Overflow));
}

#[test]
fn module_size_counts_header_and_words() {
    assert_eq!(module_size(&vec![]), Ok(20));
    assert_eq!(
        module_size(&vec![Head { opcode: 1, words: 1 }, Head { opcode: 2, words: 0xFFFF }]),
        Ok(20 + 4 * 0x1_0000)
    );
}

#[test]
fn cursor_reads_numbers_in_order() {
    let bytes = [5u8, 0xAC, 0x02, 0x80];
    let mut cursor = Cursor::new(&bytes);
    assert!(!cursor.is_spent());
    assert_eq!(cursor.read(), Ok(5));
    assert_eq!(cursor.read(), Ok(300));
    assert_eq!(cursor.at, 3);
    assert_eq!(cursor.read(), Err(ErrorKind::Truncated));
    assert_eq!(cursor.at, 3);
    let mut other = Cursor::new(&bytes[..3]);
    assert_eq!(other.read(), Ok(5));
    assert_eq!(other.read(), Ok(300));
    assert!(other.is_spent());
    assert_eq!(other.read(), Err(ErrorKind::Truncated));
}

#[test]
fn decoder_replays_what_the_encoder_wrote() {
    let body = words(&[(5 << 16) | 129, 6, 20, 300, 301, (2 << 16) | 248, 21, (1 << 16) | 253]);
    let encoder = encode_instructions(&body, EncodeFlags::NoFlags).unwrap();
    let header = Header { version: 1, generator: 2, bound: 3, schema: 4 };
    let encoded = encoder.finish(&header);
    let frame = read_frame(&encoded).unwrap();
    assert_eq!(frame.header, header);
    assert_eq!(frame.ops, &encoder.ops[..]);
    assert_eq!(frame.results, &encoder.results[..]);
    assert_eq!(frame.types, &encoder.types[..]);
    assert_eq!(frame.refs, &encoder.refs[..]);
    assert_eq!(frame.literals, &encoder.literals[..]);
    let heads = read_heads(frame.ops).unwrap();
    assert_eq!(module_size(&heads), Ok(20 + body.len()));
    let mut decoder = Decoder::new(&frame);
    let mut out = Vec::new();
    assert_eq!(decoder.take_operand(Role::TypeId), Ok(6));
    assert_eq!(decoder.take_operand(Role::ResultId), Ok(20));
    assert_eq!(decoder.take_operand(Role::Literal), Err(ErrorKind::Truncated));
    let mut decoder = Decoder::new(&frame);
    assert_eq!(take_instructions(&mut decoder, &mut out, &heads), Ok(()));
    assert_eq!(out, body);
    assert!(decoder.is_spent());
    assert_eq!(decoder.state, encoder.state);
}

#[test]
fn decoder_takes_one_instruction() {
    let header = Header { version: 1, generator: 2, bound: 3, schema: 4 };
    let mut encoded = Vec::new();
    write_header(&mut encoded, COMPACT_MAGIC, &header);
    encoded.extend([0, 1, 40, 1, 12, 2, 9, 8, 1, 1]);
    let frame = read_frame(&encoded).unwrap();
    let mut decoder = Decoder::new(&frame);
    let mut out = vec![0xEEu8];
    assert_eq!(decoder.take_instruction(&mut out, Head { opcode: 128, words: 5 }), Ok(()));
    let mut expected = vec![0xEEu8];
    expected.extend(words(&[(5 << 16) | 128, 6, 20, 9, 8]));
    assert_eq!(out, expected);
    assert!(!decoder.is_spent());
    assert_eq!(decoder.take_instruction(&mut out, Head { opcode: 17, words: 2 }), Ok(()));
    assert!(decoder.is_spent());
    assert_eq!(
        decoder.take_instruction(&mut out, Head { opcode: 17, words: 2 }),
        Err(ErrorKind::Truncated)
    );
}
