use smolv::frame::write_section;
use smolv::header::{write_header, Header, COMPACT_MAGIC, VERBOSE_MAGIC};
use smolv::varint::encode_varint;
use smolv::{
    decode, decode_from, encode, encode_into, get_decoded_buffer_size, write_4, EncodeFlags,
    ErrorKind,
};

fn header() -> Header {
    Header { version: 0x0001_0000, generator: 0, bound: 1, schema: 0 }
}

fn instruction(opcode: u16, operands: &[u32]) -> Vec<u32> {
    let mut words = vec![(opcode as u32) | (((operands.len() + 1) as u32) << 16)];
    words.extend_from_slice(operands);
    words
}

fn module(header: &Header, instructions: &[Vec<u32>]) -> Vec<u8> {
    let mut bytes = Vec::new();
    write_header(&mut bytes, VERBOSE_MAGIC, header);
    for words in instructions {
        for word in words {
            write_4(&mut bytes, *word);
        }
    }
    bytes
}

fn compact(header: &Header, sections: [&[u8]; 5]) -> Vec<u8> {
    let mut bytes = Vec::new();
    write_header(&mut bytes, COMPACT_MAGIC, header);
    for section in sections {
        write_section(&mut bytes, section);
    }
    bytes
}

fn sample_instructions() -> Vec<Vec<u32>> {
    vec![
        instruction(17, &[1]),
        instruction(11, &[1, 0x4C53_4C47, 0x6474_732E, 0x3035_342E, 0]),
        instruction(14, &[0, 1]),
        instruction(15, &[4, 4, 0x6E69_616D, 0, 9]),
        instruction(3, &[2, 450]),
        instruction(5, &[4, 0x6E69_616D, 0]),
        instruction(5, &[9, 0x6F6C_6F63, 0x72]),
        instruction(6, &[7, 0, 0x78]),
        instruction(71, &[9, 30, 0]),
        instruction(19, &[2]),
        instruction(33, &[3, 2]),
        instruction(22, &[6, 32]),
        instruction(23, &[7, 6, 4]),
        instruction(32, &[8, 3, 7]),
        instruction(59, &[8, 9, 3]),
        instruction(43, &[6, 10, 0x3F80_0000]),
        instruction(44, &[7, 11, 10, 10, 10, 10]),
        instruction(54, &[2, 4, 0, 3]),
        instruction(248, &[5]),
        instruction(8, &[1, 12, 5]),
        instruction(62, &[9, 11]),
        instruction(317, &[]),
        instruction(61, &[7, 12, 9]),
        instruction(129, &[7, 13, 12, 11]),
        instruction(62, &[9, 13, 2, 4]),
        instruction(253, &[]),
        instruction(56, &[]),
        instruction(330, &[0x7473_6574, 0]),
    ]
}

fn sample() -> Vec<u8> {
    let header = Header { version: 0x0001_0300, generator: 0x0008_000A, bound: 14, schema: 0 };
    module(&header, &sample_instructions())
}

fn sample_without_debug() -> Vec<u8> {
    let header = Header { version: 0x0001_0300, generator: 0x0008_000A, bound: 14, schema: 0 };
    let kept: Vec<Vec<u32>> = sample_instructions()
        .into_iter()
        .filter(|words| ![2u32, 3, 4, 5, 6, 7, 8, 317, 330].contains(&(words[0] & 0xFFFF)))
        .collect();
    module(&header, &kept)
}

#[test]
fn header_only_module_encodes_to_header_and_empty_sections() {
    let source = module(&header(), &[]);
    assert_eq!(
        source,
        vec![0x03, 0x02, 0x23, 0x07, 0, 0, 1, 0, 0, 0, 0, 0, 1, 0, 0, 0, 0, 0, 0, 0]
    );
    let encoded = encode(&source, EncodeFlags::NoFlags).unwrap();
    assert_eq!(
        encoded,
        vec![
            0x4C, 0x4F, 0x4D, 0x53, 0, 0, 1, 0, 0, 0, 0, 0, 1, 0, 0, 0, 0, 0, 0, 0, 0, 0, 0, 0, 0
        ]
    );
    assert_eq!(&encoded[..4], &COMPACT_MAGIC.to_le_bytes());
    assert_eq!(&encoded[4..20], &source[4..20]);
    assert_eq!(&encoded[20..], &[0u8; 5]);
    assert_eq!(decode(&encoded), Ok(source));
}

#[test]
fn header_only_module_encodes_the_same_when_stripping() {
    let source = module(&header(), &[]);
    assert_eq!(
        encode(&source, EncodeFlags::StripDebugInfo),
        encode(&source, EncodeFlags::NoFlags)
    );
}

#[test]
fn small_module_encodes_to_exact_bytes() {
    let head = Header { version: 0x0001_0000, generator: 0, bound: 3, schema: 0 };
    let source =
        module(&head, &[instruction(21, &[1, 32, 0]), instruction(43, &[1, 2, 300])]);
    let encoded = encode(&source, EncodeFlags::NoFlags).unwrap();
    let expected = compact(&head, [&[21, 4, 43, 4], &[2, 2], &[2], &[], &[32, 0, 0xAC, 0x02]]);
    assert_eq!(encoded, expected);
    assert_eq!(
        &encoded[20..],
        &[4, 21, 4, 43, 4, 2, 2, 2, 1, 2, 0, 4, 32, 0, 0xAC, 0x02]
    );
    assert_eq!(decode(&encoded), Ok(source));
}

#[test]
fn identifiers_are_written_as_folded_differences() {
    let source = module(
        &header(),
        &[
            instruction(248, &[5]),
            instruction(248, &[3]),
            instruction(248, &[3]),
            instruction(248, &[0xFFFF_FFFF]),
            instruction(248, &[0]),
        ],
    );
    let encoded = encode(&source, EncodeFlags::NoFlags).unwrap();
    let mut results = vec![10u8, 3, 0];
    results.extend(encode_varint(2 * (0xFFFF_FFFF - 3)));
    results.extend(encode_varint(2 * 0xFFFF_FFFF - 1));
    let ops = [248u8, 1, 2].repeat(5);
    assert_eq!(encoded, compact(&header(), [&ops, &results, &[], &[], &[]]));
    assert_eq!(decode(&encoded), Ok(source));
}

#[test]
fn references_and_literals_are_written_as_they_are() {
    let source = module(&header(), &[instruction(62, &[9, 200, 2, 4])]);
    let encoded = encode(&source, EncodeFlags::NoFlags).unwrap();
    assert_eq!(
        encoded,
        compact(&header(), [&[62, 5], &[], &[], &[9, 0xC8, 0x01], &[2, 4]])
    );
}

#[test]
fn sample_round_trips() {
    let source = sample();
    let encoded = encode(&source, EncodeFlags::NoFlags).unwrap();
    assert!(encoded.len() < source.len());
    assert_eq!(decode(&encoded), Ok(source));
}

#[test]
fn modules_of_many_shapes_round_trip() {
    let mut state: u32 = 0x1234_5678;
    let mut next = move || {
        state ^= state << 13;
        state ^= state >> 17;
        state ^= state << 5;
        state
    };
    for round in 0..200 {
        let mut instructions = Vec::new();
        let count = next() % 12;
        for _ in 0..count {
            let opcode = match next() % 4 {
                0 => (next() % 367) as u16,
                1 => (next() % 65_536) as u16,
                2 => 128,
                _ => 5,
            };
            let len = (next() % 9) as usize;
            let operands: Vec<u32> = (0..len)
                .map(|_| match next() % 3 {
                    0 => next(),
                    1 => next() % 100,
                    _ => u32::MAX - next() % 3,
                })
                .collect();
            instructions.push(instruction(opcode, &operands));
        }
        let head = Header { version: next(), generator: next(), bound: next(), schema: next() };
        let source = module(&head, &instructions);
        let encoded = encode(&source, EncodeFlags::NoFlags).unwrap();
        assert_eq!(decode(&encoded), Ok(source.clone()), "round {}", round);
        assert_eq!(get_decoded_buffer_size(&encoded), Ok(source.len()));
    }
}

#[test]
fn longest_instruction_round_trips() {
    let operands: Vec<u32> = (0..0xFFFEu32).map(|i| i.wrapping_mul(0x9E37_79B9)).collect();
    let source = module(&header(), &[instruction(44, &operands), instruction(253, &[])]);
    let encoded = encode(&source, EncodeFlags::NoFlags).unwrap();
    assert_eq!(decode(&encoded), Ok(source));
}

#[test]
fn unknown_opcode_round_trips_as_literals() {
    let source = module(
        &header(),
        &[
            instruction(19, &[2]),
            instruction(5000, &[0xDEAD_BEEF, 0xFFFF_FFFF, 0, 7]),
            instruction(0xFFFF, &[]),
            instruction(248, &[3]),
        ],
    );
    let encoded = encode(&source, EncodeFlags::NoFlags).unwrap();
    let mut ops = vec![19u8, 2];
    ops.extend(encode_varint(5000));
    ops.push(5);
    ops.extend(encode_varint(0xFFFF));
    ops.push(1);
    ops.extend([0xF8, 0x01, 2]);
    let mut literals = encode_varint(0xDEAD_BEEF);
    literals.extend(encode_varint(0xFFFF_FFFF));
    literals.extend([0, 7]);
    assert_eq!(encoded, compact(&header(), [&ops, &[4, 2], &[], &[], &literals]));
    assert_eq!(decode(&encoded), Ok(source.clone()));
    assert_eq!(encode(&source, EncodeFlags::StripDebugInfo), Ok(encoded));
}

#[test]
fn stripping_leaves_out_debug_instructions() {
    let source = sample();
    let lean = sample_without_debug();
    assert!(lean.len() < source.len());
    let stripped = encode(&source, EncodeFlags::StripDebugInfo).unwrap();
    assert_eq!(decode(&stripped), Ok(lean.clone()));
    assert_eq!(Ok(stripped.clone()), encode(&lean, EncodeFlags::NoFlags));
    assert_ne!(Ok(stripped), encode(&source, EncodeFlags::NoFlags));
}

#[test]
fn stripping_twice_gives_the_same_bytes() {
    let source = sample();
    let once = encode(&source, EncodeFlags::StripDebugInfo).unwrap();
    let decoded = decode(&once).unwrap();
    let twice = encode(&decoded, EncodeFlags::StripDebugInfo).unwrap();
    assert_eq!(once, twice);
    assert_eq!(decode(&twice), Ok(decoded));
}

#[test]
fn stripped_identifiers_do_not_move_the_differences() {
    let source = module(
        &header(),
        &[instruction(248, &[5]), instruction(7, &[90, 0x61]), instruction(248, &[6])],
    );
    let stripped = encode(&source, EncodeFlags::StripDebugInfo).unwrap();
    assert_eq!(stripped, compact(&header(), [&[248, 1, 2, 248, 1, 2], &[10, 2], &[], &[], &[]]));
    let whole = encode(&source, EncodeFlags::NoFlags).unwrap();
    let mut results = vec![10u8];
    results.extend(encode_varint(170));
    results.extend(encode_varint(167));
    assert_eq!(
        whole,
        compact(&header(), [&[248, 1, 2, 7, 3, 248, 1, 2], &results, &[], &[], &[0x61]])
    );
}

#[test]
fn flipped_magic_bit_is_invalid_format() {
    let encoded = encode(&sample(), EncodeFlags::NoFlags).unwrap();
    for bit in 0..32 {
        let mut corrupt = encoded.clone();
        corrupt[bit / 8] ^= 1 << (bit % 8);
        assert_eq!(decode(&corrupt), Err(ErrorKind::InvalidFormat), "bit {}", bit);
        assert_eq!(get_decoded_buffer_size(&corrupt), Err(ErrorKind::InvalidFormat));
    }
}

#[test]
fn verbose_module_is_not_a_compact_one() {
    assert_eq!(decode(&sample()), Err(ErrorKind::InvalidFormat));
    let encoded = encode(&sample(), EncodeFlags::NoFlags).unwrap();
    assert_eq!(encode(&encoded, EncodeFlags::NoFlags), Err(ErrorKind::InvalidFormat));
}

#[test]
fn every_prefix_is_truncated() {
    for source in [module(&header(), &[]), sample(), sample_without_debug()] {
        let encoded = encode(&source, EncodeFlags::NoFlags).unwrap();
        for len in 0..encoded.len() {
            assert_eq!(decode(&encoded[..len]), Err(ErrorKind::Truncated), "length {}", len);
            assert_eq!(get_decoded_buffer_size(&encoded[..len]), Err(ErrorKind::Truncated));
        }
        assert_eq!(decode(&encoded), Ok(source));
    }
}

#[test]
fn bytes_behind_the_last_section_are_invalid() {
    let mut encoded = encode(&sample(), EncodeFlags::NoFlags).unwrap();
    encoded.push(0);
    assert_eq!(decode(&encoded), Err(ErrorKind::InvalidFormat));
    assert_eq!(get_decoded_buffer_size(&encoded), Err(ErrorKind::InvalidFormat));
}

#[test]
fn section_longer_than_the_buffer_is_truncated() {
    let mut encoded = Vec::new();
    write_header(&mut encoded, COMPACT_MAGIC, &header());
    encoded.extend([3, 17, 2]);
    assert_eq!(decode(&encoded), Err(ErrorKind::Truncated));
    let mut huge = Vec::new();
    write_header(&mut huge, COMPACT_MAGIC, &header());
    huge.extend(encode_varint(u64::MAX));
    huge.extend([0, 0, 0, 0, 0, 0]);
    assert_eq!(decode(&huge), Err(ErrorKind::Truncated));
}

#[test]
fn section_length_of_eleven_groups_is_overflow() {
    let mut encoded = Vec::new();
    write_header(&mut encoded, COMPACT_MAGIC, &header());
    encoded.extend([0x80u8; 10]);
    encoded.extend([0u8; 8]);
    assert_eq!(decode(&encoded), Err(ErrorKind::Overflow));
    assert_eq!(get_decoded_buffer_size(&encoded), Err(ErrorKind::Overflow));
}

#[test]
fn opcode_beyond_sixteen_bits_is_overflow() {
    let mut ops = encode_varint(0x1_0000);
    ops.push(1);
    let encoded = compact(&header(), [&ops, &[], &[], &[], &[]]);
    assert_eq!(decode(&encoded), Err(ErrorKind::Overflow));
    assert_eq!(get_decoded_buffer_size(&encoded), Err(ErrorKind::Overflow));
}

#[test]
fn word_count_beyond_sixteen_bits_is_overflow() {
    let mut ops = vec![1u8];
    ops.extend(encode_varint(0x1_0000));
    let encoded = compact(&header(), [&ops, &[], &[], &[], &[]]);
    assert_eq!(decode(&encoded), Err(ErrorKind::Overflow));
}

#[test]
fn instruction_of_no_words_is_invalid() {
    let encoded = compact(&header(), [&[253, 1, 0], &[], &[], &[], &[]]);
    assert_eq!(decode(&encoded), Err(ErrorKind::InvalidFormat));
    assert_eq!(get_decoded_buffer_size(&encoded), Err(ErrorKind::InvalidFormat));
}

#[test]
fn opcode_without_word_count_is_truncated() {
    let encoded = compact(&header(), [&[17], &[], &[], &[], &[]]);
    assert_eq!(decode(&encoded), Err(ErrorKind::Truncated));
    assert_eq!(get_decoded_buffer_size(&encoded), Err(ErrorKind::Truncated));
}

#[test]
fn missing_operand_is_truncated() {
    let encoded = compact(&header(), [&[21, 4], &[2], &[], &[], &[32]]);
    assert_eq!(decode(&encoded), Err(ErrorKind::Truncated));
    assert_eq!(get_decoded_buffer_size(&encoded), Ok(36));
    let cut = compact(&header(), [&[17, 2], &[], &[], &[], &[0x80]]);
    assert_eq!(decode(&cut), Err(ErrorKind::Truncated));
}

#[test]
fn operand_left_over_is_invalid() {
    let encoded = compact(&header(), [&[17, 2], &[], &[], &[], &[1, 1]]);
    assert_eq!(decode(&encoded), Err(ErrorKind::InvalidFormat));
    let other = compact(&header(), [&[], &[], &[2], &[], &[]]);
    assert_eq!(decode(&other), Err(ErrorKind::InvalidFormat));
    assert_eq!(get_decoded_buffer_size(&other), Ok(20));
}

#[test]
fn literal_beyond_a_word_is_overflow() {
    let literals = encode_varint(0x1_0000_0000);
    let encoded = compact(&header(), [&[17, 2], &[], &[], &[], &literals]);
    assert_eq!(decode(&encoded), Err(ErrorKind::Overflow));
    let fits = encode_varint(0xFFFF_FFFF);
    let encoded = compact(&header(), [&[17, 2], &[], &[], &[], &fits]);
    assert_eq!(decode(&encoded), Ok(module(&header(), &[instruction(17, &[0xFFFF_FFFF])])));
}

#[test]
fn identifier_outside_a_word_is_overflow() {
    let below = compact(&header(), [&[248, 1, 2], &[1], &[], &[], &[]]);
    assert_eq!(decode(&below), Err(ErrorKind::Overflow));
    let above = encode_varint(2 * 0x1_0000_0000);
    let above = compact(&header(), [&[248, 1, 2], &above, &[], &[], &[]]);
    assert_eq!(decode(&above), Err(ErrorKind::Overflow));
    let far = encode_varint(u64::MAX);
    let far = compact(&header(), [&[248, 1, 2], &far, &[], &[], &[]]);
    assert_eq!(decode(&far), Err(ErrorKind::Overflow));
    let top = encode_varint(2 * 0xFFFF_FFFF);
    let top = compact(&header(), [&[248, 1, 2], &top, &[], &[], &[]]);
    assert_eq!(decode(&top), Ok(module(&header(), &[instruction(248, &[0xFFFF_FFFF])])));
}

#[test]
fn opcode_stream_is_read_before_the_operands() {
    let encoded = compact(&header(), [&[21, 4, 17, 0], &[], &[], &[], &[]]);
    assert_eq!(decode(&encoded), Err(ErrorKind::InvalidFormat));
}

#[test]
fn encode_refuses_short_input_as_truncated() {
    let source = sample();
    for len in 0..20 {
        assert_eq!(encode(&source[..len], EncodeFlags::NoFlags), Err(ErrorKind::Truncated));
    }
}

#[test]
fn encode_refuses_wrong_magic_as_invalid() {
    let mut source = sample();
    source[0] ^= 1;
    assert_eq!(encode(&source, EncodeFlags::NoFlags), Err(ErrorKind::InvalidFormat));
    assert_eq!(encode(&source[..4], EncodeFlags::StripDebugInfo), Err(ErrorKind::InvalidFormat));
    assert_eq!(encode(&[0u8; 64], EncodeFlags::NoFlags), Err(ErrorKind::InvalidFormat));
}

#[test]
fn encode_refuses_part_of_a_word_as_truncated() {
    let mut source = sample();
    source.extend([1, 0]);
    assert_eq!(encode(&source, EncodeFlags::NoFlags), Err(ErrorKind::Truncated));
    source.push(1);
    assert_eq!(encode(&source, EncodeFlags::NoFlags), Err(ErrorKind::Truncated));
}

#[test]
fn encode_refuses_part_of_an_instruction_as_truncated() {
    let mut source = module(&header(), &[instruction(128, &[1, 2, 3, 4])]);
    source.truncate(source.len() - 4);
    assert_eq!(encode(&source, EncodeFlags::NoFlags), Err(ErrorKind::Truncated));
    assert_eq!(encode(&source, EncodeFlags::StripDebugInfo), Err(ErrorKind::Truncated));
}

#[test]
fn encode_refuses_an_instruction_of_no_words_as_invalid() {
    let mut source = module(&header(), &[instruction(253, &[])]);
    write_4(&mut source, 17);
    write_4(&mut source, 1);
    assert_eq!(encode(&source, EncodeFlags::NoFlags), Err(ErrorKind::InvalidFormat));
}

#[test]
fn encode_refuses_a_broken_debug_instruction_even_when_stripping() {
    let mut source = module(&header(), &[instruction(5, &[4, 0x61])]);
    source.truncate(source.len() - 4);
    assert_eq!(encode(&source, EncodeFlags::StripDebugInfo), Err(ErrorKind::Truncated));
}

#[test]
fn size_is_the_length_of_what_decode_gives() {
    let source = sample();
    let encoded = encode(&source, EncodeFlags::NoFlags).unwrap();
    assert_eq!(get_decoded_buffer_size(&encoded), Ok(source.len()));
    let empty = encode(&module(&header(), &[]), EncodeFlags::NoFlags).unwrap();
    assert_eq!(get_decoded_buffer_size(&empty), Ok(20));
    let one = compact(&header(), [&[128, 1, 5], &[4], &[2], &[1, 1], &[]]);
    assert_eq!(get_decoded_buffer_size(&one), Ok(40));
    assert_eq!(decode(&one).map(|module| module.len()), Ok(40));
}

#[test]
fn size_of_a_stripped_module_counts_what_is_left() {
    let stripped = encode(&sample(), EncodeFlags::StripDebugInfo).unwrap();
    assert_eq!(get_decoded_buffer_size(&stripped), Ok(sample_without_debug().len()));
}

#[test]
fn encode_into_appends_to_the_sink() {
    let source = sample();
    let mut sink = vec![1u8, 2, 3];
    assert_eq!(encode_into(&mut sink, &source, EncodeFlags::NoFlags), Ok(()));
    let mut expected = vec![1u8, 2, 3];
    expected.extend(encode(&source, EncodeFlags::NoFlags).unwrap());
    assert_eq!(sink, expected);
    assert_eq!(encode_into(&mut sink, &source, EncodeFlags::StripDebugInfo), Ok(()));
    expected.extend(encode(&source, EncodeFlags::StripDebugInfo).unwrap());
    assert_eq!(sink, expected);
}

#[test]
fn encode_into_leaves_the_sink_on_error() {
    let mut sink = vec![1u8, 2, 3];
    assert_eq!(
        encode_into(&mut sink, &[0u8; 40], EncodeFlags::NoFlags),
        Err(ErrorKind::InvalidFormat)
    );
    assert_eq!(encode_into(&mut sink, &[], EncodeFlags::NoFlags), Err(ErrorKind::Truncated));
    assert_eq!(sink, vec![1u8, 2, 3]);
}

#[test]
fn decode_from_reads_input_then_source() {
    let encoded = encode(&sample(), EncodeFlags::NoFlags).unwrap();
    for cut in [0, 1, 4, 19, 20, 21, encoded.len() - 1, encoded.len()] {
        let (input, source) = encoded.split_at(cut);
        assert_eq!(decode_from(source, input), Ok(()));
    }
    assert_eq!(decode_from(&[], &encoded[..30]), Err(ErrorKind::Truncated));
    assert_eq!(decode_from(&encoded[..30], &[]), Err(ErrorKind::Truncated));
    assert_eq!(decode_from(&encoded, &[0]), Err(ErrorKind::InvalidFormat));
    assert_eq!(decode_from(&[0], &encoded), Err(ErrorKind::InvalidFormat));
}

#[test]
fn huge_declared_module_is_refused_without_room_for_it() {
    let mut ops = Vec::new();
    for _ in 0..2000 {
        ops.extend([0xFF, 0xFF, 0x03, 0xFF, 0xFF, 0x03]);
    }
    let encoded = compact(&header(), [&ops, &[], &[], &[], &[]]);
    assert_eq!(get_decoded_buffer_size(&encoded), Ok(20 + 4 * 2000 * 0xFFFF));
    assert_eq!(decode(&encoded), Err(ErrorKind::Truncated));
}
