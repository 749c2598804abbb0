use smolv::header::{read_header, write_header, Header, COMPACT_MAGIC, HEADER_BYTES, VERBOSE_MAGIC};
use smolv::words::read_4;
use smolv::{write_4, ErrorKind};

#[test]
fn write_4_is_little_endian() {
    let mut sink = Vec::new();
    write_4(&mut sink, 0x0723_0203);
    assert_eq!(sink, vec![0x03, 0x02, 0x23, 0x07]);
    write_4(&mut sink, 1);
    assert_eq!(sink, vec![0x03, 0x02, 0x23, 0x07, 1, 0, 0, 0]);
    write_4(&mut sink, 0xFFFF_FFFF);
    assert_eq!(&sink[8..], &[0xFF, 0xFF, 0xFF, 0xFF]);
}

#[test]
fn read_4_reads_what_write_4_wrote() {
    let mut sink = vec![0xEEu8];
    for value in [0u32, 1, 0x80, 0x1234_5678, 0xDEAD_BEEF, u32::MAX] {
        let at = sink.len();
        write_4(&mut sink, value);
        assert_eq!(read_4(&sink, at), value);
        assert_eq!(&sink[at..], &value.to_le_bytes());
    }
}

#[test]
fn magic_numbers_differ() {
    assert_eq!(VERBOSE_MAGIC, 0x0723_0203);
    assert_ne!(VERBOSE_MAGIC, COMPACT_MAGIC);
    assert_eq!(HEADER_BYTES, 20);
}

#[test]
fn header_is_written_behind_the_magic_number() {
    let header = Header { version: 0x0001_0300, generator: 0x0008_000A, bound: 77, schema: 0 };
    let mut out = Vec::new();
    write_header(&mut out, VERBOSE_MAGIC, &header);
    assert_eq!(
        out,
        vec![
            0x03, 0x02, 0x23, 0x07, 0x00, 0x03, 0x01, 0x00, 0x0A, 0x00, 0x08, 0x00, 77, 0, 0, 0,
            0, 0, 0, 0
        ]
    );
    assert_eq!(read_header(&out, VERBOSE_MAGIC), Ok(header));
}

#[test]
fn header_with_another_magic_number_is_invalid() {
    let header = Header { version: 1, generator: 2, bound: 3, schema: 4 };
    let mut out = Vec::new();
    write_header(&mut out, VERBOSE_MAGIC, &header);
    assert_eq!(read_header(&out, COMPACT_MAGIC), Err(ErrorKind::InvalidFormat));
    assert_eq!(read_header(&out[..4], COMPACT_MAGIC), Err(ErrorKind::InvalidFormat));
}

#[test]
fn short_header_is_truncated() {
    let header = Header { version: 1, generator: 2, bound: 3, schema: 4 };
    let mut out = Vec::new();
    write_header(&mut out, COMPACT_MAGIC, &header);
    for len in 0..20 {
        assert_eq!(read_header(&out[..len], COMPACT_MAGIC), Err(ErrorKind::Truncated));
    }
    out.push(0);
    assert_eq!(read_header(&out, COMPACT_MAGIC), Ok(header));
}

#[test]
fn fewer_than_four_wrong_bytes_are_truncated() {
    assert_eq!(read_header(&[], COMPACT_MAGIC), Err(ErrorKind::Truncated));
    assert_eq!(read_header(&[1, 2, 3], COMPACT_MAGIC), Err(ErrorKind::Truncated));
}

#[test]
fn descriptions_tell_the_kinds_apart() {
    let kinds = [ErrorKind::Io, ErrorKind::InvalidFormat, ErrorKind::Truncated, ErrorKind::Overflow];
    for (i, a) in kinds.iter().enumerate() {
        assert!(!a.description().is_empty());
        for b in &kinds[i + 1..] {
            assert_ne!(a.description(), b.description());
        }
    }
    assert_eq!(ErrorKind::Truncated.description(), "the buffer ends before its content does");
}
