//! The five-word preamble that both encodings of a module begin with.
use crate::error::ErrorKind;
use crate::words::{lemma_word_at_bytes, lemma_word_bytes_at, read_4, word_at, word_bytes, write_4};
use vstd::prelude::*;

verus! {

/// The magic number of the word-aligned encoding.
pub const VERBOSE_MAGIC: u32 = 0x0723_0203;

/// The magic number of the compact encoding.
pub const COMPACT_MAGIC: u32 = 0x534D_4F4C;

/// The number of bytes that a header takes.
pub const HEADER_BYTES: usize = 20;

/// What a header holds besides the magic number, which tells the two
/// encodings apart and is written anew for each of them.
#[derive(Clone, Copy, Debug, PartialEq, Eq, Structural)]
pub struct Header {
    /// The version of the instruction set.
    pub version: u32,
    /// The tool that generated the module.
    pub generator: u32,
    /// A bound above every identifier that the module uses.
    pub bound: u32,
    /// The reserved word.
    pub schema: u32,
}

/// The bytes of `header` behind the magic number `magic`.
pub open spec fn header_bytes(magic: u32, header: Header) -> Seq<u8> {
    word_bytes(magic) + word_bytes(header.version) + word_bytes(header.generator) + word_bytes(
        header.bound,
    ) + word_bytes(header.schema)
}

/// The header at the front of `bytes`, which must begin with `magic`.
///
/// Fewer than four bytes are `Truncated`; four that are not the magic
/// number are an `InvalidFormat`; a right magic number in fewer than twenty
/// bytes is `Truncated` again.
pub open spec fn parse_header(bytes: Seq<u8>, magic: u32) -> Result<Header, ErrorKind> {
    if bytes.len() < 4 {
        Err(ErrorKind::Truncated)
    } else if word_at(bytes, 0) != magic {
        Err(ErrorKind::InvalidFormat)
    } else if bytes.len() < 20 {
        Err(ErrorKind::Truncated)
    } else {
        Ok(
            Header {
                version: word_at(bytes, 4),
                generator: word_at(bytes, 8),
                bound: word_at(bytes, 12),
                schema: word_at(bytes, 16),
            },
        )
    }
}

/// A written header has twenty bytes and is read back, whatever follows.
pub proof fn lemma_parse_header_written(magic: u32, header: Header, rest: Seq<u8>)
    ensures
        header_bytes(magic, header).len() == 20,
        parse_header(header_bytes(magic, header) + rest, magic) == Ok::<Header, ErrorKind>(header),
{
    let bytes = header_bytes(magic, header) + rest;
    assert(bytes.subrange(0, 4) =~= word_bytes(magic));
    assert(bytes.subrange(4, 8) =~= word_bytes(header.version));
    assert(bytes.subrange(8, 12) =~= word_bytes(header.generator));
    assert(bytes.subrange(12, 16) =~= word_bytes(header.bound));
    assert(bytes.subrange(16, 20) =~= word_bytes(header.schema));
    lemma_word_at_bytes(magic, bytes, 0);
    lemma_word_at_bytes(header.version, bytes, 4);
    lemma_word_at_bytes(header.generator, bytes, 8);
    lemma_word_at_bytes(header.bound, bytes, 12);
    lemma_word_at_bytes(header.schema, bytes, 16);
}

/// A buffer whose header was read begins with that header's bytes.
pub proof fn lemma_header_bytes_parsed(bytes: Seq<u8>, magic: u32)
    requires
        parse_header(bytes, magic) is Ok,
    ensures
        bytes.len() >= 20,
        bytes.take(20) == header_bytes(magic, parse_header(bytes, magic).unwrap()),
{
    lemma_word_bytes_at(bytes, 0);
    lemma_word_bytes_at(bytes, 4);
    lemma_word_bytes_at(bytes, 8);
    lemma_word_bytes_at(bytes, 12);
    lemma_word_bytes_at(bytes, 16);
    assert(bytes.take(20) =~= bytes.subrange(0, 4) + bytes.subrange(4, 8) + bytes.subrange(8, 12)
        + bytes.subrange(12, 16) + bytes.subrange(16, 20));
}

/// Reads the header at the front of `bytes`, which must begin with `magic`.
pub fn read_header(bytes: &[u8], magic: u32) -> (r: Result<Header, ErrorKind>)
    ensures
        r == parse_header(bytes@, magic),
{
    if bytes.len() < 4 {
        return Err(ErrorKind::Truncated);
    }
    if read_4(bytes, 0) != magic {
        return Err(ErrorKind::InvalidFormat);
    }
    if bytes.len() < 20 {
        return Err(ErrorKind::Truncated);
    }
    Ok(
        Header {
            version: read_4(bytes, 4),
            generator: read_4(bytes, 8),
            bound: read_4(bytes, 12),
            schema: read_4(bytes, 16),
        },
    )
}

/// Appends `magic` and the four words of `header` to `out`.
pub fn write_header(out: &mut Vec<u8>, magic: u32, header: &Header)
    ensures
        final(out)@ == old(out)@ + header_bytes(magic, *header),
{
    write_4(out, magic);
    write_4(out, header.version);
    write_4(out, header.generator);
    write_4(out, header.bound);
    write_4(out, header.schema);
    proof {
        assert(out@ =~= old(out)@ + header_bytes(magic, *header));
    }
}

} // verus!
