//! What holds between encoding and decoding.
use crate::decoder::{decoded, decoded_size};
use crate::encoder::{
    encode_module, encoded, lemma_retain_all, lemma_retain_kept, retain, EncodeFlags,
};
use crate::error::ErrorKind;
use crate::frame::{
    lemma_sections_bytes_len, lemma_unframe_framed, lemma_unframe_prefix, lengths_fit,
    sections_bytes, sections_of, unframe,
};
use crate::header::{lemma_parse_header_written, COMPACT_MAGIC, VERBOSE_MAGIC};
use crate::module::{
    all_valid, instructions_bytes, lemma_instructions_bytes_len, lemma_module_bytes_parsed,
    lemma_parse_module_written, module_bytes, parse_module, Module,
};
use crate::stream::{
    emit_instructions, lemma_parse_heads_emitted, lemma_parse_heads_words, lemma_replay_emitted,
    lemma_replay_heads, parse_heads, replay, DeltaState,
};
use crate::words::{lemma_word_bytes_at, word_at};
use vstd::prelude::*;

verus! {

/// The module that `bytes` hold, without the instructions that only serve
/// debugging, in the word-aligned encoding.
pub open spec fn stripped(bytes: Seq<u8>) -> Seq<u8> {
    let module = parse_module(bytes).unwrap();
    module_bytes(
        Module {
            header: module.header,
            instructions: retain(module.instructions, EncodeFlags::StripDebugInfo),
        },
    )
}

/// `bytes` with one bit of its first word flipped: bit `bit`, counted from
/// the least significant bit of the first byte.
pub open spec fn with_flipped_bit(bytes: Seq<u8>, bit: nat) -> Seq<u8> {
    bytes.update(bit as int / 8, bytes[bit as int / 8] ^ (1u8 << ((bit % 8) as u8)))
}

/// Decoding the compact encoding of a valid module gives the module.
proof fn lemma_decode_encoded(module: Module, flags: EncodeFlags)
    requires
        all_valid(module.instructions),
        module_bytes(module).len() <= usize::MAX,
        encode_module(module, flags).len() <= usize::MAX,
    ensures
        decoded(encode_module(module, flags)) == Ok::<Seq<u8>, ErrorKind>(
            module_bytes(
                Module { header: module.header, instructions: retain(module.instructions, flags) },
            ),
        ),
{
    let kept = retain(module.instructions, flags);
    let streams = emit_instructions(kept, DeltaState::start());
    let sections = sections_of(streams);
    lemma_retain_kept(module.instructions, flags);
    lemma_parse_header_written(COMPACT_MAGIC, module.header, sections_bytes(sections));
    lemma_sections_bytes_len(sections);
    assert(lengths_fit(sections));
    lemma_unframe_framed(module.header, streams);
    lemma_parse_heads_emitted(kept, DeltaState::start());
    lemma_replay_emitted(kept, DeltaState::start());
    lemma_instructions_bytes_len(kept);
    lemma_instructions_bytes_len(module.instructions);
    lemma_parse_header_written(VERBOSE_MAGIC, module.header, instructions_bytes(kept));
    lemma_parse_header_written(
        VERBOSE_MAGIC,
        module.header,
        instructions_bytes(module.instructions),
    );
}

/// Round trip: a module that is encoded with no flags and decoded again is
/// the same, byte for byte.
///
/// The two bounds say only that both buffers fit in memory.
pub proof fn round_trip(bytes: Seq<u8>)
    requires
        parse_module(bytes) is Ok,
        bytes.len() <= usize::MAX,
        encoded(bytes, EncodeFlags::NoFlags).unwrap().len() <= usize::MAX,
    ensures
        decoded(encoded(bytes, EncodeFlags::NoFlags).unwrap()) == Ok::<Seq<u8>, ErrorKind>(bytes),
{
    let module = parse_module(bytes).unwrap();
    lemma_module_bytes_parsed(bytes);
    lemma_retain_all(module.instructions);
    lemma_decode_encoded(module, EncodeFlags::NoFlags);
}

/// Stripping: a module that is encoded without its debugging instructions
/// and decoded again is the module without them; and encoding that module
/// in the same way gives the same compact bytes again.
///
/// The two bounds say only that both buffers fit in memory.
pub proof fn strip_is_idempotent(bytes: Seq<u8>)
    requires
        parse_module(bytes) is Ok,
        bytes.len() <= usize::MAX,
        encoded(bytes, EncodeFlags::StripDebugInfo).unwrap().len() <= usize::MAX,
    ensures
        decoded(encoded(bytes, EncodeFlags::StripDebugInfo).unwrap()) == Ok::<
            Seq<u8>,
            ErrorKind,
        >(stripped(bytes)),
        encoded(stripped(bytes), EncodeFlags::StripDebugInfo) == encoded(
            bytes,
            EncodeFlags::StripDebugInfo,
        ),
        encoded(stripped(bytes), EncodeFlags::NoFlags) == encoded(
            bytes,
            EncodeFlags::StripDebugInfo,
        ),
{
    let module = parse_module(bytes).unwrap();
    let kept = retain(module.instructions, EncodeFlags::StripDebugInfo);
    let lean = Module { header: module.header, instructions: kept };
    lemma_module_bytes_parsed(bytes);
    lemma_retain_kept(module.instructions, EncodeFlags::StripDebugInfo);
    lemma_retain_all(kept);
    lemma_parse_module_written(lean);
    lemma_decode_encoded(module, EncodeFlags::StripDebugInfo);
}

/// What encoding gives for a buffer in memory decodes again: to the module
/// itself where no flags were given, and to the module without its
/// debugging instructions where they were stripped.
pub proof fn decodes_again(bytes: Seq<u8>, flags: EncodeFlags, out: Seq<u8>)
    requires
        encoded(bytes, flags) == Ok::<Seq<u8>, ErrorKind>(out),
        bytes.len() <= usize::MAX,
        out.len() <= usize::MAX,
    ensures
        flags == EncodeFlags::NoFlags ==> decoded(out) == Ok::<Seq<u8>, ErrorKind>(bytes),
        flags == EncodeFlags::StripDebugInfo ==> decoded(out) == Ok::<Seq<u8>, ErrorKind>(
            stripped(bytes),
        ),
{
    match flags {
        EncodeFlags::NoFlags => round_trip(bytes),
        EncodeFlags::StripDebugInfo => strip_is_idempotent(bytes),
    }
}

/// Header integrity: a buffer of four bytes or more that does not begin
/// with the magic number of the compact encoding is refused as an
/// `InvalidFormat`, whatever else it holds.
pub proof fn wrong_magic_is_refused(bytes: Seq<u8>)
    requires
        bytes.len() >= 4,
        word_at(bytes, 0) != COMPACT_MAGIC,
    ensures
        decoded(bytes) == Err::<Seq<u8>, ErrorKind>(ErrorKind::InvalidFormat),
        decoded_size(bytes) == Err::<nat, ErrorKind>(ErrorKind::InvalidFormat),
{
}

/// A byte with one of its bits flipped is another byte.
proof fn lemma_flip_changes(byte: u8, bit: u8)
    by (bit_vector)
    requires
        bit < 8,
    ensures
        byte ^ (1u8 << bit) != byte,
{
}

/// Header integrity: a buffer that begins with the magic number of the
/// compact encoding is refused as an `InvalidFormat` once any one bit of
/// that number is flipped.
pub proof fn flipped_magic_is_refused(bytes: Seq<u8>, bit: nat)
    requires
        bytes.len() >= 4,
        word_at(bytes, 0) == COMPACT_MAGIC,
        bit < 32,
    ensures
        decoded(with_flipped_bit(bytes, bit)) == Err::<Seq<u8>, ErrorKind>(
            ErrorKind::InvalidFormat,
        ),
{
    let flipped = with_flipped_bit(bytes, bit);
    let at = bit as int / 8;
    lemma_flip_changes(bytes[at], (bit % 8) as u8);
    lemma_word_bytes_at(bytes, 0);
    lemma_word_bytes_at(flipped, 0);
    assert(bytes.subrange(0, 4)[at] == bytes[at]);
    assert(flipped.subrange(0, 4)[at] == flipped[at]);
    wrong_magic_is_refused(flipped);
}

/// Truncation: of a buffer that decodes, no shorter beginning decodes;
/// each is refused as `Truncated`.
pub proof fn truncated_is_refused(bytes: Seq<u8>, len: int)
    requires
        decoded(bytes) is Ok,
        0 <= len < bytes.len(),
    ensures
        decoded(bytes.take(len)) == Err::<Seq<u8>, ErrorKind>(ErrorKind::Truncated),
        decoded_size(bytes.take(len)) == Err::<nat, ErrorKind>(ErrorKind::Truncated),
{
    lemma_unframe_prefix(bytes, len);
}

/// What decoding gives is a module in the word-aligned encoding, and as
/// long as the size that is found without decoding says.
pub proof fn decoded_is_a_module(bytes: Seq<u8>)
    requires
        decoded(bytes) is Ok,
    ensures
        parse_module(decoded(bytes).unwrap()) is Ok,
        decoded_size(bytes) == Ok::<nat, ErrorKind>(decoded(bytes).unwrap().len()),
{
    let (header, streams) = unframe(bytes).unwrap();
    let heads = parse_heads(streams.ops).unwrap();
    let instructions = replay(heads, streams.operands, DeltaState::start()).unwrap();
    lemma_parse_heads_words(streams.ops);
    lemma_replay_heads(heads, streams.operands, DeltaState::start());
    lemma_parse_module_written(Module { header, instructions });
    lemma_instructions_bytes_len(instructions);
    lemma_parse_header_written(VERBOSE_MAGIC, header, instructions_bytes(instructions));
}

/// Where the size cannot be found, decoding is refused for the same
/// reason.
pub proof fn size_error_is_decode_error(bytes: Seq<u8>)
    requires
        decoded_size(bytes) is Err,
    ensures
        decoded(bytes) == Err::<Seq<u8>, ErrorKind>(decoded_size(bytes)->Err_0),
{
}

} // verus!
