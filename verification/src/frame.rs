//! The frame of the compact encoding: the header, then each of the five
//! streams as a section, which is the stream's length as a variable-length
//! integer followed by the stream's bytes. Nothing may follow the last
//! section.
use crate::error::ErrorKind;
use crate::header::{header_bytes, lemma_parse_header_written, parse_header, Header, COMPACT_MAGIC};
use crate::module::behind;
use crate::stream::{Operands, Streams};
use crate::varint::{
    decode_varint_at, lemma_parse_varint_bounds, lemma_parse_varint_prefix,
    lemma_parse_varint_written, lemma_room, parse_varint, varint, write_varint,
};
use vstd::prelude::*;

verus! {

/// The streams in the order of their sections: opcodes, result
/// identifiers, type identifiers, references, literals.
pub open spec fn sections_of(streams: Streams) -> Seq<Seq<u8>> {
    seq![
        streams.ops,
        streams.operands.results,
        streams.operands.types,
        streams.operands.refs,
        streams.operands.literals,
    ]
}

/// The streams that five sections hold.
pub open spec fn streams_of(sections: Seq<Seq<u8>>) -> Streams {
    Streams {
        ops: sections[0],
        operands: Operands {
            results: sections[1],
            types: sections[2],
            refs: sections[3],
            literals: sections[4],
        },
    }
}

/// The bytes of one section.
pub open spec fn section_bytes(section: Seq<u8>) -> Seq<u8> {
    varint(section.len()) + section
}

/// The bytes of sections, one behind the other.
pub open spec fn sections_bytes(sections: Seq<Seq<u8>>) -> Seq<u8>
    decreases sections.len(),
{
    if sections.len() == 0 {
        Seq::empty()
    } else {
        section_bytes(sections[0]) + sections_bytes(sections.skip(1))
    }
}

/// The section at the front of `bytes`, with the number of bytes that it
/// takes, its length included. A section that says it is longer than the
/// bytes behind its length is `Truncated`.
pub open spec fn parse_section(bytes: Seq<u8>) -> Result<(Seq<u8>, nat), ErrorKind> {
    match parse_varint(bytes, 0) {
        Err(e) => Err(e),
        Ok((len, used)) => if bytes.len() - used < len {
            Err(ErrorKind::Truncated)
        } else {
            Ok((bytes.subrange(used as int, (used + len) as int), used + len))
        },
    }
}

/// The `count` sections that `bytes` are made of. Bytes behind the last of
/// them are an `InvalidFormat`.
pub open spec fn parse_sections(bytes: Seq<u8>, count: nat) -> Result<Seq<Seq<u8>>, ErrorKind>
    decreases count,
{
    if count == 0 {
        if bytes.len() == 0 {
            Ok(Seq::empty())
        } else {
            Err(ErrorKind::InvalidFormat)
        }
    } else {
        match parse_section(bytes) {
            Err(e) => Err(e),
            Ok((section, used)) => behind(
                seq![section],
                parse_sections(bytes.skip(used as int), (count - 1) as nat),
            ),
        }
    }
}

/// The compact encoding of a header and five streams.
pub open spec fn frame(header: Header, streams: Streams) -> Seq<u8> {
    header_bytes(COMPACT_MAGIC, header) + sections_bytes(sections_of(streams))
}

/// The header and the five streams that `bytes` hold.
pub open spec fn unframe(bytes: Seq<u8>) -> Result<(Header, Streams), ErrorKind> {
    match parse_header(bytes, COMPACT_MAGIC) {
        Err(e) => Err(e),
        Ok(header) => match parse_sections(bytes.skip(20), 5) {
            Err(e) => Err(e),
            Ok(sections) => Ok((header, streams_of(sections))),
        },
    }
}

/// Whether the length of each section can be written.
pub open spec fn lengths_fit(sections: Seq<Seq<u8>>) -> bool {
    forall|i: int| 0 <= i < sections.len() ==> (#[trigger] sections[i]).len() <= u64::MAX
}

/// The sections from index `start` of `whole` on are the one that is
/// found there, which ends at index `end`, and the sections from `end` on.
pub proof fn lemma_parse_sections_next(whole: Seq<u8>, start: int, end: int, count: nat)
    requires
        0 <= start <= end <= whole.len(),
        count > 0,
        parse_section(whole.skip(start)) is Ok,
        parse_section(whole.skip(start)).unwrap().1 == end - start,
    ensures
        parse_sections(whole.skip(start), count) == behind(
            seq![parse_section(whole.skip(start)).unwrap().0],
            parse_sections(whole.skip(end), (count - 1) as nat),
        ),
{
    assert(whole.skip(start).skip(end - start) =~= whole.skip(end));
}

/// No section is longer than the bytes of all of them.
pub proof fn lemma_sections_bytes_len(sections: Seq<Seq<u8>>)
    ensures
        forall|i: int|
            0 <= i < sections.len() ==> (#[trigger] sections[i]).len() <= sections_bytes(
                sections,
            ).len(),
    decreases sections.len(),
{
    if sections.len() > 0 {
        let tail = sections.skip(1);
        lemma_sections_bytes_len(tail);
        assert forall|i: int| 0 <= i < sections.len() implies (#[trigger] sections[i]).len()
            <= sections_bytes(sections).len() by {
            if i > 0 {
                assert(sections[i] == tail[i - 1]);
            }
        }
    }
}

/// A section is read back from its bytes, whatever follows.
pub proof fn lemma_parse_section_written(section: Seq<u8>, rest: Seq<u8>)
    requires
        section.len() <= u64::MAX,
    ensures
        parse_section(section_bytes(section) + rest) == Ok::<(Seq<u8>, nat), ErrorKind>(
            (section, section_bytes(section).len()),
        ),
{
    let length = varint(section.len());
    let bytes = section_bytes(section) + rest;
    lemma_room();
    assert(bytes =~= length + (section + rest));
    lemma_parse_varint_written(section.len(), 0, section + rest);
    assert(bytes.subrange(length.len() as int, (length.len() + section.len()) as int)
        =~= section);
}

/// Sections are read back from their bytes.
pub proof fn lemma_parse_sections_written(sections: Seq<Seq<u8>>)
    requires
        lengths_fit(sections),
    ensures
        parse_sections(sections_bytes(sections), sections.len()) == Ok::<
            Seq<Seq<u8>>,
            ErrorKind,
        >(sections),
    decreases sections.len(),
{
    if sections.len() == 0 {
        assert(sections =~= Seq::<Seq<u8>>::empty());
    } else {
        let tail = sections.skip(1);
        let later = sections_bytes(tail);
        lemma_parse_section_written(sections[0], later);
        assert(sections_bytes(sections).skip(section_bytes(sections[0]).len() as int) =~= later);
        assert(lengths_fit(tail)) by {
            assert forall|i: int| 0 <= i < tail.len() implies (#[trigger] tail[i]).len()
                <= u64::MAX by {
                assert(tail[i] == sections[i + 1]);
            }
        }
        lemma_parse_sections_written(tail);
        assert(seq![sections[0]] + tail =~= sections);
    }
}

/// A header and five streams are read back from their frame.
pub proof fn lemma_unframe_framed(header: Header, streams: Streams)
    requires
        lengths_fit(sections_of(streams)),
    ensures
        unframe(frame(header, streams)) == Ok::<(Header, Streams), ErrorKind>((header, streams)),
{
    let body = sections_bytes(sections_of(streams));
    lemma_parse_header_written(COMPACT_MAGIC, header, body);
    assert(frame(header, streams).skip(20) =~= body);
    lemma_parse_sections_written(sections_of(streams));
    assert(streams_of(sections_of(streams)) =~= streams);
}

/// Sections that were read take all the bytes: cut short anywhere, the
/// bytes are `Truncated`.
pub proof fn lemma_parse_sections_prefix(bytes: Seq<u8>, count: nat, len: int)
    requires
        parse_sections(bytes, count) is Ok,
        0 <= len < bytes.len(),
    ensures
        parse_sections(bytes.take(len), count) == Err::<Seq<Seq<u8>>, ErrorKind>(
            ErrorKind::Truncated,
        ),
    decreases count,
{
    let cut = bytes.take(len);
    let (length, lead) = parse_varint(bytes, 0).unwrap();
    let used = lead + length;
    lemma_parse_varint_bounds(bytes, 0);
    lemma_parse_varint_prefix(bytes, 0, len);
    if len >= used {
        assert(cut.subrange(lead as int, used as int) =~= bytes.subrange(lead as int, used as int));
        assert(cut.skip(used as int) =~= bytes.skip(used as int).take(len - used));
        lemma_parse_sections_prefix(bytes.skip(used as int), (count - 1) as nat, len - used);
    }
}

/// A frame that was read takes all the bytes: cut short anywhere, the
/// bytes are `Truncated`.
pub proof fn lemma_unframe_prefix(bytes: Seq<u8>, len: int)
    requires
        unframe(bytes) is Ok,
        0 <= len < bytes.len(),
    ensures
        unframe(bytes.take(len)) == Err::<(Header, Streams), ErrorKind>(ErrorKind::Truncated),
{
    let cut = bytes.take(len);
    if len >= 4 {
        assert(cut[0] == bytes[0] && cut[1] == bytes[1] && cut[2] == bytes[2] && cut[3]
            == bytes[3]);
    }
    if len >= 20 {
        assert(cut.skip(20) =~= bytes.skip(20).take(len - 20));
        lemma_parse_sections_prefix(bytes.skip(20), 5, len - 20);
    }
}

/// Appends `bytes` to `out`.
pub fn append_bytes(out: &mut Vec<u8>, bytes: &[u8])
    ensures
        final(out)@ == old(out)@ + bytes@,
{
    let mut i: usize = 0;
    while i < bytes.len()
        invariant
            i <= bytes.len(),
            out@ == old(out)@ + bytes@.take(i as int),
        decreases bytes.len() - i,
    {
        out.push(bytes[i]);
        i = i + 1;
        proof {
            assert(bytes@.take(i as int) =~= bytes@.take(i - 1).push(bytes@[i - 1]));
            assert(out@ =~= old(out)@ + bytes@.take(i as int));
        }
    }
    proof {
        assert(bytes@.take(i as int) =~= bytes@);
    }
}

/// Appends `section` to `out` as a section: its length, then its bytes.
pub fn write_section(out: &mut Vec<u8>, section: &[u8])
    ensures
        final(out)@ == old(out)@ + section_bytes(section@),
{
    let len: usize = section.len();
    write_varint(out, len as u64);
    append_bytes(out, section);
    proof {
        assert(out@ =~= old(out)@ + section_bytes(section@));
    }
}

/// Finds the section that begins at `start` in `bytes`: the index of its
/// first byte and the index behind its last.
pub fn read_section(bytes: &[u8], start: usize) -> (r: Result<(usize, usize), ErrorKind>)
    requires
        start <= bytes.len(),
    ensures
        match r {
            Ok((from, to)) => start < from <= to <= bytes.len() && parse_section(
                bytes@.skip(start as int),
            ) == Ok::<(Seq<u8>, nat), ErrorKind>(
                (bytes@.subrange(from as int, to as int), (to - start) as nat),
            ),
            Err(e) => parse_section(bytes@.skip(start as int)) == Err::<(Seq<u8>, nat), ErrorKind>(
                e,
            ),
        },
{
    match decode_varint_at(bytes, start) {
        Err(e) => Err(e),
        Ok((len, used)) => {
            proof {
                lemma_parse_varint_bounds(bytes@.skip(start as int), 0);
            }
            let from: usize = start + used;
            let left: usize = bytes.len() - from;
            if len > left as u64 {
                return Err(ErrorKind::Truncated);
            }
            let to: usize = from + len as usize;
            proof {
                assert(bytes@.skip(start as int).subrange(used as int, used + len) =~= bytes@.subrange(
                    from as int,
                    to as int,
                ));
            }
            Ok((from, to))
        },
    }
}

} // verus!
