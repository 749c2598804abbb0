//! Decoding: from the compact form of a module back to the word-aligned
//! one.
use crate::error::ErrorKind;
use crate::frame::{
    append_bytes, lemma_parse_sections_next, parse_sections, read_section, streams_of, unframe,
};
use crate::header::{read_header, write_header, Header, COMPACT_MAGIC, HEADER_BYTES, VERBOSE_MAGIC};
use crate::laws::decoded_is_a_module;
use crate::module::{
    behind, instructions_bytes, lemma_behind_ends, lemma_behind_push, lemma_first_word,
    lemma_instructions_bytes_push, module_bytes, parse_module, Instruction, Module,
};
use crate::stream::{
    heads_words, lemma_heads_words_add, lemma_operands_behind_push, lemma_parse_head_bounds,
    lemma_parse_heads_words,
    operands_behind, parse_heads, read_operand, read_operands, replay, DeltaState,
    Head, Operands, Streams,
};
use crate::table::{classify, layout_of, OperandLayout, Role};
use crate::varint::{decode_varint_at, parse_varint};
use crate::words::{lemma_words_bytes_add, lemma_words_bytes_one, word_bytes, words_bytes, write_4};
use vstd::prelude::*;
use vstd::slice::slice_subrange;

verus! {

/// The number of bytes of a module with the heads `heads` in the
/// word-aligned encoding; an `Overflow` where no buffer can be that long.
pub open spec fn module_len(heads: Seq<Head>) -> Result<nat, ErrorKind> {
    if 20 + 4 * heads_words(heads) > usize::MAX {
        Err(ErrorKind::Overflow)
    } else {
        Ok(20 + 4 * heads_words(heads))
    }
}

/// The word-aligned encoding of the module with the header `header` whose
/// instructions `streams` hold; the error where they hold none.
///
/// The opcode stream is read first, and the length of the module found
/// from it; then the operands are read.
pub open spec fn decode_streams(header: Header, streams: Streams) -> Result<Seq<u8>, ErrorKind> {
    match parse_heads(streams.ops) {
        Err(e) => Err(e),
        Ok(heads) => match module_len(heads) {
            Err(e) => Err(e),
            Ok(_) => match replay(heads, streams.operands, DeltaState::start()) {
                Err(e) => Err(e),
                Ok(instructions) => Ok(module_bytes(Module { header, instructions })),
            },
        },
    }
}

/// The word-aligned encoding of the module that `bytes` hold in the
/// compact encoding; the error where they hold none.
pub open spec fn decoded(bytes: Seq<u8>) -> Result<Seq<u8>, ErrorKind> {
    match unframe(bytes) {
        Err(e) => Err(e),
        Ok((header, streams)) => decode_streams(header, streams),
    }
}

/// The number of bytes that decoding `bytes` gives, found from the frame
/// and the opcode stream alone.
pub open spec fn decoded_size(bytes: Seq<u8>) -> Result<nat, ErrorKind> {
    match unframe(bytes) {
        Err(e) => Err(e),
        Ok((header, streams)) => match parse_heads(streams.ops) {
            Err(e) => Err(e),
            Ok(heads) => module_len(heads),
        },
    }
}

/// The header and the five streams of a compact encoding, as they lie in
/// its buffer.
pub struct Frame<'a> {
    /// The header.
    pub header: Header,
    /// The opcode stream.
    pub ops: &'a [u8],
    /// The stream of result identifiers.
    pub results: &'a [u8],
    /// The stream of type identifiers.
    pub types: &'a [u8],
    /// The stream of references.
    pub refs: &'a [u8],
    /// The stream of literals.
    pub literals: &'a [u8],
}

impl<'a> Frame<'a> {
    /// The five streams.
    pub open spec fn streams(&self) -> Streams {
        Streams {
            ops: self.ops@,
            operands: Operands {
                results: self.results@,
                types: self.types@,
                refs: self.refs@,
                literals: self.literals@,
            },
        }
    }
}

/// Reads the header of `input` and finds its five sections.
pub fn read_frame<'a>(input: &'a [u8]) -> (r: Result<Frame<'a>, ErrorKind>)
    ensures
        match r {
            Ok(found) => unframe(input@) == Ok::<(Header, Streams), ErrorKind>(
                (found.header, found.streams()),
            ),
            Err(e) => unframe(input@) == Err::<(Header, Streams), ErrorKind>(e),
        },
{
    let header: Header = match read_header(input, COMPACT_MAGIC) {
        Ok(header) => header,
        Err(e) => {
            return Err(e);
        },
    };
    let ghost s5 = parse_sections(input@.skip(20), 5);
    let (a0, b0) = match read_section(input, HEADER_BYTES) {
        Ok(range) => range,
        Err(e) => {
            return Err(e);
        },
    };
    let ghost s4 = parse_sections(input@.skip(b0 as int), 4);
    proof {
        lemma_parse_sections_next(input@, 20, b0 as int, 5);
    }
    let (a1, b1) = match read_section(input, b0) {
        Ok(range) => range,
        Err(e) => {
            return Err(e);
        },
    };
    let ghost s3 = parse_sections(input@.skip(b1 as int), 3);
    proof {
        lemma_parse_sections_next(input@, b0 as int, b1 as int, 4);
    }
    let (a2, b2) = match read_section(input, b1) {
        Ok(range) => range,
        Err(e) => {
            return Err(e);
        },
    };
    let ghost s2 = parse_sections(input@.skip(b2 as int), 2);
    proof {
        lemma_parse_sections_next(input@, b1 as int, b2 as int, 3);
    }
    let (a3, b3) = match read_section(input, b2) {
        Ok(range) => range,
        Err(e) => {
            return Err(e);
        },
    };
    let ghost s1 = parse_sections(input@.skip(b3 as int), 1);
    proof {
        lemma_parse_sections_next(input@, b2 as int, b3 as int, 2);
    }
    let (a4, b4) = match read_section(input, b3) {
        Ok(range) => range,
        Err(e) => {
            return Err(e);
        },
    };
    let ghost s0 = parse_sections(input@.skip(b4 as int), 0);
    proof {
        lemma_parse_sections_next(input@, b3 as int, b4 as int, 1);
    }
    if b4 != input.len() {
        return Err(ErrorKind::InvalidFormat);
    }
    let found = Frame {
        header,
        ops: slice_subrange(input, a0, b0),
        results: slice_subrange(input, a1, b1),
        types: slice_subrange(input, a2, b2),
        refs: slice_subrange(input, a3, b3),
        literals: slice_subrange(input, a4, b4),
    };
    proof {
        assert(s0 == Ok::<Seq<Seq<u8>>, ErrorKind>(Seq::empty()));
        assert(s1.unwrap() =~= seq![found.literals@]);
        assert(s2.unwrap() =~= seq![found.refs@, found.literals@]);
        assert(s3.unwrap() =~= seq![found.types@, found.refs@, found.literals@]);
        assert(s4.unwrap() =~= seq![found.results@, found.types@, found.refs@, found.literals@]);
        assert(s5.unwrap() =~= seq![
            found.ops@,
            found.results@,
            found.types@,
            found.refs@,
            found.literals@,
        ]);
        assert(streams_of(s5.unwrap()) =~= found.streams());
    }
    Ok(found)
}

/// Reads the opcode stream `ops`: the opcode and the number of words of
/// each instruction.
pub fn read_heads(ops: &[u8]) -> (r: Result<Vec<Head>, ErrorKind>)
    ensures
        match r {
            Ok(heads) => parse_heads(ops@) == Ok::<Seq<Head>, ErrorKind>(heads@),
            Err(e) => parse_heads(ops@) == Err::<Seq<Head>, ErrorKind>(e),
        },
{
    let mut heads: Vec<Head> = Vec::new();
    let mut at: usize = 0;
    proof {
        assert(ops@.skip(0) =~= ops@);
        lemma_behind_ends(heads@, parse_heads(ops@));
    }
    while at < ops.len()
        invariant
            at <= ops.len(),
            parse_heads(ops@) == behind(heads@, parse_heads(ops@.skip(at as int))),
        decreases ops.len() - at,
    {
        let ghost rest = ops@.skip(at as int);
        let (opcode, used) = match decode_varint_at(ops, at) {
            Ok(read) => read,
            Err(e) => {
                return Err(e);
            },
        };
        if opcode > 0xFFFF {
            return Err(ErrorKind::Overflow);
        }
        proof {
            assert(rest.skip(used as int) =~= ops@.skip(at + used));
        }
        let (words, more) = match decode_varint_at(ops, at + used) {
            Ok(read) => read,
            Err(e) => {
                return Err(e);
            },
        };
        if words > 0xFFFF {
            return Err(ErrorKind::Overflow);
        }
        if words == 0 {
            return Err(ErrorKind::InvalidFormat);
        }
        let head = Head { opcode: opcode as u16, words: words as u16 };
        proof {
            lemma_parse_head_bounds(rest);
            assert(rest.skip((used + more) as int) =~= ops@.skip(at + used + more));
            lemma_behind_push(heads@, head, parse_heads(ops@.skip(at + used + more)));
        }
        heads.push(head);
        at = at + used + more;
    }
    proof {
        assert(ops@.skip(at as int) =~= Seq::<u8>::empty());
        lemma_behind_ends(heads@, Ok(Seq::empty()));
    }
    Ok(heads)
}

/// The number of bytes of a module with the heads `heads` in the
/// word-aligned encoding.
pub fn module_size(heads: &Vec<Head>) -> (r: Result<usize, ErrorKind>)
    ensures
        match r {
            Ok(size) => module_len(heads@) == Ok::<nat, ErrorKind>(size as nat),
            Err(e) => module_len(heads@) == Err::<nat, ErrorKind>(e),
        },
{
    let mut size: usize = HEADER_BYTES;
    let mut i: usize = 0;
    proof {
        assert(heads@.take(0) =~= Seq::<Head>::empty());
    }
    while i < heads.len()
        invariant
            i <= heads.len(),
            size == 20 + 4 * heads_words(heads@.take(i as int)),
        decreases heads.len() - i,
    {
        let bytes: usize = 4 * heads[i].words as usize;
        proof {
            let one = seq![heads@[i as int]];
            reveal_with_fuel(heads_words, 2);
            assert(heads_words(one) == heads@[i as int].words);
            assert(heads@.take(i + 1) =~= heads@.take(i as int) + one);
            lemma_heads_words_add(heads@.take(i as int), one);
            assert(heads@ =~= heads@.take(i + 1) + heads@.skip(i + 1));
            lemma_heads_words_add(heads@.take(i + 1), heads@.skip(i + 1));
        }
        if bytes > usize::MAX - size {
            return Err(ErrorKind::Overflow);
        }
        size = size + bytes;
        i = i + 1;
    }
    proof {
        assert(heads@.take(i as int) =~= heads@);
    }
    Ok(size)
}

/// A place in a stream from which numbers are read one after the other.
#[derive(Clone, Copy)]
pub struct Cursor<'a> {
    /// The stream.
    pub bytes: &'a [u8],
    /// The index of the next byte to read.
    pub at: usize,
}

impl<'a> Cursor<'a> {
    /// Whether the cursor lies within its stream.
    pub open spec fn wf(&self) -> bool {
        self.at <= self.bytes@.len()
    }

    /// The bytes that are still to be read.
    pub open spec fn rest(&self) -> Seq<u8> {
        self.bytes@.skip(self.at as int)
    }

    /// A cursor at the start of `bytes`.
    pub fn new(bytes: &'a [u8]) -> (cursor: Cursor<'a>)
        ensures
            cursor.wf(),
            cursor.rest() == bytes@,
    {
        proof {
            assert(bytes@.skip(0) =~= bytes@);
        }
        Cursor { bytes, at: 0 }
    }

    /// Whether every byte has been read.
    pub fn is_spent(&self) -> (spent: bool)
        requires
            self.wf(),
        ensures
            spent == (self.rest().len() == 0),
    {
        self.at == self.bytes.len()
    }

    /// Reads the next number and moves behind it; where there is none to
    /// read, the cursor stays.
    pub fn read(&mut self) -> (r: Result<u64, ErrorKind>)
        requires
            old(self).wf(),
        ensures
            final(self).wf(),
            match r {
                Ok(code) => parse_varint(old(self).rest(), 0) is Ok && parse_varint(
                    old(self).rest(),
                    0,
                ).unwrap().0 == code && final(self).rest() == old(self).rest().skip(
                    parse_varint(old(self).rest(), 0).unwrap().1 as int,
                ),
                Err(e) => parse_varint(old(self).rest(), 0) == Err::<(nat, nat), ErrorKind>(e)
                    && *final(self) == *old(self),
            },
    {
        match decode_varint_at(self.bytes, self.at) {
            Err(e) => Err(e),
            Ok((code, used)) => {
                proof {
                    assert(self.rest().skip(used as int) =~= self.bytes@.skip(self.at + used));
                }
                self.at = self.at + used;
                Ok(code)
            },
        }
    }
}

/// The operand streams of one decode while they are read, with the state
/// that the next identifiers are measured against.
#[derive(Clone, Copy)]
pub struct Decoder<'a> {
    /// The stream of result identifiers.
    pub results: Cursor<'a>,
    /// The stream of type identifiers.
    pub types: Cursor<'a>,
    /// The stream of references.
    pub refs: Cursor<'a>,
    /// The stream of literals.
    pub literals: Cursor<'a>,
    /// The identifiers read last.
    pub state: DeltaState,
}

impl<'a> Decoder<'a> {
    /// Whether each cursor lies within its stream.
    pub open spec fn wf(&self) -> bool {
        self.results.wf() && self.types.wf() && self.refs.wf() && self.literals.wf()
    }

    /// What is still to be read of the streams.
    pub open spec fn operands(&self) -> Operands {
        Operands {
            results: self.results.rest(),
            types: self.types.rest(),
            refs: self.refs.rest(),
            literals: self.literals.rest(),
        }
    }

    /// A decoder at the start of the operand streams of `frame`, in the
    /// state before the first instruction.
    pub fn new(frame: &Frame<'a>) -> (decoder: Decoder<'a>)
        ensures
            decoder.wf(),
            decoder.operands() == frame.streams().operands,
            decoder.state == DeltaState::start(),
    {
        Decoder {
            results: Cursor::new(frame.results),
            types: Cursor::new(frame.types),
            refs: Cursor::new(frame.refs),
            literals: Cursor::new(frame.literals),
            state: DeltaState::new(),
        }
    }

    /// Whether every byte of every stream has been read.
    pub fn is_spent(&self) -> (spent: bool)
        requires
            self.wf(),
        ensures
            spent == self.operands().is_empty(),
    {
        self.results.is_spent() && self.types.is_spent() && self.refs.is_spent()
            && self.literals.is_spent()
    }

    /// Reads the next operand of role `role` from the stream of that role.
    /// Where there is none to read, the decoder stays as it was.
    pub fn take_operand(&mut self, role: Role) -> (r: Result<u32, ErrorKind>)
        requires
            old(self).wf(),
        ensures
            final(self).wf(),
            match r {
                Ok(value) => read_operand(role, old(self).operands(), old(self).state) == Ok::<
                    (u32, Operands, DeltaState),
                    ErrorKind,
                >((value, final(self).operands(), final(self).state)),
                Err(e) => read_operand(role, old(self).operands(), old(self).state) == Err::<
                    (u32, Operands, DeltaState),
                    ErrorKind,
                >(e) && *final(self) == *old(self),
            },
    {
        let saved: Decoder<'a> = *self;
        let read = match role {
            Role::ResultId => self.results.read(),
            Role::TypeId => self.types.read(),
            Role::IdRef => self.refs.read(),
            Role::Literal => self.literals.read(),
        };
        let code: u64 = match read {
            Ok(code) => code,
            Err(e) => {
                return Err(e);
            },
        };
        match self.state.unpack(role, code) {
            Err(e) => {
                *self = saved;
                Err(e)
            },
            Ok(value) => {
                proof {
                    let used = parse_varint(old(self).operands().of(role), 0).unwrap().1;
                    assert(self.operands() =~= old(self).operands().skip(role, used as int));
                }
                Ok(value)
            },
        }
    }

    /// Reads the operands of an instruction with the head `head` and
    /// appends the instruction's words to `out`. Where an operand cannot be
    /// read, the decoder and `out` stay as they were.
    pub fn take_instruction(&mut self, out: &mut Vec<u8>, head: Head) -> (r: Result<(), ErrorKind>)
        requires
            old(self).wf(),
            head.words >= 1,
        ensures
            final(self).wf(),
            ({
                let read = read_operands(
                    layout_of(head.opcode),
                    0,
                    (head.words - 1) as nat,
                    old(self).operands(),
                    old(self).state,
                );
                match r {
                    Ok(()) => {
                        &&& read is Ok
                        &&& read.unwrap().1 == final(self).operands()
                        &&& read.unwrap().2 == final(self).state
                        &&& final(out)@ == old(out)@ + (Instruction {
                            opcode: head.opcode,
                            operands: read.unwrap().0,
                        }).bytes()
                    },
                    Err(e) => {
                        &&& read == Err::<(Seq<u32>, Operands, DeltaState), ErrorKind>(e)
                        &&& *final(self) == *old(self)
                        &&& final(out)@ == old(out)@
                    },
                }
            }),
    {
        let saved: Decoder<'a> = *self;
        let start: usize = out.len();
        let layout: OperandLayout = classify(head.opcode);
        let count: usize = (head.words - 1) as usize;
        proof {
            lemma_first_word(head.opcode, head.words);
        }
        let first: u32 = head.opcode as u32 + 65536 * (head.words as u32);
        write_4(out, first);
        let ghost read = read_operands(
            layout,
            0,
            count as nat,
            old(self).operands(),
            old(self).state,
        );
        let ghost mut got: Seq<u32> = Seq::empty();
        let mut i: usize = 0;
        proof {
            if read is Ok {
                assert(Seq::<u32>::empty() + read.unwrap().0 =~= read.unwrap().0);
            }
            lemma_words_bytes_one(0);
            assert(out@ =~= old(out)@ + word_bytes(first) + words_bytes(got));
        }
        while i < count
            invariant
                i <= count,
                self.wf(),
                got.len() == i,
                saved == *old(self),
                saved.wf(),
                start == old(out)@.len(),
                count == head.words - 1,
                layout == layout_of(head.opcode),
                read == read_operands(
                    layout,
                    0,
                    count as nat,
                    old(self).operands(),
                    old(self).state,
                ),
                read == operands_behind(
                    got,
                    read_operands(
                        layout,
                        i as nat,
                        (count - i) as nat,
                        self.operands(),
                        self.state,
                    ),
                ),
                out@ == old(out)@ + word_bytes(first) + words_bytes(got),
            decreases count - i,
        {
            let role: Role = layout.role(i);
            let ghost before = self.operands();
            let ghost state = self.state;
            let word: u32 = match self.take_operand(role) {
                Ok(word) => word,
                Err(e) => {
                    *self = saved;
                    out.truncate(start);
                    proof {
                        assert(out@ =~= old(out)@);
                    }
                    return Err(e);
                },
            };
            write_4(out, word);
            proof {
                lemma_operands_behind_push(
                    got,
                    word,
                    read_operands(
                        layout,
                        (i + 1) as nat,
                        (count - i - 1) as nat,
                        self.operands(),
                        self.state,
                    ),
                );
                lemma_words_bytes_add(got, seq![word]);
                lemma_words_bytes_one(word);
                assert(got.push(word) =~= got + seq![word]);
                got = got.push(word);
                assert(out@ =~= old(out)@ + word_bytes(first) + words_bytes(got));
            }
            i = i + 1;
        }
        proof {
            assert(got + Seq::<u32>::empty() =~= got);
            assert(out@ =~= old(out)@ + (word_bytes(first) + words_bytes(got)));
        }
        Ok(())
    }
}

/// Reads the operands of the instructions with the heads `heads` through
/// `decoder`, which must be spent by them, and appends the words of the
/// instructions to `out`. Where that cannot be done, `decoder` and `out`
/// stay as they were.
pub fn take_instructions<'a>(decoder: &mut Decoder<'a>, out: &mut Vec<u8>, heads: &Vec<Head>) -> (r:
    Result<(), ErrorKind>)
    requires
        old(decoder).wf(),
        forall|i: int| 0 <= i < heads@.len() ==> (#[trigger] heads@[i]).words >= 1,
    ensures
        final(decoder).wf(),
        match r {
            Ok(()) => {
                &&& replay(heads@, old(decoder).operands(), old(decoder).state) is Ok
                &&& final(out)@ == old(out)@ + instructions_bytes(
                    replay(heads@, old(decoder).operands(), old(decoder).state).unwrap(),
                )
                &&& final(decoder).operands().is_empty()
            },
            Err(e) => {
                &&& replay(heads@, old(decoder).operands(), old(decoder).state) == Err::<
                    Seq<Instruction>,
                    ErrorKind,
                >(e)
                &&& *final(decoder) == *old(decoder)
                &&& final(out)@ == old(out)@
            },
        },
{
    let saved: Decoder<'a> = *decoder;
    let start: usize = out.len();
    let ghost whole = replay(heads@, old(decoder).operands(), old(decoder).state);
    let ghost mut done: Seq<Instruction> = Seq::empty();
    let mut k: usize = 0;
    proof {
        assert(heads@.skip(0) =~= heads@);
        lemma_behind_ends(done, whole);
        assert(out@ =~= old(out)@ + instructions_bytes(done));
    }
    while k < heads.len()
        invariant
            k <= heads.len(),
            decoder.wf(),
            saved == *old(decoder),
            saved.wf(),
            start == old(out)@.len(),
            forall|i: int| 0 <= i < heads@.len() ==> (#[trigger] heads@[i]).words >= 1,
            whole == replay(heads@, old(decoder).operands(), old(decoder).state),
            whole == behind(done, replay(heads@.skip(k as int), decoder.operands(), decoder.state)),
            out@ == old(out)@ + instructions_bytes(done),
        decreases heads.len() - k,
    {
        let head: Head = heads[k];
        let ghost read = read_operands(
            layout_of(head.opcode),
            0,
            (head.words - 1) as nat,
            decoder.operands(),
            decoder.state,
        );
        let ghost before = out@;
        proof {
            assert(heads@.skip(k as int)[0] == head);
            assert(heads@.skip(k as int).skip(1) =~= heads@.skip(k + 1));
        }
        match decoder.take_instruction(out, head) {
            Ok(()) => {},
            Err(e) => {
                *decoder = saved;
                out.truncate(start);
                proof {
                    assert(out@ =~= old(out)@);
                }
                return Err(e);
            },
        }
        proof {
            let instruction = Instruction { opcode: head.opcode, operands: read.unwrap().0 };
            lemma_behind_push(
                done,
                instruction,
                replay(heads@.skip(k + 1), decoder.operands(), decoder.state),
            );
            lemma_instructions_bytes_push(done, instruction);
            assert(out@ =~= old(out)@ + instructions_bytes(done.push(instruction)));
            done = done.push(instruction);
        }
        k = k + 1;
    }
    proof {
        assert(heads@.skip(k as int) =~= Seq::<Head>::empty());
        lemma_behind_ends(done, Ok(Seq::empty()));
    }
    if !decoder.is_spent() {
        *decoder = saved;
        out.truncate(start);
        proof {
            assert(out@ =~= old(out)@);
        }
        return Err(ErrorKind::InvalidFormat);
    }
    Ok(())
}

/// Decodes the compact encoding `input` into the word-aligned module that
/// it was encoded from.
///
/// The input is refused with `InvalidFormat` where it does not begin with
/// the magic number of the compact encoding, where bytes are left behind
/// its last section or in a stream behind the last operand, or where an
/// instruction has no words; with `Truncated` where it or one of its
/// streams ends too early; with `Overflow` where a number is too wide for
/// its place or the module too long for a buffer. No part of a module is
/// ever given for an input that is refused.
pub fn decode(input: &[u8]) -> (r: Result<Vec<u8>, ErrorKind>)
    ensures
        match r {
            Ok(out) => decoded(input@) == Ok::<Seq<u8>, ErrorKind>(out@),
            Err(e) => decoded(input@) == Err::<Seq<u8>, ErrorKind>(e),
        },
        r is Ok ==> parse_module(r.unwrap()@) is Ok,
{
    let found: Frame = match read_frame(input) {
        Ok(found) => found,
        Err(e) => {
            return Err(e);
        },
    };
    let heads: Vec<Head> = match read_heads(found.ops) {
        Ok(heads) => heads,
        Err(e) => {
            return Err(e);
        },
    };
    let size: usize = match module_size(&heads) {
        Ok(size) => size,
        Err(e) => {
            return Err(e);
        },
    };
    // An instruction takes two bytes of the opcode stream and each operand
    // one byte or more of its stream, so a module that is decoded has no
    // more than four bytes for each byte of `input`, besides its header.
    // A longer one is refused below; no room is set aside for it.
    let mut out: Vec<u8> = if (size - HEADER_BYTES) / 4 <= input.len() {
        Vec::with_capacity(size)
    } else {
        Vec::new()
    };
    write_header(&mut out, VERBOSE_MAGIC, &found.header);
    let mut decoder: Decoder = Decoder::new(&found);
    proof {
        lemma_parse_heads_words(found.ops@);
    }
    match take_instructions(&mut decoder, &mut out, &heads) {
        Ok(()) => {
            proof {
                decoded_is_a_module(input@);
            }
            Ok(out)
        },
        Err(e) => Err(e),
    }
}

/// The number of bytes that [`decode`] gives for the compact encoding
/// `input`, found without reading a single operand: from the header, the
/// lengths of the sections and the opcode stream.
///
/// The input is refused where its frame or its opcode stream is, as
/// [`decode`] refuses it. Instructions that were left out when `input` was
/// encoded are not counted: nothing in `input` tells of them.
pub fn get_decoded_buffer_size(input: &[u8]) -> (r: Result<usize, ErrorKind>)
    ensures
        match r {
            Ok(size) => decoded_size(input@) == Ok::<nat, ErrorKind>(size as nat),
            Err(e) => decoded_size(input@) == Err::<nat, ErrorKind>(e) && decoded(input@) == Err::<
                Seq<u8>,
                ErrorKind,
            >(e),
        },
        decoded(input@) is Ok ==> r == Ok::<usize, ErrorKind>(
            decoded(input@).unwrap().len() as usize,
        ),
{
    proof {
        if decoded(input@) is Ok {
            decoded_is_a_module(input@);
        }
    }
    let found: Frame = match read_frame(input) {
        Ok(found) => found,
        Err(e) => {
            return Err(e);
        },
    };
    let heads: Vec<Head> = match read_heads(found.ops) {
        Ok(heads) => heads,
        Err(e) => {
            return Err(e);
        },
    };
    module_size(&heads)
}

/// Decodes the compact encoding that begins with `input` and goes on with
/// `source`, and says whether the two together hold a module.
pub fn decode_from(source: &[u8], input: &[u8]) -> (r: Result<(), ErrorKind>)
    ensures
        match r {
            Ok(()) => decoded(input@ + source@) is Ok,
            Err(e) => decoded(input@ + source@) == Err::<Seq<u8>, ErrorKind>(e),
        },
{
    let mut whole: Vec<u8> = Vec::new();
    append_bytes(&mut whole, input);
    append_bytes(&mut whole, source);
    proof {
        assert(whole@ =~= input@ + source@);
    }
    match decode(whole.as_slice()) {
        Ok(_) => Ok(()),
        Err(e) => Err(e),
    }
}

} // verus!
