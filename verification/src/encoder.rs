//! Encoding: from the word-aligned form of a module to the compact one.
use crate::decoder::decoded;
use crate::error::ErrorKind;
use crate::frame::{append_bytes, frame, section_bytes, sections_bytes, sections_of, write_section};
use crate::header::{read_header, write_header, Header, COMPACT_MAGIC, HEADER_BYTES, VERBOSE_MAGIC};
use crate::laws::{decodes_again, stripped};
use crate::module::{
    all_valid, behind, first_instruction, lemma_behind_ends, lemma_behind_push, lemma_word_halves,
    parse_instructions, parse_module, total_words, Instruction, Module,
};
use crate::stream::{
    emit_instruction, emit_instructions, emit_operands, lemma_emit_instructions_push,
    lemma_emit_operands_push, lemma_operands_concat, state_after_instruction,
    state_after_instructions, state_after_operands, DeltaState, Operands, Streams,
};
use crate::table::{classify, is_debug, layout_of, OperandLayout, Role};
use crate::varint::{varint, write_varint};
use crate::words::{lemma_words_of_index, read_4, word_at};
use vstd::prelude::*;
use vstd::slice::slice_subrange;

verus! {

/// What to leave out while encoding.
#[derive(Clone, Copy, Debug, PartialEq, Eq, Structural)]
pub enum EncodeFlags {
    /// Leave nothing out: the module can be decoded again word for word.
    NoFlags,
    /// The instructions that only serve debugging, such as names and
    /// source lines. They cannot be had back from the encoded module, and
    /// nothing in it records that they were there.
    StripDebugInfo,
}

/// Whether encoding with `flags` leaves `instruction` out.
pub open spec fn strips(flags: EncodeFlags, instruction: Instruction) -> bool {
    flags == EncodeFlags::StripDebugInfo && is_debug(instruction.opcode)
}

/// The instructions that encoding with `flags` keeps, in order.
pub open spec fn retain(instructions: Seq<Instruction>, flags: EncodeFlags) -> Seq<Instruction>
    decreases instructions.len(),
{
    if instructions.len() == 0 {
        Seq::empty()
    } else if strips(flags, instructions[0]) {
        retain(instructions.skip(1), flags)
    } else {
        seq![instructions[0]] + retain(instructions.skip(1), flags)
    }
}

/// The compact encoding of `module` under `flags`.
pub open spec fn encode_module(module: Module, flags: EncodeFlags) -> Seq<u8> {
    frame(
        module.header,
        emit_instructions(retain(module.instructions, flags), DeltaState::start()),
    )
}

/// The compact encoding, under `flags`, of the module that `bytes` hold in
/// the word-aligned encoding; the error where they hold none.
pub open spec fn encoded(bytes: Seq<u8>, flags: EncodeFlags) -> Result<Seq<u8>, ErrorKind> {
    match parse_module(bytes) {
        Err(e) => Err(e),
        Ok(module) => Ok(encode_module(module, flags)),
    }
}

/// What is kept of one more instruction.
pub proof fn lemma_retain_push(instructions: Seq<Instruction>, flags: EncodeFlags, last: Instruction)
    ensures
        retain(instructions.push(last), flags) == if strips(flags, last) {
            retain(instructions, flags)
        } else {
            retain(instructions, flags).push(last)
        },
    decreases instructions.len(),
{
    let more = instructions.push(last);
    if instructions.len() == 0 {
        assert(more.skip(1) =~= Seq::<Instruction>::empty());
        assert(retain(more.skip(1), flags) =~= Seq::<Instruction>::empty());
        assert(retain(instructions, flags) =~= Seq::<Instruction>::empty());
        assert(seq![last] + Seq::<Instruction>::empty() =~= Seq::<Instruction>::empty().push(
            last,
        ));
    } else {
        assert(more.skip(1) =~= instructions.skip(1).push(last));
        lemma_retain_push(instructions.skip(1), flags, last);
        if !strips(flags, last) && !strips(flags, instructions[0]) {
            assert(seq![instructions[0]] + retain(instructions.skip(1), flags).push(last) =~= (
            seq![instructions[0]] + retain(instructions.skip(1), flags)).push(last));
        }
    }
}

/// With no flags every instruction is kept.
pub proof fn lemma_retain_all(instructions: Seq<Instruction>)
    ensures
        retain(instructions, EncodeFlags::NoFlags) == instructions,
    decreases instructions.len(),
{
    if instructions.len() > 0 {
        lemma_retain_all(instructions.skip(1));
        assert(seq![instructions[0]] + instructions.skip(1) =~= instructions);
    } else {
        assert(instructions =~= Seq::<Instruction>::empty());
    }
}

/// Of the instructions that are kept none would be stripped, so that
/// keeping them once more changes nothing; each is valid if the given ones
/// are; and together they have no more words than the given ones.
pub proof fn lemma_retain_kept(instructions: Seq<Instruction>, flags: EncodeFlags)
    ensures
        forall|i: int|
            0 <= i < retain(instructions, flags).len() ==> !strips(
                flags,
                #[trigger] retain(instructions, flags)[i],
            ),
        all_valid(instructions) ==> all_valid(retain(instructions, flags)),
        retain(retain(instructions, flags), flags) == retain(instructions, flags),
        total_words(retain(instructions, flags)) <= total_words(instructions),
    decreases instructions.len(),
{
    let kept = retain(instructions, flags);
    if instructions.len() > 0 {
        let tail = instructions.skip(1);
        let rest = retain(tail, flags);
        lemma_retain_kept(tail, flags);
        if all_valid(instructions) {
            assert(instructions[0].valid());
            assert forall|i: int| 0 <= i < tail.len() implies (#[trigger] tail[i]).valid() by {
                assert(tail[i] == instructions[i + 1]);
            }
        }
        if !strips(flags, instructions[0]) {
            assert(kept.skip(1) =~= rest);
            assert forall|i: int| 0 <= i < kept.len() implies !strips(flags, #[trigger] kept[i])
                && (all_valid(instructions) ==> kept[i].valid()) by {
                if i > 0 {
                    assert(kept[i] == rest[i - 1]);
                }
            }
        }
    }
}

/// The streams of one encode while they are written, with the state that
/// the next identifiers are measured against.
pub struct Encoder {
    /// The opcode stream.
    pub ops: Vec<u8>,
    /// The stream of result identifiers.
    pub results: Vec<u8>,
    /// The stream of type identifiers.
    pub types: Vec<u8>,
    /// The stream of references.
    pub refs: Vec<u8>,
    /// The stream of literals.
    pub literals: Vec<u8>,
    /// The identifiers written last.
    pub state: DeltaState,
}

impl Encoder {
    /// The streams as written so far.
    pub open spec fn streams(&self) -> Streams {
        Streams {
            ops: self.ops@,
            operands: Operands {
                results: self.results@,
                types: self.types@,
                refs: self.refs@,
                literals: self.literals@,
            },
        }
    }

    /// Empty streams, and the state before the first instruction.
    pub fn new() -> (encoder: Encoder)
        ensures
            encoder.streams() == Streams::empty(),
            encoder.state == DeltaState::start(),
    {
        let encoder = Encoder {
            ops: Vec::new(),
            results: Vec::new(),
            types: Vec::new(),
            refs: Vec::new(),
            literals: Vec::new(),
            state: DeltaState::new(),
        };
        proof {
            assert(encoder.streams() =~= Streams::empty());
        }
        encoder
    }

    /// Writes the opcode and the number of words of an instruction.
    pub fn put_head(&mut self, opcode: u16, words: u16)
        ensures
            final(self).streams() == (Streams {
                ops: old(self).ops@ + (varint(opcode as nat) + varint(words as nat)),
                ..old(self).streams()
            }),
            final(self).state == old(self).state,
    {
        write_varint(&mut self.ops, opcode as u64);
        write_varint(&mut self.ops, words as u64);
        proof {
            assert(self.ops@ =~= old(self).ops@ + (varint(opcode as nat) + varint(words as nat)));
        }
    }

    /// Writes an operand `value` of role `role` into the stream of that
    /// role.
    pub fn put_operand(&mut self, role: Role, value: u32)
        ensures
            final(self).streams() == (Streams {
                operands: old(self).streams().operands.concat(
                    Operands::only(role, varint(old(self).state.code(role, value))),
                ),
                ..old(self).streams()
            }),
            final(self).state == old(self).state.after(role, value),
    {
        let code: u64 = self.state.pack(role, value);
        match role {
            Role::ResultId => write_varint(&mut self.results, code),
            Role::TypeId => write_varint(&mut self.types, code),
            Role::IdRef => write_varint(&mut self.refs, code),
            Role::Literal => write_varint(&mut self.literals, code),
        }
        proof {
            assert(self.streams().operands =~= old(self).streams().operands.concat(
                Operands::only(role, varint(old(self).state.code(role, value))),
            ));
        }
    }

    /// Writes the instruction of `words` words that begins at `at` in
    /// `input`.
    pub fn put_instruction(&mut self, input: &[u8], at: usize, opcode: u16, words: u16)
        requires
            words >= 1,
            at + 4 * words <= input.len(),
            word_at(input@, at as int) == opcode + 65536 * words,
        ensures
            final(self).streams() == old(self).streams().concat(
                emit_instruction(first_instruction(input@.skip(at as int)), old(self).state),
            ),
            final(self).state == state_after_instruction(
                first_instruction(input@.skip(at as int)),
                old(self).state,
            ),
    {
        let ghost bytes = input@.skip(at as int);
        let ghost instruction = first_instruction(bytes);
        let ghost operands = instruction.operands;
        let layout: OperandLayout = classify(opcode);
        proof {
            lemma_word_halves(word_at(input@, at as int));
            assert(word_at(bytes, 0) == word_at(input@, at as int));
            assert(instruction.opcode == opcode);
            lemma_words_of_index(bytes.subrange(4, 4 * words));
            assert(operands.len() == words - 1);
            assert forall|k: int| 0 <= k < words - 1 implies #[trigger] operands[k] == word_at(
                input@,
                at + 4 + 4 * k,
            ) by {
                assert(operands[k] == word_at(bytes.subrange(4, 4 * words), 4 * k));
            }
        }
        self.put_head(opcode, words);
        let ghost base = self.streams();
        let mut i: usize = 0;
        let count: usize = (words - 1) as usize;
        proof {
            lemma_operands_concat(base.operands, base.operands, base.operands);
            assert(operands.take(0) =~= Seq::<u32>::empty());
        }
        while i < count
            invariant
                i <= count,
                count == words - 1,
                at + 4 * words <= input.len(),
                bytes == input@.skip(at as int),
                operands.len() == count,
                forall|k: int|
                    0 <= k < count ==> #[trigger] operands[k] == word_at(input@, at + 4 + 4 * k),
                layout == layout_of(opcode),
                self.streams() == (Streams {
                    operands: base.operands.concat(
                        emit_operands(layout, 0, operands.take(i as int), old(self).state),
                    ),
                    ..base
                }),
                self.state == state_after_operands(
                    layout,
                    0,
                    operands.take(i as int),
                    old(self).state,
                ),
            decreases count - i,
        {
            let word: u32 = read_4(input, at + 4 + 4 * i);
            let role: Role = layout.role(i);
            let ghost before = operands.take(i as int);
            proof {
                assert(word == operands[i as int]);
                assert(operands.take(i + 1) =~= before.push(word));
                lemma_emit_operands_push(layout, 0, before, old(self).state, word);
                lemma_operands_concat(
                    base.operands,
                    emit_operands(layout, 0, before, old(self).state),
                    Operands::only(role, varint(self.state.code(role, word))),
                );
            }
            self.put_operand(role, word);
            i = i + 1;
        }
        proof {
            assert(operands.take(count as int) =~= operands);
            assert(self.streams() =~= old(self).streams().concat(
                emit_instruction(instruction, old(self).state),
            ));
        }
    }

    /// The compact encoding of `header` and the streams.
    pub fn finish(&self, header: &Header) -> (out: Vec<u8>)
        ensures
            out@ == frame(*header, self.streams()),
    {
        let mut out: Vec<u8> = Vec::new();
        write_header(&mut out, COMPACT_MAGIC, header);
        write_section(&mut out, self.ops.as_slice());
        write_section(&mut out, self.results.as_slice());
        write_section(&mut out, self.types.as_slice());
        write_section(&mut out, self.refs.as_slice());
        write_section(&mut out, self.literals.as_slice());
        proof {
            let sections = sections_of(self.streams());
            reveal_with_fuel(sections_bytes, 6);
            assert(sections.skip(1).skip(1) =~= sections.skip(2));
            assert(sections.skip(2).skip(1) =~= sections.skip(3));
            assert(sections.skip(3).skip(1) =~= sections.skip(4));
            assert(sections.skip(4).skip(1) =~= sections.skip(5));
            assert(sections_bytes(sections) =~= section_bytes(self.ops@) + section_bytes(
                self.results@,
            ) + section_bytes(self.types@) + section_bytes(self.refs@) + section_bytes(
                self.literals@,
            ));
            assert(out@ =~= frame(*header, self.streams()));
        }
        out
    }
}

/// What one more instruction does to the streams of the instructions that
/// are kept.
proof fn lemma_encode_step(done: Seq<Instruction>, flags: EncodeFlags, next: Instruction)
    ensures
        ({
            let start = DeltaState::start();
            let kept = retain(done, flags);
            let more = retain(done.push(next), flags);
            let state = state_after_instructions(kept, start);
            if strips(flags, next) {
                &&& emit_instructions(more, start) == emit_instructions(kept, start)
                &&& state_after_instructions(more, start) == state
            } else {
                &&& emit_instructions(more, start) == emit_instructions(kept, start).concat(
                    emit_instruction(next, state),
                )
                &&& state_after_instructions(more, start) == state_after_instruction(next, state)
            }
        }),
{
    lemma_retain_push(done, flags, next);
    lemma_emit_instructions_push(retain(done, flags), DeltaState::start(), next);
}

/// Reads the first word of the instruction that begins at `at` in `input`
/// and gives its opcode and its number of words, once the instruction is
/// known to lie within `input`.
pub fn next_instruction(input: &[u8], at: usize) -> (r: Result<(u16, u16), ErrorKind>)
    requires
        at < input.len(),
    ensures
        match r {
            Ok((opcode, words)) => {
                &&& words >= 1
                &&& at + 4 * words <= input.len()
                &&& word_at(input@, at as int) == opcode + 65536 * words
                &&& first_instruction(input@.skip(at as int)).opcode == opcode
                &&& parse_instructions(input@.skip(at as int)) == behind(
                    seq![first_instruction(input@.skip(at as int))],
                    parse_instructions(input@.skip(at + 4 * words)),
                )
            },
            Err(e) => parse_instructions(input@.skip(at as int)) == Err::<
                Seq<Instruction>,
                ErrorKind,
            >(e),
        },
{
    let ghost bytes = input@.skip(at as int);
    let left: usize = input.len() - at;
    if left < 4 {
        return Err(ErrorKind::Truncated);
    }
    let first: u32 = read_4(input, at);
    let words: u32 = first / 65536;
    let opcode: u16 = (first % 65536) as u16;
    proof {
        lemma_word_halves(first);
        assert(word_at(bytes, 0) == first);
    }
    if words == 0 {
        return Err(ErrorKind::InvalidFormat);
    }
    if left / 4 < words as usize {
        return Err(ErrorKind::Truncated);
    }
    proof {
        assert(bytes.skip(4 * words) =~= input@.skip(at + 4 * words));
    }
    Ok((opcode, words as u16))
}

/// Writes the instructions that `body` holds, one behind the other, into
/// the streams of a new encoder, but for those that `flags` leave out.
pub fn encode_instructions(body: &[u8], flags: EncodeFlags) -> (r: Result<Encoder, ErrorKind>)
    ensures
        match r {
            Ok(encoder) => {
                &&& parse_instructions(body@) is Ok
                &&& encoder.streams() == emit_instructions(
                    retain(parse_instructions(body@).unwrap(), flags),
                    DeltaState::start(),
                )
                &&& encoder.state == state_after_instructions(
                    retain(parse_instructions(body@).unwrap(), flags),
                    DeltaState::start(),
                )
            },
            Err(e) => parse_instructions(body@) == Err::<Seq<Instruction>, ErrorKind>(e),
        },
{
    let strip: bool = match flags {
        EncodeFlags::NoFlags => false,
        EncodeFlags::StripDebugInfo => true,
    };
    let mut encoder: Encoder = Encoder::new();
    let mut at: usize = 0;
    let ghost whole = parse_instructions(body@);
    let ghost mut done: Seq<Instruction> = Seq::empty();
    proof {
        assert(body@.skip(0) =~= body@);
        lemma_behind_ends(done, whole);
    }
    while at < body.len()
        invariant
            at <= body.len(),
            strip == (flags == EncodeFlags::StripDebugInfo),
            whole == parse_instructions(body@),
            whole == behind(done, parse_instructions(body@.skip(at as int))),
            encoder.streams() == emit_instructions(retain(done, flags), DeltaState::start()),
            encoder.state == state_after_instructions(retain(done, flags), DeltaState::start()),
        decreases body.len() - at,
    {
        let (opcode, words) = match next_instruction(body, at) {
            Ok(head) => head,
            Err(e) => {
                return Err(e);
            },
        };
        let ghost instruction = first_instruction(body@.skip(at as int));
        let skip: bool = strip && classify(opcode).debug;
        if !skip {
            encoder.put_instruction(body, at, opcode, words);
        }
        proof {
            lemma_encode_step(done, flags, instruction);
            lemma_behind_push(done, instruction, parse_instructions(body@.skip(at + 4 * words)));
            done = done.push(instruction);
        }
        at = at + 4 * words as usize;
    }
    proof {
        assert(body@.skip(at as int) =~= Seq::<u8>::empty());
        lemma_behind_ends(done, Ok(Seq::empty()));
    }
    Ok(encoder)
}

/// Encodes the word-aligned module `input` into the compact encoding.
///
/// With `StripDebugInfo` the instructions that only serve debugging are
/// left out. The input is refused as `Truncated` where it ends inside the
/// header, a word or an instruction, and as an `InvalidFormat` where it
/// does not begin with the magic number of the word-aligned encoding or
/// holds an instruction of no words.
///
/// What is given decodes again: with no flags to `input` itself, and with
/// `StripDebugInfo` to `input` without its debugging instructions.
pub fn encode(input: &[u8], flags: EncodeFlags) -> (r: Result<Vec<u8>, ErrorKind>)
    ensures
        match r {
            Ok(out) => encoded(input@, flags) == Ok::<Seq<u8>, ErrorKind>(out@),
            Err(e) => encoded(input@, flags) == Err::<Seq<u8>, ErrorKind>(e),
        },
        r is Ok && flags == EncodeFlags::NoFlags ==> decoded(r.unwrap()@) == Ok::<
            Seq<u8>,
            ErrorKind,
        >(input@),
        r is Ok && flags == EncodeFlags::StripDebugInfo ==> decoded(r.unwrap()@) == Ok::<
            Seq<u8>,
            ErrorKind,
        >(stripped(input@)),
{
    let header: Header = match read_header(input, VERBOSE_MAGIC) {
        Ok(header) => header,
        Err(e) => {
            return Err(e);
        },
    };
    let body: &[u8] = slice_subrange(input, HEADER_BYTES, input.len());
    proof {
        assert(body@ =~= input@.skip(20));
    }
    let encoder: Encoder = match encode_instructions(body, flags) {
        Ok(encoder) => encoder,
        Err(e) => {
            return Err(e);
        },
    };
    let out: Vec<u8> = encoder.finish(&header);
    proof {
        assert(input@.len() == input.len());
        assert(out@.len() == out.len());
        decodes_again(input@, flags, out@);
    }
    Ok(out)
}

/// Encodes the word-aligned module `input` and appends the compact
/// encoding to `sink`; where `input` is refused, `sink` stays as it was.
pub fn encode_into(sink: &mut Vec<u8>, input: &[u8], flags: EncodeFlags) -> (r: Result<
    (),
    ErrorKind,
>)
    ensures
        match r {
            Ok(()) => encoded(input@, flags) is Ok && final(sink)@ == old(sink)@ + encoded(
                input@,
                flags,
            ).unwrap(),
            Err(e) => encoded(input@, flags) == Err::<Seq<u8>, ErrorKind>(e) && final(sink)@ == old(
                sink,
            )@,
        },
{
    match encode(input, flags) {
        Err(e) => Err(e),
        Ok(out) => {
            append_bytes(sink, out.as_slice());
            Ok(())
        },
    }
}

} // verus!
