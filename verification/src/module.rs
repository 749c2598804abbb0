//! The word-aligned encoding of a module: a header, then instructions one
//! behind the other, each a first word that holds its opcode and its number
//! of words, followed by its operand words.
use crate::error::ErrorKind;
use crate::header::{header_bytes, parse_header, Header, VERBOSE_MAGIC};
use crate::words::{
    lemma_word_at_bytes, lemma_word_bytes_at, lemma_words_bytes_of, lemma_words_of_bytes,
    lemma_words_of_index, word_at, word_bytes, words_bytes, words_of,
};
use vstd::prelude::*;

verus! {

/// One instruction.
pub struct Instruction {
    /// What the instruction does.
    pub opcode: u16,
    /// The words behind its first word.
    pub operands: Seq<u32>,
}

impl Instruction {
    /// Whether the number of words, the first one included, fits the
    /// sixteen bits that the first word has for it.
    pub open spec fn valid(self) -> bool {
        self.operands.len() < 0xFFFF
    }

    /// The number of words, the first one included.
    pub open spec fn word_count(self) -> nat {
        self.operands.len() + 1
    }

    /// The first word: the opcode in the low half, the number of words in
    /// the high half.
    pub open spec fn first_word(self) -> u32 {
        (self.opcode + 65536 * self.word_count()) as u32
    }

    /// The bytes of the instruction.
    pub open spec fn bytes(self) -> Seq<u8> {
        word_bytes(self.first_word()) + words_bytes(self.operands)
    }
}

/// A module: its header and its instructions.
pub struct Module {
    /// The header, without the magic number.
    pub header: Header,
    /// The instructions, in order.
    pub instructions: Seq<Instruction>,
}

/// Whether each of `instructions` is valid.
pub open spec fn all_valid(instructions: Seq<Instruction>) -> bool {
    forall|i: int| 0 <= i < instructions.len() ==> (#[trigger] instructions[i]).valid()
}

/// The number of words that `instructions` have together.
pub open spec fn total_words(instructions: Seq<Instruction>) -> nat
    decreases instructions.len(),
{
    if instructions.len() == 0 {
        0
    } else {
        instructions[0].word_count() + total_words(instructions.skip(1))
    }
}

/// The bytes of `instructions`, one behind the other.
pub open spec fn instructions_bytes(instructions: Seq<Instruction>) -> Seq<u8>
    decreases instructions.len(),
{
    if instructions.len() == 0 {
        Seq::empty()
    } else {
        instructions[0].bytes() + instructions_bytes(instructions.skip(1))
    }
}

/// The instruction at the front of `bytes`, which begin with as many words
/// as its first word says.
pub open spec fn first_instruction(bytes: Seq<u8>) -> Instruction {
    Instruction {
        opcode: (word_at(bytes, 0) % 65536) as u16,
        operands: words_of(bytes.subrange(4, 4 * (word_at(bytes, 0) as int / 65536))),
    }
}

/// `front` before what `rest` holds, if it holds anything.
pub open spec fn behind<T>(front: Seq<T>, rest: Result<Seq<T>, ErrorKind>) -> Result<
    Seq<T>,
    ErrorKind,
> {
    match rest {
        Ok(more) => Ok(front + more),
        Err(e) => Err(e),
    }
}

/// The instructions that `bytes` hold, one behind the other.
///
/// Bytes that end inside a word or inside an instruction are `Truncated`;
/// an instruction that gives itself no words at all is an `InvalidFormat`.
pub open spec fn parse_instructions(bytes: Seq<u8>) -> Result<Seq<Instruction>, ErrorKind>
    decreases bytes.len(),
{
    if bytes.len() == 0 {
        Ok(Seq::empty())
    } else if bytes.len() < 4 {
        Err(ErrorKind::Truncated)
    } else {
        let first = word_at(bytes, 0);
        let words = first as int / 65536;
        if words == 0 {
            Err(ErrorKind::InvalidFormat)
        } else if bytes.len() < 4 * words {
            Err(ErrorKind::Truncated)
        } else {
            behind(seq![first_instruction(bytes)], parse_instructions(bytes.skip(4 * words)))
        }
    }
}

/// The bytes of `module` in the word-aligned encoding.
pub open spec fn module_bytes(module: Module) -> Seq<u8> {
    header_bytes(VERBOSE_MAGIC, module.header) + instructions_bytes(module.instructions)
}

/// The module that `bytes` hold in the word-aligned encoding.
pub open spec fn parse_module(bytes: Seq<u8>) -> Result<Module, ErrorKind> {
    match parse_header(bytes, VERBOSE_MAGIC) {
        Err(e) => Err(e),
        Ok(header) => match parse_instructions(bytes.skip(20)) {
            Err(e) => Err(e),
            Ok(instructions) => Ok(Module { header, instructions }),
        },
    }
}

/// One more in front of what is still to be read.
pub proof fn lemma_behind_push<T>(front: Seq<T>, next: T, rest: Result<Seq<T>, ErrorKind>)
    ensures
        behind(front, behind(seq![next], rest)) == behind(front.push(next), rest),
{
    if rest is Ok {
        assert(front + (seq![next] + rest.unwrap()) =~= front.push(next) + rest.unwrap());
    }
}

/// Nothing in front changes nothing, and nothing left to read leaves what
/// is in front.
pub proof fn lemma_behind_ends<T>(front: Seq<T>, rest: Result<Seq<T>, ErrorKind>)
    ensures
        behind(front, Ok(Seq::empty())) == Ok::<Seq<T>, ErrorKind>(front),
        behind(Seq::empty(), rest) == rest,
{
    if rest is Ok {
        assert(Seq::<T>::empty() + rest.unwrap() =~= rest.unwrap());
    }
    assert(front + Seq::<T>::empty() =~= front);
}

/// A first word holds its two halves.
pub proof fn lemma_first_word(opcode: u16, words: u16)
    by (bit_vector)
    ensures
        opcode as u32 + 65536 * (words as u32) <= 0xFFFF_FFFF,
        ((opcode as u32 + 65536 * (words as u32)) as u32) / 65536 == words as u32,
        ((opcode as u32 + 65536 * (words as u32)) as u32) % 65536 == opcode as u32,
{
}

/// The two halves of a word make up the word.
pub proof fn lemma_word_halves(word: u32)
    by (bit_vector)
    ensures
        word / 65536 <= 0xFFFF,
        word % 65536 <= 0xFFFF,
        (word % 65536) + 65536 * (word / 65536) == word,
{
}

/// The bytes of instructions put one behind the other are their bytes put
/// one behind the other.
pub proof fn lemma_instructions_bytes_add(front: Seq<Instruction>, back: Seq<Instruction>)
    ensures
        instructions_bytes(front + back) == instructions_bytes(front) + instructions_bytes(back),
        total_words(front + back) == total_words(front) + total_words(back),
    decreases front.len(),
{
    if front.len() == 0 {
        assert(front + back =~= back);
    } else {
        assert((front + back).skip(1) =~= front.skip(1) + back);
        lemma_instructions_bytes_add(front.skip(1), back);
        assert(instructions_bytes(front + back) =~= instructions_bytes(front) + instructions_bytes(
            back,
        ));
    }
}

/// The bytes of one more instruction.
pub proof fn lemma_instructions_bytes_push(front: Seq<Instruction>, last: Instruction)
    ensures
        instructions_bytes(front.push(last)) == instructions_bytes(front) + last.bytes(),
        total_words(front.push(last)) == total_words(front) + last.word_count(),
{
    let one = seq![last];
    assert(front.push(last) =~= front + one);
    lemma_instructions_bytes_add(front, one);
    reveal_with_fuel(instructions_bytes, 2);
    reveal_with_fuel(total_words, 2);
    assert(instructions_bytes(one) =~= last.bytes());
}

/// Instructions take four bytes for each of their words.
pub proof fn lemma_instructions_bytes_len(instructions: Seq<Instruction>)
    ensures
        instructions_bytes(instructions).len() == 4 * total_words(instructions),
    decreases instructions.len(),
{
    if instructions.len() > 0 {
        lemma_words_of_bytes(instructions[0].operands);
        lemma_instructions_bytes_len(instructions.skip(1));
    }
}

/// Valid instructions are read back from their bytes.
pub proof fn lemma_parse_instructions_written(instructions: Seq<Instruction>)
    requires
        all_valid(instructions),
    ensures
        parse_instructions(instructions_bytes(instructions)) == Ok::<Seq<Instruction>, ErrorKind>(
            instructions,
        ),
    decreases instructions.len(),
{
    if instructions.len() > 0 {
        let head = instructions[0];
        let tail = instructions.skip(1);
        let bytes = instructions_bytes(instructions);
        let words = head.word_count();
        assert(head.valid());
        lemma_first_word(head.opcode, words as u16);
        assert(bytes.subrange(0, 4) =~= word_bytes(head.first_word()));
        lemma_word_at_bytes(head.first_word(), bytes, 0);
        lemma_words_of_bytes(head.operands);
        assert(bytes.subrange(4, 4 * words as int) =~= words_bytes(head.operands));
        assert(bytes.skip(4 * words as int) =~= instructions_bytes(tail));
        assert(all_valid(tail)) by {
            assert forall|i: int| 0 <= i < tail.len() implies (#[trigger] tail[i]).valid() by {
                assert(tail[i] == instructions[i + 1]);
            }
        }
        lemma_parse_instructions_written(tail);
        let read = Instruction {
            opcode: (word_at(bytes, 0) % 65536) as u16,
            operands: words_of(bytes.subrange(4, 4 * words as int)),
        };
        assert(read == head);
        assert(seq![head] + tail =~= instructions);
    } else {
        assert(instructions =~= Seq::empty());
    }
}

/// Instructions that were read are valid, and their bytes are the bytes
/// they were read from.
pub proof fn lemma_instructions_bytes_parsed(bytes: Seq<u8>)
    requires
        parse_instructions(bytes) is Ok,
    ensures
        all_valid(parse_instructions(bytes).unwrap()),
        instructions_bytes(parse_instructions(bytes).unwrap()) == bytes,
    decreases bytes.len(),
{
    if bytes.len() > 0 {
        let first = word_at(bytes, 0);
        let words = first as int / 65536;
        let rest = parse_instructions(bytes.skip(4 * words)).unwrap();
        let head = Instruction {
            opcode: (first % 65536) as u16,
            operands: words_of(bytes.subrange(4, 4 * words)),
        };
        let all = seq![head] + rest;
        lemma_instructions_bytes_parsed(bytes.skip(4 * words));
        lemma_word_halves(first);
        lemma_words_of_index(bytes.subrange(4, 4 * words));
        assert(head.operands.len() == words - 1);
        assert(head.first_word() == first);
        lemma_word_bytes_at(bytes, 0);
        lemma_words_bytes_of(bytes.subrange(4, 4 * words));
        assert(all.skip(1) =~= rest);
        assert(instructions_bytes(all) =~= bytes.subrange(0, 4) + bytes.subrange(4, 4 * words)
            + bytes.skip(4 * words));
        assert(instructions_bytes(all) =~= bytes);
        assert forall|i: int| 0 <= i < all.len() implies (#[trigger] all[i]).valid() by {
            if i > 0 {
                assert(all[i] == rest[i - 1]);
            }
        }
    }
}

/// A valid module is read back from its bytes.
pub proof fn lemma_parse_module_written(module: Module)
    requires
        all_valid(module.instructions),
    ensures
        parse_module(module_bytes(module)) == Ok::<Module, ErrorKind>(module),
{
    let body = instructions_bytes(module.instructions);
    crate::header::lemma_parse_header_written(VERBOSE_MAGIC, module.header, body);
    assert(module_bytes(module).skip(20) =~= body);
    lemma_parse_instructions_written(module.instructions);
}

/// The bytes of a module that was read are the bytes it was read from.
pub proof fn lemma_module_bytes_parsed(bytes: Seq<u8>)
    requires
        parse_module(bytes) is Ok,
    ensures
        all_valid(parse_module(bytes).unwrap().instructions),
        module_bytes(parse_module(bytes).unwrap()) == bytes,
{
    crate::header::lemma_header_bytes_parsed(bytes, VERBOSE_MAGIC);
    lemma_instructions_bytes_parsed(bytes.skip(20));
    assert(bytes =~= bytes.take(20) + bytes.skip(20));
}

} // verus!
