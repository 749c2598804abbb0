//! The streams of the compact encoding.
//!
//! Each instruction puts its opcode and its number of words into the opcode
//! stream, and each of its operands into the stream of the operand's role.
//! Result and type identifiers are written as the folded difference to the
//! identifier of the same role that was written before; references and
//! literals are written as they are.
use crate::error::ErrorKind;
use crate::module::{all_valid, behind, total_words, Instruction};
use crate::table::{layout_of, OperandLayout, Role};
use crate::varint::{
    lemma_parse_varint_bounds, lemma_parse_varint_written, lemma_room, parse_varint, unzigzag,
    varint, zigzag, zigzag_decode, zigzag_encode,
};
use vstd::prelude::*;

verus! {

/// The four operand streams, one for each role.
#[verifier::ext_equal]
pub struct Operands {
    /// The result identifiers.
    pub results: Seq<u8>,
    /// The type identifiers.
    pub types: Seq<u8>,
    /// The references to identifiers.
    pub refs: Seq<u8>,
    /// The literals.
    pub literals: Seq<u8>,
}

impl Operands {
    /// Four streams without a byte.
    pub open spec fn empty() -> Operands {
        Operands {
            results: Seq::empty(),
            types: Seq::empty(),
            refs: Seq::empty(),
            literals: Seq::empty(),
        }
    }

    /// Whether no stream has a byte.
    pub open spec fn is_empty(self) -> bool {
        self.results.len() == 0 && self.types.len() == 0 && self.refs.len() == 0
            && self.literals.len() == 0
    }

    /// The stream of the operands with role `role`.
    pub open spec fn of(self, role: Role) -> Seq<u8> {
        match role {
            Role::ResultId => self.results,
            Role::TypeId => self.types,
            Role::IdRef => self.refs,
            Role::Literal => self.literals,
        }
    }

    /// `bytes` in the stream of `role`, and nothing in the others.
    pub open spec fn only(role: Role, bytes: Seq<u8>) -> Operands {
        match role {
            Role::ResultId => Operands { results: bytes, ..Operands::empty() },
            Role::TypeId => Operands { types: bytes, ..Operands::empty() },
            Role::IdRef => Operands { refs: bytes, ..Operands::empty() },
            Role::Literal => Operands { literals: bytes, ..Operands::empty() },
        }
    }

    /// Each stream of `self` followed by the same stream of `other`.
    pub open spec fn concat(self, other: Operands) -> Operands {
        Operands {
            results: self.results + other.results,
            types: self.types + other.types,
            refs: self.refs + other.refs,
            literals: self.literals + other.literals,
        }
    }

    /// `self` without the first `n` bytes of the stream of `role`.
    pub open spec fn skip(self, role: Role, n: int) -> Operands {
        match role {
            Role::ResultId => Operands { results: self.results.skip(n), ..self },
            Role::TypeId => Operands { types: self.types.skip(n), ..self },
            Role::IdRef => Operands { refs: self.refs.skip(n), ..self },
            Role::Literal => Operands { literals: self.literals.skip(n), ..self },
        }
    }
}

/// The five streams: the opcode stream and the four operand streams.
#[verifier::ext_equal]
pub struct Streams {
    /// The opcode and the number of words of each instruction.
    pub ops: Seq<u8>,
    /// The operands.
    pub operands: Operands,
}

impl Streams {
    /// Five streams without a byte.
    pub open spec fn empty() -> Streams {
        Streams { ops: Seq::empty(), operands: Operands::empty() }
    }

    /// Each stream of `self` followed by the same stream of `other`.
    pub open spec fn concat(self, other: Streams) -> Streams {
        Streams { ops: self.ops + other.ops, operands: self.operands.concat(other.operands) }
    }
}

/// The identifiers that were written last, against which the next ones are
/// measured. It lives as long as one encode or one decode.
#[derive(Clone, Copy, Debug, PartialEq, Eq, Structural)]
pub struct DeltaState {
    /// The result identifier written last, 0 before the first.
    pub result: u32,
    /// The type identifier written last, 0 before the first.
    pub ty: u32,
}

/// `n` as a word, if it is one.
pub open spec fn as_word(n: int) -> Option<u32> {
    if 0 <= n <= 0xFFFF_FFFF {
        Some(n as u32)
    } else {
        None
    }
}

impl DeltaState {
    /// The state before the first instruction.
    pub open spec fn start() -> DeltaState {
        DeltaState { result: 0, ty: 0 }
    }

    /// The number that stands in its stream for an operand `value` of role
    /// `role`.
    pub open spec fn code(self, role: Role, value: u32) -> nat {
        match role {
            Role::ResultId => zigzag(value - self.result),
            Role::TypeId => zigzag(value - self.ty),
            Role::IdRef => value as nat,
            Role::Literal => value as nat,
        }
    }

    /// The operand of role `role` that `code` stands for, if it is a word.
    pub open spec fn value(self, role: Role, code: nat) -> Option<u32> {
        match role {
            Role::ResultId => as_word(self.result + unzigzag(code)),
            Role::TypeId => as_word(self.ty + unzigzag(code)),
            Role::IdRef => as_word(code as int),
            Role::Literal => as_word(code as int),
        }
    }

    /// The state behind an operand `value` of role `role`.
    pub open spec fn after(self, role: Role, value: u32) -> DeltaState {
        match role {
            Role::ResultId => DeltaState { result: value, ..self },
            Role::TypeId => DeltaState { ty: value, ..self },
            Role::IdRef => self,
            Role::Literal => self,
        }
    }

    /// The state before the first instruction.
    pub fn new() -> (state: DeltaState)
        ensures
            state == DeltaState::start(),
    {
        DeltaState { result: 0, ty: 0 }
    }

    /// The number to write for an operand `value` of role `role`; the state
    /// moves behind that operand.
    pub fn pack(&mut self, role: Role, value: u32) -> (code: u64)
        ensures
            code == old(self).code(role, value),
            *final(self) == old(self).after(role, value),
    {
        match role {
            Role::ResultId => {
                let delta: i64 = value as i64 - self.result as i64;
                self.result = value;
                zigzag_encode(delta)
            },
            Role::TypeId => {
                let delta: i64 = value as i64 - self.ty as i64;
                self.ty = value;
                zigzag_encode(delta)
            },
            Role::IdRef => value as u64,
            Role::Literal => value as u64,
        }
    }

    /// The operand of role `role` that the number `code` stands for; the
    /// state moves behind that operand. A number that stands for no word
    /// is an `Overflow`, and leaves the state as it was.
    pub fn unpack(&mut self, role: Role, code: u64) -> (r: Result<u32, ErrorKind>)
        ensures
            match r {
                Ok(value) => old(self).value(role, code as nat) == Some(value) && *final(self)
                    == old(self).after(role, value),
                Err(e) => old(self).value(role, code as nat) is None && e == ErrorKind::Overflow
                    && *final(self) == *old(self),
            },
    {
        let before: u32 = match role {
            Role::ResultId => self.result,
            Role::TypeId => self.ty,
            Role::IdRef => 0,
            Role::Literal => 0,
        };
        let delta: i64 = match role {
            Role::ResultId => zigzag_decode(code),
            Role::TypeId => zigzag_decode(code),
            Role::IdRef => {
                if code > 0xFFFF_FFFF {
                    return Err(ErrorKind::Overflow);
                }
                code as i64
            },
            Role::Literal => {
                if code > 0xFFFF_FFFF {
                    return Err(ErrorKind::Overflow);
                }
                code as i64
            },
        };
        if delta < -0xFFFF_FFFF || delta > 0xFFFF_FFFF {
            return Err(ErrorKind::Overflow);
        }
        let sum: i64 = before as i64 + delta;
        if sum < 0 || sum > 0xFFFF_FFFF {
            return Err(ErrorKind::Overflow);
        }
        let value: u32 = sum as u32;
        match role {
            Role::ResultId => {
                self.result = value;
            },
            Role::TypeId => {
                self.ty = value;
            },
            Role::IdRef => {},
            Role::Literal => {},
        }
        Ok(value)
    }
}

/// The number that stands for an operand is short enough to write, and
/// stands for that operand.
pub proof fn lemma_code_value(state: DeltaState, role: Role, value: u32)
    ensures
        state.code(role, value) < 0x2_0000_0000,
        state.value(role, state.code(role, value)) == Some(value),
{
}

/// What operands from position `at` on put into the operand streams,
/// beginning in state `state`.
pub open spec fn emit_operands(
    layout: OperandLayout,
    at: nat,
    operands: Seq<u32>,
    state: DeltaState,
) -> Operands
    decreases operands.len(),
{
    if operands.len() == 0 {
        Operands::empty()
    } else {
        let role = layout.role_at(at);
        Operands::only(role, varint(state.code(role, operands[0]))).concat(
            emit_operands(layout, at + 1, operands.skip(1), state.after(role, operands[0])),
        )
    }
}

/// The state behind operands from position `at` on.
pub open spec fn state_after_operands(
    layout: OperandLayout,
    at: nat,
    operands: Seq<u32>,
    state: DeltaState,
) -> DeltaState
    decreases operands.len(),
{
    if operands.len() == 0 {
        state
    } else {
        let role = layout.role_at(at);
        state_after_operands(layout, at + 1, operands.skip(1), state.after(role, operands[0]))
    }
}

/// What one instruction puts into the streams.
pub open spec fn emit_instruction(instruction: Instruction, state: DeltaState) -> Streams {
    Streams {
        ops: varint(instruction.opcode as nat) + varint(instruction.word_count()),
        operands: emit_operands(layout_of(instruction.opcode), 0, instruction.operands, state),
    }
}

/// The state behind one instruction.
pub open spec fn state_after_instruction(instruction: Instruction, state: DeltaState) -> DeltaState {
    state_after_operands(layout_of(instruction.opcode), 0, instruction.operands, state)
}

/// What instructions put into the streams, beginning in state `state`.
pub open spec fn emit_instructions(instructions: Seq<Instruction>, state: DeltaState) -> Streams
    decreases instructions.len(),
{
    if instructions.len() == 0 {
        Streams::empty()
    } else {
        emit_instruction(instructions[0], state).concat(
            emit_instructions(
                instructions.skip(1),
                state_after_instruction(instructions[0], state),
            ),
        )
    }
}

/// The state behind instructions.
pub open spec fn state_after_instructions(
    instructions: Seq<Instruction>,
    state: DeltaState,
) -> DeltaState
    decreases instructions.len(),
{
    if instructions.len() == 0 {
        state
    } else {
        state_after_instructions(
            instructions.skip(1),
            state_after_instruction(instructions[0], state),
        )
    }
}

/// What the opcode stream holds of one instruction.
#[derive(Clone, Copy, Debug, PartialEq, Eq, Structural)]
pub struct Head {
    /// The opcode.
    pub opcode: u16,
    /// The number of words, the first one included: never 0.
    pub words: u16,
}

/// The head at the front of `ops`, with the number of bytes it takes.
///
/// An opcode or a number of words beyond sixteen bits is an `Overflow`; no
/// words at all are an `InvalidFormat`.
pub open spec fn parse_head(ops: Seq<u8>) -> Result<(Head, nat), ErrorKind> {
    match parse_varint(ops, 0) {
        Err(e) => Err(e),
        Ok((opcode, used)) => if opcode > 0xFFFF {
            Err(ErrorKind::Overflow)
        } else {
            match parse_varint(ops.skip(used as int), 0) {
                Err(e) => Err(e),
                Ok((words, more)) => if words > 0xFFFF {
                    Err(ErrorKind::Overflow)
                } else if words == 0 {
                    Err(ErrorKind::InvalidFormat)
                } else {
                    Ok((Head { opcode: opcode as u16, words: words as u16 }, used + more))
                },
            }
        },
    }
}

/// A head takes at least two bytes and at most those that are there.
pub proof fn lemma_parse_head_bounds(ops: Seq<u8>)
    requires
        parse_head(ops) is Ok,
    ensures
        2 <= parse_head(ops).unwrap().1 <= ops.len(),
        parse_head(ops).unwrap().0.words >= 1,
{
    lemma_parse_varint_bounds(ops, 0);
    let used = parse_varint(ops, 0).unwrap().1;
    lemma_parse_varint_bounds(ops.skip(used as int), 0);
}

/// The heads that the opcode stream `ops` holds, one behind the other.
pub open spec fn parse_heads(ops: Seq<u8>) -> Result<Seq<Head>, ErrorKind>
    decreases ops.len(),
{
    if ops.len() == 0 {
        Ok(Seq::empty())
    } else {
        match parse_head(ops) {
            Err(e) => Err(e),
            Ok((head, used)) => {
                proof {
                    lemma_parse_head_bounds(ops);
                }
                match parse_heads(ops.skip(used as int)) {
                    Err(e) => Err(e),
                    Ok(rest) => Ok(seq![head] + rest),
                }
            },
        }
    }
}

/// The number of words that instructions with the heads `heads` have.
pub open spec fn heads_words(heads: Seq<Head>) -> nat
    decreases heads.len(),
{
    if heads.len() == 0 {
        0
    } else {
        heads[0].words as nat + heads_words(heads.skip(1))
    }
}

/// The operand of role `role` at the front of its stream in `streams`,
/// read in state `state`; with it, what is left of the streams, and the
/// state behind the operand.
///
/// A stream that ends too early is `Truncated`; a number that stands for
/// no word is an `Overflow`.
pub open spec fn read_operand(role: Role, streams: Operands, state: DeltaState) -> Result<
    (u32, Operands, DeltaState),
    ErrorKind,
> {
    match parse_varint(streams.of(role), 0) {
        Err(e) => Err(e),
        Ok((code, used)) => match state.value(role, code) {
            None => Err(ErrorKind::Overflow),
            Some(value) => Ok((value, streams.skip(role, used as int), state.after(role, value))),
        },
    }
}

/// `front` before the operands that `rest` holds, if it holds any.
pub open spec fn operands_behind(
    front: Seq<u32>,
    rest: Result<(Seq<u32>, Operands, DeltaState), ErrorKind>,
) -> Result<(Seq<u32>, Operands, DeltaState), ErrorKind> {
    match rest {
        Ok((more, left, last)) => Ok((front + more, left, last)),
        Err(e) => Err(e),
    }
}

/// The operands at the positions from `at` on, `count` of them, read from
/// the fronts of `streams` in state `state`; with them, what is left of the
/// streams, and the state behind the operands.
pub open spec fn read_operands(
    layout: OperandLayout,
    at: nat,
    count: nat,
    streams: Operands,
    state: DeltaState,
) -> Result<(Seq<u32>, Operands, DeltaState), ErrorKind>
    decreases count,
{
    if count == 0 {
        Ok((Seq::empty(), streams, state))
    } else {
        match read_operand(layout.role_at(at), streams, state) {
            Err(e) => Err(e),
            Ok((value, left, next)) => operands_behind(
                seq![value],
                read_operands(layout, at + 1, (count - 1) as nat, left, next),
            ),
        }
    }
}

/// The instructions with the heads `heads`, their operands read from the
/// fronts of `streams` in state `state`.
///
/// Bytes that are left in a stream behind the last operand are an
/// `InvalidFormat`.
pub open spec fn replay(heads: Seq<Head>, streams: Operands, state: DeltaState) -> Result<
    Seq<Instruction>,
    ErrorKind,
>
    decreases heads.len(),
{
    if heads.len() == 0 {
        if streams.is_empty() {
            Ok(Seq::empty())
        } else {
            Err(ErrorKind::InvalidFormat)
        }
    } else {
        match read_operands(
            layout_of(heads[0].opcode),
            0,
            (heads[0].words - 1) as nat,
            streams,
            state,
        ) {
            Err(e) => Err(e),
            Ok((operands, left, last)) => behind(
                seq![Instruction { opcode: heads[0].opcode, operands }],
                replay(heads.skip(1), left, last),
            ),
        }
    }
}

/// Each head that was read gives its instruction at least one word.
pub proof fn lemma_parse_heads_words(ops: Seq<u8>)
    requires
        parse_heads(ops) is Ok,
    ensures
        forall|i: int|
            0 <= i < parse_heads(ops).unwrap().len() ==> (#[trigger] parse_heads(
                ops,
            ).unwrap()[i]).words >= 1,
    decreases ops.len(),
{
    if ops.len() > 0 {
        let (head, used) = parse_head(ops).unwrap();
        lemma_parse_head_bounds(ops);
        lemma_parse_heads_words(ops.skip(used as int));
        let rest = parse_heads(ops.skip(used as int)).unwrap();
        let all = seq![head] + rest;
        assert forall|i: int| 0 <= i < all.len() implies (#[trigger] all[i]).words >= 1 by {
            if i > 0 {
                assert(all[i] == rest[i - 1]);
            }
        }
    }
}

/// The words of heads put one behind the other.
pub proof fn lemma_heads_words_add(front: Seq<Head>, back: Seq<Head>)
    ensures
        heads_words(front + back) == heads_words(front) + heads_words(back),
    decreases front.len(),
{
    if front.len() == 0 {
        assert(front + back =~= back);
    } else {
        assert((front + back).skip(1) =~= front.skip(1) + back);
        lemma_heads_words_add(front.skip(1), back);
    }
}

/// One more operand in front of those that are still to be read.
pub proof fn lemma_operands_behind_push(
    front: Seq<u32>,
    next: u32,
    rest: Result<(Seq<u32>, Operands, DeltaState), ErrorKind>,
)
    ensures
        operands_behind(front, operands_behind(seq![next], rest)) == operands_behind(
            front.push(next),
            rest,
        ),
{
    if rest is Ok {
        assert(front + (seq![next] + rest.unwrap().0) =~= front.push(next) + rest.unwrap().0);
    }
}

/// The heads of `instructions`.
pub open spec fn heads_of(instructions: Seq<Instruction>) -> Seq<Head> {
    Seq::new(
        instructions.len(),
        |i: int| Head { opcode: instructions[i].opcode, words: instructions[i].word_count() as u16 },
    )
}

/// Putting streams one behind the other does not depend on the grouping,
/// and empty streams add nothing.
pub proof fn lemma_operands_concat(a: Operands, b: Operands, c: Operands)
    ensures
        a.concat(b).concat(c) == a.concat(b.concat(c)),
        a.concat(Operands::empty()) == a,
        Operands::empty().concat(a) == a,
{
    assert(a.concat(b).concat(c) =~= a.concat(b.concat(c)));
    assert(a.concat(Operands::empty()) =~= a);
    assert(Operands::empty().concat(a) =~= a);
}

/// What one more operand puts into the streams.
pub proof fn lemma_emit_operands_push(
    layout: OperandLayout,
    at: nat,
    operands: Seq<u32>,
    state: DeltaState,
    word: u32,
)
    ensures
        ({
            let role = layout.role_at(at + operands.len());
            let mid = state_after_operands(layout, at, operands, state);
            &&& emit_operands(layout, at, operands.push(word), state) == emit_operands(
                layout,
                at,
                operands,
                state,
            ).concat(Operands::only(role, varint(mid.code(role, word))))
            &&& state_after_operands(layout, at, operands.push(word), state) == mid.after(
                role,
                word,
            )
        }),
    decreases operands.len(),
{
    let more = operands.push(word);
    let role = layout.role_at(at + operands.len());
    let mid = state_after_operands(layout, at, operands, state);
    let last = Operands::only(role, varint(mid.code(role, word)));
    let first = layout.role_at(at);
    let next = state.after(first, more[0]);
    let front = Operands::only(first, varint(state.code(first, more[0])));
    assert(emit_operands(layout, at, more, state) == front.concat(
        emit_operands(layout, at + 1, more.skip(1), next),
    ));
    if operands.len() == 0 {
        assert(more.skip(1) =~= Seq::<u32>::empty());
        assert(emit_operands(layout, at + 1, more.skip(1), next) == Operands::empty());
        assert(state_after_operands(layout, at + 1, more.skip(1), next) == next);
        lemma_operands_concat(last, last, last);
    } else {
        let shorter = emit_operands(layout, at + 1, operands.skip(1), next);
        assert(more.skip(1) =~= operands.skip(1).push(word));
        lemma_emit_operands_push(layout, at + 1, operands.skip(1), next, word);
        lemma_operands_concat(front, shorter, last);
    }
}

/// Operands are read back from what they put into the streams, whatever
/// follows there.
pub proof fn lemma_read_operands_emitted(
    layout: OperandLayout,
    at: nat,
    operands: Seq<u32>,
    state: DeltaState,
    rest: Operands,
)
    ensures
        read_operands(
            layout,
            at,
            operands.len(),
            emit_operands(layout, at, operands, state).concat(rest),
            state,
        ) == Ok::<(Seq<u32>, Operands, DeltaState), ErrorKind>(
            (operands, rest, state_after_operands(layout, at, operands, state)),
        ),
    decreases operands.len(),
{
    let streams = emit_operands(layout, at, operands, state).concat(rest);
    if operands.len() == 0 {
        assert(streams =~= rest);
        assert(operands =~= Seq::<u32>::empty());
    } else {
        let role = layout.role_at(at);
        let code = state.code(role, operands[0]);
        let next = state.after(role, operands[0]);
        let later = emit_operands(layout, at + 1, operands.skip(1), next).concat(rest);
        lemma_room();
        lemma_code_value(state, role, operands[0]);
        assert(streams.of(role) =~= varint(code) + later.of(role));
        lemma_parse_varint_written(code, 0, later.of(role));
        assert((varint(code) + later.of(role)).skip(varint(code).len() as int) =~= later.of(role));
        assert(streams.skip(role, varint(code).len() as int) =~= later);
        lemma_read_operands_emitted(layout, at + 1, operands.skip(1), next, rest);
        assert(seq![operands[0]] + operands.skip(1) =~= operands);
    }
}

/// Putting streams one behind the other does not depend on the grouping,
/// and empty streams add nothing.
pub proof fn lemma_streams_concat(a: Streams, b: Streams, c: Streams)
    ensures
        a.concat(b).concat(c) == a.concat(b.concat(c)),
        a.concat(Streams::empty()) == a,
        Streams::empty().concat(a) == a,
{
    assert(a.concat(b).concat(c) =~= a.concat(b.concat(c)));
    assert(a.concat(Streams::empty()) =~= a);
    assert(Streams::empty().concat(a) =~= a);
}

/// What one more instruction puts into the streams.
pub proof fn lemma_emit_instructions_push(
    instructions: Seq<Instruction>,
    state: DeltaState,
    last: Instruction,
)
    ensures
        ({
            let mid = state_after_instructions(instructions, state);
            &&& emit_instructions(instructions.push(last), state) == emit_instructions(
                instructions,
                state,
            ).concat(emit_instruction(last, mid))
            &&& state_after_instructions(instructions.push(last), state)
                == state_after_instruction(last, mid)
        }),
    decreases instructions.len(),
{
    let more = instructions.push(last);
    let mid = state_after_instructions(instructions, state);
    let next = state_after_instruction(more[0], state);
    let front = emit_instruction(more[0], state);
    let end = emit_instruction(last, mid);
    assert(emit_instructions(more, state) == front.concat(emit_instructions(more.skip(1), next)));
    if instructions.len() == 0 {
        assert(more.skip(1) =~= Seq::<Instruction>::empty());
        assert(emit_instructions(more.skip(1), next) == Streams::empty());
        assert(state_after_instructions(more.skip(1), next) == next);
        lemma_streams_concat(end, end, end);
    } else {
        let shorter = emit_instructions(instructions.skip(1), next);
        assert(more.skip(1) =~= instructions.skip(1).push(last));
        lemma_emit_instructions_push(instructions.skip(1), next, last);
        lemma_streams_concat(front, shorter, end);
    }
}

/// The heads of valid instructions are read back from the opcode stream
/// that the instructions wrote.
pub proof fn lemma_parse_heads_emitted(instructions: Seq<Instruction>, state: DeltaState)
    requires
        all_valid(instructions),
    ensures
        parse_heads(emit_instructions(instructions, state).ops) == Ok::<Seq<Head>, ErrorKind>(
            heads_of(instructions),
        ),
        heads_words(heads_of(instructions)) == total_words(instructions),
    decreases instructions.len(),
{
    let ops = emit_instructions(instructions, state).ops;
    if instructions.len() == 0 {
        assert(heads_of(instructions) =~= Seq::<Head>::empty());
    } else {
        let first = instructions[0];
        let tail = instructions.skip(1);
        let later = emit_instructions(tail, state_after_instruction(first, state)).ops;
        let opcode = varint(first.opcode as nat);
        let words = varint(first.word_count());
        assert(first.valid());
        assert(all_valid(tail)) by {
            assert forall|i: int| 0 <= i < tail.len() implies (#[trigger] tail[i]).valid() by {
                assert(tail[i] == instructions[i + 1]);
            }
        }
        lemma_room();
        assert(ops =~= opcode + (words + later));
        lemma_parse_varint_written(first.opcode as nat, 0, words + later);
        assert(ops.skip(opcode.len() as int) =~= words + later);
        lemma_parse_varint_written(first.word_count(), 0, later);
        assert(ops.skip((opcode.len() + words.len()) as int) =~= later);
        lemma_parse_heads_emitted(tail, state_after_instruction(first, state));
        assert(heads_of(instructions).skip(1) =~= heads_of(tail));
        assert(seq![heads_of(instructions)[0]] + heads_of(tail) =~= heads_of(instructions));
    }
}

/// Valid instructions are read back from the operand streams that they
/// wrote.
pub proof fn lemma_replay_emitted(instructions: Seq<Instruction>, state: DeltaState)
    requires
        all_valid(instructions),
    ensures
        replay(heads_of(instructions), emit_instructions(instructions, state).operands, state)
            == Ok::<Seq<Instruction>, ErrorKind>(instructions),
    decreases instructions.len(),
{
    if instructions.len() == 0 {
        assert(instructions =~= Seq::<Instruction>::empty());
    } else {
        let first = instructions[0];
        let tail = instructions.skip(1);
        let next = state_after_instruction(first, state);
        let later = emit_instructions(tail, next).operands;
        assert(first.valid());
        assert(all_valid(tail)) by {
            assert forall|i: int| 0 <= i < tail.len() implies (#[trigger] tail[i]).valid() by {
                assert(tail[i] == instructions[i + 1]);
            }
        }
        lemma_read_operands_emitted(layout_of(first.opcode), 0, first.operands, state, later);
        lemma_replay_emitted(tail, next);
        assert(heads_of(instructions).skip(1) =~= heads_of(tail));
        assert(seq![first] + tail =~= instructions);
    }
}

/// As many operands are read as were asked for.
pub proof fn lemma_read_operands_len(
    layout: OperandLayout,
    at: nat,
    count: nat,
    streams: Operands,
    state: DeltaState,
)
    requires
        read_operands(layout, at, count, streams, state) is Ok,
    ensures
        read_operands(layout, at, count, streams, state).unwrap().0.len() == count,
    decreases count,
{
    if count > 0 {
        let (value, left, next) = read_operand(layout.role_at(at), streams, state).unwrap();
        lemma_read_operands_len(layout, at + 1, (count - 1) as nat, left, next);
    }
}

/// Instructions that were read from the streams have the heads they were
/// read for, and are valid.
pub proof fn lemma_replay_heads(heads: Seq<Head>, streams: Operands, state: DeltaState)
    requires
        replay(heads, streams, state) is Ok,
        forall|i: int| 0 <= i < heads.len() ==> (#[trigger] heads[i]).words >= 1,
    ensures
        heads_of(replay(heads, streams, state).unwrap()) == heads,
        all_valid(replay(heads, streams, state).unwrap()),
        total_words(replay(heads, streams, state).unwrap()) == heads_words(heads),
    decreases heads.len(),
{
    let all = replay(heads, streams, state).unwrap();
    if heads.len() == 0 {
        assert(heads_of(all) =~= heads);
    } else {
        let layout = layout_of(heads[0].opcode);
        let count = (heads[0].words - 1) as nat;
        let (operands, left, last) = read_operands(layout, 0, count, streams, state).unwrap();
        let first = Instruction { opcode: heads[0].opcode, operands };
        let tail = heads.skip(1);
        let rest = replay(tail, left, last).unwrap();
        lemma_read_operands_len(layout, 0, count, streams, state);
        assert forall|i: int| 0 <= i < tail.len() implies (#[trigger] tail[i]).words >= 1 by {
            assert(tail[i] == heads[i + 1]);
        }
        lemma_replay_heads(tail, left, last);
        assert(all == seq![first] + rest);
        assert(all.skip(1) =~= rest);
        assert forall|i: int| 0 <= i < all.len() implies (#[trigger] all[i]).valid() by {
            if i > 0 {
                assert(all[i] == rest[i - 1]);
            }
        }
        assert forall|i: int| 0 <= i < heads.len() implies heads_of(all)[i] == heads[i] by {
            if i > 0 {
                assert(all[i] == rest[i - 1]);
                assert(heads_of(rest)[i - 1] == tail[i - 1]);
            }
        }
        assert(heads_of(all) =~= heads);
    }
}

} // verus!
