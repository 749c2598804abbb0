//! Variable-length integers.
//!
//! An unsigned value is written as groups of seven bits, least significant
//! group first, one group per byte; the high bit of a byte says that another
//! group follows. A signed value is first folded onto the unsigned ones so
//! that values of small magnitude, of either sign, stay short.
use crate::error::ErrorKind;
use vstd::prelude::*;

verus! {

/// The bytes that encode `n`.
pub open spec fn varint(n: nat) -> Seq<u8>
    decreases n,
{
    if n < 128 {
        seq![n as u8]
    } else {
        seq![(n % 128 + 128) as u8] + varint(n / 128)
    }
}

/// What a 64-bit value can still hold once `groups` groups of it have been
/// read: the values below two to the power `64 - 7 * groups`.
pub open spec fn room(groups: nat) -> nat
    decreases 10 - groups,
{
    if groups >= 10 {
        0
    } else if groups == 9 {
        2
    } else {
        128 * room(groups + 1)
    }
}

/// Reads one encoded value from the front of `bytes`, of which `groups`
/// groups were read before, and gives the value with the number of bytes it
/// took.
///
/// The read is `Truncated` when the bytes end before a byte without the
/// high bit, and an `Overflow` when an eleventh group would follow or the
/// tenth holds more than the one bit that is left of 64.
pub open spec fn parse_varint(bytes: Seq<u8>, groups: nat) -> Result<(nat, nat), ErrorKind>
    decreases bytes.len(),
{
    if groups >= 10 {
        Err(ErrorKind::Overflow)
    } else if bytes.len() == 0 {
        Err(ErrorKind::Truncated)
    } else if bytes[0] < 128 {
        if groups == 9 && bytes[0] >= 2 {
            Err(ErrorKind::Overflow)
        } else {
            Ok((bytes[0] as nat, 1))
        }
    } else {
        match parse_varint(bytes.skip(1), groups + 1) {
            Ok((high, used)) => Ok((((bytes[0] - 128) + 128 * high) as nat, used + 1)),
            Err(e) => Err(e),
        }
    }
}

/// Folds the integers onto the naturals: 0, -1, 1, -2, 2, ...
pub open spec fn zigzag(n: int) -> nat {
    if n >= 0 {
        (2 * n) as nat
    } else {
        (-2 * n - 1) as nat
    }
}

/// The inverse of [`zigzag`].
pub open spec fn unzigzag(u: nat) -> int {
    if u % 2 == 0 {
        u as int / 2
    } else {
        -(u as int / 2) - 1
    }
}

/// The values of [`room`].
pub proof fn lemma_room()
    ensures
        room(0) == 0x1_0000_0000_0000_0000,
        room(9) == 2,
        forall|g: nat| room(g) <= 0x1_0000_0000_0000_0000,
        forall|g: nat| g < 9 ==> #[trigger] room(g) == 128 * room(g + 1) && room(g) >= 256,
        forall|g: nat| g >= 10 ==> room(g) == 0,
{
    reveal_with_fuel(room, 11);
    assert forall|g: nat| room(g) <= 0x1_0000_0000_0000_0000 && (g < 9 ==> room(g) >= 256) by {
        if g < 10 {
            assert(g == 0 || g == 1 || g == 2 || g == 3 || g == 4 || g == 5 || g == 6 || g == 7
                || g == 8 || g == 9);
        }
    }
}

/// A value that was read fits what was left of 64 bits, and took at least
/// one byte and at most the bytes that were there.
pub proof fn lemma_parse_varint_bounds(bytes: Seq<u8>, groups: nat)
    requires
        parse_varint(bytes, groups) is Ok,
    ensures
        parse_varint(bytes, groups).unwrap().0 < room(groups),
        1 <= parse_varint(bytes, groups).unwrap().1 <= bytes.len(),
        parse_varint(bytes, groups).unwrap().1 + groups <= 10,
    decreases bytes.len(),
{
    lemma_room();
    if bytes[0] >= 128 {
        lemma_parse_varint_bounds(bytes.skip(1), groups + 1);
    }
}

/// Reading back what was written gives the value, whatever follows it.
pub proof fn lemma_parse_varint_written(n: nat, groups: nat, rest: Seq<u8>)
    requires
        n < room(groups),
    ensures
        parse_varint(varint(n) + rest, groups) == Ok::<(nat, nat), ErrorKind>(
            (n, varint(n).len()),
        ),
    decreases n,
{
    lemma_room();
    let bytes = varint(n) + rest;
    if n < 128 {
        assert(bytes[0] == n);
    } else {
        assert(bytes[0] == n % 128 + 128);
        assert(bytes.skip(1) =~= varint(n / 128) + rest);
        lemma_parse_varint_written(n / 128, groups + 1, rest);
    }
}

/// A read looks at no byte beyond those it takes: of a buffer cut short
/// inside the value the read is `Truncated`, and of one cut anywhere behind
/// it the read is the same.
pub proof fn lemma_parse_varint_prefix(bytes: Seq<u8>, groups: nat, len: int)
    requires
        parse_varint(bytes, groups) is Ok,
        0 <= len <= bytes.len(),
    ensures
        len < parse_varint(bytes, groups).unwrap().1 ==> parse_varint(bytes.take(len), groups)
            == Err::<(nat, nat), ErrorKind>(ErrorKind::Truncated),
        len >= parse_varint(bytes, groups).unwrap().1 ==> parse_varint(bytes.take(len), groups)
            == parse_varint(bytes, groups),
    decreases bytes.len(),
{
    if len > 0 && bytes[0] >= 128 {
        assert(bytes.take(len).skip(1) =~= bytes.skip(1).take(len - 1));
        lemma_parse_varint_prefix(bytes.skip(1), groups + 1, len - 1);
    }
}

/// A read that fails behind leading bytes that all announce another group
/// fails in the same way from the start.
proof fn lemma_parse_varint_fails(bytes: Seq<u8>, groups: nat, lead: nat)
    requires
        lead <= bytes.len(),
        forall|j: int| 0 <= j < lead ==> bytes[j] >= 128,
        parse_varint(bytes.skip(lead as int), groups + lead) is Err,
    ensures
        parse_varint(bytes, groups) == parse_varint(bytes.skip(lead as int), groups + lead),
    decreases lead,
{
    if lead == 0 {
        assert(bytes.skip(0) =~= bytes);
    } else if groups < 10 {
        let tail = bytes.skip(1);
        assert(tail.skip(lead - 1) =~= bytes.skip(lead as int));
        assert forall|j: int| 0 <= j < lead - 1 implies tail[j] >= 128 by {
            assert(tail[j] == bytes[j + 1]);
        }
        lemma_parse_varint_fails(tail, groups + 1, (lead - 1) as nat);
    }
}

/// Folding and unfolding are inverse to each other.
pub proof fn lemma_zigzag(n: int, u: nat)
    ensures
        unzigzag(zigzag(n)) == n,
        zigzag(unzigzag(u)) == u,
{
}

/// Appends the encoding of `value` to `out`.
pub fn write_varint(out: &mut Vec<u8>, value: u64)
    ensures
        final(out)@ == old(out)@ + varint(value as nat),
{
    let mut rest: u64 = value;
    while rest >= 128
        invariant
            old(out)@ + varint(value as nat) == out@ + varint(rest as nat),
        decreases rest,
    {
        let ghost before = out@;
        out.push((rest % 128 + 128) as u8);
        proof {
            assert(before + varint(rest as nat) =~= out@ + varint((rest / 128) as nat));
        }
        rest = rest / 128;
    }
    let ghost before = out@;
    out.push(rest as u8);
    proof {
        assert(before + varint(rest as nat) =~= out@);
    }
}

/// The encoding of `value`.
pub fn encode_varint(value: u64) -> (bytes: Vec<u8>)
    ensures
        bytes@ == varint(value as nat),
{
    let mut bytes: Vec<u8> = Vec::new();
    write_varint(&mut bytes, value);
    bytes
}

/// Reads one value from `bytes`, beginning at `start`.
pub(crate) fn decode_varint_at(bytes: &[u8], start: usize) -> (r: Result<(u64, usize), ErrorKind>)
    requires
        start <= bytes.len(),
    ensures
        match r {
            Ok((value, used)) => parse_varint(bytes@.skip(start as int), 0) == Ok::<
                (nat, nat),
                ErrorKind,
            >((value as nat, used as nat)) && start + used <= bytes.len(),
            Err(e) => parse_varint(bytes@.skip(start as int), 0) == Err::<(nat, nat), ErrorKind>(e),
        },
{
    let ghost tail = bytes@.skip(start as int);
    let avail: usize = bytes.len() - start;
    // Look for the byte that ends the value.
    let mut lead: usize = 0;
    loop
        invariant_except_break
            lead <= 10,
        invariant
            lead <= avail,
            avail == bytes.len() - start,
            tail == bytes@.skip(start as int),
            forall|j: int| 0 <= j < lead ==> tail[j] >= 128,
        ensures
            lead < avail,
            lead < 10,
            tail[lead as int] < 128,
        decreases 10 - lead,
    {
        if lead == 10 || lead == avail {
            proof {
                assert(parse_varint(tail.skip(lead as int), lead as nat) is Err);
                lemma_parse_varint_fails(tail, 0, lead as nat);
            }
            if lead == 10 {
                return Err(ErrorKind::Overflow);
            }
            return Err(ErrorKind::Truncated);
        }
        if bytes[start + lead] < 128 {
            break ;
        }
        lead = lead + 1;
    }
    let last: u8 = bytes[start + lead];
    if lead == 9 && last >= 2 {
        proof {
            assert(parse_varint(tail.skip(lead as int), lead as nat) is Err);
            lemma_parse_varint_fails(tail, 0, lead as nat);
        }
        return Err(ErrorKind::Overflow);
    }
    // Gather the groups from the most significant one down.
    let mut value: u64 = last as u64;
    let mut at: usize = lead;
    proof {
        lemma_room();
    }
    while at > 0
        invariant
            at <= lead < 10,
            lead < avail,
            avail == bytes.len() - start,
            tail == bytes@.skip(start as int),
            forall|j: int| 0 <= j < lead ==> tail[j] >= 128,
            parse_varint(tail.skip(at as int), at as nat) == Ok::<(nat, nat), ErrorKind>(
                (value as nat, (lead + 1 - at) as nat),
            ),
            value < room(at as nat),
        decreases at,
    {
        proof {
            lemma_room();
            assert(tail.skip(at - 1).skip(1) =~= tail.skip(at as int));
            assert(tail.skip(at - 1)[0] == tail[at - 1]);
            assert(room((at - 1) as nat) == 128 * room(at as nat));
        }
        at = at - 1;
        value = value * 128 + (bytes[start + at] - 128) as u64;
    }
    proof {
        assert(tail.skip(0) =~= tail);
    }
    Ok((value, lead + 1))
}

/// Reads one value from the front of `bytes` and gives it with the number
/// of bytes it took.
pub fn decode_varint(bytes: &[u8]) -> (r: Result<(u64, usize), ErrorKind>)
    ensures
        match r {
            Ok((value, used)) => parse_varint(bytes@, 0) == Ok::<(nat, nat), ErrorKind>(
                (value as nat, used as nat),
            ),
            Err(e) => parse_varint(bytes@, 0) == Err::<(nat, nat), ErrorKind>(e),
        },
{
    proof {
        assert(bytes@.skip(0) =~= bytes@);
    }
    decode_varint_at(bytes, 0)
}

/// The shifts that fold a signed value give what [`zigzag`] says.
proof fn lemma_zigzag_bits(n: i64)
    by (bit_vector)
    ensures
        ((n << 1) ^ (n >> 63)) as u64 == (if n >= 0 {
            ((n as u64) * 2) as u64
        } else {
            (((-(n + 1)) as u64) * 2 + 1) as u64
        }),
{
}

/// The shifts that unfold a value give what [`unzigzag`] says.
proof fn lemma_unzigzag_bits(u: u64)
    by (bit_vector)
    ensures
        ((u >> 1) ^ (if u & 1 == 1 {
            0xFFFF_FFFF_FFFF_FFFFu64
        } else {
            0u64
        })) as i64 == (if u % 2 == 0 {
            (u / 2) as i64
        } else {
            (-((u / 2) as i64) - 1) as i64
        }),
{
}

/// Folds a signed value onto the unsigned ones: `(n << 1) ^ (n >> 63)`.
pub fn zigzag_encode(n: i64) -> (u: u64)
    ensures
        u == zigzag(n as int),
{
    proof {
        lemma_zigzag_bits(n);
    }
    ((n << 1) ^ (n >> 63)) as u64
}

/// Unfolds what [`zigzag_encode`] folded.
pub fn zigzag_decode(u: u64) -> (n: i64)
    ensures
        n == unzigzag(u as nat),
{
    proof {
        lemma_unzigzag_bits(u);
    }
    let sign: u64 = if u & 1 == 1 {
        0xFFFF_FFFF_FFFF_FFFF
    } else {
        0
    };
    ((u >> 1) ^ sign) as i64
}

} // verus!
