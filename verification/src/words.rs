//! Words of 32 bits and the four bytes, least significant first, that hold
//! each of them in a buffer.
use vstd::prelude::*;

verus! {

/// The four bytes of `word`, least significant first.
pub open spec fn word_bytes(word: u32) -> Seq<u8> {
    seq![
        (word % 256) as u8,
        (word / 256 % 256) as u8,
        (word / 65536 % 256) as u8,
        (word / 16777216) as u8,
    ]
}

/// The word that the four bytes of `bytes` from index `at` on hold.
pub open spec fn word_at(bytes: Seq<u8>, at: int) -> u32 {
    (bytes[at] + 256 * bytes[at + 1] + 65536 * bytes[at + 2] + 16777216 * bytes[at + 3]) as u32
}

/// The whole words of `bytes`, in order.
#[verifier::opaque]
pub open spec fn words_of(bytes: Seq<u8>) -> Seq<u32> {
    Seq::new((bytes.len() / 4) as nat, |k: int| word_at(bytes, 4 * k))
}

/// The bytes of `words`, in order.
#[verifier::opaque]
pub open spec fn words_bytes(words: Seq<u32>) -> Seq<u8>
    decreases words.len(),
{
    if words.len() == 0 {
        Seq::empty()
    } else {
        words_bytes(words.drop_last()) + word_bytes(words.last())
    }
}

/// Four bytes, put together and taken apart again, are the same bytes.
proof fn lemma_join_split(b0: u8, b1: u8, b2: u8, b3: u8)
    by (bit_vector)
    ensures
        ({
            let word = (b0 as u32 + 256 * (b1 as u32) + 65536 * (b2 as u32) + 16777216 * (
            b3 as u32)) as u32;
            &&& word == b0 as u32 + 256 * (b1 as u32) + 65536 * (b2 as u32) + 16777216 * (b3 as u32)
            &&& (word % 256) as u8 == b0
            &&& (word / 256 % 256) as u8 == b1
            &&& (word / 65536 % 256) as u8 == b2
            &&& (word / 16777216) as u8 == b3
        }),
{
}

/// A word, taken apart and put together again, is the same word.
proof fn lemma_split_join(word: u32)
    by (bit_vector)
    ensures
        ((word % 256) as u8) as u32 + 256 * (((word / 256 % 256) as u8) as u32) + 65536 * (((word
            / 65536 % 256) as u8) as u32) + 16777216 * (((word / 16777216) as u8) as u32) == word,
{
}

/// Four bytes hold the word that was written into them.
pub proof fn lemma_word_at_bytes(word: u32, bytes: Seq<u8>, at: int)
    requires
        0 <= at,
        at + 4 <= bytes.len(),
        bytes.subrange(at, at + 4) == word_bytes(word),
    ensures
        word_at(bytes, at) == word,
{
    let four = bytes.subrange(at, at + 4);
    assert(four[0] == bytes[at] && four[1] == bytes[at + 1] && four[2] == bytes[at + 2] && four[3]
        == bytes[at + 3]);
    lemma_split_join(word);
}

/// A word is written as the four bytes it was read from.
pub proof fn lemma_word_bytes_at(bytes: Seq<u8>, at: int)
    requires
        0 <= at,
        at + 4 <= bytes.len(),
    ensures
        word_bytes(word_at(bytes, at)) == bytes.subrange(at, at + 4),
{
    lemma_join_split(bytes[at], bytes[at + 1], bytes[at + 2], bytes[at + 3]);
    assert(word_bytes(word_at(bytes, at)) =~= bytes.subrange(at, at + 4));
}

/// The bytes of words are four for each, and those of each word lie
/// together at the word's place.
pub proof fn lemma_words_bytes_index(words: Seq<u32>)
    ensures
        words_bytes(words).len() == 4 * words.len(),
        forall|k: int|
            0 <= k < words.len() ==> #[trigger] words_bytes(words).subrange(4 * k, 4 * k + 4)
                == word_bytes(words[k]),
    decreases words.len(),
{
    reveal(words_bytes);
    if words.len() > 0 {
        let front = words.drop_last();
        let bytes = words_bytes(words);
        lemma_words_bytes_index(front);
        assert forall|k: int| 0 <= k < words.len() implies #[trigger] bytes.subrange(
            4 * k,
            4 * k + 4,
        ) == word_bytes(words[k]) by {
            if k < front.len() {
                assert(bytes.subrange(4 * k, 4 * k + 4) =~= words_bytes(front).subrange(
                    4 * k,
                    4 * k + 4,
                ));
                assert(front[k] == words[k]);
            } else {
                assert(bytes.subrange(4 * k, 4 * k + 4) =~= word_bytes(words.last()));
            }
        }
    }
}

/// Reading the words of written words gives them back.
pub proof fn lemma_words_of_bytes(words: Seq<u32>)
    ensures
        words_of(words_bytes(words)) == words,
        words_bytes(words).len() == 4 * words.len(),
{
    reveal(words_of);
    lemma_words_bytes_index(words);
    let bytes = words_bytes(words);
    assert forall|k: int| 0 <= k < words.len() implies word_at(bytes, 4 * k) == words[k] by {
        assert(bytes.subrange(4 * k, 4 * k + 4) == word_bytes(words[k]));
        lemma_word_at_bytes(words[k], bytes, 4 * k);
    }
    assert(words_of(bytes) =~= words);
}

/// Writing the words of a buffer of `count` whole words gives the buffer
/// back.
proof fn lemma_words_bytes_of_count(bytes: Seq<u8>, count: nat)
    requires
        bytes.len() == 4 * count,
    ensures
        words_bytes(words_of(bytes)) == bytes,
        words_of(bytes).len() == count,
    decreases count,
{
    reveal(words_of);
    reveal(words_bytes);
    let words = words_of(bytes);
    if count == 0 {
        assert(words_bytes(words) =~= bytes);
    } else {
        let front = bytes.take(bytes.len() - 4);
        lemma_words_bytes_of_count(front, (count - 1) as nat);
        assert(words.drop_last() =~= words_of(front));
        lemma_word_bytes_at(bytes, bytes.len() - 4);
        assert(words.last() == word_at(bytes, bytes.len() - 4));
        assert(front + bytes.subrange(bytes.len() - 4, bytes.len() as int) =~= bytes);
    }
}

/// Writing the words of a buffer of whole words gives the buffer back.
pub proof fn lemma_words_bytes_of(bytes: Seq<u8>)
    requires
        bytes.len() % 4 == 0,
    ensures
        words_bytes(words_of(bytes)) == bytes,
        words_of(bytes).len() == bytes.len() / 4,
{
    lemma_words_bytes_of_count(bytes, bytes.len() / 4);
}

/// The bytes of words put one behind the other are their bytes put one
/// behind the other.
pub proof fn lemma_words_bytes_add(front: Seq<u32>, back: Seq<u32>)
    ensures
        words_bytes(front + back) == words_bytes(front) + words_bytes(back),
    decreases back.len(),
{
    reveal(words_bytes);
    if back.len() == 0 {
        assert(front + back =~= front);
        assert(words_bytes(front) + words_bytes(back) =~= words_bytes(front));
    } else {
        assert((front + back).drop_last() =~= front + back.drop_last());
        lemma_words_bytes_add(front, back.drop_last());
        assert(words_bytes(front + back) =~= words_bytes(front) + words_bytes(back));
    }
}

/// The bytes of one word, and of none.
pub proof fn lemma_words_bytes_one(word: u32)
    ensures
        words_bytes(seq![word]) == word_bytes(word),
        words_bytes(Seq::empty()) == Seq::<u8>::empty(),
{
    reveal_with_fuel(words_bytes, 2);
    assert(seq![word].drop_last() =~= Seq::<u32>::empty());
    assert(words_bytes(seq![word]) =~= word_bytes(word));
}

/// The words of a buffer are as many as its whole groups of four bytes,
/// and each is the word at its place.
pub proof fn lemma_words_of_index(bytes: Seq<u8>)
    ensures
        words_of(bytes).len() == bytes.len() / 4,
        forall|k: int|
            0 <= k < bytes.len() / 4 ==> #[trigger] words_of(bytes)[k] == word_at(bytes, 4 * k),
{
    reveal(words_of);
}

/// Appends the four bytes of `value`, least significant first, to `sink`.
pub fn write_4(sink: &mut Vec<u8>, value: u32)
    ensures
        final(sink)@ == old(sink)@ + word_bytes(value),
{
    sink.push((value % 256) as u8);
    sink.push((value / 256 % 256) as u8);
    sink.push((value / 65536 % 256) as u8);
    sink.push((value / 16777216) as u8);
    proof {
        assert(sink@ =~= old(sink)@ + word_bytes(value));
    }
}

/// The word in the four bytes of `bytes` from index `at` on.
pub fn read_4(bytes: &[u8], at: usize) -> (word: u32)
    requires
        at + 4 <= bytes.len(),
    ensures
        word == word_at(bytes@, at as int),
{
    let b0: u32 = bytes[at] as u32;
    let b1: u32 = bytes[at + 1] as u32;
    let b2: u32 = bytes[at + 2] as u32;
    let b3: u32 = bytes[at + 3] as u32;
    b0 + 256 * b1 + 65536 * b2 + 16777216 * b3
}

} // verus!
