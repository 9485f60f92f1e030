//! Words as the device holds them: a buffer is a run of bytes, and a word
//! lies in it as it lies in host memory, in the byte order of the host.

use vstd::prelude::*;
use vstd::endian::{endianness, Endian};

verus! {

/// The byte of `word` of significance `k`: 0 for the lowest, 3 for the
/// highest.
pub open spec fn word_byte(word: u32, k: int) -> u8 {
    if k == 0 {
        (word % 0x100) as u8
    } else if k == 1 {
        (word / 0x100 % 0x100) as u8
    } else if k == 2 {
        (word / 0x1_0000 % 0x100) as u8
    } else {
        (word / 0x100_0000) as u8
    }
}

/// The word made of four bytes, `b0` the lowest.
pub open spec fn word_of(b0: u8, b1: u8, b2: u8, b3: u8) -> u32 {
    (b0 as int + 0x100 * (b1 as int) + 0x1_0000 * (b2 as int) + 0x100_0000 * (b3 as int)) as u32
}

/// The byte that stands at place `at`, 0 to 3, of `word` in host memory.
pub open spec fn memory_byte(word: u32, at: int) -> u8 {
    match endianness() {
        Endian::Little => word_byte(word, at),
        Endian::Big => word_byte(word, 3 - at),
    }
}

/// The word that the four bytes of `bytes` from `4 * i` on are in host
/// memory.
pub open spec fn memory_word(bytes: Seq<u8>, i: int) -> u32 {
    match endianness() {
        Endian::Little => word_of(
            bytes[4 * i],
            bytes[4 * i + 1],
            bytes[4 * i + 2],
            bytes[4 * i + 3],
        ),
        Endian::Big => word_of(bytes[4 * i + 3], bytes[4 * i + 2], bytes[4 * i + 1], bytes[4 * i]),
    }
}

/// The bytes that `words` are in host memory: four for each word.
pub open spec fn native_bytes(words: Seq<u32>) -> Seq<u8> {
    Seq::new(4 * words.len(), |j: int| memory_byte(words[j / 4], j % 4))
}

/// The words that `bytes` are in host memory, four bytes to a word. Bytes
/// beyond the last whole word stand for nothing.
pub open spec fn native_words(bytes: Seq<u8>) -> Seq<u32> {
    Seq::new((bytes.len() / 4) as nat, |i: int| memory_word(bytes, i))
}

/// A word is made of its four bytes.
pub proof fn lemma_word_of_bytes(word: u32)
    ensures
        word_of(word_byte(word, 0), word_byte(word, 1), word_byte(word, 2), word_byte(word, 3))
            == word,
{
}

/// Each of the four bytes that a word is made of is a byte of the word.
pub proof fn lemma_bytes_of_word(b0: u8, b1: u8, b2: u8, b3: u8)
    ensures
        word_byte(word_of(b0, b1, b2, b3), 0) == b0,
        word_byte(word_of(b0, b1, b2, b3), 1) == b1,
        word_byte(word_of(b0, b1, b2, b3), 2) == b2,
        word_byte(word_of(b0, b1, b2, b3), 3) == b3,
{
}

/// Reading as words the bytes that words are gives the words back.
pub proof fn lemma_words_of_bytes(words: Seq<u32>)
    ensures
        native_words(native_bytes(words)) == words,
{
    let bytes = native_bytes(words);
    assert forall|i: int| 0 <= i < words.len() implies native_words(bytes)[i] == words[i] by {
        lemma_word_of_bytes(words[i]);
        assert(bytes[4 * i] == memory_byte(words[i], 0));
        assert(bytes[4 * i + 1] == memory_byte(words[i], 1));
        assert(bytes[4 * i + 2] == memory_byte(words[i], 2));
        assert(bytes[4 * i + 3] == memory_byte(words[i], 3));
    }
    assert(native_words(bytes) =~= words);
}

/// Bytes that make whole words are the bytes of the words that they are
/// read as.
pub proof fn lemma_bytes_of_words(bytes: Seq<u8>)
    requires
        bytes.len() % 4 == 0,
    ensures
        native_bytes(native_words(bytes)) == bytes,
{
    let words = native_words(bytes);
    assert forall|j: int| 0 <= j < bytes.len() implies native_bytes(words)[j] == bytes[j] by {
        let i = j / 4;
        lemma_bytes_of_word(bytes[4 * i], bytes[4 * i + 1], bytes[4 * i + 2], bytes[4 * i + 3]);
        lemma_bytes_of_word(bytes[4 * i + 3], bytes[4 * i + 2], bytes[4 * i + 1], bytes[4 * i]);
    }
    assert(native_bytes(words) =~= bytes);
}

/// `bytemuck::PodCastError`: why a cast was refused. It is handed on and
/// never looked into.
#[verifier::external_type_specification]
#[verifier::external_body]
pub struct ExPodCastError(bytemuck::PodCastError);

/// `bytemuck::cast_slice` from `u32` to `u8`, copied into a vector: the
/// memory that holds the words, seen as bytes. The cast cannot fail in this
/// direction, since a byte needs no alignment and every word is four whole
/// bytes. It does not touch the memory, so the bytes of each word stand in
/// the byte order of the host.
#[verifier::external_body]
pub(crate) fn words_to_bytes(words: &[u32]) -> (bytes: Vec<u8>)
    ensures
        bytes@ == native_bytes(words@),
{
    bytemuck::cast_slice::<u32, u8>(words).to_vec()
}

/// `bytemuck::try_cast_slice` from `u8` to `u32`: the memory that holds the
/// bytes, seen as words, if it can be. The cast is refused where the length
/// is no multiple of four, and also where the bytes do not start at an
/// address that a word can have, which their values do not show.
#[verifier::external_body]
pub(crate) fn bytes_as_words(bytes: &[u8]) -> (cast: Result<&[u32], bytemuck::PodCastError>)
    ensures
        cast matches Ok(words) ==> bytes@.len() % 4 == 0 && words@ == native_words(bytes@),
        bytes@.len() % 4 != 0 ==> cast is Err,
{
    bytemuck::try_cast_slice::<u8, u32>(bytes)
}

} // verus!
