//! Memory images: the bytes that a run of 32-bit words occupies in memory.

use vstd::prelude::*;

verus! {

/// Byte `i` of `word`, counted from the least significant byte.
pub open spec fn word_byte(word: u32, i: int) -> u8 {
    if i == 0 {
        (word % 256) as u8
    } else if i == 1 {
        (word / 256 % 256) as u8
    } else if i == 2 {
        (word / 65536 % 256) as u8
    } else {
        (word / 16777216) as u8
    }
}

/// The bytes of `words` laid out one word after another, each word with its
/// least significant byte first (`little`) or last.
#[verifier::opaque]
pub open spec fn image(words: Seq<u32>, little: bool) -> Seq<u8> {
    Seq::new(
        4 * words.len(),
        |i: int|
            word_byte(
                words[i / 4],
                if little {
                    i % 4
                } else {
                    3 - i % 4
                },
            ),
    )
}

/// `bytes` is what `words` looks like in the memory of some machine: four
/// bytes per word, in word order, all words in the same byte order.
pub open spec fn is_image(bytes: Seq<u8>, words: Seq<u32>) -> bool {
    &&& bytes.len() == 4 * words.len()
    &&& bytes == image(words, true) || bytes == image(words, false)
}

/// Both byte orders take four bytes per word.
pub proof fn lemma_image_len(words: Seq<u32>, little: bool)
    ensures
        image(words, little).len() == 4 * words.len(),
{
    reveal(image);
}

/// In a memory image, the four bytes of word `i` stand at `4 * i`, and
/// together they are the word: read least significant byte first in one
/// byte order, last in the other.
pub proof fn lemma_image_word(words: Seq<u32>, little: bool, i: int)
    requires
        0 <= i < words.len(),
    ensures
        ({
            let bytes = image(words, little);
            let b0 = bytes[4 * i] as int;
            let b1 = bytes[4 * i + 1] as int;
            let b2 = bytes[4 * i + 2] as int;
            let b3 = bytes[4 * i + 3] as int;
            if little {
                words[i] == b0 + 256 * b1 + 65536 * b2 + 16777216 * b3
            } else {
                words[i] == b3 + 256 * b2 + 65536 * b1 + 16777216 * b0
            }
        }),
{
    reveal(image);
    let w = words[i] as int;
    assert(w == w % 256 + 256 * (w / 256 % 256) + 65536 * (w / 65536 % 256) + 16777216 * (w
        / 16777216));
}

/// Reinterprets a slice of words as the bytes it occupies in memory, by
/// `bytemuck::cast_slice::<u32, u8>`, and copies them out.
///
/// Trusted: the cast keeps the address and the size in bytes of its input, so
/// the result is the words' own memory. Which end of a word comes first is
/// the machine's choice; the contract allows both and nothing else. The cast
/// to a byte slice cannot fail: a byte has no alignment to miss and any
/// number of bytes is a whole number of them.
#[verifier::external_body]
pub(crate) fn cast_words(words: &[u32]) -> (bytes: Vec<u8>)
    ensures
        is_image(bytes@, words@),
{
    bytemuck::cast_slice::<u32, u8>(words).to_vec()
}

} // verus!
