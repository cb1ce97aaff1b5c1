//! The byte encoding of word vectors: an eight-byte little-endian length, then each word
//! as eight little-endian bytes.
use vstd::prelude::*;
use crate::core_crypto::random::le_word;

verus! {

#[verifier::external_type_specification]
#[verifier::external_body]
pub struct ExBincodeErrorKind(bincode::ErrorKind);

/// `bytes` is exactly the encoding of `words`.
pub open spec fn is_word_encoding(bytes: Seq<u8>, words: Seq<u64>) -> bool {
    &&& bytes.len() == 8 + 8 * words.len()
    &&& le_word(bytes, 0) == words.len()
    &&& forall|i: int| 0 <= i < words.len() ==> #[trigger] le_word(bytes, 8 + 8 * i) == words[i]
}

/// `bytes` starts with a length `L` and holds at least `L` words after it.
pub open spec fn holds_word_encoding(bytes: Seq<u8>) -> bool {
    &&& bytes.len() >= 8
    &&& bytes.len() >= 8 + 8 * le_word(bytes, 0)
}

/// Relies on `bincode::serialize` with its default options (fixed-width little-endian
/// integers, no size limit): a `Vec<u64>` becomes its length as a `u64`, then its words;
/// writing into a `Vec<u8>` cannot fail.
#[verifier::external_body]
fn bincode_serialize_words(words: &Vec<u64>) -> (r: Result<Vec<u8>, Box<bincode::ErrorKind>>)
    ensures
        r is Ok,
        r is Ok ==> is_word_encoding(r->Ok_0@, words@),
{
    bincode::serialize(words)
}

/// Relies on `bincode::deserialize::<Vec<u64>>` with its default options: it reads a `u64`
/// length `L`, then `L` words, and fails exactly when the bytes end first; trailing bytes
/// are allowed.
#[verifier::external_body]
fn bincode_deserialize_words(bytes: &[u8]) -> (r: Result<Vec<u64>, Box<bincode::ErrorKind>>)
    ensures
        r is Ok <==> holds_word_encoding(bytes@),
        r is Ok ==> r->Ok_0@.len() == le_word(bytes@, 0),
        r is Ok ==> forall|i: int|
            0 <= i < r->Ok_0@.len() ==> #[trigger] r->Ok_0@[i] == le_word(bytes@, 8 + 8 * i),
{
    bincode::deserialize(bytes)
}

/// Encodes `words`.
pub fn encode_words(words: &Vec<u64>) -> (r: Vec<u8>)
    ensures
        is_word_encoding(r@, words@),
{
    match bincode_serialize_words(words) {
        Ok(b) => b,
        Err(_) => Vec::new(),
    }
}

/// The input does not hold an encoded word vector.
#[derive(Debug, Clone, Copy, PartialEq, Eq, Structural)]
pub struct TruncatedEncoding;

/// Decodes a word vector; fails exactly when the bytes end before the last word.
pub fn decode_words(bytes: &[u8]) -> (r: Result<Vec<u64>, TruncatedEncoding>)
    ensures
        r is Ok <==> holds_word_encoding(bytes@),
        r is Ok ==> r->Ok_0@.len() == le_word(bytes@, 0),
        r is Ok ==> forall|i: int|
            0 <= i < r->Ok_0@.len() ==> #[trigger] r->Ok_0@[i] == le_word(bytes@, 8 + 8 * i),
{
    match bincode_deserialize_words(bytes) {
        Ok(w) => Ok(w),
        Err(_) => Err(TruncatedEncoding),
    }
}

/// Decoding the encoding of `words` succeeds and gives `words` back: any sequence with the
/// length and the words that `decode_words` promises is `words`.
pub proof fn lemma_word_encoding_round_trip(bytes: Seq<u8>, words: Seq<u64>, decoded: Seq<u64>)
    requires
        is_word_encoding(bytes, words),
        decoded.len() == le_word(bytes, 0),
        forall|i: int| 0 <= i < decoded.len() ==> #[trigger] decoded[i] == le_word(bytes, 8 + 8 * i),
    ensures
        holds_word_encoding(bytes),
        decoded == words,
{
    assert(decoded =~= words);
}

} // verus!
