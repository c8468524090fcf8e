//! What holds of the cipher as a whole: decoding undoes encoding, and blocks
//! do not influence one another.

use vstd::prelude::*;
use crate::block::{
    lemma_decode_block_inverts_encode_block, lemma_encode_block_inverts_decode_block,
};
use crate::cipher::{decode_spec, decoder, encode_spec, encoder};
use crate::codec::{
    block_at, block_len, lemma_transform_by_identity, lemma_transform_concat,
    lemma_transform_twice,
};
use crate::key_schedule::{key_table, key_word_bytes, key_words, lemma_key_position};
use crate::word::Word;

verus! {

/// Decoding undoes encoding: for every width, every key, every number of
/// rounds and every plaintext of whole blocks, decoding the ciphertext under
/// the same key and number of rounds gives the plaintext back.
pub proof fn lemma_decode_inverts_encode<W: Word>(key: Seq<u8>, rounds: u8, plaintext: Seq<u8>)
    requires
        plaintext.len() % block_len::<W>() == 0,
    ensures
        encode_spec::<W>(key, rounds, plaintext).len() == plaintext.len(),
        decode_spec::<W>(key, rounds, encode_spec::<W>(key, rounds, plaintext)) == plaintext,
{
    let table = key_table::<W>(key, rounds);
    let e = encoder(table);
    let d = decoder(table);
    let both = |p: (W, W)| d(e(p));
    lemma_transform_twice::<W>(plaintext, e, d);
    assert forall|i: int|
        0 <= i && i * block_len::<W>() + block_len::<W>() <= plaintext.len() implies both(
        #[trigger] block_at::<W>(plaintext, i),
    ) == block_at::<W>(plaintext, i) by {
        lemma_decode_block_inverts_encode_block(block_at::<W>(plaintext, i), table);
    }
    lemma_transform_by_identity::<W>(plaintext, both);
}

/// Encoding undoes decoding: for every width, every key, every number of
/// rounds and every ciphertext of whole blocks, encoding the decoded text
/// under the same key and number of rounds gives the ciphertext back. So
/// every text of whole blocks is the ciphertext of exactly one plaintext.
pub proof fn lemma_encode_inverts_decode<W: Word>(key: Seq<u8>, rounds: u8, ciphertext: Seq<u8>)
    requires
        ciphertext.len() % block_len::<W>() == 0,
    ensures
        decode_spec::<W>(key, rounds, ciphertext).len() == ciphertext.len(),
        encode_spec::<W>(key, rounds, decode_spec::<W>(key, rounds, ciphertext)) == ciphertext,
{
    let table = key_table::<W>(key, rounds);
    let e = encoder(table);
    let d = decoder(table);
    let both = |c: (W, W)| e(d(c));
    lemma_transform_twice::<W>(ciphertext, d, e);
    assert forall|i: int|
        0 <= i && i * block_len::<W>() + block_len::<W>() <= ciphertext.len() implies both(
        #[trigger] block_at::<W>(ciphertext, i),
    ) == block_at::<W>(ciphertext, i) by {
        lemma_encode_block_inverts_decode_block(block_at::<W>(ciphertext, i), table);
    }
    lemma_transform_by_identity::<W>(ciphertext, both);
}

/// Blocks are encoded independently: the ciphertext of one message of whole
/// blocks followed by another is the ciphertext of the first followed by the
/// ciphertext of the second.
pub proof fn lemma_encode_is_blockwise<W: Word>(
    key: Seq<u8>,
    rounds: u8,
    first: Seq<u8>,
    second: Seq<u8>,
)
    requires
        first.len() % block_len::<W>() == 0,
        second.len() % block_len::<W>() == 0,
    ensures
        encode_spec::<W>(key, rounds, first + second) == encode_spec::<W>(key, rounds, first)
            + encode_spec::<W>(key, rounds, second),
{
    lemma_transform_concat::<W>(first, second, encoder(key_table::<W>(key, rounds)));
}

/// Blocks are decoded independently: the plaintext of one ciphertext of whole
/// blocks followed by another is the plaintext of the first followed by the
/// plaintext of the second.
pub proof fn lemma_decode_is_blockwise<W: Word>(
    key: Seq<u8>,
    rounds: u8,
    first: Seq<u8>,
    second: Seq<u8>,
)
    requires
        first.len() % block_len::<W>() == 0,
        second.len() % block_len::<W>() == 0,
    ensures
        decode_spec::<W>(key, rounds, first + second) == decode_spec::<W>(key, rounds, first)
            + decode_spec::<W>(key, rounds, second),
{
    lemma_transform_concat::<W>(first, second, decoder(key_table::<W>(key, rounds)));
}

/// The packing of the key into words loses nothing: two keys of the same
/// length that differ, be it in a single bit, are packed into different key
/// words, so they enter the mixing differently.
pub proof fn lemma_key_words_differ<W: Word>(key: Seq<u8>, other: Seq<u8>)
    requires
        key.len() == other.len(),
        key != other,
    ensures
        key_words::<W>(key) != key_words::<W>(other),
{
    if key_words::<W>(key) == key_words::<W>(other) {
        W::lemma_width();
        let u = W::spec_byte_len() as int;
        assert forall|q: int| 0 <= q < key.len() implies key[q] == other[q] by {
            lemma_key_position::<W>(key.len(), q as nat);
            let slot = q / u;
            assert(slot == (q as nat) / W::spec_byte_len());
            assert(0 <= slot < key_words::<W>(key).len());
            assert(slot * u <= q < (slot + 1) * u);
            assert(0 <= slot * u && (slot + 1) * u == slot * u + u) by (nonlinear_arith)
                requires
                    0 <= slot,
                    0 < u,
            ;
            let mine = key_word_bytes::<W>(key, slot);
            let theirs = key_word_bytes::<W>(other, slot);
            assert(key_words::<W>(key)[slot] == W::spec_from_le_bytes(mine));
            assert(key_words::<W>(other)[slot] == W::spec_from_le_bytes(theirs));
            W::lemma_from_then_to_le_bytes(mine);
            W::lemma_from_then_to_le_bytes(theirs);
            assert(mine[q - slot * u] == key[q]);
            assert(theirs[q - slot * u] == other[q]);
        }
        assert(key =~= other);
    }
}

} // verus!
