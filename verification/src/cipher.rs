//! The cipher on bytes: the input is cut into blocks of two words, every
//! block is transformed on its own under one key table, and the results are
//! written out in the same order. Words are read and written little-endian.

use vstd::prelude::*;
use vstd::arithmetic::div_mod::lemma_fundamental_div_mod_converse;
use vstd::slice::slice_subrange;
use crate::block::{decode_block, decode_block_spec, encode_block, encode_block_spec};
use crate::codec::{
    block_at, block_bytes, block_len, lemma_block_at_of_block_bytes, lemma_byte_of_block,
    lemma_earlier_block, lemma_whole_block, transform_bytes,
};
use crate::error::CipherError;
use crate::key_schedule::{gen_key_table, key_table, lemma_key_table_len, MAX_KEY_LEN};
use crate::word::Word;

verus! {

/// The number of rounds that `encode` and `decode` use.
pub const DEFAULT_ROUNDS: u8 = 12;

/// Whether every call of `fun` on a pair and the key table `table` returns
/// what `f` says of the pair.
pub open spec fn computes<W: Word, F: Fn((W, W), &[W]) -> (W, W)>(
    fun: F,
    table: Seq<W>,
    f: spec_fn((W, W)) -> (W, W),
) -> bool {
    forall|p: (W, W), t: &[W], o: (W, W)|
        t@ == table && #[trigger] call_ensures(fun, (p, t), o) ==> o == f(p)
}

/// Whether `o` is what some call of `fun` on the pair `p` and the key table
/// `table` returned.
pub open spec fn returned_by<W: Word, F: Fn((W, W), &[W]) -> (W, W)>(
    fun: F,
    table: Seq<W>,
    p: (W, W),
    o: (W, W),
) -> bool {
    exists|t: &[W]| t@ == table && #[trigger] call_ensures(fun, (p, t), o)
}

/// Cuts `input` into blocks, hands each block with the key table to `fun`,
/// and strings the results together. An input that is not a whole number of
/// blocks is refused; nothing is padded.
pub fn compute<W: Word, F: Fn((W, W), &[W]) -> (W, W)>(
    input: &[u8],
    key_table: Vec<W>,
    fun: F,
) -> (r: Result<Vec<u8>, CipherError>)
    requires
        forall|p: (W, W), t: &[W]| t@ == key_table@ ==> call_requires(fun, (p, t)),
    ensures
        input@.len() % block_len::<W>() != 0 ==> r == Err::<Vec<u8>, CipherError>(
            CipherError::InvalidInputLength,
        ),
        input@.len() % block_len::<W>() == 0 ==> (r matches Ok(out) && out@.len() == input@.len()
            && (forall|i: int|
            0 <= i && i * block_len::<W>() + block_len::<W>() <= input@.len() ==> returned_by(
                fun,
                key_table@,
                block_at::<W>(input@, i),
                #[trigger] block_at::<W>(out@, i),
            )) && (forall|f: spec_fn((W, W)) -> (W, W)|
            computes(fun, key_table@, f) ==> out@ == transform_bytes::<W>(input@, f))),
{
    proof {
        W::lemma_width();
    }
    let word_size: usize = (W::bits() / 8) as usize;
    let block_size: usize = 2 * word_size;
    if input.len() % block_size != 0 {
        return Err(CipherError::InvalidInputLength);
    }
    let table: &[W] = key_table.as_slice();
    let mut output: Vec<u8> = Vec::new();
    let ghost mut results: Seq<(W, W)> = Seq::empty();
    let mut pos: usize = 0;
    while pos < input.len()
        invariant
            word_size == W::spec_byte_len(),
            block_size == block_len::<W>(),
            block_size == 2 * word_size,
            block_size > 0,
            input@.len() % (block_size as nat) == 0,
            pos <= input@.len(),
            pos == results.len() * block_size,
            output@.len() == pos,
            table@ == key_table@,
            forall|p: (W, W), t: &[W]| t@ == key_table@ ==> call_requires(fun, (p, t)),
            forall|i: int|
                0 <= i < results.len() ==> call_ensures(
                    fun,
                    (block_at::<W>(input@, i), table),
                    #[trigger] results[i],
                ),
            forall|x: int|
                0 <= x < pos ==> #[trigger] output@[x] == block_bytes::<W>(
                    results[x / (block_size as int)],
                )[x % (block_size as int)],
        decreases input@.len() - pos,
    {
        let ghost index = results.len() as int;
        proof {
            lemma_whole_block(input@.len() as int, pos as int, block_size as int, index);
            assert(2 * index * word_size == pos) by (nonlinear_arith)
                requires
                    pos == index * block_size,
                    block_size == 2 * word_size,
            ;
            assert((2 * index + 1) * word_size == pos + word_size) by (nonlinear_arith)
                requires
                    pos == index * block_size,
                    block_size == 2 * word_size,
            ;
            assert((2 * index + 1 + 1) * word_size == pos + 2 * word_size) by (nonlinear_arith)
                requires
                    pos == index * block_size,
                    block_size == 2 * word_size,
            ;
        }
        let first = slice_subrange(input, pos, pos + word_size);
        let second = slice_subrange(input, pos + word_size, pos + block_size);
        let i0 = W::from_le_bytes(first);
        let i1 = W::from_le_bytes(second);
        assert((i0, i1) == block_at::<W>(input@, index));
        let (o0, o1) = fun((i0, i1), table);
        let mut b0 = W::to_le_bytes(o0);
        let mut b1 = W::to_le_bytes(o1);
        proof {
            W::lemma_to_then_from_le_bytes(o0);
            W::lemma_to_then_from_le_bytes(o1);
        }
        let ghost before = output@;
        output.append(&mut b0);
        output.append(&mut b1);
        proof {
            let ghost n = block_size as int;
            results = results.push((o0, o1));
            assert(output@ == before + block_bytes::<W>((o0, o1)));
            assert((index + 1) * n == pos + n) by (nonlinear_arith)
                requires
                    pos == index * n,
            ;
            assert forall|x: int| 0 <= x < pos + n implies #[trigger] output@[x] == block_bytes::<
                W,
            >(results[x / n])[x % n] by {
                if x < pos {
                    assert(output@[x] == before[x]);
                    lemma_earlier_block(x, pos as int, n, index);
                } else {
                    lemma_fundamental_div_mod_converse(x, n, index, x - pos);
                }
            }
        }
        pos = pos + block_size;
    }
    proof {
        let n = block_size as int;
        assert forall|i: int| 0 <= i && i * n + n <= input@.len() implies returned_by(
            fun,
            key_table@,
            block_at::<W>(input@, i),
            #[trigger] block_at::<W>(output@, i),
        ) by {
            assert(i < results.len()) by (nonlinear_arith)
                requires
                    i * n + n <= results.len() * n,
                    n > 0,
            ;
            assert(output@.subrange(i * n, i * n + n) =~= block_bytes::<W>(results[i])) by {
                W::lemma_to_then_from_le_bytes(results[i].0);
                W::lemma_to_then_from_le_bytes(results[i].1);
                assert forall|m: int| 0 <= m < n implies output@[i * n + m] == block_bytes::<W>(
                    results[i],
                )[m] by {
                    lemma_byte_of_block(n, i, m);
                }
            }
            lemma_block_at_of_block_bytes::<W>(output@, i, results[i]);
            assert(call_ensures(fun, (block_at::<W>(input@, i), table), results[i]));
        }
        assert forall|f: spec_fn((W, W)) -> (W, W)| computes(fun, key_table@, f) implies output@
            == transform_bytes::<W>(input@, f) by {
            assert forall|x: int| 0 <= x < output@.len() implies output@[x] == transform_bytes::<
                W,
            >(input@, f)[x] by {
                lemma_earlier_block(x, pos as int, n, results.len() as int);
                let i = x / n;
                assert(call_ensures(fun, (block_at::<W>(input@, i), table), results[i]));
            }
            assert(output@ =~= transform_bytes::<W>(input@, f));
        }
    }
    Ok(output)
}

/// What encoding does to a block under `table`, as a function of the block.
pub open spec fn encoder<W: Word>(table: Seq<W>) -> spec_fn((W, W)) -> (W, W) {
    |p: (W, W)| encode_block_spec(p, table)
}

/// What decoding does to a block under `table`, as a function of the block.
pub open spec fn decoder<W: Word>(table: Seq<W>) -> spec_fn((W, W)) -> (W, W) {
    |c: (W, W)| decode_block_spec(c, table)
}

/// The ciphertext of `plaintext` under `key` with `rounds` rounds.
pub open spec fn encode_spec<W: Word>(key: Seq<u8>, rounds: u8, plaintext: Seq<u8>) -> Seq<u8> {
    transform_bytes::<W>(plaintext, encoder(key_table::<W>(key, rounds)))
}

/// The plaintext of `ciphertext` under `key` with `rounds` rounds.
pub open spec fn decode_spec<W: Word>(key: Seq<u8>, rounds: u8, ciphertext: Seq<u8>) -> Seq<u8> {
    transform_bytes::<W>(ciphertext, decoder(key_table::<W>(key, rounds)))
}

/// Encodes `plaintext` under `key` with `rounds` rounds.
///
/// A key of more than 255 bytes is refused with `InvalidKeyLength`. With an
/// accepted key, a plaintext that is not a whole number of blocks is refused
/// with `InvalidInputLength`. Every other input is encoded.
pub fn encode_with_rounds<W: Word>(key: Vec<u8>, plaintext: &[u8], rounds: u8) -> (r: Result<
    Vec<u8>,
    CipherError,
>)
    ensures
        key@.len() > MAX_KEY_LEN ==> r == Err::<Vec<u8>, CipherError>(
            CipherError::InvalidKeyLength,
        ),
        key@.len() <= MAX_KEY_LEN && plaintext@.len() % block_len::<W>() != 0 ==> r == Err::<
            Vec<u8>,
            CipherError,
        >(CipherError::InvalidInputLength),
        key@.len() <= MAX_KEY_LEN && plaintext@.len() % block_len::<W>() == 0 ==> (r matches Ok(
            out,
        ) && out@ == encode_spec::<W>(key@, rounds, plaintext@)),
{
    let ghost key_bytes = key@;
    let table = match gen_key_table::<W>(key, rounds) {
        Ok(table) => table,
        Err(e) => {
            return Err(e);
        },
    };
    proof {
        lemma_key_table_len::<W>(key_bytes, rounds);
    }
    compute::<W, _>(plaintext, table, encode_block::<W>)
}

/// Decodes `ciphertext` under `key` with `rounds` rounds.
///
/// A key of more than 255 bytes is refused with `InvalidKeyLength`. With an
/// accepted key, a ciphertext that is not a whole number of blocks is refused
/// with `InvalidInputLength`. Every other input is decoded.
pub fn decode_with_rounds<W: Word>(key: Vec<u8>, ciphertext: &[u8], rounds: u8) -> (r: Result<
    Vec<u8>,
    CipherError,
>)
    ensures
        key@.len() > MAX_KEY_LEN ==> r == Err::<Vec<u8>, CipherError>(
            CipherError::InvalidKeyLength,
        ),
        key@.len() <= MAX_KEY_LEN && ciphertext@.len() % block_len::<W>() != 0 ==> r == Err::<
            Vec<u8>,
            CipherError,
        >(CipherError::InvalidInputLength),
        key@.len() <= MAX_KEY_LEN && ciphertext@.len() % block_len::<W>() == 0 ==> (r matches Ok(
            out,
        ) && out@ == decode_spec::<W>(key@, rounds, ciphertext@)),
{
    let ghost key_bytes = key@;
    let table = match gen_key_table::<W>(key, rounds) {
        Ok(table) => table,
        Err(e) => {
            return Err(e);
        },
    };
    proof {
        lemma_key_table_len::<W>(key_bytes, rounds);
    }
    compute::<W, _>(ciphertext, table, decode_block::<W>)
}

/// Encodes `plaintext` under `key` with twelve rounds. The plaintext is a
/// whole number of blocks of two words, and the key has at most 255 bytes;
/// anything else is refused, the key first.
pub fn encode<W: Word>(key: Vec<u8>, plaintext: &[u8]) -> (r: Result<Vec<u8>, CipherError>)
    ensures
        key@.len() > MAX_KEY_LEN ==> r == Err::<Vec<u8>, CipherError>(
            CipherError::InvalidKeyLength,
        ),
        key@.len() <= MAX_KEY_LEN && plaintext@.len() % block_len::<W>() != 0 ==> r == Err::<
            Vec<u8>,
            CipherError,
        >(CipherError::InvalidInputLength),
        key@.len() <= MAX_KEY_LEN && plaintext@.len() % block_len::<W>() == 0 ==> (r matches Ok(
            out,
        ) && out@ == encode_spec::<W>(key@, DEFAULT_ROUNDS, plaintext@)),
{
    encode_with_rounds::<W>(key, plaintext, DEFAULT_ROUNDS)
}

/// Decodes `ciphertext` under `key` with twelve rounds. The ciphertext is a
/// whole number of blocks of two words, and the key has at most 255 bytes;
/// anything else is refused, the key first.
pub fn decode<W: Word>(key: Vec<u8>, ciphertext: &[u8]) -> (r: Result<Vec<u8>, CipherError>)
    ensures
        key@.len() > MAX_KEY_LEN ==> r == Err::<Vec<u8>, CipherError>(
            CipherError::InvalidKeyLength,
        ),
        key@.len() <= MAX_KEY_LEN && ciphertext@.len() % block_len::<W>() != 0 ==> r == Err::<
            Vec<u8>,
            CipherError,
        >(CipherError::InvalidInputLength),
        key@.len() <= MAX_KEY_LEN && ciphertext@.len() % block_len::<W>() == 0 ==> (r matches Ok(
            out,
        ) && out@ == decode_spec::<W>(key@, DEFAULT_ROUNDS, ciphertext@)),
{
    decode_with_rounds::<W>(key, ciphertext, DEFAULT_ROUNDS)
}

} // verus!
