//! The block transform: a pair of words goes through one key-dependent
//! addition and then `rounds` mixing rounds, each of which rotates one half
//! by an amount read from the other half.
//!
//! A key table of `2 * rounds + 2` words drives the transform; decoding walks
//! the same table backwards and undoes every step.

use vstd::prelude::*;
use crate::word::Word;

verus! {

/// How many rounds a key table of `table_len` words drives.
pub open spec fn round_count(table_len: nat) -> nat {
    (table_len / 2 - 1) as nat
}

/// One round of encoding with the round keys `k0` and `k1`. The second half
/// is mixed with the first half as the round has just changed it.
pub open spec fn encode_round<W: Word>(p: (W, W), k0: W, k1: W) -> (W, W) {
    let a = p.0.spec_xor(p.1).spec_rotl(p.1.spec_rot_amount()).spec_add(k0);
    let b = p.1.spec_xor(a).spec_rotl(a.spec_rot_amount()).spec_add(k1);
    (a, b)
}

/// One round of decoding with the round keys `k0` and `k1`: the steps of
/// `encode_round` undone in reverse order.
pub open spec fn decode_round<W: Word>(c: (W, W), k0: W, k1: W) -> (W, W) {
    let b = c.1.spec_sub(k1).spec_rotr(c.0.spec_rot_amount()).spec_xor(c.0);
    let a = c.0.spec_sub(k0).spec_rotr(b.spec_rot_amount()).spec_xor(b);
    (a, b)
}

/// The pair after the opening addition and the first `r` rounds of encoding.
pub open spec fn encode_rounds<W: Word>(p: (W, W), table: Seq<W>, r: nat) -> (W, W)
    decreases r,
{
    if r == 0 {
        (p.0.spec_add(table[0]), p.1.spec_add(table[1]))
    } else {
        encode_round(
            encode_rounds(p, table, (r - 1) as nat),
            table[2 * (r as int)],
            table[2 * (r as int) + 1],
        )
    }
}

/// The pair after undoing rounds `r`, `r - 1`, .., 1 and then the opening
/// addition.
pub open spec fn decode_rounds<W: Word>(c: (W, W), table: Seq<W>, r: nat) -> (W, W)
    decreases r,
{
    if r == 0 {
        (c.0.spec_sub(table[0]), c.1.spec_sub(table[1]))
    } else {
        decode_rounds(
            decode_round(c, table[2 * (r as int)], table[2 * (r as int) + 1]),
            table,
            (r - 1) as nat,
        )
    }
}

/// The encoding of the pair `p` under the key table `table`.
pub open spec fn encode_block_spec<W: Word>(p: (W, W), table: Seq<W>) -> (W, W) {
    encode_rounds(p, table, round_count(table.len()))
}

/// The decoding of the pair `c` under the key table `table`.
pub open spec fn decode_block_spec<W: Word>(c: (W, W), table: Seq<W>) -> (W, W) {
    decode_rounds(c, table, round_count(table.len()))
}

/// One round of decoding undoes one round of encoding with the same keys.
pub proof fn lemma_decode_round_inverts_encode_round<W: Word>(p: (W, W), k0: W, k1: W)
    ensures
        decode_round(encode_round(p, k0, k1), k0, k1) == p,
{
    let x = p.0.spec_xor(p.1).spec_rotl(p.1.spec_rot_amount());
    let a = x.spec_add(k0);
    let y = p.1.spec_xor(a).spec_rotl(a.spec_rot_amount());
    let b = y.spec_add(k1);
    W::lemma_add_then_sub(y, k1);
    W::lemma_rotl_then_rotr(p.1.spec_xor(a), a.spec_rot_amount());
    W::lemma_xor_twice(p.1, a);
    W::lemma_add_then_sub(x, k0);
    W::lemma_rotl_then_rotr(p.0.spec_xor(p.1), p.1.spec_rot_amount());
    W::lemma_xor_twice(p.0, p.1);
}

/// One round of encoding undoes one round of decoding with the same keys.
pub proof fn lemma_encode_round_inverts_decode_round<W: Word>(c: (W, W), k0: W, k1: W)
    ensures
        encode_round(decode_round(c, k0, k1), k0, k1) == c,
{
    let y = c.1.spec_sub(k1).spec_rotr(c.0.spec_rot_amount());
    let b = y.spec_xor(c.0);
    let x = c.0.spec_sub(k0).spec_rotr(b.spec_rot_amount());
    let a = x.spec_xor(b);
    W::lemma_xor_twice(x, b);
    W::lemma_rotr_then_rotl(c.0.spec_sub(k0), b.spec_rot_amount());
    W::lemma_sub_then_add(c.0, k0);
    W::lemma_xor_twice(y, c.0);
    W::lemma_rotr_then_rotl(c.1.spec_sub(k1), c.0.spec_rot_amount());
    W::lemma_sub_then_add(c.1, k1);
}

/// Decoding through `r` rounds undoes encoding through `r` rounds.
pub proof fn lemma_decode_rounds_inverts_encode_rounds<W: Word>(p: (W, W), table: Seq<W>, r: nat)
    ensures
        decode_rounds(encode_rounds(p, table, r), table, r) == p,
    decreases r,
{
    if r == 0 {
        W::lemma_add_then_sub(p.0, table[0]);
        W::lemma_add_then_sub(p.1, table[1]);
    } else {
        let before = encode_rounds(p, table, (r - 1) as nat);
        let k0 = table[2 * (r as int)];
        let k1 = table[2 * (r as int) + 1];
        lemma_decode_round_inverts_encode_round(before, k0, k1);
        lemma_decode_rounds_inverts_encode_rounds(p, table, (r - 1) as nat);
    }
}

/// Encoding through `r` rounds undoes decoding through `r` rounds.
pub proof fn lemma_encode_rounds_inverts_decode_rounds<W: Word>(c: (W, W), table: Seq<W>, r: nat)
    ensures
        encode_rounds(decode_rounds(c, table, r), table, r) == c,
    decreases r,
{
    if r == 0 {
        W::lemma_sub_then_add(c.0, table[0]);
        W::lemma_sub_then_add(c.1, table[1]);
    } else {
        let k0 = table[2 * (r as int)];
        let k1 = table[2 * (r as int) + 1];
        let inner = decode_round(c, k0, k1);
        lemma_encode_rounds_inverts_decode_rounds(inner, table, (r - 1) as nat);
        lemma_encode_round_inverts_decode_round(c, k0, k1);
    }
}

/// Decoding a block is the exact inverse of encoding it: for every pair of
/// words and every key table, decoding the encoded pair under the same table
/// gives the pair back.
pub proof fn lemma_decode_block_inverts_encode_block<W: Word>(p: (W, W), table: Seq<W>)
    ensures
        decode_block_spec(encode_block_spec(p, table), table) == p,
{
    lemma_decode_rounds_inverts_encode_rounds(p, table, round_count(table.len()));
}

/// Encoding a block is the exact inverse of decoding it, so both are
/// one-to-one on pairs of words.
pub proof fn lemma_encode_block_inverts_decode_block<W: Word>(c: (W, W), table: Seq<W>)
    ensures
        encode_block_spec(decode_block_spec(c, table), table) == c,
{
    lemma_encode_rounds_inverts_decode_rounds(c, table, round_count(table.len()));
}

/// Encodes one block under `key_table`, which holds the two opening keys and
/// two keys for every round.
pub fn encode_block<W: Word>(plaintext: (W, W), key_table: &[W]) -> (r: (W, W))
    requires
        key_table@.len() >= 2,
    ensures
        r == encode_block_spec(plaintext, key_table@),
{
    let mut a = plaintext.0.add_wrapping(key_table[0]);
    let mut b = plaintext.1.add_wrapping(key_table[1]);
    let rounds: usize = key_table.len() / 2 - 1;
    let mut i: usize = 1;
    while i <= rounds
        invariant
            1 <= i <= rounds + 1,
            rounds == round_count(key_table@.len()),
            2 * rounds + 2 <= key_table@.len() <= usize::MAX,
            (a, b) == encode_rounds(plaintext, key_table@, (i - 1) as nat),
        decreases rounds + 1 - i,
    {
        a = a.xor(b).rotl(b.rot_amount()).add_wrapping(key_table[2 * i]);
        b = b.xor(a).rotl(a.rot_amount()).add_wrapping(key_table[2 * i + 1]);
        i = i + 1;
    }
    (a, b)
}

/// Decodes one block under `key_table`, the table the block was encoded
/// under.
pub fn decode_block<W: Word>(ciphertext: (W, W), key_table: &[W]) -> (r: (W, W))
    requires
        key_table@.len() >= 2,
    ensures
        r == decode_block_spec(ciphertext, key_table@),
{
    let mut a = ciphertext.0;
    let mut b = ciphertext.1;
    let rounds: usize = key_table.len() / 2 - 1;
    let mut i: usize = rounds;
    while i >= 1
        invariant
            i <= rounds,
            rounds == round_count(key_table@.len()),
            2 * rounds + 2 <= key_table@.len() <= usize::MAX,
            decode_rounds((a, b), key_table@, i as nat) == decode_rounds(
                ciphertext,
                key_table@,
                rounds as nat,
            ),
        decreases i,
    {
        b = b.sub_wrapping(key_table[2 * i + 1]).rotr(a.rot_amount()).xor(a);
        a = a.sub_wrapping(key_table[2 * i]).rotr(b.rot_amount()).xor(b);
        i = i - 1;
    }
    (a.sub_wrapping(key_table[0]), b.sub_wrapping(key_table[1]))
}

} // verus!
