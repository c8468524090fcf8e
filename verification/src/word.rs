//! The word abstraction: what the cipher needs of an unsigned integer type.
//!
//! Every operation comes as a pair: a specification function that says what
//! the result is, and an executable method that is proved to return it. The
//! laws at the end of `Word` are what the cipher's correctness rests on; each
//! implementation proves them for its own width.

use vstd::prelude::*;

verus! {

/// The two constants that seed the key table. `P` comes from the binary
/// expansion of e, `Q` from that of the golden ratio, both cut to the width
/// of the word.
pub trait MagicConstants: Sized {
    spec fn spec_p() -> Self;

    spec fn spec_q() -> Self;

    fn p() -> (r: Self)
        ensures
            r == Self::spec_p(),
    ;

    fn q() -> (r: Self)
        ensures
            r == Self::spec_q(),
    ;
}

/// Reading a word from its little-endian bytes.
pub trait FromLeBytes: Sized {
    /// How many bytes make up one word.
    spec fn spec_byte_len() -> nat;

    /// The word whose little-endian representation is `bytes`.
    spec fn spec_from_le_bytes(bytes: Seq<u8>) -> Self;

    fn from_le_bytes(bytes: &[u8]) -> (r: Self)
        requires
            bytes@.len() == Self::spec_byte_len(),
        ensures
            r == Self::spec_from_le_bytes(bytes@),
    ;
}

/// Writing a word as its little-endian bytes.
pub trait ToLeBytes: Sized {
    /// The little-endian representation of the word, least significant byte
    /// first.
    spec fn spec_to_le_bytes(self) -> Seq<u8>;

    fn to_le_bytes(num: Self) -> (r: Vec<u8>)
        ensures
            r@ == num.spec_to_le_bytes(),
    ;
}

/// An unsigned integer of 16, 32 or 64 bits with arithmetic modulo 2^bits,
/// rotation, and a little-endian byte representation.
pub trait Word: MagicConstants + FromLeBytes + ToLeBytes + Copy {
    /// The width of the word in bits.
    spec fn spec_bits() -> nat;

    spec fn spec_zero() -> Self;

    /// The word that holds the value of one byte.
    spec fn spec_from_u8(b: u8) -> Self;

    /// Addition modulo 2^bits.
    spec fn spec_add(self, rhs: Self) -> Self;

    /// Subtraction modulo 2^bits.
    spec fn spec_sub(self, rhs: Self) -> Self;

    /// Bitwise exclusive or.
    spec fn spec_xor(self, rhs: Self) -> Self;

    /// Rotation to the left by `n` bits. An `n` of the width or more rotates
    /// as its remainder modulo the width does, and zero changes nothing.
    spec fn spec_rotl(self, n: u32) -> Self;

    /// Rotation to the right by `n` bits. An `n` of the width or more rotates
    /// as its remainder modulo the width does, and zero changes nothing.
    spec fn spec_rotr(self, n: u32) -> Self;

    /// The word moved up by one byte: the top byte is lost, the bottom byte
    /// becomes zero.
    spec fn spec_shl8(self) -> Self;

    /// The value of the word modulo the width: the amount by which the word
    /// rotates another one.
    spec fn spec_rot_amount(self) -> u32;

    fn bits() -> (r: u32)
        ensures
            r == Self::spec_bits(),
    ;

    fn zero() -> (r: Self)
        ensures
            r == Self::spec_zero(),
    ;

    fn from_u8(b: u8) -> (r: Self)
        ensures
            r == Self::spec_from_u8(b),
    ;

    fn add_wrapping(self, rhs: Self) -> (r: Self)
        ensures
            r == self.spec_add(rhs),
    ;

    fn sub_wrapping(self, rhs: Self) -> (r: Self)
        ensures
            r == self.spec_sub(rhs),
    ;

    fn xor(self, rhs: Self) -> (r: Self)
        ensures
            r == self.spec_xor(rhs),
    ;

    fn rotl(self, n: u32) -> (r: Self)
        ensures
            r == self.spec_rotl(n),
    ;

    fn rotr(self, n: u32) -> (r: Self)
        ensures
            r == self.spec_rotr(n),
    ;

    fn shl8(self) -> (r: Self)
        ensures
            r == self.spec_shl8(),
    ;

    fn rot_amount(self) -> (r: u32)
        ensures
            r == self.spec_rot_amount(),
            r < Self::spec_bits(),
    ;

    /// The width is one of 16, 32 and 64 bits, and a word takes a byte for
    /// every eight of them.
    proof fn lemma_width()
        ensures
            Self::spec_bits() == 16 || Self::spec_bits() == 32 || Self::spec_bits() == 64,
            Self::spec_bits() == 8 * Self::spec_byte_len(),
    ;

    /// Subtracting what was added gives the word back.
    proof fn lemma_add_then_sub(a: Self, k: Self)
        ensures
            a.spec_add(k).spec_sub(k) == a,
    ;

    /// Adding what was subtracted gives the word back.
    proof fn lemma_sub_then_add(a: Self, k: Self)
        ensures
            a.spec_sub(k).spec_add(k) == a,
    ;

    /// Exclusive or with the same word twice gives the word back.
    proof fn lemma_xor_twice(a: Self, b: Self)
        ensures
            a.spec_xor(b).spec_xor(b) == a,
    ;

    /// Rotating right undoes rotating left by the same amount.
    proof fn lemma_rotl_then_rotr(x: Self, n: u32)
        ensures
            x.spec_rotl(n).spec_rotr(n) == x,
    ;

    /// Rotating left undoes rotating right by the same amount.
    proof fn lemma_rotr_then_rotl(x: Self, n: u32)
        ensures
            x.spec_rotr(n).spec_rotl(n) == x,
    ;

    /// A word written as bytes and read again is unchanged.
    proof fn lemma_to_then_from_le_bytes(x: Self)
        ensures
            x.spec_to_le_bytes().len() == Self::spec_byte_len(),
            Self::spec_from_le_bytes(x.spec_to_le_bytes()) == x,
    ;

    /// Bytes read as a word and written again are unchanged.
    proof fn lemma_from_then_to_le_bytes(bytes: Seq<u8>)
        requires
            bytes.len() == Self::spec_byte_len(),
        ensures
            Self::spec_from_le_bytes(bytes).spec_to_le_bytes() == bytes,
    ;

    /// Bytes that are all zero read as the zero word.
    proof fn lemma_zero_bytes(bytes: Seq<u8>)
        requires
            bytes.len() == Self::spec_byte_len(),
            forall|i: int| 0 <= i < bytes.len() ==> bytes[i] == 0,
        ensures
            Self::spec_from_le_bytes(bytes) == Self::spec_zero(),
    ;

    /// Moving a word up by one byte and adding a byte `b` is the same as
    /// putting `b` in front of the word's bytes and dropping the last of them.
    proof fn lemma_shift_in_byte(b: u8, bytes: Seq<u8>)
        requires
            bytes.len() == Self::spec_byte_len(),
        ensures
            Self::spec_from_le_bytes(bytes).spec_shl8().spec_add(Self::spec_from_u8(b))
                == Self::spec_from_le_bytes(seq![b] + bytes.drop_last()),
    ;
}

} // verus!
