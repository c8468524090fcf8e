//! The 16-bit word.

use vstd::prelude::*;
use crate::num_ops::{
    add_mod_u16, rotate_left_u16, rotate_right_u16, rotl_u16, rotr_u16, sub_mod_u16,
    unsigned_shl_u16, wrapping_add_u16, wrapping_sub_u16,
};
use crate::word::{FromLeBytes, MagicConstants, ToLeBytes, Word};

verus! {

impl MagicConstants for u16 {
    open spec fn spec_p() -> u16 {
        0xb7e1
    }

    open spec fn spec_q() -> u16 {
        0x9e37
    }

    fn p() -> u16 {
        0xb7e1
    }

    fn q() -> u16 {
        0x9e37
    }
}

impl FromLeBytes for u16 {
    open spec fn spec_byte_len() -> nat {
        2
    }

    open spec fn spec_from_le_bytes(bytes: Seq<u8>) -> u16 {
        (bytes[0] + bytes[1] * 0x100) as u16
    }

    fn from_le_bytes(bytes: &[u8]) -> u16 {
        let b0: u16 = bytes[0] as u16;
        let b1: u16 = bytes[1] as u16;
        b0 + b1 * 0x100
    }
}

impl ToLeBytes for u16 {
    open spec fn spec_to_le_bytes(self) -> Seq<u8> {
        seq![
            (self % 0x100) as u8,
            (self / 0x100 % 0x100) as u8,
        ]
    }

    fn to_le_bytes(num: u16) -> Vec<u8> {
        let mut out: Vec<u8> = Vec::new();
        out.push((num % 0x100) as u8);
        out.push((num / 0x100 % 0x100) as u8);
        assert(out@ =~= num.spec_to_le_bytes());
        out
    }
}

impl Word for u16 {
    open spec fn spec_bits() -> nat {
        16
    }

    open spec fn spec_zero() -> u16 {
        0
    }

    open spec fn spec_from_u8(b: u8) -> u16 {
        b as u16
    }

    open spec fn spec_add(self, rhs: u16) -> u16 {
        add_mod_u16(self, rhs)
    }

    open spec fn spec_sub(self, rhs: u16) -> u16 {
        sub_mod_u16(self, rhs)
    }

    open spec fn spec_xor(self, rhs: u16) -> u16 {
        self ^ rhs
    }

    open spec fn spec_rotl(self, n: u32) -> u16 {
        rotl_u16(self, n % 16)
    }

    open spec fn spec_rotr(self, n: u32) -> u16 {
        rotr_u16(self, n % 16)
    }

    open spec fn spec_shl8(self) -> u16 {
        self << 8u32
    }

    open spec fn spec_rot_amount(self) -> u32 {
        (self % 16) as u32
    }

    fn bits() -> u32 {
        16
    }

    fn zero() -> u16 {
        0
    }

    fn from_u8(b: u8) -> u16 {
        b as u16
    }

    fn add_wrapping(self, rhs: u16) -> u16 {
        wrapping_add_u16(self, rhs)
    }

    fn sub_wrapping(self, rhs: u16) -> u16 {
        wrapping_sub_u16(self, rhs)
    }

    fn xor(self, rhs: u16) -> u16 {
        self ^ rhs
    }

    fn rotl(self, n: u32) -> u16 {
        rotate_left_u16(self, n % 16)
    }

    fn rotr(self, n: u32) -> u16 {
        rotate_right_u16(self, n % 16)
    }

    fn shl8(self) -> u16 {
        unsigned_shl_u16(self, 8)
    }

    fn rot_amount(self) -> u32 {
        (self % 16) as u32
    }

    proof fn lemma_width() {
    }

    proof fn lemma_add_then_sub(a: u16, k: u16) {
    }

    proof fn lemma_sub_then_add(a: u16, k: u16) {
    }

    proof fn lemma_xor_twice(a: u16, b: u16) {
        assert((a ^ b) ^ b == a) by (bit_vector);
    }

    proof fn lemma_rotl_then_rotr(x: u16, n: u32) {
        let m = n % 16;
        assert(rotr_u16(rotl_u16(x, m), m) == x) by (bit_vector)
            requires
                m < 16,
        ;
    }

    proof fn lemma_rotr_then_rotl(x: u16, n: u32) {
        let m = n % 16;
        assert(rotl_u16(rotr_u16(x, m), m) == x) by (bit_vector)
            requires
                m < 16,
        ;
    }

    proof fn lemma_to_then_from_le_bytes(x: u16) {
        let d0: u8 = (x % 0x100) as u8;
        let d1: u8 = (x / 0x100 % 0x100) as u8;
        assert(d0 + d1 * 0x100 == x) by (bit_vector)
            requires
                d0 == x % 0x100,
                d1 == x / 0x100 % 0x100,
        ;
    }

    proof fn lemma_from_then_to_le_bytes(bytes: Seq<u8>) {
        let b0 = bytes[0];
        let b1 = bytes[1];
        let v = Self::spec_from_le_bytes(bytes);
        assert(v % 0x100 == b0 && v / 0x100 % 0x100 == b1) by (bit_vector)
            requires
                v == b0 + b1 * 0x100,
        ;
        assert(v.spec_to_le_bytes() =~= bytes);
    }

    proof fn lemma_zero_bytes(bytes: Seq<u8>) {
    }

    proof fn lemma_shift_in_byte(b: u8, bytes: Seq<u8>) {
        let b0 = bytes[0];
        let b1 = bytes[1];
        let v = Self::spec_from_le_bytes(bytes);
        let front = seq![b] + bytes.drop_last();
        assert(front[0] == b && front[1] == b0);
        let w = Self::spec_from_le_bytes(front);
        assert(add_mod_u16(v << 8u32, b as u16) == w) by (bit_vector)
            requires
                v == b0 + b1 * 0x100,
                w == b + b0 * 0x100,
        ;
    }
}

} // verus!
