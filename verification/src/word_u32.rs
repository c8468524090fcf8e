//! The 32-bit word.

use vstd::prelude::*;
use crate::num_ops::{
    add_mod_u32, rotate_left_u32, rotate_right_u32, rotl_u32, rotr_u32, sub_mod_u32,
    unsigned_shl_u32, wrapping_add_u32, wrapping_sub_u32,
};
use crate::word::{FromLeBytes, MagicConstants, ToLeBytes, Word};

verus! {

impl MagicConstants for u32 {
    open spec fn spec_p() -> u32 {
        0xb7e15163
    }

    open spec fn spec_q() -> u32 {
        0x9e3779b9
    }

    fn p() -> u32 {
        0xb7e15163
    }

    fn q() -> u32 {
        0x9e3779b9
    }
}

impl FromLeBytes for u32 {
    open spec fn spec_byte_len() -> nat {
        4
    }

    open spec fn spec_from_le_bytes(bytes: Seq<u8>) -> u32 {
        (bytes[0] + bytes[1] * 0x100 + bytes[2] * 0x1_0000 + bytes[3] * 0x100_0000) as u32
    }

    fn from_le_bytes(bytes: &[u8]) -> u32 {
        let b0: u32 = bytes[0] as u32;
        let b1: u32 = bytes[1] as u32;
        let b2: u32 = bytes[2] as u32;
        let b3: u32 = bytes[3] as u32;
        b0 + b1 * 0x100 + b2 * 0x1_0000 + b3 * 0x100_0000
    }
}

impl ToLeBytes for u32 {
    open spec fn spec_to_le_bytes(self) -> Seq<u8> {
        seq![
            (self % 0x100) as u8,
            (self / 0x100 % 0x100) as u8,
            (self / 0x1_0000 % 0x100) as u8,
            (self / 0x100_0000 % 0x100) as u8,
        ]
    }

    fn to_le_bytes(num: u32) -> Vec<u8> {
        let mut out: Vec<u8> = Vec::new();
        out.push((num % 0x100) as u8);
        out.push((num / 0x100 % 0x100) as u8);
        out.push((num / 0x1_0000 % 0x100) as u8);
        out.push((num / 0x100_0000 % 0x100) as u8);
        assert(out@ =~= num.spec_to_le_bytes());
        out
    }
}

impl Word for u32 {
    open spec fn spec_bits() -> nat {
        32
    }

    open spec fn spec_zero() -> u32 {
        0
    }

    open spec fn spec_from_u8(b: u8) -> u32 {
        b as u32
    }

    open spec fn spec_add(self, rhs: u32) -> u32 {
        add_mod_u32(self, rhs)
    }

    open spec fn spec_sub(self, rhs: u32) -> u32 {
        sub_mod_u32(self, rhs)
    }

    open spec fn spec_xor(self, rhs: u32) -> u32 {
        self ^ rhs
    }

    open spec fn spec_rotl(self, n: u32) -> u32 {
        rotl_u32(self, n % 32)
    }

    open spec fn spec_rotr(self, n: u32) -> u32 {
        rotr_u32(self, n % 32)
    }

    open spec fn spec_shl8(self) -> u32 {
        self << 8u32
    }

    open spec fn spec_rot_amount(self) -> u32 {
        (self % 32) as u32
    }

    fn bits() -> u32 {
        32
    }

    fn zero() -> u32 {
        0
    }

    fn from_u8(b: u8) -> u32 {
        b as u32
    }

    fn add_wrapping(self, rhs: u32) -> u32 {
        wrapping_add_u32(self, rhs)
    }

    fn sub_wrapping(self, rhs: u32) -> u32 {
        wrapping_sub_u32(self, rhs)
    }

    fn xor(self, rhs: u32) -> u32 {
        self ^ rhs
    }

    fn rotl(self, n: u32) -> u32 {
        rotate_left_u32(self, n % 32)
    }

    fn rotr(self, n: u32) -> u32 {
        rotate_right_u32(self, n % 32)
    }

    fn shl8(self) -> u32 {
        unsigned_shl_u32(self, 8)
    }

    fn rot_amount(self) -> u32 {
        (self % 32) as u32
    }

    proof fn lemma_width() {
    }

    proof fn lemma_add_then_sub(a: u32, k: u32) {
    }

    proof fn lemma_sub_then_add(a: u32, k: u32) {
    }

    proof fn lemma_xor_twice(a: u32, b: u32) {
        assert((a ^ b) ^ b == a) by (bit_vector);
    }

    proof fn lemma_rotl_then_rotr(x: u32, n: u32) {
        let m = n % 32;
        assert(rotr_u32(rotl_u32(x, m), m) == x) by (bit_vector)
            requires
                m < 32,
        ;
    }

    proof fn lemma_rotr_then_rotl(x: u32, n: u32) {
        let m = n % 32;
        assert(rotl_u32(rotr_u32(x, m), m) == x) by (bit_vector)
            requires
                m < 32,
        ;
    }

    proof fn lemma_to_then_from_le_bytes(x: u32) {
        let d0: u8 = (x % 0x100) as u8;
        let d1: u8 = (x / 0x100 % 0x100) as u8;
        let d2: u8 = (x / 0x1_0000 % 0x100) as u8;
        let d3: u8 = (x / 0x100_0000 % 0x100) as u8;
        assert(d0 + d1 * 0x100 + d2 * 0x1_0000 + d3 * 0x100_0000 == x) by (bit_vector)
            requires
                d0 == x % 0x100,
                d1 == x / 0x100 % 0x100,
                d2 == x / 0x1_0000 % 0x100,
                d3 == x / 0x100_0000 % 0x100,
        ;
    }

    proof fn lemma_from_then_to_le_bytes(bytes: Seq<u8>) {
        let b0 = bytes[0];
        let b1 = bytes[1];
        let b2 = bytes[2];
        let b3 = bytes[3];
        let v = Self::spec_from_le_bytes(bytes);
        assert(v % 0x100 == b0
            && v / 0x100 % 0x100 == b1
            && v / 0x1_0000 % 0x100 == b2
            && v / 0x100_0000 % 0x100 == b3) by (bit_vector)
            requires
                v == b0 + b1 * 0x100 + b2 * 0x1_0000 + b3 * 0x100_0000,
        ;
        assert(v.spec_to_le_bytes() =~= bytes);
    }

    proof fn lemma_zero_bytes(bytes: Seq<u8>) {
    }

    proof fn lemma_shift_in_byte(b: u8, bytes: Seq<u8>) {
        let b0 = bytes[0];
        let b1 = bytes[1];
        let b2 = bytes[2];
        let b3 = bytes[3];
        let v = Self::spec_from_le_bytes(bytes);
        let front = seq![b] + bytes.drop_last();
        assert(front[0] == b && front[1] == b0 && front[2] == b1 && front[3] == b2);
        let w = Self::spec_from_le_bytes(front);
        assert(add_mod_u32(v << 8u32, b as u32) == w) by (bit_vector)
            requires
                v == b0 + b1 * 0x100 + b2 * 0x1_0000 + b3 * 0x100_0000,
                w == b + b0 * 0x100 + b1 * 0x1_0000 + b2 * 0x100_0000,
        ;
    }
}

} // verus!
