//! The 64-bit word.

use vstd::prelude::*;
use crate::num_ops::{
    add_mod_u64, rotate_left_u64, rotate_right_u64, rotl_u64, rotr_u64, sub_mod_u64,
    unsigned_shl_u64, wrapping_add_u64, wrapping_sub_u64,
};
use crate::word::{FromLeBytes, MagicConstants, ToLeBytes, Word};

verus! {

impl MagicConstants for u64 {
    open spec fn spec_p() -> u64 {
        0xb7e151628aed2a6b
    }

    open spec fn spec_q() -> u64 {
        0x9e3779b97f4a7c15
    }

    fn p() -> u64 {
        0xb7e151628aed2a6b
    }

    fn q() -> u64 {
        0x9e3779b97f4a7c15
    }
}

impl FromLeBytes for u64 {
    open spec fn spec_byte_len() -> nat {
        8
    }

    open spec fn spec_from_le_bytes(bytes: Seq<u8>) -> u64 {
        (bytes[0] + bytes[1] * 0x100 + bytes[2] * 0x1_0000 + bytes[3] * 0x100_0000
            + bytes[4] * 0x1_0000_0000 + bytes[5] * 0x100_0000_0000
            + bytes[6] * 0x1_0000_0000_0000 + bytes[7] * 0x100_0000_0000_0000) as u64
    }

    fn from_le_bytes(bytes: &[u8]) -> u64 {
        let b0: u64 = bytes[0] as u64;
        let b1: u64 = bytes[1] as u64;
        let b2: u64 = bytes[2] as u64;
        let b3: u64 = bytes[3] as u64;
        let b4: u64 = bytes[4] as u64;
        let b5: u64 = bytes[5] as u64;
        let b6: u64 = bytes[6] as u64;
        let b7: u64 = bytes[7] as u64;
        b0 + b1 * 0x100 + b2 * 0x1_0000 + b3 * 0x100_0000 + b4 * 0x1_0000_0000
            + b5 * 0x100_0000_0000 + b6 * 0x1_0000_0000_0000 + b7 * 0x100_0000_0000_0000
    }
}

impl ToLeBytes for u64 {
    open spec fn spec_to_le_bytes(self) -> Seq<u8> {
        seq![
            (self % 0x100) as u8,
            (self / 0x100 % 0x100) as u8,
            (self / 0x1_0000 % 0x100) as u8,
            (self / 0x100_0000 % 0x100) as u8,
            (self / 0x1_0000_0000 % 0x100) as u8,
            (self / 0x100_0000_0000 % 0x100) as u8,
            (self / 0x1_0000_0000_0000 % 0x100) as u8,
            (self / 0x100_0000_0000_0000 % 0x100) as u8,
        ]
    }

    fn to_le_bytes(num: u64) -> Vec<u8> {
        let mut out: Vec<u8> = Vec::new();
        out.push((num % 0x100) as u8);
        out.push((num / 0x100 % 0x100) as u8);
        out.push((num / 0x1_0000 % 0x100) as u8);
        out.push((num / 0x100_0000 % 0x100) as u8);
        out.push((num / 0x1_0000_0000 % 0x100) as u8);
        out.push((num / 0x100_0000_0000 % 0x100) as u8);
        out.push((num / 0x1_0000_0000_0000 % 0x100) as u8);
        out.push((num / 0x100_0000_0000_0000 % 0x100) as u8);
        assert(out@ =~= num.spec_to_le_bytes());
        out
    }
}

impl Word for u64 {
    open spec fn spec_bits() -> nat {
        64
    }

    open spec fn spec_zero() -> u64 {
        0
    }

    open spec fn spec_from_u8(b: u8) -> u64 {
        b as u64
    }

    open spec fn spec_add(self, rhs: u64) -> u64 {
        add_mod_u64(self, rhs)
    }

    open spec fn spec_sub(self, rhs: u64) -> u64 {
        sub_mod_u64(self, rhs)
    }

    open spec fn spec_xor(self, rhs: u64) -> u64 {
        self ^ rhs
    }

    open spec fn spec_rotl(self, n: u32) -> u64 {
        rotl_u64(self, n % 64)
    }

    open spec fn spec_rotr(self, n: u32) -> u64 {
        rotr_u64(self, n % 64)
    }

    open spec fn spec_shl8(self) -> u64 {
        self << 8u32
    }

    open spec fn spec_rot_amount(self) -> u32 {
        (self % 64) as u32
    }

    fn bits() -> u32 {
        64
    }

    fn zero() -> u64 {
        0
    }

    fn from_u8(b: u8) -> u64 {
        b as u64
    }

    fn add_wrapping(self, rhs: u64) -> u64 {
        wrapping_add_u64(self, rhs)
    }

    fn sub_wrapping(self, rhs: u64) -> u64 {
        wrapping_sub_u64(self, rhs)
    }

    fn xor(self, rhs: u64) -> u64 {
        self ^ rhs
    }

    fn rotl(self, n: u32) -> u64 {
        rotate_left_u64(self, n % 64)
    }

    fn rotr(self, n: u32) -> u64 {
        rotate_right_u64(self, n % 64)
    }

    fn shl8(self) -> u64 {
        unsigned_shl_u64(self, 8)
    }

    fn rot_amount(self) -> u32 {
        (self % 64) as u32
    }

    proof fn lemma_width() {
    }

    proof fn lemma_add_then_sub(a: u64, k: u64) {
    }

    proof fn lemma_sub_then_add(a: u64, k: u64) {
    }

    proof fn lemma_xor_twice(a: u64, b: u64) {
        assert((a ^ b) ^ b == a) by (bit_vector);
    }

    proof fn lemma_rotl_then_rotr(x: u64, n: u32) {
        let m = n % 64;
        assert(rotr_u64(rotl_u64(x, m), m) == x) by (bit_vector)
            requires
                m < 64,
        ;
    }

    proof fn lemma_rotr_then_rotl(x: u64, n: u32) {
        let m = n % 64;
        assert(rotl_u64(rotr_u64(x, m), m) == x) by (bit_vector)
            requires
                m < 64,
        ;
    }

    proof fn lemma_to_then_from_le_bytes(x: u64) {
        let d0: u8 = (x % 0x100) as u8;
        let d1: u8 = (x / 0x100 % 0x100) as u8;
        let d2: u8 = (x / 0x1_0000 % 0x100) as u8;
        let d3: u8 = (x / 0x100_0000 % 0x100) as u8;
        let d4: u8 = (x / 0x1_0000_0000 % 0x100) as u8;
        let d5: u8 = (x / 0x100_0000_0000 % 0x100) as u8;
        let d6: u8 = (x / 0x1_0000_0000_0000 % 0x100) as u8;
        let d7: u8 = (x / 0x100_0000_0000_0000 % 0x100) as u8;
        assert(d0 + d1 * 0x100 + d2 * 0x1_0000 + d3 * 0x100_0000 + d4 * 0x1_0000_0000
            + d5 * 0x100_0000_0000 + d6 * 0x1_0000_0000_0000
            + d7 * 0x100_0000_0000_0000 == x) by (bit_vector)
            requires
                d0 == x % 0x100,
                d1 == x / 0x100 % 0x100,
                d2 == x / 0x1_0000 % 0x100,
                d3 == x / 0x100_0000 % 0x100,
                d4 == x / 0x1_0000_0000 % 0x100,
                d5 == x / 0x100_0000_0000 % 0x100,
                d6 == x / 0x1_0000_0000_0000 % 0x100,
                d7 == x / 0x100_0000_0000_0000 % 0x100,
        ;
    }

    proof fn lemma_from_then_to_le_bytes(bytes: Seq<u8>) {
        let b0 = bytes[0];
        let b1 = bytes[1];
        let b2 = bytes[2];
        let b3 = bytes[3];
        let b4 = bytes[4];
        let b5 = bytes[5];
        let b6 = bytes[6];
        let b7 = bytes[7];
        let v = Self::spec_from_le_bytes(bytes);
        assert(v % 0x100 == b0 && v / 0x100 % 0x100 == b1 && v / 0x1_0000 % 0x100 == b2
            && v / 0x100_0000 % 0x100 == b3 && v / 0x1_0000_0000 % 0x100 == b4
            && v / 0x100_0000_0000 % 0x100 == b5 && v / 0x1_0000_0000_0000 % 0x100 == b6
            && v / 0x100_0000_0000_0000 % 0x100 == b7) by (bit_vector)
            requires
                v == b0 + b1 * 0x100 + b2 * 0x1_0000 + b3 * 0x100_0000 + b4 * 0x1_0000_0000
                    + b5 * 0x100_0000_0000 + b6 * 0x1_0000_0000_0000
                    + b7 * 0x100_0000_0000_0000,
        ;
        assert(v.spec_to_le_bytes() =~= bytes);
    }

    proof fn lemma_zero_bytes(bytes: Seq<u8>) {
    }

    proof fn lemma_shift_in_byte(b: u8, bytes: Seq<u8>) {
        let b0 = bytes[0];
        let b1 = bytes[1];
        let b2 = bytes[2];
        let b3 = bytes[3];
        let b4 = bytes[4];
        let b5 = bytes[5];
        let b6 = bytes[6];
        let b7 = bytes[7];
        let v = Self::spec_from_le_bytes(bytes);
        let front = seq![b] + bytes.drop_last();
        assert(front[0] == b && front[1] == b0 && front[2] == b1 && front[3] == b2
            && front[4] == b3 && front[5] == b4 && front[6] == b5 && front[7] == b6);
        let w = Self::spec_from_le_bytes(front);
        assert(add_mod_u64(v << 8u32, b as u64) == w) by (bit_vector)
            requires
                v == b0 + b1 * 0x100 + b2 * 0x1_0000 + b3 * 0x100_0000 + b4 * 0x1_0000_0000
                    + b5 * 0x100_0000_0000 + b6 * 0x1_0000_0000_0000
                    + b7 * 0x100_0000_0000_0000,
                w == b + b0 * 0x100 + b1 * 0x1_0000 + b2 * 0x100_0000 + b3 * 0x1_0000_0000
                    + b4 * 0x100_0000_0000 + b5 * 0x1_0000_0000_0000
                    + b6 * 0x100_0000_0000_0000,
        ;
    }
}

} // verus!
