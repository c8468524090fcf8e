use rc5_cipher::{decode_with_rounds, encode_with_rounds};

struct Source(u64);

impl Source {
    fn next(&mut self) -> u64 {
        self.0 = self.0.wrapping_mul(6364136223846793005).wrapping_add(1442695040888963407);
        self.0 >> 33
    }

    fn bytes(&mut self, n: usize) -> Vec<u8> {
        (0..n).map(|_| self.next() as u8).collect()
    }
}

#[test]
fn decoding_undoes_encoding_for_16_bit_words() {
    let mut src = Source(16);
    for round in 0..60 {
        let key_len = (src.next() % 256) as usize;
        let key = src.bytes(key_len);
        let rounds = if round < 3 { [1u8, 12, 255][round] } else { (src.next() % 40 + 1) as u8 };
        let blocks = (src.next() % 9) as usize;
        let pt = src.bytes(blocks * 4);
        let ct = encode_with_rounds::<u16>(key.clone(), &pt, rounds).unwrap();
        assert_eq!(ct.len(), pt.len());
        assert_eq!(decode_with_rounds::<u16>(key, &ct, rounds).unwrap(), pt);
    }
}

#[test]
fn decoding_undoes_encoding_for_32_bit_words() {
    let mut src = Source(32);
    for round in 0..60 {
        let key_len = (src.next() % 256) as usize;
        let key = src.bytes(key_len);
        let rounds = if round < 3 { [1u8, 12, 255][round] } else { (src.next() % 40 + 1) as u8 };
        let blocks = (src.next() % 9) as usize;
        let pt = src.bytes(blocks * 8);
        let ct = encode_with_rounds::<u32>(key.clone(), &pt, rounds).unwrap();
        assert_eq!(ct.len(), pt.len());
        assert_eq!(decode_with_rounds::<u32>(key, &ct, rounds).unwrap(), pt);
    }
}

#[test]
fn decoding_undoes_encoding_for_64_bit_words() {
    let mut src = Source(64);
    for round in 0..60 {
        let key_len = (src.next() % 256) as usize;
        let key = src.bytes(key_len);
        let rounds = if round < 3 { [1u8, 12, 255][round] } else { (src.next() % 40 + 1) as u8 };
        let blocks = (src.next() % 9) as usize;
        let pt = src.bytes(blocks * 16);
        let ct = encode_with_rounds::<u64>(key.clone(), &pt, rounds).unwrap();
        assert_eq!(ct.len(), pt.len());
        assert_eq!(decode_with_rounds::<u64>(key, &ct, rounds).unwrap(), pt);
    }
}

#[test]
fn encoding_undoes_decoding() {
    let mut src = Source(7);
    for _ in 0..40 {
        let key = src.bytes(16);
        let ct = src.bytes(32);
        let pt = decode_with_rounds::<u32>(key.clone(), &ct, 12).unwrap();
        assert_eq!(encode_with_rounds::<u32>(key.clone(), &pt, 12).unwrap(), ct);
        let pt = decode_with_rounds::<u64>(key.clone(), &ct, 12).unwrap();
        assert_eq!(encode_with_rounds::<u64>(key.clone(), &pt, 12).unwrap(), ct);
        let pt = decode_with_rounds::<u16>(key.clone(), &ct, 12).unwrap();
        assert_eq!(encode_with_rounds::<u16>(key, &pt, 12).unwrap(), ct);
    }
}

#[test]
fn two_blocks_are_encoded_one_by_one() {
    let key: Vec<u8> = (0..16).collect();
    let first = [0x00, 0x11, 0x22, 0x33, 0x44, 0x55, 0x66, 0x77];
    let second = [0u8; 8];
    let mut both = first.to_vec();
    both.extend_from_slice(&second);
    let ct = encode_with_rounds::<u32>(key.clone(), &both, 12).unwrap();
    assert_eq!(
        ct,
        vec![
            0x2D, 0xDC, 0x14, 0x9B, 0xCF, 0x08, 0x8B, 0x9E, 0xB0, 0x5F, 0x67, 0xED, 0x09, 0x13,
            0xB5, 0xA2
        ]
    );
    let mut one_by_one = encode_with_rounds::<u32>(key.clone(), &first, 12).unwrap();
    one_by_one.extend(encode_with_rounds::<u32>(key, &second, 12).unwrap());
    assert_eq!(ct, one_by_one);
}

#[test]
fn messages_are_encoded_and_decoded_block_by_block() {
    let mut src = Source(99);
    for _ in 0..30 {
        let key = src.bytes((src.0 % 40) as usize);
        let a_blocks = (src.next() % 5) as usize;
        let b_blocks = (src.next() % 5) as usize;
        for block in [4usize, 8, 16] {
            let a = src.bytes(a_blocks * block);
            let b = src.bytes(b_blocks * block);
            let mut ab = a.clone();
            ab.extend_from_slice(&b);
            let (ea, eb, eab, da, db, dab) = match block {
                4 => (
                    encode_with_rounds::<u16>(key.clone(), &a, 12).unwrap(),
                    encode_with_rounds::<u16>(key.clone(), &b, 12).unwrap(),
                    encode_with_rounds::<u16>(key.clone(), &ab, 12).unwrap(),
                    decode_with_rounds::<u16>(key.clone(), &a, 12).unwrap(),
                    decode_with_rounds::<u16>(key.clone(), &b, 12).unwrap(),
                    decode_with_rounds::<u16>(key.clone(), &ab, 12).unwrap(),
                ),
                8 => (
                    encode_with_rounds::<u32>(key.clone(), &a, 12).unwrap(),
                    encode_with_rounds::<u32>(key.clone(), &b, 12).unwrap(),
                    encode_with_rounds::<u32>(key.clone(), &ab, 12).unwrap(),
                    decode_with_rounds::<u32>(key.clone(), &a, 12).unwrap(),
                    decode_with_rounds::<u32>(key.clone(), &b, 12).unwrap(),
                    decode_with_rounds::<u32>(key.clone(), &ab, 12).unwrap(),
                ),
                _ => (
                    encode_with_rounds::<u64>(key.clone(), &a, 12).unwrap(),
                    encode_with_rounds::<u64>(key.clone(), &b, 12).unwrap(),
                    encode_with_rounds::<u64>(key.clone(), &ab, 12).unwrap(),
                    decode_with_rounds::<u64>(key.clone(), &a, 12).unwrap(),
                    decode_with_rounds::<u64>(key.clone(), &b, 12).unwrap(),
                    decode_with_rounds::<u64>(key.clone(), &ab, 12).unwrap(),
                ),
            };
            let mut e = ea;
            e.extend(eb);
            assert_eq!(e, eab);
            let mut d = da;
            d.extend(db);
            assert_eq!(d, dab);
        }
    }
}

#[test]
fn equal_blocks_have_equal_ciphertexts() {
    let key = vec![1, 2, 3, 4];
    let block = [9u8, 8, 7, 6, 5, 4, 3, 2];
    let mut twice = block.to_vec();
    twice.extend_from_slice(&block);
    let ct = encode_with_rounds::<u32>(key, &twice, 12).unwrap();
    assert_eq!(ct[..8], ct[8..]);
}

#[test]
fn same_inputs_give_the_same_ciphertext() {
    let key: Vec<u8> = (0..16).collect();
    let pt: Vec<u8> = (0..64).collect();
    assert_eq!(
        encode_with_rounds::<u32>(key.clone(), &pt, 12),
        encode_with_rounds::<u32>(key, &pt, 12)
    );
}
