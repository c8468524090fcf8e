use rc5_cipher::{compute, decode_block, encode_block, gen_key_table};

#[test]
fn a_table_of_two_words_only_adds() {
    assert_eq!(encode_block::<u32>((1, 2), &[3, 4]), (4, 6));
    assert_eq!(decode_block::<u32>((4, 6), &[3, 4]), (1, 2));
    assert_eq!(encode_block::<u32>((0xffff_ffff, 0), &[1, 0xffff_ffff]), (0, 0xffff_ffff));
    assert_eq!(encode_block::<u16>((0xffff, 5), &[2, 3]), (1, 8));
    assert_eq!(encode_block::<u64>((u64::MAX, 5), &[2, 3]), (1, 8));
}

#[test]
fn one_round() {
    let table = [1u32, 2, 3, 4];
    assert_eq!(encode_block::<u32>((0x01234567, 0x89abcdef), &table), (0x11331114, 0xce598991));
    assert_eq!(decode_block::<u32>((0x01234567, 0x89abcdef), &table), (0xc40444bb, 0xd63012fa));
    assert_eq!(decode_block::<u32>((0x11331114, 0xce598991), &table), (0x01234567, 0x89abcdef));
    assert_eq!(encode_block::<u32>((0xc40444bb, 0xd63012fa), &table), (0x01234567, 0x89abcdef));
}

#[test]
fn a_word_left_over_at_the_end_of_the_table_is_not_used() {
    assert_eq!(
        encode_block::<u32>((0x01234567, 0x89abcdef), &[1, 2, 3, 4, 5]),
        (0x11331114, 0xce598991)
    );
    assert_eq!(
        decode_block::<u32>((0x11331114, 0xce598991), &[1, 2, 3, 4, 5]),
        (0x01234567, 0x89abcdef)
    );
}

#[test]
fn block_under_a_generated_table() {
    let table = gen_key_table::<u32>((0..16).collect(), 12).unwrap();
    let ct = encode_block::<u32>((0x33221100, 0x77665544), &table);
    assert_eq!(ct, (0x9b14dc2d, 0x9e8b08cf));
    assert_eq!(decode_block::<u32>(ct, &table), (0x33221100, 0x77665544));
}

#[test]
fn decoding_a_block_undoes_encoding_it() {
    let table16 = gen_key_table::<u16>(vec![1, 2, 3], 5).unwrap();
    let table32 = gen_key_table::<u32>(vec![1, 2, 3], 5).unwrap();
    let table64 = gen_key_table::<u64>(vec![1, 2, 3], 5).unwrap();
    let mut x: u64 = 0x0123_4567_89ab_cdef;
    for _ in 0..200 {
        x = x.wrapping_mul(6364136223846793005).wrapping_add(1442695040888963407);
        let y = x.rotate_left(17) ^ 0x5555_5555_5555_5555;
        let p16 = (x as u16, y as u16);
        let p32 = (x as u32, y as u32);
        let p64 = (x, y);
        assert_eq!(decode_block::<u16>(encode_block::<u16>(p16, &table16), &table16), p16);
        assert_eq!(decode_block::<u32>(encode_block::<u32>(p32, &table32), &table32), p32);
        assert_eq!(decode_block::<u64>(encode_block::<u64>(p64, &table64), &table64), p64);
        assert_eq!(encode_block::<u16>(decode_block::<u16>(p16, &table16), &table16), p16);
        assert_eq!(encode_block::<u32>(decode_block::<u32>(p32, &table32), &table32), p32);
        assert_eq!(encode_block::<u64>(decode_block::<u64>(p64, &table64), &table64), p64);
    }
}

#[test]
fn rotation_by_zero_and_by_the_largest_amount() {
    // With a table of zeros the second half decides the first rotation.
    let table = [0u32; 4];
    // b = 0: rotation by 0 leaves a ^ b as it is; then a = 1, b rotates by 1.
    assert_eq!(encode_block::<u32>((1, 0), &table), (1, 2));
    // b = 31: a ^ b = 0x1e rotated by 31 is 0x0f; then b ^ a = 0x10 rotated by 15.
    assert_eq!(encode_block::<u32>((1, 31), &table), (0x0f, 0x0008_0000));
    // b = 32 rotates like b = 0.
    assert_eq!(encode_block::<u32>((0, 32), &table), (32, 0));
}

#[test]
fn compute_hands_every_block_to_the_function() {
    let swap = |p: (u32, u32), _t: &[u32]| (p.1, p.0);
    let input: Vec<u8> = (1..=16).collect();
    let out = compute::<u32, _>(&input, vec![0, 0], swap).unwrap();
    assert_eq!(out, vec![5, 6, 7, 8, 1, 2, 3, 4, 13, 14, 15, 16, 9, 10, 11, 12]);
}

#[test]
fn compute_hands_the_table_to_the_function() {
    let add = |p: (u16, u16), t: &[u16]| (p.0.wrapping_add(t[0]), p.1.wrapping_add(t[1]));
    let out = compute::<u16, _>(&[0xff, 0xff, 0x01, 0x00], vec![1, 0x0100], add).unwrap();
    assert_eq!(out, vec![0x00, 0x00, 0x01, 0x01]);
}

#[test]
fn compute_with_the_block_functions() {
    let table = gen_key_table::<u32>((0..16).collect(), 12).unwrap();
    let pt = [0x00, 0x11, 0x22, 0x33, 0x44, 0x55, 0x66, 0x77];
    let ct = compute::<u32, _>(&pt, table.clone(), encode_block::<u32>).unwrap();
    assert_eq!(ct, vec![0x2D, 0xDC, 0x14, 0x9B, 0xCF, 0x08, 0x8B, 0x9E]);
    let back = compute::<u32, _>(&ct, table, decode_block::<u32>).unwrap();
    assert_eq!(back, pt.to_vec());
}
