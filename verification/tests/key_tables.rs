use rc5_cipher::gen_key_table;

#[test]
fn table_has_two_words_for_the_opening_and_two_for_every_round() {
    for rounds in [0u8, 1, 12, 16, 255] {
        let expect = 2 * rounds as usize + 2;
        assert_eq!(gen_key_table::<u16>(vec![1, 2, 3], rounds).unwrap().len(), expect);
        assert_eq!(gen_key_table::<u32>(vec![1, 2, 3], rounds).unwrap().len(), expect);
        assert_eq!(gen_key_table::<u64>(vec![1, 2, 3], rounds).unwrap().len(), expect);
    }
}

#[test]
fn table_of_the_empty_key() {
    let table = gen_key_table::<u32>(Vec::new(), 1).unwrap();
    assert_eq!(table, vec![0xd1ce682a, 0x71b3f2bb, 0x1727b96c, 0x3329bb3a]);
}

#[test]
fn table_of_a_key_that_ends_inside_a_word() {
    let table = gen_key_table::<u32>(vec![1, 2, 3, 4, 5], 0).unwrap();
    assert_eq!(table, vec![0x061cf349, 0x0515a29a]);
}

#[test]
fn table_of_16_bit_words() {
    let table = gen_key_table::<u16>(vec![0xff], 1).unwrap();
    assert_eq!(table, vec![0x92b7, 0x71d8, 0xc3d3, 0xa305]);
}

#[test]
fn table_of_64_bit_words() {
    let table = gen_key_table::<u64>((0..9).collect(), 1).unwrap();
    assert_eq!(
        table,
        vec![0x27118e70f30a33f8, 0x764e61a115c19ac1, 0xa965cbd9ec598cfc, 0x3db71adf70d8c77b]
    );
}

#[test]
fn table_of_the_longest_key() {
    let key: Vec<u8> = (0..255u32).map(|i| i as u8).collect();
    let table = gen_key_table::<u32>(key, 0).unwrap();
    assert_eq!(table, vec![0xaf024af7, 0x90d90d59]);
}

#[test]
fn table_when_the_key_has_more_words_than_the_table() {
    let table = gen_key_table::<u32>((0..20).collect(), 1).unwrap();
    assert_eq!(table, vec![0x12b8e750, 0x62480622, 0x64973c9b, 0xf543b55d]);
}

#[test]
fn table_for_twelve_rounds() {
    let table = gen_key_table::<u32>((0..16).collect(), 12).unwrap();
    assert_eq!(table.len(), 26);
    assert_eq!(table[..4], [0xd447e233, 0xd82eec20, 0x84fce219, 0xb93353de]);
    assert_eq!(table[25], 0x15e8e206);
}

#[test]
fn same_inputs_give_the_same_table() {
    for len in [0usize, 1, 7, 16, 255] {
        let key: Vec<u8> = (0..len).map(|i| (i * 7 + 3) as u8).collect();
        assert_eq!(gen_key_table::<u16>(key.clone(), 12), gen_key_table::<u16>(key.clone(), 12));
        assert_eq!(gen_key_table::<u32>(key.clone(), 12), gen_key_table::<u32>(key.clone(), 12));
        assert_eq!(gen_key_table::<u64>(key.clone(), 3), gen_key_table::<u64>(key.clone(), 3));
    }
}

#[test]
fn one_changed_bit_of_the_key_changes_the_table() {
    let key: Vec<u8> = (0..16).collect();
    let table = gen_key_table::<u32>(key.clone(), 12).unwrap();
    for byte in 0..key.len() {
        for bit in 0..8 {
            let mut other = key.clone();
            other[byte] ^= 1 << bit;
            assert_ne!(gen_key_table::<u32>(other, 12).unwrap(), table);
        }
    }
}

#[test]
fn one_changed_bit_of_the_key_changes_the_table_at_other_widths() {
    let key: Vec<u8> = vec![0x5a; 9];
    let narrow = gen_key_table::<u16>(key.clone(), 12).unwrap();
    let wide = gen_key_table::<u64>(key.clone(), 12).unwrap();
    for byte in 0..key.len() {
        for bit in 0..8 {
            let mut other = key.clone();
            other[byte] ^= 1 << bit;
            assert_ne!(gen_key_table::<u16>(other.clone(), 12).unwrap(), narrow);
            assert_ne!(gen_key_table::<u64>(other, 12).unwrap(), wide);
        }
    }
}

#[test]
fn a_trailing_zero_byte_inside_the_last_word_is_not_seen() {
    // Both keys fill one 32-bit word with the same bits.
    assert_eq!(
        gen_key_table::<u32>(vec![9, 8, 7], 2).unwrap(),
        gen_key_table::<u32>(vec![9, 8, 7, 0], 2).unwrap()
    );
    assert_ne!(
        gen_key_table::<u32>(vec![9, 8, 7, 0], 2).unwrap(),
        gen_key_table::<u32>(vec![9, 8, 7, 0, 0], 2).unwrap()
    );
}
