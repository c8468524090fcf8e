use rc5_cipher::{decode, encode};

#[test]
fn encode_a() {
    let key = vec![
        0x00, 0x01, 0x02, 0x03, 0x04, 0x05, 0x06, 0x07, 0x08, 0x09, 0x0A, 0x0B, 0x0C, 0x0D,
        0x0E, 0x0F,
    ];
    let pt = vec![0x00, 0x11, 0x22, 0x33, 0x44, 0x55, 0x66, 0x77];
    let ct = vec![0x2D, 0xDC, 0x14, 0x9B, 0xCF, 0x08, 0x8B, 0x9E];
    let res = encode::<u32>(key, &pt).unwrap();
    assert!(ct[..] == res[..]);
}

#[test]
fn encode_b() {
    let key = vec![
        0x2B, 0xD6, 0x45, 0x9F, 0x82, 0xC5, 0xB3, 0x00, 0x95, 0x2C, 0x49, 0x10, 0x48, 0x81,
        0xFF, 0x48,
    ];
    let pt = vec![0xEA, 0x02, 0x47, 0x14, 0xAD, 0x5C, 0x4D, 0x84];
    let ct = vec![0x11, 0xE4, 0x3B, 0x86, 0xD2, 0x31, 0xEA, 0x64];
    let res = encode::<u32>(key, &pt).unwrap();
    assert!(ct[..] == res[..]);
}

#[test]
fn encode_c() {
    let key = vec![0, 0, 0, 0, 0, 0, 0, 0, 0, 0, 0, 0, 0, 0, 0, 0];
    let pt = vec![0, 0, 0, 0, 0, 0, 0, 0];
    let ct = vec![0x21, 0xA5, 0xDB, 0xEE, 0x15, 0x4B, 0x8F, 0x6D];
    let res = encode::<u32>(key, &pt).unwrap();
    assert!(ct[..] == res[..]);
}

#[test]
fn encode_d() {
    let key = vec![
        0x91, 0x5F, 0x46, 0x19, 0xBE, 0x41, 0xB2, 0x51, 0x63, 0x55, 0xA5, 0x01, 0x10, 0xA9,
        0xCE, 0x91,
    ];
    let pt = vec![0x21, 0xA5, 0xDB, 0xEE, 0x15, 0x4B, 0x8F, 0x6D];
    let ct = vec![0xF7, 0xC0, 0x13, 0xAC, 0x5B, 0x2B, 0x89, 0x52];
    let res = encode::<u32>(key, &pt).unwrap();
    assert!(ct[..] == res[..]);
}

#[test]
fn encode_e() {
    let key = vec![
        0x78, 0x33, 0x48, 0xE7, 0x5A, 0xEB, 0x0F, 0x2F, 0xD7, 0xB1, 0x69, 0xBB, 0x8D, 0xC1,
        0x67, 0x87,
    ];
    let pt = vec![0xF7, 0xC0, 0x13, 0xAC, 0x5B, 0x2B, 0x89, 0x52];
    let ct = vec![0x2F, 0x42, 0xB3, 0xB7, 0x03, 0x69, 0xFC, 0x92];
    let res = encode::<u32>(key, &pt).unwrap();
    assert!(ct[..] == res[..]);
}

#[test]
fn encode_f() {
    let key = vec![
        0xDC, 0x49, 0xDB, 0x13, 0x75, 0xA5, 0x58, 0x4F, 0x64, 0x85, 0xB4, 0x13, 0xB5, 0xF1,
        0x2B, 0xAF,
    ];
    let pt = vec![0x2F, 0x42, 0xB3, 0xB7, 0x03, 0x69, 0xFC, 0x92];
    let ct = vec![0x65, 0xC1, 0x78, 0xB2, 0x84, 0xD1, 0x97, 0xCC];
    let res = encode::<u32>(key, &pt).unwrap();
    assert!(ct[..] == res[..]);
}

#[test]
fn encode_g() {
    let key = vec![
        0x52, 0x69, 0xF1, 0x49, 0xD4, 0x1B, 0xA0, 0x15, 0x24, 0x97, 0x57, 0x4D, 0x7F, 0x15,
        0x31, 0x25,
    ];
    let pt = vec![0x65, 0xC1, 0x78, 0xB2, 0x84, 0xD1, 0x97, 0xCC];
    let ct = vec![0xEB, 0x44, 0xE4, 0x15, 0xDA, 0x31, 0x98, 0x24];
    let res = encode::<u32>(key, &pt).unwrap();
    assert!(ct[..] == res[..]);
}

#[test]
fn decode_a() {
    let key = vec![
        0x00, 0x01, 0x02, 0x03, 0x04, 0x05, 0x06, 0x07, 0x08, 0x09, 0x0A, 0x0B, 0x0C, 0x0D,
        0x0E, 0x0F,
    ];
    let pt = vec![0x96, 0x95, 0x0D, 0xDA, 0x65, 0x4A, 0x3D, 0x62];
    let ct = vec![0x00, 0x11, 0x22, 0x33, 0x44, 0x55, 0x66, 0x77];
    let res = decode::<u32>(key, &ct).unwrap();
    assert!(pt[..] == res[..]);
}

#[test]
fn decode_b() {
    let key = vec![
        0x2B, 0xD6, 0x45, 0x9F, 0x82, 0xC5, 0xB3, 0x00, 0x95, 0x2C, 0x49, 0x10, 0x48, 0x81,
        0xFF, 0x48,
    ];
    let pt = vec![0x63, 0x8B, 0x3A, 0x5E, 0xF7, 0x2B, 0x66, 0x3F];
    let ct = vec![0xEA, 0x02, 0x47, 0x14, 0xAD, 0x5C, 0x4D, 0x84];
    let res = decode::<u32>(key, &ct).unwrap();
    assert!(pt[..] == res[..]);
}

#[test]
fn decode_c() {
    let key = vec![0, 0, 0, 0, 0, 0, 0, 0, 0, 0, 0, 0, 0, 0, 0, 0];
    let pt = vec![0, 0, 0, 0, 0, 0, 0, 0];
    let ct = vec![0x21, 0xA5, 0xDB, 0xEE, 0x15, 0x4B, 0x8F, 0x6D];
    let res = decode::<u32>(key, &ct).unwrap();
    assert!(pt[..] == res[..]);
}

#[test]
fn decode_d() {
    let key = vec![
        0x91, 0x5F, 0x46, 0x19, 0xBE, 0x41, 0xB2, 0x51, 0x63, 0x55, 0xA5, 0x01, 0x10, 0xA9,
        0xCE, 0x91,
    ];
    let pt = vec![0x21, 0xA5, 0xDB, 0xEE, 0x15, 0x4B, 0x8F, 0x6D];
    let ct = vec![0xF7, 0xC0, 0x13, 0xAC, 0x5B, 0x2B, 0x89, 0x52];
    let res = decode::<u32>(key, &ct).unwrap();
    assert!(pt[..] == res[..]);
}

#[test]
fn decode_e() {
    let key = vec![
        0x78, 0x33, 0x48, 0xE7, 0x5A, 0xEB, 0x0F, 0x2F, 0xD7, 0xB1, 0x69, 0xBB, 0x8D, 0xC1,
        0x67, 0x87,
    ];
    let pt = vec![0xF7, 0xC0, 0x13, 0xAC, 0x5B, 0x2B, 0x89, 0x52];
    let ct = vec![0x2F, 0x42, 0xB3, 0xB7, 0x03, 0x69, 0xFC, 0x92];
    let res = decode::<u32>(key, &ct).unwrap();
    assert!(pt[..] == res[..]);
}

#[test]
fn decode_f() {
    let key = vec![
        0xDC, 0x49, 0xDB, 0x13, 0x75, 0xA5, 0x58, 0x4F, 0x64, 0x85, 0xB4, 0x13, 0xB5, 0xF1,
        0x2B, 0xAF,
    ];
    let pt = vec![0x2F, 0x42, 0xB3, 0xB7, 0x03, 0x69, 0xFC, 0x92];
    let ct = vec![0x65, 0xC1, 0x78, 0xB2, 0x84, 0xD1, 0x97, 0xCC];
    let res = decode::<u32>(key, &ct).unwrap();
    assert!(pt[..] == res[..]);
}

#[test]
fn decode_g() {
    let key = vec![
        0x52, 0x69, 0xF1, 0x49, 0xD4, 0x1B, 0xA0, 0x15, 0x24, 0x97, 0x57, 0x4D, 0x7F, 0x15,
        0x31, 0x25,
    ];
    let pt = vec![0x65, 0xC1, 0x78, 0xB2, 0x84, 0xD1, 0x97, 0xCC];
    let ct = vec![0xEB, 0x44, 0xE4, 0x15, 0xDA, 0x31, 0x98, 0x24];
    let res = decode::<u32>(key, &ct).unwrap();
    assert!(pt[..] == res[..]);
}
