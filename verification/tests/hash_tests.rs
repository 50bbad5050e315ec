use mzcache2::index::hex_char_to_number;

#[test]
fn hex_char_values() {
    assert_eq!(hex_char_to_number('0'), Some(0));
    assert_eq!(hex_char_to_number('9'), Some(9));
    assert_eq!(hex_char_to_number('A'), Some(10));
    assert_eq!(hex_char_to_number('F'), Some(15));
    assert_eq!(hex_char_to_number('a'), Some(10));
    assert_eq!(hex_char_to_number('f'), Some(15));
    assert_eq!(hex_char_to_number('g'), None);
    assert_eq!(hex_char_to_number(' '), None);
}

#[test]
fn to_hex_is_canonical_uppercase() {
    let mut bytes = [0u8; 20];
    for (i, x) in bytes.iter_mut().enumerate() {
        *x = (i as u8) * 13;
    }
    let h = mzcache2::index::Hash::from_bytes(bytes);
    let s = h.to_hex();
    assert_eq!(s.len(), 40);
    assert_eq!(s, "000D1A2734414E5B6875828F9CA9B6C3D0DDEAF7");
}

#[test]
fn from_hex_then_to_hex_round_trip() {
    let s = "0123456789ABCDEF0123456789ABCDEF01234567";
    let h = mzcache2::index::Hash::from_hex(s).unwrap();
    assert_eq!(h.to_hex(), s);
}

#[test]
fn to_hex_then_from_hex_round_trip() {
    let mut bytes = [0u8; 20];
    for (i, x) in bytes.iter_mut().enumerate() {
        *x = 255 - (i as u8) * 7;
    }
    let h = mzcache2::index::Hash::from_bytes(bytes);
    let back = mzcache2::index::Hash::from_hex(&h.to_hex()).unwrap();
    assert_eq!(back.bytes(), &bytes);
    assert_eq!(back, h);
}

#[test]
fn from_hex_accepts_lowercase() {
    let upper = mzcache2::index::Hash::from_hex("00FFAA112233445566778899AABBCCDDEEFF0011").unwrap();
    let lower = mzcache2::index::Hash::from_hex("00ffaa112233445566778899aabbccddeeff0011").unwrap();
    assert_eq!(upper, lower);
    // The canonical text is uppercase either way.
    assert_eq!(lower.to_hex(), "00FFAA112233445566778899AABBCCDDEEFF0011");
}

#[test]
fn from_hex_rejects_bad_input() {
    // Wrong lengths.
    assert!(mzcache2::index::Hash::from_hex("").is_none());
    assert!(mzcache2::index::Hash::from_hex("0123").is_none());
    assert!(mzcache2::index::Hash::from_hex(
        "0123456789ABCDEF0123456789ABCDEF012345678"
    )
    .is_none());
    // Right length, one non-hex character.
    assert!(mzcache2::index::Hash::from_hex(
        "0123456789ABCDEF0123456789ABCDEF0123456G"
    )
    .is_none());
}

#[test]
fn hash_equality_is_byte_wise() {
    let a = mzcache2::index::Hash::from_bytes([9u8; 20]);
    let b = mzcache2::index::Hash::from_bytes([9u8; 20]);
    let mut c_bytes = [9u8; 20];
    c_bytes[19] = 8;
    let c = mzcache2::index::Hash::from_bytes(c_bytes);
    assert_eq!(a, b);
    assert_ne!(a, c);
}
