use cake_server::wire::{
    byte_of_f32_bits, decimal_text, f32_bits_of_id, id_from_bytes, id_to_bytes, parse_u8,
    parse_usize,
};

#[test]
fn id_bits_match_float_bits() {
    for n in 0..=255u8 {
        assert_eq!(f32_bits_of_id(n), (n as f32).to_bits());
        assert_eq!(id_to_bytes(n), (n as f32).to_le_bytes());
    }
}

#[test]
fn id_bits_known_values() {
    assert_eq!(f32_bits_of_id(0), 0);
    assert_eq!(f32_bits_of_id(1), 0x3f80_0000);
    assert_eq!(f32_bits_of_id(3), 0x4040_0000);
    assert_eq!(f32_bits_of_id(255), 0x437f_0000);
    assert_eq!(id_to_bytes(3), [0, 0, 0x40, 0x40]);
}

#[test]
fn float_bits_cast_to_byte_like_as() {
    let samples: [f32; 16] = [
        0.0, -0.0, 0.5, 0.99, 1.0, 1.5, 3.7, 127.9, 128.0, 254.5, 255.0, 255.99, 256.0, 1e30,
        -1.5, 1e-40,
    ];
    for x in samples {
        assert_eq!(byte_of_f32_bits(x.to_bits()), x as u8, "value {}", x);
    }
    assert_eq!(byte_of_f32_bits(f32::NAN.to_bits()), f32::NAN as u8);
    assert_eq!(byte_of_f32_bits(f32::INFINITY.to_bits()), 255);
    assert_eq!(byte_of_f32_bits(f32::NEG_INFINITY.to_bits()), 0);
    assert_eq!(byte_of_f32_bits(0xffc0_0000), 0);
}

#[test]
fn id_bytes_roundtrip_every_id() {
    for n in 0..=255u8 {
        let mut v = vec![9u8, 9];
        v.extend_from_slice(&id_to_bytes(n));
        assert_eq!(id_from_bytes(&v, 2), n);
    }
}

#[test]
fn decimal_text_values() {
    assert_eq!(decimal_text(0), "0");
    assert_eq!(decimal_text(7), "7");
    assert_eq!(decimal_text(10), "10");
    assert_eq!(decimal_text(99), "99");
    assert_eq!(decimal_text(100), "100");
    assert_eq!(decimal_text(255), "255");
}

#[test]
fn parse_u8_like_std() {
    let samples = [
        "0", "7", "255", "256", "+7", "+", "", "-0", "-", "007", " 1", "1 ", "12a", "٣", "+-1",
        "++1", "1000",
    ];
    for s in samples {
        assert_eq!(parse_u8(s), s.parse::<u8>().ok(), "text {:?}", s);
    }
}

#[test]
fn parse_usize_like_std() {
    let samples = [
        "0", "42", "18446744073709551615", "18446744073709551616", "4294967295", "4294967296",
        "+5", "x", "",
    ];
    for s in samples {
        assert_eq!(parse_usize(s), s.parse::<usize>().ok(), "text {:?}", s);
    }
}

#[test]
fn decimal_roundtrip_every_byte() {
    for n in 0..=255u8 {
        assert_eq!(parse_u8(&decimal_text(n)), Some(n));
    }
}
