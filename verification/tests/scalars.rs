use erlang_term::bytes::slice_to_i32;
use erlang_term::bytes::slice_to_u16;
use erlang_term::bytes::slice_to_u32;
use erlang_term::bytes::slice_to_u64;
use erlang_term::bytes::slice_to_u8;
use erlang_term::from_bytes;
use erlang_term::parse::leaf;
use erlang_term::parse::term;
use erlang_term::parser;
use erlang_term::Limits;
use erlang_term::DecodeError;
use erlang_term::RawTerm;
use num_bigint::BigInt;

#[test]
fn every_small_int_decodes_to_itself() {
    for b in 0..=255u8 {
        assert_eq!(from_bytes(&[131, 97, b]), Ok(RawTerm::SmallInt(b)));
    }
}

#[test]
fn integers_decode_from_big_endian() {
    for v in [0i32, 1, -1, 255, 256, -256, 65536, 123_456_789, -123_456_789, i32::MAX, i32::MIN] {
        let mut input = vec![131u8, 98];
        input.extend_from_slice(&v.to_be_bytes());
        assert_eq!(from_bytes(&input), Ok(RawTerm::Int(v)));
    }
}

#[test]
fn integer_exact_bytes() {
    assert_eq!(from_bytes(&[131, 98, 0x12, 0x34, 0x56, 0x78]), Ok(RawTerm::Int(0x1234_5678)));
    assert_eq!(from_bytes(&[131, 98, 0xff, 0xff, 0xff, 0xfe]), Ok(RawTerm::Int(-2)));
    assert_eq!(from_bytes(&[131, 98, 0x80, 0, 0, 0]), Ok(RawTerm::Int(i32::MIN)));
}

#[test]
fn fixed_width_helpers() {
    assert_eq!(slice_to_u8(&[0xab]), 0xab);
    assert_eq!(slice_to_u16(&[0x12, 0x34]), 0x1234);
    assert_eq!(slice_to_u32(&[0xde, 0xad, 0xbe, 0xef]), 0xdead_beef);
    assert_eq!(slice_to_u32(&[0xff, 0xff, 0xff, 0xff]), u32::MAX);
    assert_eq!(slice_to_i32(&[0xff, 0xff, 0xff, 0xff]), -1);
    assert_eq!(slice_to_i32(&[0x7f, 0xff, 0xff, 0xff]), i32::MAX);
    assert_eq!(slice_to_i32(&[0x80, 0x00, 0x00, 0x00]), i32::MIN);
    assert_eq!(
        slice_to_u64(&[0x01, 0x23, 0x45, 0x67, 0x89, 0xab, 0xcd, 0xef]),
        0x0123_4567_89ab_cdef
    );
    assert_eq!(slice_to_u64(&[0xff; 8]), u64::MAX);
}

#[test]
fn float_keeps_the_bit_pattern() {
    for x in [0.0f64, 1.5, -2.25, f64::MAX, f64::MIN_POSITIVE, f64::INFINITY] {
        let mut input = vec![131u8, 70];
        input.extend_from_slice(&x.to_be_bytes());
        match from_bytes(&input) {
            Ok(RawTerm::Float(bits)) => {
                assert_eq!(bits, x.to_bits());
                assert_eq!(f64::from_bits(bits), x);
            }
            other => panic!("not a float: {:?}", other),
        }
    }
    assert_eq!(
        from_bytes(&[131, 70, 0x3f, 0xf8, 0, 0, 0, 0, 0, 0]),
        Ok(RawTerm::Float(0x3ff8_0000_0000_0000))
    );
}

#[test]
fn nil_decodes() {
    assert_eq!(from_bytes(&[131, 106]), Ok(RawTerm::Nil));
}

#[test]
fn small_atom_decodes() {
    assert_eq!(
        from_bytes(&[131, 119, 2, b'o', b'k']),
        Ok(RawTerm::SmallAtom(String::from("ok")))
    );
    assert_eq!(from_bytes(&[131, 119, 0]), Ok(RawTerm::SmallAtom(String::new())));
}

#[test]
fn atom_text_is_utf8() {
    assert_eq!(
        from_bytes(&[131, 119, 5, 0xc3, 0xa9, 0xe2, 0x82, 0xac]),
        Ok(RawTerm::SmallAtom(String::from("\u{e9}\u{20ac}")))
    );
}

#[test]
fn deprecated_atom_has_two_length_bytes() {
    assert_eq!(
        from_bytes(&[131, 100, 0, 3, b'a', b'b', b'c']),
        Ok(RawTerm::AtomDeprecated(String::from("abc")))
    );
    let mut input = vec![131u8, 100, 1, 0];
    input.extend(std::iter::repeat(b'x').take(256));
    assert_eq!(from_bytes(&input), Ok(RawTerm::AtomDeprecated("x".repeat(256))));
}

#[test]
fn binary_decodes() {
    assert_eq!(
        from_bytes(&[131, 109, 0, 0, 0, 3, 1, 2, 3]),
        Ok(RawTerm::Binary(vec![1, 2, 3]))
    );
    assert_eq!(from_bytes(&[131, 109, 0, 0, 0, 0]), Ok(RawTerm::Binary(vec![])));
}

#[test]
fn string_stays_packed() {
    assert_eq!(
        from_bytes(&[131, 107, 0, 3, b'a', b'b', b'c']),
        Ok(RawTerm::String(vec![b'a', b'b', b'c']))
    );
}

#[test]
fn small_big_int_sign_and_magnitude() {
    assert_eq!(
        from_bytes(&[131, 110, 1, 1, 255]),
        Ok(RawTerm::SmallBigInt(BigInt::from(-255)))
    );
    assert_eq!(
        from_bytes(&[131, 110, 1, 0, 255]),
        Ok(RawTerm::SmallBigInt(BigInt::from(255)))
    );
}

#[test]
fn big_int_magnitude_is_little_endian() {
    assert_eq!(
        from_bytes(&[131, 110, 2, 0, 0x34, 0x12]),
        Ok(RawTerm::SmallBigInt(BigInt::from(0x1234)))
    );
    assert_eq!(
        from_bytes(&[131, 110, 9, 1, 0, 0, 0, 0, 0, 0, 0, 0, 1]),
        Ok(RawTerm::SmallBigInt(BigInt::from(-18_446_744_073_709_551_616i128)))
    );
    assert_eq!(
        from_bytes(&[131, 110, 0, 1]),
        Ok(RawTerm::SmallBigInt(BigInt::from(0)))
    );
    assert_eq!(
        from_bytes(&[131, 110, 2, 1, 0, 0]),
        Ok(RawTerm::SmallBigInt(BigInt::from(0)))
    );
}

#[test]
fn large_big_int_has_four_length_bytes() {
    assert_eq!(
        from_bytes(&[131, 111, 0, 0, 0, 1, 1, 255]),
        Ok(RawTerm::LargeBigInt(BigInt::from(-255)))
    );
    assert_eq!(
        from_bytes(&[131, 111, 0, 0, 0, 3, 0, 1, 2, 3]),
        Ok(RawTerm::LargeBigInt(BigInt::from(0x03_02_01)))
    );
}

#[test]
fn term_hands_back_what_follows() {
    let input = [97u8, 5, 9, 9];
    let (value, rest) = term(&input, Limits { depth: 0, inflate: None }).unwrap();
    assert_eq!(value, RawTerm::SmallInt(5));
    assert_eq!(rest, &[9u8, 9][..]);
}

#[test]
fn from_bytes_hands_back_the_first_of_several() {
    assert_eq!(from_bytes(&[131, 97, 1, 97, 2]), Ok(RawTerm::SmallInt(1)));
    assert_eq!(
        parser(&[131, 97, 1, 106, 97, 2]),
        Ok(vec![RawTerm::SmallInt(1), RawTerm::Nil, RawTerm::SmallInt(2)])
    );
    assert_eq!(parser(&[131]), Ok(vec![]));
}

#[test]
fn a_fault_behind_the_first_term_is_reported() {
    assert_eq!(from_bytes(&[131, 97, 1, 255]), Err(DecodeError::UnknownTag));
    assert_eq!(from_bytes(&[131, 97, 1, 97]), Err(DecodeError::IncompleteInput));
}

#[test]
fn leaf_decodes_terms_without_children() {
    assert_eq!(leaf(&[97, 5, 9]).map(|found| found.0), Ok(RawTerm::SmallInt(5)));
    assert_eq!(leaf(&[106]).map(|found| found.0), Ok(RawTerm::Nil));
    assert_eq!(
        leaf(&[102, 119, 1, b'n', 0, 0, 0, 1, 2]).map(|found| found.0),
        Ok(RawTerm::Port { node: Box::new(RawTerm::SmallAtom(String::from("n"))), id: 1, creation: 2 })
    );
    assert_eq!(leaf(&[]).map(|found| found.0), Err(DecodeError::IncompleteInput));
    assert_eq!(leaf(&[104, 0]).map(|found| found.0), Err(DecodeError::UnknownTag));
    assert_eq!(leaf(&[80, 0, 0, 0, 0]).map(|found| found.0), Err(DecodeError::UnknownTag));
}
