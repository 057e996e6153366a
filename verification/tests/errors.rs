use erlang_term::from_bytes;
use erlang_term::from_bytes_with;
use erlang_term::limits::MAX_DEPTH;
use erlang_term::parse::term;
use erlang_term::parser;
use erlang_term::Limits;
use erlang_term::DecodeError;
use erlang_term::RawTerm;

#[test]
fn wrong_version_is_bad_version() {
    assert_eq!(from_bytes(&[130, 97, 1]), Err(DecodeError::BadVersion));
    assert_eq!(from_bytes(&[97, 1]), Err(DecodeError::BadVersion));
    assert_eq!(parser(&[0]), Err(DecodeError::BadVersion));
}

#[test]
fn no_bytes_at_all_is_incomplete() {
    assert_eq!(from_bytes(&[]), Err(DecodeError::IncompleteInput));
    assert_eq!(parser(&[]), Err(DecodeError::IncompleteInput));
}

#[test]
fn version_alone_is_empty_payload() {
    assert_eq!(from_bytes(&[131]), Err(DecodeError::EmptyPayload));
}

#[test]
fn tags_without_a_decoder_are_unknown() {
    let known = [
        97u8, 98, 70, 100, 119, 106, 109, 107, 108, 116, 104, 110, 111, 103, 102, 114, 112, 80,
    ];
    for tag in 0..=255u8 {
        if !known.contains(&tag) {
            assert_eq!(from_bytes(&[131, tag]), Err(DecodeError::UnknownTag));
            assert_eq!(from_bytes(&[131, tag, 0, 0, 0, 0, 0]), Err(DecodeError::UnknownTag));
        }
    }
}

#[test]
fn large_tuple_has_no_decoder() {
    assert_eq!(from_bytes(&[131, 105, 0, 0, 0, 1, 97, 1]), Err(DecodeError::UnknownTag));
}

#[test]
fn payload_cut_by_one_byte_is_incomplete() {
    let whole: [&[u8]; 7] = [
        &[131, 119, 2, b'o', b'k'],
        &[131, 100, 0, 2, b'o', b'k'],
        &[131, 109, 0, 0, 0, 3, 1, 2, 3],
        &[131, 107, 0, 3, 1, 2, 3],
        &[131, 110, 2, 0, 1, 2],
        &[131, 111, 0, 0, 0, 2, 1, 1, 2],
        &[131, 114, 0, 1, 119, 1, b'n', 5, 0, 0, 0, 1],
    ];
    for input in whole {
        assert!(from_bytes(input).is_ok());
        assert_eq!(from_bytes(&input[..input.len() - 1]), Err(DecodeError::IncompleteInput));
    }
}

#[test]
fn every_cut_of_a_term_is_incomplete() {
    let whole = [
        131u8, 104, 3, 108, 0, 0, 0, 1, 119, 2, b'o', b'k', 106, 116, 0, 0, 0, 1, 98, 0, 0, 0,
        1, 70, 0, 0, 0, 0, 0, 0, 0, 0, 103, 119, 1, b'n', 0, 0, 0, 1, 0, 0, 0, 2, 3,
    ];
    assert!(from_bytes(&whole).is_ok());
    let plain = Limits { depth: 8, inflate: None };
    for cut in 2..whole.len() {
        assert_eq!(from_bytes(&whole[..cut]), Err(DecodeError::IncompleteInput));
        assert_eq!(from_bytes_with(&whole[..cut], plain), Err(DecodeError::IncompleteInput));
    }
}

#[test]
fn every_cut_of_a_function_is_incomplete() {
    let mut whole = vec![131u8, 112, 0, 0, 0, 99, 2];
    whole.extend_from_slice(&[1, 2, 3, 4, 5, 6, 7, 8, 9, 10, 11, 12, 13, 14, 15, 16]);
    whole.extend_from_slice(&[0, 0, 0, 5, 0, 0, 0, 2, 119, 1, b'm', 97, 4, 98, 0, 0, 1, 0]);
    whole.extend_from_slice(&[103, 119, 1, b'n', 0, 0, 0, 1, 0, 0, 0, 2, 3]);
    whole.extend_from_slice(&[110, 1, 0, 7, 114, 0, 1, 100, 0, 1, b'n', 5, 0, 0, 0, 1]);
    assert!(from_bytes(&whole).is_ok());
    for cut in 2..whole.len() {
        assert_eq!(from_bytes(&whole[..cut]), Err(DecodeError::IncompleteInput));
    }
}

#[test]
fn cut_fixed_fields_are_incomplete() {
    assert_eq!(from_bytes(&[131, 97]), Err(DecodeError::IncompleteInput));
    assert_eq!(from_bytes(&[131, 98, 0, 0, 0]), Err(DecodeError::IncompleteInput));
    assert_eq!(from_bytes(&[131, 70, 0, 0, 0, 0, 0, 0, 0]), Err(DecodeError::IncompleteInput));
    assert_eq!(from_bytes(&[131, 109, 0, 0]), Err(DecodeError::IncompleteInput));
    assert_eq!(from_bytes(&[131, 104]), Err(DecodeError::IncompleteInput));
    assert_eq!(from_bytes(&[131, 102, 119, 1, b'n', 0, 0, 0, 1]), Err(DecodeError::IncompleteInput));
}

#[test]
fn atom_that_is_not_utf8_is_invalid_text() {
    assert_eq!(from_bytes(&[131, 119, 1, 0xff]), Err(DecodeError::InvalidText));
    assert_eq!(from_bytes(&[131, 100, 0, 2, 0xc3, 0x28]), Err(DecodeError::InvalidText));
    assert_eq!(
        from_bytes(&[131, 103, 119, 1, 0x80, 0, 0, 0, 1, 0, 0, 0, 2, 3]),
        Err(DecodeError::InvalidText)
    );
}

#[test]
fn node_must_be_an_atom() {
    assert_eq!(
        from_bytes(&[131, 103, 97, 1, 0, 0, 0, 1, 0, 0, 0, 2, 3]),
        Err(DecodeError::RestrictedNodeViolation)
    );
    assert_eq!(
        from_bytes(&[131, 102, 106, 0, 0, 0, 1, 3]),
        Err(DecodeError::RestrictedNodeViolation)
    );
    assert_eq!(
        from_bytes(&[131, 114, 0, 0, 255, 3]),
        Err(DecodeError::RestrictedNodeViolation)
    );
    assert_eq!(from_bytes(&[131, 103]), Err(DecodeError::IncompleteInput));
}

#[test]
fn sign_byte_must_be_zero_or_one() {
    assert_eq!(from_bytes(&[131, 110, 1, 2, 255]), Err(DecodeError::InvalidSign));
    assert_eq!(from_bytes(&[131, 111, 0, 0, 0, 1, 255, 1]), Err(DecodeError::InvalidSign));
    assert_eq!(from_bytes(&[131, 110, 2, 2, 255]), Err(DecodeError::IncompleteInput));
}

fn nested_tuples(levels: usize) -> Vec<u8> {
    let mut input = vec![131u8];
    for _ in 0..levels {
        input.extend_from_slice(&[104, 1]);
    }
    input.push(106);
    input
}

#[test]
fn nesting_up_to_the_budget_decodes() {
    let mut term = from_bytes(&nested_tuples(MAX_DEPTH)).unwrap();
    let mut levels = 0;
    while let RawTerm::SmallTuple(mut items) = term {
        assert_eq!(items.len(), 1);
        term = items.remove(0);
        levels += 1;
    }
    assert_eq!(levels, MAX_DEPTH);
    assert_eq!(term, RawTerm::Nil);
}

#[test]
fn nesting_beyond_the_budget_is_refused() {
    assert_eq!(from_bytes(&nested_tuples(MAX_DEPTH + 1)), Err(DecodeError::NestingTooDeep));
    assert_eq!(from_bytes(&nested_tuples(100_000)), Err(DecodeError::NestingTooDeep));
}

fn levels(depth: usize) -> Limits {
    Limits { depth, inflate: None }
}

#[test]
fn depth_counts_levels_below_a_term() {
    assert_eq!(term(&[104, 0], levels(0)).map(|found| found.0), Ok(RawTerm::SmallTuple(vec![])));
    assert_eq!(
        term(&[104, 1, 106], levels(0)).map(|found| found.0),
        Err(DecodeError::NestingTooDeep)
    );
    assert_eq!(
        term(&[104, 1, 106], levels(1)).map(|found| found.0),
        Ok(RawTerm::SmallTuple(vec![RawTerm::Nil]))
    );
    assert_eq!(
        term(&[108, 0, 0, 0, 0, 106], levels(0)).map(|found| found.0),
        Err(DecodeError::NestingTooDeep)
    );
    assert_eq!(
        term(&[116, 0, 0, 0, 1, 97, 1, 97, 2], levels(0)).map(|found| found.0),
        Err(DecodeError::NestingTooDeep)
    );
    assert_eq!(term(&[116, 0, 0, 0, 0], levels(0)).map(|found| found.0), Ok(RawTerm::Mapping(vec![])));
}

#[test]
fn the_depth_is_the_callers_to_choose() {
    let input = nested_tuples(3);
    assert_eq!(from_bytes_with(&input, levels(2)), Err(DecodeError::NestingTooDeep));
    assert!(from_bytes_with(&input, levels(3)).is_ok());
    let deep = nested_tuples(1000);
    assert!(from_bytes_with(&deep, levels(1000)).is_ok());
    assert_eq!(from_bytes_with(&deep, levels(999)), Err(DecodeError::NestingTooDeep));
}

#[test]
fn standard_limits_are_the_default() {
    let limits = Limits::default();
    assert_eq!(limits.depth, MAX_DEPTH);
    assert_eq!(limits.inflate, Some(erlang_term::limits::MAX_INFLATED_LEN));
    assert_eq!(limits.below().depth, MAX_DEPTH - 1);
    assert_eq!(limits.below().inflate, limits.inflate);
}

#[test]
fn a_larger_budget_changes_nothing_else() {
    let inputs: [&[u8]; 5] = [
        &[131, 104, 2, 108, 0, 0, 0, 1, 104, 1, 97, 7, 106, 116, 0, 0, 0, 1, 97, 1, 104, 0],
        &[131, 104, 1, 104, 1, 119, 1, 0xff],
        &[131, 104, 1, 104, 1, 97],
        &[131, 97, 1, 104, 1, 104, 1, 200],
        &[131, 106],
    ];
    for input in inputs {
        let tight = from_bytes_with(input, levels(3));
        assert_ne!(tight, Err(DecodeError::NestingTooDeep));
        for depth in [4usize, 5, 64, 1000] {
            assert_eq!(from_bytes_with(input, levels(depth)), tight);
        }
    }
}
