use erlang_term::from_bytes;
use erlang_term::from_bytes_with;
use erlang_term::limits::MAX_INFLATED_LEN;
use erlang_term::parse::inflate_limit;
use erlang_term::parse::sole_term;
use erlang_term::parse::term;
use erlang_term::DecodeError;
use erlang_term::Limits;
use erlang_term::RawTerm;
use flate2::Compress;
use flate2::Compression;
use flate2::FlushCompress;

fn deflate(data: &[u8]) -> Vec<u8> {
    let mut out = Vec::with_capacity(data.len() + 64);
    let mut packer = Compress::new(Compression::default(), true);
    packer.compress_vec(data, &mut out, FlushCompress::Finish).unwrap();
    out
}

fn envelope(hint: u32, stream: &[u8]) -> Vec<u8> {
    let mut input = vec![131u8, 80];
    input.extend_from_slice(&hint.to_be_bytes());
    input.extend_from_slice(stream);
    input
}

#[test]
fn envelope_inflates_to_its_term() {
    let stream = [120u8, 156, 75, 212, 2, 0, 0, 238, 0, 140];
    assert_eq!(from_bytes(&envelope(2, &stream)), Ok(RawTerm::SmallInt(42)));
}

#[test]
fn envelope_of_a_larger_term() {
    let mut inner = vec![107u8, 3, 232];
    inner.extend(std::iter::repeat(7u8).take(1000));
    let stream = deflate(&inner);
    assert!(stream.len() < inner.len());
    assert_eq!(
        from_bytes(&envelope(inner.len() as u32, &stream)),
        Ok(RawTerm::String(vec![7u8; 1000]))
    );
}

#[test]
fn hint_may_be_larger_than_needed() {
    let stream = deflate(&[104, 2, 97, 1, 97, 2]);
    assert_eq!(
        from_bytes(&envelope(4096, &stream)),
        Ok(RawTerm::SmallTuple(vec![RawTerm::SmallInt(1), RawTerm::SmallInt(2)]))
    );
    assert_eq!(
        from_bytes(&envelope(u32::MAX, &stream)),
        Ok(RawTerm::SmallTuple(vec![RawTerm::SmallInt(1), RawTerm::SmallInt(2)]))
    );
}

#[test]
fn hint_caps_what_is_inflated() {
    let stream = deflate(&[104, 2, 97, 1, 97, 2]);
    assert_eq!(from_bytes(&envelope(5, &stream)), Err(DecodeError::IncompleteInput));
    assert_eq!(from_bytes(&envelope(0, &stream)), Err(DecodeError::IncompleteInput));
}

#[test]
fn limit_is_the_hint_up_to_the_cap() {
    assert_eq!(inflate_limit(0, MAX_INFLATED_LEN), 0);
    assert_eq!(inflate_limit(1234, MAX_INFLATED_LEN), 1234);
    assert_eq!(inflate_limit(MAX_INFLATED_LEN as u32, MAX_INFLATED_LEN), MAX_INFLATED_LEN);
    assert_eq!(inflate_limit(MAX_INFLATED_LEN as u32 + 1, MAX_INFLATED_LEN), MAX_INFLATED_LEN);
    assert_eq!(inflate_limit(u32::MAX, MAX_INFLATED_LEN), MAX_INFLATED_LEN);
    assert_eq!(inflate_limit(10, 4), 4);
    assert_eq!(inflate_limit(4, 4), 4);
    assert_eq!(inflate_limit(3, 4), 3);
    assert_eq!(inflate_limit(3, 0), 0);
}

#[test]
fn cap_of_the_limits_beats_the_hint() {
    let stream = deflate(&[104, 2, 97, 1, 97, 2]);
    let input = envelope(6, &stream);
    let roomy = Limits { depth: 4, inflate: Some(6) };
    let tight = Limits { depth: 4, inflate: Some(5) };
    assert_eq!(
        from_bytes_with(&input, roomy),
        Ok(RawTerm::SmallTuple(vec![RawTerm::SmallInt(1), RawTerm::SmallInt(2)]))
    );
    assert_eq!(from_bytes_with(&input, tight), Err(DecodeError::IncompleteInput));
}

#[test]
fn envelopes_can_be_refused() {
    let input = envelope(2, &deflate(&[97, 42]));
    let plain = Limits { depth: 4, inflate: None };
    assert_eq!(from_bytes_with(&input, plain), Err(DecodeError::UnknownTag));
    assert_eq!(from_bytes_with(&[131, 80], plain), Err(DecodeError::UnknownTag));
    assert_eq!(from_bytes_with(&[131, 97, 1], plain), Ok(RawTerm::SmallInt(1)));
}

#[test]
fn sole_term_wants_all_of_its_input() {
    let limits = Limits::default();
    assert_eq!(sole_term(&[97, 42], limits), Ok(RawTerm::SmallInt(42)));
    assert_eq!(sole_term(&[97, 1, 97, 2], limits), Err(DecodeError::TrailingData));
    assert_eq!(sole_term(&[97, 1, 0], limits), Err(DecodeError::TrailingData));
    assert_eq!(sole_term(&[], limits), Err(DecodeError::IncompleteInput));
    assert_eq!(sole_term(&[97], limits), Err(DecodeError::IncompleteInput));
    assert_eq!(sole_term(&[1, 2], limits), Err(DecodeError::UnknownTag));
}

#[test]
fn more_than_one_term_inside_is_trailing_data() {
    let stream = [120u8, 156, 75, 100, 76, 100, 2, 0, 2, 79, 0, 198];
    assert_eq!(from_bytes(&envelope(4, &stream)), Err(DecodeError::TrailingData));
    assert_eq!(from_bytes(&envelope(2, &stream)), Ok(RawTerm::SmallInt(1)));
}

#[test]
fn corrupt_stream_is_compression_failure() {
    assert_eq!(
        from_bytes(&envelope(2, &[1, 2, 3, 4, 5, 6, 7, 8])),
        Err(DecodeError::CompressionFailure)
    );
    let mut stream = deflate(&[97, 42]);
    let last = stream.len() - 1;
    stream[last] ^= 0xff;
    assert_eq!(from_bytes(&envelope(2, &stream)), Err(DecodeError::CompressionFailure));
}

#[test]
fn cut_envelope_header_is_incomplete() {
    assert_eq!(from_bytes(&[131, 80, 0, 0, 0]), Err(DecodeError::IncompleteInput));
    assert_eq!(from_bytes(&[131, 80]), Err(DecodeError::IncompleteInput));
}

#[test]
fn fault_inside_the_envelope_is_reported() {
    assert_eq!(from_bytes(&envelope(2, &deflate(&[255, 0]))), Err(DecodeError::UnknownTag));
    assert_eq!(
        from_bytes(&envelope(3, &deflate(&[119, 1, 0xff]))),
        Err(DecodeError::InvalidText)
    );
}

#[test]
fn envelope_takes_the_rest_of_the_input() {
    let stream = deflate(&[97, 42]);
    let input = envelope(2, &stream);
    let (value, rest) = term(&input[1..], Limits::default()).unwrap();
    assert_eq!(value, RawTerm::SmallInt(42));
    assert!(rest.is_empty());
}

#[test]
fn envelopes_nest() {
    let inner = deflate(&[97, 42]);
    let mut middle = vec![80u8, 0, 0, 0, 2];
    middle.extend_from_slice(&inner);
    let outer = deflate(&middle);
    assert_eq!(
        from_bytes(&envelope(middle.len() as u32, &outer)),
        Ok(RawTerm::SmallInt(42))
    );
}

#[test]
fn envelope_inside_a_tuple() {
    let mut input = vec![131u8, 104, 1, 80, 0, 0, 0, 2];
    input.extend_from_slice(&deflate(&[97, 42]));
    assert_eq!(from_bytes(&input), Ok(RawTerm::SmallTuple(vec![RawTerm::SmallInt(42)])));
}

#[test]
fn envelope_needs_a_level_of_depth() {
    let input = envelope(2, &deflate(&[97, 42]));
    let flat = Limits { depth: 0, inflate: Some(MAX_INFLATED_LEN) };
    assert_eq!(term(&input[1..], flat).map(|found| found.0), Err(DecodeError::NestingTooDeep));
    assert_eq!(term(&input[1..], flat.clone()).map(|found| found.0), Err(DecodeError::NestingTooDeep));
}
