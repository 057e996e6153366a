use erlang_term::from_bytes;
use erlang_term::DecodeError;
use erlang_term::RawTerm;

fn atom(name: &str) -> RawTerm {
    RawTerm::SmallAtom(String::from(name))
}

#[test]
fn proper_list_drops_its_nil_tail() {
    assert_eq!(
        from_bytes(&[131, 108, 0, 0, 0, 2, 97, 1, 97, 2, 106]),
        Ok(RawTerm::List(vec![RawTerm::SmallInt(1), RawTerm::SmallInt(2)]))
    );
}

#[test]
fn improper_list_keeps_its_tail() {
    assert_eq!(
        from_bytes(&[131, 108, 0, 0, 0, 2, 97, 1, 97, 2, 97, 3]),
        Ok(RawTerm::List(vec![
            RawTerm::SmallInt(1),
            RawTerm::SmallInt(2),
            RawTerm::Improper(Box::new(RawTerm::SmallInt(3))),
        ]))
    );
}

#[test]
fn list_of_no_elements() {
    assert_eq!(from_bytes(&[131, 108, 0, 0, 0, 0, 106]), Ok(RawTerm::List(vec![])));
    assert_eq!(
        from_bytes(&[131, 108, 0, 0, 0, 0, 97, 9]),
        Ok(RawTerm::List(vec![RawTerm::Improper(Box::new(RawTerm::SmallInt(9)))]))
    );
}

#[test]
fn list_without_its_tail_is_incomplete() {
    assert_eq!(
        from_bytes(&[131, 108, 0, 0, 0, 2, 97, 1, 97, 2]),
        Err(DecodeError::IncompleteInput)
    );
}

#[test]
fn one_pair_map() {
    assert_eq!(
        from_bytes(&[131, 116, 0, 0, 0, 1, 119, 1, b'a', 97, 1]),
        Ok(RawTerm::Mapping(vec![(atom("a"), RawTerm::SmallInt(1))]))
    );
}

#[test]
fn map_keeps_order_and_repeated_keys() {
    assert_eq!(
        from_bytes(&[
            131, 116, 0, 0, 0, 3, 119, 1, b'b', 97, 1, 119, 1, b'a', 97, 2, 119, 1, b'b', 97, 3,
        ]),
        Ok(RawTerm::Mapping(vec![
            (atom("b"), RawTerm::SmallInt(1)),
            (atom("a"), RawTerm::SmallInt(2)),
            (atom("b"), RawTerm::SmallInt(3)),
        ]))
    );
    assert_eq!(from_bytes(&[131, 116, 0, 0, 0, 0]), Ok(RawTerm::Mapping(vec![])));
}

#[test]
fn map_with_a_key_and_no_value_is_incomplete() {
    assert_eq!(
        from_bytes(&[131, 116, 0, 0, 0, 1, 119, 1, b'a']),
        Err(DecodeError::IncompleteInput)
    );
}

#[test]
fn small_tuple_decodes() {
    assert_eq!(
        from_bytes(&[131, 104, 3, 119, 2, b'o', b'k', 97, 1, 106]),
        Ok(RawTerm::SmallTuple(vec![atom("ok"), RawTerm::SmallInt(1), RawTerm::Nil]))
    );
    assert_eq!(from_bytes(&[131, 104, 0]), Ok(RawTerm::SmallTuple(vec![])));
}

#[test]
fn containers_nest() {
    assert_eq!(
        from_bytes(&[
            131, 104, 2, 108, 0, 0, 0, 1, 104, 1, 97, 7, 106, 116, 0, 0, 0, 1, 97, 1, 104, 0,
        ]),
        Ok(RawTerm::SmallTuple(vec![
            RawTerm::List(vec![RawTerm::SmallTuple(vec![RawTerm::SmallInt(7)])]),
            RawTerm::Mapping(vec![(RawTerm::SmallInt(1), RawTerm::SmallTuple(vec![]))]),
        ]))
    );
}

#[test]
fn pid_decodes() {
    assert_eq!(
        from_bytes(&[131, 103, 119, 1, b'n', 0, 0, 0, 1, 0, 0, 0, 2, 3]),
        Ok(RawTerm::Pid { node: Box::new(atom("n")), id: 1, serial: 2, creation: 3 })
    );
    assert_eq!(
        from_bytes(&[131, 103, 100, 0, 1, b'n', 1, 2, 3, 4, 5, 6, 7, 8, 9]),
        Ok(RawTerm::Pid {
            node: Box::new(RawTerm::AtomDeprecated(String::from("n"))),
            id: 0x0102_0304,
            serial: 0x0506_0708,
            creation: 9,
        })
    );
}

#[test]
fn port_decodes() {
    assert_eq!(
        from_bytes(&[131, 102, 119, 1, b'n', 0, 0, 1, 0, 7]),
        Ok(RawTerm::Port { node: Box::new(atom("n")), id: 256, creation: 7 })
    );
}

#[test]
fn reference_decodes_its_words() {
    assert_eq!(
        from_bytes(&[131, 114, 0, 2, 119, 1, b'n', 5, 0, 0, 0, 1, 0xff, 0xff, 0xff, 0xff]),
        Ok(RawTerm::Ref { node: Box::new(atom("n")), id: vec![1, u32::MAX], creation: 5 })
    );
    assert_eq!(
        from_bytes(&[131, 114, 0, 0, 119, 1, b'n', 5]),
        Ok(RawTerm::Ref { node: Box::new(atom("n")), id: vec![], creation: 5 })
    );
}

fn function_bytes(num_free: u8, tail: &[u8]) -> Vec<u8> {
    let mut input = vec![131u8, 112];
    input.extend_from_slice(&[0, 0, 0, 99]);
    input.push(2);
    input.extend_from_slice(&[1, 2, 3, 4, 5, 6, 7, 8, 9, 10, 11, 12, 13, 14, 15, 16]);
    input.extend_from_slice(&[0, 0, 0, 5]);
    input.extend_from_slice(&[0, 0, 0, num_free]);
    input.extend_from_slice(&[119, 1, b'm']);
    input.extend_from_slice(&[97, 4]);
    input.extend_from_slice(&[98, 0, 0, 1, 0]);
    input.extend_from_slice(&[103, 119, 1, b'n', 0, 0, 0, 1, 0, 0, 0, 2, 3]);
    input.extend_from_slice(tail);
    input
}

fn function_term(free_var: Vec<RawTerm>) -> RawTerm {
    RawTerm::Function {
        size: 99,
        arity: 2,
        uniq: [1, 2, 3, 4, 5, 6, 7, 8, 9, 10, 11, 12, 13, 14, 15, 16],
        index: 5,
        module: Box::new(atom("m")),
        old_index: Box::new(RawTerm::SmallInt(4)),
        old_uniq: Box::new(RawTerm::Int(256)),
        pid: Box::new(RawTerm::Pid { node: Box::new(atom("n")), id: 1, serial: 2, creation: 3 }),
        free_var,
    }
}

#[test]
fn function_decodes() {
    assert_eq!(
        from_bytes(&function_bytes(2, &[97, 1, 104, 0])),
        Ok(function_term(vec![RawTerm::SmallInt(1), RawTerm::SmallTuple(vec![])]))
    );
    assert_eq!(from_bytes(&function_bytes(0, &[])), Ok(function_term(vec![])));
}

#[test]
fn function_without_a_free_variable_is_incomplete() {
    assert_eq!(from_bytes(&function_bytes(2, &[97, 1])), Err(DecodeError::IncompleteInput));
}

#[test]
fn function_wants_integers_and_a_pid() {
    let mut input = function_bytes(0, &[]);
    input[34] = 106;
    assert_eq!(from_bytes(&input), Err(DecodeError::UnknownTag));
    let mut input = function_bytes(0, &[]);
    input[41] = 102;
    assert_eq!(from_bytes(&input), Err(DecodeError::UnknownTag));
    let mut input = function_bytes(0, &[]);
    input[31] = 97;
    assert_eq!(from_bytes(&input), Err(DecodeError::RestrictedNodeViolation));
}

#[test]
fn clone_is_equal() {
    let term = from_bytes(&function_bytes(2, &[110, 1, 1, 255, 108, 0, 0, 0, 1, 97, 1, 97, 2]))
        .unwrap();
    assert_eq!(term.clone(), term);
    let map = from_bytes(&[131, 116, 0, 0, 0, 1, 119, 1, b'a', 109, 0, 0, 0, 1, 9]).unwrap();
    assert_eq!(map.clone(), map);
    let reference = from_bytes(&[131, 114, 0, 1, 119, 1, b'n', 5, 0, 0, 0, 1]).unwrap();
    assert_eq!(reference.clone(), reference);
}

#[test]
fn decoding_twice_gives_equal_results() {
    let inputs: [&[u8]; 6] = [
        &[131, 104, 2, 108, 0, 0, 0, 1, 104, 1, 97, 7, 106, 116, 0, 0, 0, 1, 97, 1, 104, 0],
        &[131, 110, 3, 1, 1, 2, 3],
        &[131, 80, 0, 0, 0, 2, 120, 156, 75, 212, 2, 0, 0, 238, 0, 140],
        &[131, 119, 1, 0xff],
        &[131, 108, 0, 0, 0, 2, 97, 1],
        &[131, 80, 0, 0, 0, 2, 1, 2, 3],
    ];
    for input in inputs {
        let first = from_bytes(input);
        let second = from_bytes(input);
        assert_eq!(first, second);
        assert_eq!(first, from_bytes(&input.to_vec()));
    }
}
