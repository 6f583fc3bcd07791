use darkpool::ledger::Pubkey;
use darkpool::matcher::CiphertextBuffer;
use darkpool::matcher::MAX_BUFFER_SIZE;
use darkpool::mxe::match_orders_callback;
use darkpool::mxe::Argument;
use darkpool::mxe::ComputationOutputs;
use darkpool::mxe::MatchOrdersOutput;

fn buffer_key() -> Pubkey {
    let mut key = [0u8; 32];
    key[5] = 55;
    key
}

fn filled_buffer() -> Box<CiphertextBuffer> {
    let mut buffer = Box::new(CiphertextBuffer { data: [0xAA; MAX_BUFFER_SIZE] });
    buffer.data[0] = 1;
    buffer.data[MAX_BUFFER_SIZE - 1] = 2;
    buffer
}

fn data(len: usize) -> Vec<u8> {
    (0..len).map(|i| (i % 251) as u8).collect()
}

#[test]
fn the_buffer_holds_nonce_key_and_700_ciphertexts() {
    assert_eq!(MAX_BUFFER_SIZE, 22448);
    assert_eq!(darkpool::matcher::BUFFER_HEADER_SIZE, 48);
    assert_eq!(darkpool::mxe::CIPHERTEXT_LEN, 32);
}

#[test]
fn staged_data_is_written_to_the_front_of_the_buffer() {
    let mut buffer = filled_buffer();
    let bytes = data(48 + 64);
    let arguments =
        darkpool::matcher::match_orders(&mut buffer.data, buffer_key(), &bytes).ok().unwrap();
    assert_eq!(arguments.len(), 1);
    assert!(matches!(arguments[0], Argument::Account(key, 112, 112) if key == buffer_key()));
    assert_eq!(&buffer.data[..112], &bytes[..]);
    assert!(buffer.data[112..MAX_BUFFER_SIZE - 1].iter().all(|b| *b == 0xAA));
    assert_eq!(buffer.data[MAX_BUFFER_SIZE - 1], 2);
}

#[test]
fn a_header_alone_and_a_full_buffer_are_accepted() {
    let mut buffer = filled_buffer();
    let header = data(48);
    let arguments =
        darkpool::matcher::match_orders(&mut buffer.data, buffer_key(), &header).ok().unwrap();
    assert!(matches!(arguments[0], Argument::Account(_, 48, 48)));
    assert_eq!(&buffer.data[..48], &header[..]);
    assert_eq!(buffer.data[48], 0xAA);
    let full = data(MAX_BUFFER_SIZE);
    let arguments = darkpool::matcher::match_orders(&mut buffer.data, buffer_key(), &full).ok().unwrap();
    assert!(matches!(arguments[0], Argument::Account(_, 22448, 22448)));
    assert_eq!(&buffer.data[..], &full[..]);
}

#[test]
fn data_shorter_than_the_header_is_refused() {
    for len in [0, 1, 47] {
        let mut buffer = filled_buffer();
        let outcome = darkpool::matcher::match_orders(&mut buffer.data, buffer_key(), &data(len));
        assert!(matches!(outcome, Err(darkpool::matcher::ErrorCode::InvalidBufferSize)));
        assert!(buffer.data[1..MAX_BUFFER_SIZE - 1].iter().all(|b| *b == 0xAA));
        assert_eq!(buffer.data[0], 1);
    }
}

#[test]
fn ciphertexts_that_are_not_whole_blocks_are_refused() {
    for len in [49, 79, 81, MAX_BUFFER_SIZE + 1] {
        let mut buffer = filled_buffer();
        let outcome = darkpool::matcher::match_orders(&mut buffer.data, buffer_key(), &data(len));
        assert!(matches!(outcome, Err(darkpool::matcher::ErrorCode::InvalidCiphertextAlignment)));
        assert_eq!(buffer.data[0], 1);
        assert_eq!(buffer.data[48], 0xAA);
    }
}

#[test]
fn data_larger_than_the_buffer_is_refused() {
    let mut buffer = filled_buffer();
    let outcome =
        darkpool::matcher::match_orders(&mut buffer.data, buffer_key(), &data(MAX_BUFFER_SIZE + 32));
    assert!(matches!(outcome, Err(darkpool::matcher::ErrorCode::BufferTooLarge)));
    assert_eq!(buffer.data[0], 1);
    assert!(buffer.data[1..MAX_BUFFER_SIZE - 1].iter().all(|b| *b == 0xAA));
}

#[test]
fn the_argument_list_is_key_nonce_and_ciphertexts() {
    let first: Vec<u8> = (0..32).collect();
    let second: Vec<u8> = (100..132).collect();
    let pub_key = [7u8; 32];
    let arguments =
        darkpool::mxe::match_orders(&vec![first.clone(), second.clone()], pub_key, 1u128 << 100)
            .ok()
            .unwrap();
    assert_eq!(arguments.len(), 4);
    assert!(matches!(arguments[0], Argument::ArcisPubkey(key) if key == pub_key));
    assert!(matches!(arguments[1], Argument::PlaintextU128(nonce) if nonce == 1u128 << 100));
    assert!(matches!(arguments[2], Argument::EncryptedU8(bytes) if bytes[..] == first[..]));
    assert!(matches!(arguments[3], Argument::EncryptedU8(bytes) if bytes[..] == second[..]));
}

#[test]
fn without_ciphertexts_the_list_holds_key_and_nonce() {
    let arguments = darkpool::mxe::match_orders(&Vec::new(), [1u8; 32], 5).ok().unwrap();
    assert_eq!(arguments.len(), 2);
    assert!(matches!(arguments[0], Argument::ArcisPubkey(key) if key == [1u8; 32]));
    assert!(matches!(arguments[1], Argument::PlaintextU128(5)));
}

#[test]
fn a_ciphertext_of_another_length_is_refused() {
    let good: Vec<u8> = vec![0; 32];
    for len in [0usize, 31, 33] {
        let outcome = darkpool::mxe::match_orders(&vec![good.clone(), vec![0; len]], [0u8; 32], 0);
        assert!(matches!(outcome, Err(darkpool::mxe::ErrorCode::InvalidCiphertextLength)));
    }
}

#[test]
fn a_completed_computation_hands_its_outputs_on() {
    let output = ComputationOutputs::Success(MatchOrdersOutput { num_fills: 17 });
    assert_eq!(match_orders_callback(output).ok().unwrap().num_fills, 17);
}

#[test]
fn an_aborted_computation_is_an_error() {
    assert!(matches!(
        match_orders_callback(ComputationOutputs::Failure),
        Err(darkpool::mxe::ErrorCode::AbortedComputation)
    ));
}
