use orquestra_cli::wire::{
    blockhash_offset, decode_instruction_data, decode_transaction_bytes, extract_message_bytes,
    read_compact_u16, write_compact_u16, WireError,
};

fn compact(v: u16) -> Vec<u8> {
    let mut buf = Vec::new();
    write_compact_u16(&mut buf, v);
    buf
}

/// A legacy message: header, `n` account keys, a blockhash, then `tail`.
fn legacy_message(signers: u8, n: u8, tail: &[u8]) -> Vec<u8> {
    let mut m = vec![signers, 0, 1];
    m.extend(compact(n as u16));
    for k in 0..n {
        m.extend(std::iter::repeat(k + 10).take(32));
    }
    m.extend(std::iter::repeat(0xAB).take(32));
    m.extend_from_slice(tail);
    m
}

#[test]
fn compact_u16_small_values_take_one_byte() {
    assert_eq!(compact(0), vec![0]);
    assert_eq!(compact(1), vec![1]);
    assert_eq!(compact(127), vec![0x7f]);
}

#[test]
fn compact_u16_larger_values() {
    assert_eq!(compact(128), vec![0x80, 0x01]);
    assert_eq!(compact(300), vec![0xac, 0x02]);
    assert_eq!(compact(16383), vec![0xff, 0x7f]);
    assert_eq!(compact(16384), vec![0x80, 0x80, 0x01]);
    assert_eq!(compact(65535), vec![0xff, 0xff, 0x03]);
}

#[test]
fn write_compact_u16_appends_to_existing_bytes() {
    let mut buf = vec![9, 9];
    write_compact_u16(&mut buf, 129);
    assert_eq!(buf, vec![9, 9, 0x81, 0x01]);
}

#[test]
fn compact_u16_round_trip() {
    for v in [0u16, 1, 5, 127, 128, 255, 256, 1000, 16383, 16384, 40000, 65535] {
        let mut bytes = compact(v);
        let len = bytes.len();
        bytes.extend_from_slice(&[7, 7, 7]);
        assert_eq!(read_compact_u16(&bytes, 0), Ok((v, len)));
    }
}

#[test]
fn read_compact_u16_at_an_offset() {
    let bytes = vec![0xff, 0xff, 0xac, 0x02];
    assert_eq!(read_compact_u16(&bytes, 2), Ok((300, 2)));
}

#[test]
fn read_compact_u16_errors() {
    assert_eq!(read_compact_u16(&[], 0), Err(WireError::CompactEnd));
    assert_eq!(read_compact_u16(&[0x80], 0), Err(WireError::CompactEnd));
    assert_eq!(read_compact_u16(&[0x80, 0x80], 0), Err(WireError::CompactEnd));
    assert_eq!(read_compact_u16(&[0x80, 0x80, 0x80], 0), Err(WireError::CompactOverflow));
    assert_eq!(read_compact_u16(&[1, 2], 5), Err(WireError::CompactEnd));
}

#[test]
fn read_compact_u16_third_byte_keeps_two_bits() {
    // A third byte contributes only its two low bits to a 16-bit value.
    assert_eq!(read_compact_u16(&[0xff, 0xff, 0x07], 0), Ok((65535, 3)));
    assert_eq!(read_compact_u16(&[0x80, 0x80, 0x05], 0), Ok((16384, 3)));
}

#[test]
fn blockhash_offset_legacy_message() {
    let m = legacy_message(1, 2, &[1, 2, 0]);
    assert_eq!(blockhash_offset(&m), Ok(3 + 1 + 64));
}

#[test]
fn blockhash_offset_versioned_message() {
    let mut m = vec![0x80];
    m.extend(legacy_message(1, 1, &[]));
    assert_eq!(blockhash_offset(&m), Ok(1 + 3 + 1 + 32));
}

#[test]
fn blockhash_offset_errors() {
    assert_eq!(blockhash_offset(&[]), Err(WireError::EmptyMessage));
    assert_eq!(blockhash_offset(&[0x80, 1, 0]), Err(WireError::VersionedTooShort));
    assert_eq!(blockhash_offset(&[1, 0, 0]), Err(WireError::NoAccountCount));
    assert_eq!(blockhash_offset(&[1, 0, 0, 0x80]), Err(WireError::CompactEnd));
    assert_eq!(
        blockhash_offset(&[1, 0, 0, 5, 0, 0, 0, 0, 0, 0]),
        Err(WireError::MessageTooShort { account_count: 5, required: 4 + 160 + 32, len: 10 })
    );
}

#[test]
fn blockhash_offset_exact_length_is_enough() {
    let m = legacy_message(1, 1, &[]);
    assert_eq!(m.len(), 3 + 1 + 32 + 32);
    assert_eq!(blockhash_offset(&m), Ok(36));
}

#[test]
fn extract_message_from_signed_wire_transaction() {
    let message = legacy_message(1, 2, &[1, 2, 0, 1, 0]);
    let mut tx = vec![1u8];
    tx.extend(std::iter::repeat(0x55).take(64));
    tx.extend_from_slice(&message);
    assert_eq!(extract_message_bytes(&tx), Ok(message));
}

#[test]
fn extract_message_from_two_signature_wire_transaction() {
    let message = legacy_message(2, 3, &[0]);
    let mut tx = vec![2u8];
    tx.extend(std::iter::repeat(0x11).take(128));
    tx.extend_from_slice(&message);
    assert_eq!(extract_message_bytes(&tx), Ok(message));
}

#[test]
fn extract_message_falls_back_to_bare_message() {
    // One signer, one key: after skipping 65 bytes only 3 are left, which is no
    // message, so the payload is read as a bare message.
    let message = legacy_message(1, 1, &[]);
    assert_eq!(extract_message_bytes(&message), Ok(message.clone()));
}

#[test]
fn extract_message_of_message_without_signers() {
    let message = legacy_message(0, 1, &[0]);
    assert_eq!(extract_message_bytes(&message), Ok(message.clone()));
}

#[test]
fn extract_message_errors() {
    assert_eq!(extract_message_bytes(&[]), Err(WireError::EmptyPayload));
    assert_eq!(
        extract_message_bytes(&[5]),
        Err(WireError::UnknownFormat { len: 1, first_bytes: vec![5] })
    );
    let junk: Vec<u8> = (0..40u8).map(|b| b | 0x80).collect();
    assert_eq!(
        extract_message_bytes(&junk),
        Err(WireError::UnknownFormat { len: 40, first_bytes: junk[..16].to_vec() })
    );
}

#[test]
fn decode_transaction_bytes_prefers_base58() {
    assert_eq!(decode_transaction_bytes("2"), Ok(vec![1]));
    assert_eq!(decode_transaction_bytes("Ldp"), Ok(vec![1, 2, 3]));
}

#[test]
fn decode_transaction_bytes_falls_back_to_base64() {
    // 'I' is not a base58 digit.
    assert_eq!(decode_transaction_bytes("AQID"), Ok(vec![1, 2, 3]));
    assert_eq!(decode_transaction_bytes("AQI="), Ok(vec![1, 2]));
}

#[test]
fn decode_transaction_bytes_falls_back_to_url_safe_base64() {
    assert_eq!(decode_transaction_bytes("-_8"), Ok(vec![0xfb, 0xff]));
}

#[test]
fn decode_transaction_bytes_errors() {
    assert_eq!(decode_transaction_bytes(""), Err(WireError::NotBase58OrBase64 { len: 0 }));
    assert_eq!(decode_transaction_bytes("!!!"), Err(WireError::NotBase58OrBase64 { len: 3 }));
}

#[test]
fn decode_instruction_data_variants() {
    assert_eq!(decode_instruction_data(""), Ok(vec![]));
    assert_eq!(decode_instruction_data("Ldp"), Ok(vec![1, 2, 3]));
    assert_eq!(decode_instruction_data("AQID"), Ok(vec![1, 2, 3]));
    assert_eq!(
        decode_instruction_data("!x"),
        Err(WireError::UndecodableInstructionData("!x".to_string()))
    );
}

#[test]
fn compact_u16_after_a_prefix() {
    for v in [0u16, 0x7f, 0x80, 0x3fff, 0x4000, 65535] {
        let prefix = vec![0xee, 0x80, 0x01];
        let mut b = prefix.clone();
        write_compact_u16(&mut b, v);
        let n = b.len() - prefix.len();
        b.extend_from_slice(&[0xff, 0x81]);
        assert_eq!(read_compact_u16(&b, prefix.len()), Ok((v, n)));
        assert_eq!(b[..prefix.len()].to_vec(), prefix);
        assert_eq!(n == 1, v < 0x80);
        assert_eq!(n == 2, (0x80..0x4000).contains(&v));
        assert!((1..=3).contains(&n));
    }
}

#[test]
fn whole_unsigned_message_is_kept_whole() {
    // Fee payer (bytes of 7) and the system program, no accounts, no data: its first
    // byte is 1 and its bytes from 65 on also have a blockhash position, but the
    // whole payload is a complete message.
    let mut m = vec![1u8, 0, 1, 2];
    m.extend([7u8; 32]);
    m.extend([0u8; 32]);
    m.extend([0u8; 32]);
    m.extend([1, 1, 0, 0]);
    assert_eq!(m.len(), 104);
    assert_eq!(extract_message_bytes(&m), Ok(m.clone()));
}

#[test]
fn wire_transaction_whose_bytes_form_a_message_is_read_as_that_message() {
    // A payload that is both a signed transaction and a whole message (six accounts,
    // no instructions) is read as the whole message.
    let mut inner = vec![1u8, 0, 1, 3];
    inner.extend([7u8; 32]);
    inner.extend([8u8; 32]);
    inner.extend([9u8; 32]);
    inner.extend([0u8; 32]);
    inner.extend([1, 2, 1, 1, 27]);
    inner.extend([5u8; 26]);
    inner.push(0);
    assert_eq!(inner.len(), 164);
    let mut tx = vec![1u8, 0, 0, 6];
    tx.extend([3u8; 61]);
    tx.extend_from_slice(&inner);
    assert_eq!(extract_message_bytes(&tx), Ok(tx.clone()));
}
