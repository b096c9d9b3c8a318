use quic_identity::der::{encode_signed_key, parse_bit_string, parse_signed_key_extension, parse_tlv};

fn yasna_extension(key: &[u8], signature: &[u8]) -> Vec<u8> {
    yasna::construct_der(|writer| {
        writer.write_sequence(|writer| {
            writer.next().write_bitvec_bytes(key, key.len() * 8);
            writer.next().write_bitvec_bytes(signature, signature.len() * 8);
        })
    })
}

#[test]
fn encodes_short_extension_exactly() {
    let ext = encode_signed_key(&[1, 2], &[3]).unwrap();
    assert_eq!(ext, vec![0x30, 0x09, 0x03, 0x03, 0x00, 1, 2, 0x03, 0x02, 0x00, 3]);
}

#[test]
fn encodes_empty_key_and_signature() {
    let ext = encode_signed_key(&[], &[]).unwrap();
    assert_eq!(ext, vec![0x30, 0x06, 0x03, 0x01, 0x00, 0x03, 0x01, 0x00]);
    assert_eq!(parse_signed_key_extension(&ext), Some((vec![], vec![])));
}

#[test]
fn matches_yasna_for_several_sizes() {
    for (k, s) in [(0usize, 0usize), (36, 64), (126, 1), (127, 0), (200, 64), (300, 512), (1000, 2000)] {
        let key: Vec<u8> = (0..k).map(|i| (i * 7 % 251) as u8).collect();
        let sig: Vec<u8> = (0..s).map(|i| (i * 13 % 253) as u8).collect();
        let ours = encode_signed_key(&key, &sig).unwrap();
        assert_eq!(ours, yasna_extension(&key, &sig));
        assert_eq!(parse_signed_key_extension(&ours), Some((key, sig)));
    }
}

#[test]
fn long_form_lengths() {
    let key = vec![5u8; 200];
    let ext = encode_signed_key(&key, &[]).unwrap();
    // body: the key (1 + 2 + 201 bytes) and the empty signature (3 bytes)
    assert_eq!(&ext[..6], &[0x30, 0x81, 207, 0x03, 0x81, 201]);
    let key = vec![5u8; 300];
    let ext = encode_signed_key(&key, &[]).unwrap();
    assert_eq!(&ext[..8], &[0x30, 0x82, 0x01, 0x34, 0x03, 0x82, 0x01, 0x2d]);
}

#[test]
fn too_large_is_refused() {
    let key = vec![0u8; 65535];
    assert_eq!(encode_signed_key(&key, &[]), None);
    let key = vec![0u8; 40000];
    let sig = vec![0u8; 30000];
    assert_eq!(encode_signed_key(&key, &sig), None);
    let key = vec![0u8; 65000];
    assert!(encode_signed_key(&key, &[1]).is_some());
}

#[test]
fn rejects_non_canonical_length() {
    // a short length written in the long form
    let ext = vec![0x30, 0x81, 0x06, 0x03, 0x01, 0x00, 0x03, 0x01, 0x00];
    assert_eq!(parse_signed_key_extension(&ext), None);
    let ext = vec![0x30, 0x82, 0x00, 0x06, 0x03, 0x01, 0x00, 0x03, 0x01, 0x00];
    assert_eq!(parse_signed_key_extension(&ext), None);
}

#[test]
fn rejects_unused_bits_trailing_bytes_and_missing_elements() {
    let unused = vec![0x30, 0x07, 0x03, 0x02, 0x01, 0xfe, 0x03, 0x01, 0x00];
    assert_eq!(parse_signed_key_extension(&unused), None);
    let mut trailing = encode_signed_key(&[1], &[2]).unwrap();
    trailing.push(0);
    assert_eq!(parse_signed_key_extension(&trailing), None);
    let one = vec![0x30, 0x03, 0x03, 0x01, 0x00];
    assert_eq!(parse_signed_key_extension(&one), None);
    let three = vec![0x30, 0x09, 0x03, 0x01, 0x00, 0x03, 0x01, 0x00, 0x03, 0x01, 0x00];
    assert_eq!(parse_signed_key_extension(&three), None);
    let wrong_tag = vec![0x31, 0x06, 0x03, 0x01, 0x00, 0x03, 0x01, 0x00];
    assert_eq!(parse_signed_key_extension(&wrong_tag), None);
    let truncated = vec![0x30, 0x05, 0x03, 0x01, 0x00, 0x03, 0x01];
    assert_eq!(parse_signed_key_extension(&truncated), None);
    assert_eq!(parse_signed_key_extension(&[]), None);
}

#[test]
fn element_readers() {
    assert_eq!(parse_tlv(0x04, &[0x04, 0x02, 9, 8, 7]), Some((vec![9, 8], vec![7])));
    assert_eq!(parse_tlv(0x04, &[0x05, 0x00]), None);
    assert_eq!(parse_bit_string(&[0x03, 0x02, 0x00, 0xaa, 0x01]), Some((vec![0xaa], vec![0x01])));
    assert_eq!(parse_bit_string(&[0x03, 0x00]), None);
}
