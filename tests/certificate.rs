use libp2p_identity::{Keypair, PeerId};
use quic_identity::certificate::{
    bind_certificate_key, extract_libp2p_peerid, gen_signed_keypair, identity_extension_oid, is_identity_extension,
    make_cert, peer_id_from_extensions, signing_message, IssueError, VerificationError,
};
use quic_identity::der::{encode_signed_key, parse_signed_key_extension};

fn extract(ext: &[u8], key: &[u8]) -> Result<PeerId, VerificationError> {
    extract_libp2p_peerid(ext, key).map(|p| {
        assert_eq!(p.bytes, p.peer_id.to_bytes());
        p.peer_id
    })
}

fn from_extensions(exts: &Vec<(Vec<u8>, Vec<u8>)>, key: &[u8]) -> Result<PeerId, VerificationError> {
    peer_id_from_extensions(exts, key).map(|p| p.peer_id)
}

fn keypair(seed: u8) -> Keypair {
    Keypair::ed25519_from_bytes([seed; 32]).unwrap()
}

#[test]
fn signing_message_is_prefix_and_key() {
    let m = signing_message(&[1, 2, 3]);
    assert_eq!(&m[..21], b"libp2p-tls-handshake:");
    assert_eq!(&m[21..], &[1, 2, 3]);
    assert_eq!(signing_message(&[]).len(), 21);
}

#[test]
fn identity_extension_oid_bytes_match() {
    assert!(is_identity_extension(&[43, 6, 1, 4, 1, 131, 162, 90, 1, 1]));
    assert!(!is_identity_extension(&[43, 6, 1, 4, 1, 131, 162, 90, 1, 2]));
    assert!(!is_identity_extension(&[43, 6, 1, 4, 1, 131, 162, 90, 1]));
    assert!(!is_identity_extension(&[]));
}

#[test]
fn round_trip() {
    let k = keypair(1);
    let cert = make_cert(&k).unwrap();
    assert_eq!(cert.certificate_key.len(), 65);
    assert_eq!(cert.certificate_key[0], 4);
    let peer = extract(&cert.extension, &cert.certificate_key).unwrap();
    assert_eq!(peer, k.public().to_peer_id());
    assert_eq!(cert.identity_key, k.public().encode_protobuf());
    let der = cert.der().unwrap();
    assert!(der.len() > 100);
    let ext_pos = der.windows(cert.extension.len()).position(|w| w == &cert.extension[..]);
    assert!(ext_pos.is_some());
    assert!(!cert.private_key_der().is_empty());
    assert_eq!(cert.oid, vec![1, 3, 6, 1, 4, 1, 53594, 1, 1]);
    assert!(cert.critical);
}

#[test]
fn identity_distinctness() {
    let a = keypair(2);
    let b = keypair(3);
    let ca = make_cert(&a).unwrap();
    let cb = make_cert(&b).unwrap();
    let pa = extract(&ca.extension, &ca.certificate_key).unwrap();
    let pb = extract(&cb.extension, &cb.certificate_key).unwrap();
    assert_eq!(pa, a.public().to_peer_id());
    assert_eq!(pb, b.public().to_peer_id());
    assert_ne!(pa, pb);
}

#[test]
fn tamper_with_signature() {
    let k = keypair(1);
    let s = gen_signed_keypair(&k).unwrap();
    for bit in [0usize, 7, 100, 511] {
        let mut sig = s.signature.clone();
        sig[bit / 8] ^= 1 << (bit % 8);
        let ext = encode_signed_key(&s.identity_key, &sig).unwrap();
        assert_eq!(
            extract(&ext, &s.certificate_key),
            Err(VerificationError::SignatureMismatch)
        );
    }
}

#[test]
fn tamper_with_key() {
    let k = keypair(1);
    let s = gen_signed_keypair(&k).unwrap();
    for i in 0..s.identity_key.len() {
        let mut key = s.identity_key.clone();
        key[i] ^= 0x01;
        let ext = encode_signed_key(&key, &s.signature).unwrap();
        let r = extract(&ext, &s.certificate_key);
        assert!(matches!(
            r,
            Err(VerificationError::SignatureMismatch) | Err(VerificationError::UnsupportedKey)
        ));
    }
}

#[test]
fn wrong_certificate_key_rejected() {
    let k = keypair(1);
    let s = gen_signed_keypair(&k).unwrap();
    let mut other = s.certificate_key.clone();
    other[10] ^= 0x80;
    assert_eq!(
        extract(&s.extension, &other),
        Err(VerificationError::SignatureMismatch)
    );
}

#[test]
fn malformed_extension_rejected() {
    let k = keypair(1);
    let s = gen_signed_keypair(&k).unwrap();
    let mut ext = s.extension.clone();
    ext[4] = 1; // unused-bits byte of the key's BIT STRING
    assert_eq!(
        extract(&ext, &s.certificate_key),
        Err(VerificationError::MalformedExtension)
    );
    assert_eq!(
        extract(&[0x30, 0x00], &s.certificate_key),
        Err(VerificationError::MalformedExtension)
    );
    assert_eq!(parse_signed_key_extension(&s.extension), Some((s.identity_key.clone(), s.signature.clone())));
}

#[test]
fn unsupported_key_rejected() {
    let ext = encode_signed_key(&[0xff, 0xff, 0xff], &[1, 2, 3]).unwrap();
    assert_eq!(
        extract(&ext, &[4u8; 65]),
        Err(VerificationError::UnsupportedKey)
    );
}

const OID_BYTES: [u8; 10] = [43, 6, 1, 4, 1, 131, 162, 90, 1, 1];

#[test]
fn identity_extension_oid_arcs() {
    assert_eq!(identity_extension_oid(), vec![1, 3, 6, 1, 4, 1, 53594, 1, 1]);
}

#[test]
fn peer_id_from_extension_list() {
    let k = keypair(4);
    let cert = make_cert(&k).unwrap();
    let other = (vec![85u8, 29, 17], vec![1u8, 2, 3]);
    let exts = vec![other.clone(), (OID_BYTES.to_vec(), cert.extension.clone())];
    assert_eq!(
        from_extensions(&exts, &cert.certificate_key),
        Ok(k.public().to_peer_id())
    );
    let none = vec![other.clone()];
    assert_eq!(
        from_extensions(&none, &cert.certificate_key),
        Err(VerificationError::MissingExtension)
    );
    assert_eq!(
        from_extensions(&vec![], &cert.certificate_key),
        Err(VerificationError::MissingExtension)
    );
    let first_bad = vec![(OID_BYTES.to_vec(), vec![0x30, 0x00]), (OID_BYTES.to_vec(), cert.extension.clone())];
    assert_eq!(
        from_extensions(&first_bad, &cert.certificate_key),
        Err(VerificationError::MalformedExtension)
    );
}

#[test]
fn two_issuances_same_identity() {
    let k = keypair(5);
    let c1 = make_cert(&k).unwrap();
    let c2 = make_cert(&k).unwrap();
    assert_ne!(c1.certificate_key, c2.certificate_key);
    let p1 = extract(&c1.extension, &c1.certificate_key).unwrap();
    let p2 = extract(&c2.extension, &c2.certificate_key).unwrap();
    assert_eq!(p1, p2);
    assert_eq!(extract(&c1.extension, &c1.certificate_key).unwrap(), p1);
}

#[test]
fn round_trip_other_key_kinds() {
    let sk = libp2p_identity::secp256k1::SecretKey::try_from_bytes([7u8; 32]).unwrap();
    let secp: Keypair = libp2p_identity::secp256k1::Keypair::from(sk).into();
    let sk = libp2p_identity::ecdsa::SecretKey::try_from_bytes([9u8; 32]).unwrap();
    let ecdsa: Keypair = libp2p_identity::ecdsa::Keypair::from(sk).into();
    for k in [secp, ecdsa] {
        let cert = make_cert(&k).unwrap();
        let peer = extract(&cert.extension, &cert.certificate_key).unwrap();
        assert_eq!(peer, k.public().to_peer_id());
    }
}

#[test]
fn binding_decisions() {
    let ck = [4u8; 65];
    assert_eq!(bind_certificate_key(&[4u8; 64], &[1], &[2], Some(true)), Err(IssueError::UnexpectedKeyLength));
    assert_eq!(bind_certificate_key(&ck, &[1], &[2], Some(false)), Err(IssueError::SignatureRejected));
    assert_eq!(bind_certificate_key(&ck, &[1], &[2], None), Err(IssueError::SignatureRejected));
    assert_eq!(bind_certificate_key(&ck, &vec![0u8; 70000], &[2], Some(true)), Err(IssueError::ExtensionTooLarge));
    assert_eq!(bind_certificate_key(&ck, &[1], &[2], Some(true)), Ok(encode_signed_key(&[1], &[2]).unwrap()));
}
