//! Issuing and reading the self-signed certificate that binds a fresh
//! P-256 signing key to a peer's long-term identity key.
//!
//! The certificate carries one critical extension whose value is
//! SEQUENCE { BIT STRING identity key, BIT STRING signature }, the signature
//! being the identity key's signature of the handshake prefix followed by
//! the certificate's own raw public key.
use vstd::prelude::*;
use crate::der::{
    copy_range, decode_signed_key_extension, encodable, encode_signed_key, lemma_extension_round_trip,
    parse_signed_key_extension, signed_key_extension,
};
use libp2p_identity::{DecodingError, Keypair, PeerId, PublicKey, SigningError};
use rcgen::RcgenError;

verus! {

#[verifier::external_type_specification]
#[verifier::external_body]
pub struct ExKeypair(Keypair);

#[verifier::external_type_specification]
#[verifier::external_body]
pub struct ExPublicKey(PublicKey);

#[verifier::external_type_specification]
#[verifier::external_body]
pub struct ExPeerId(PeerId);

#[verifier::external_type_specification]
#[verifier::external_body]
pub struct ExSigningError(SigningError);

#[verifier::external_type_specification]
#[verifier::external_body]
pub struct ExDecodingError(DecodingError);

#[verifier::external_type_specification]
#[verifier::external_body]
pub struct ExCertKeyPair(rcgen::KeyPair);

#[verifier::external_type_specification]
#[verifier::external_body]
pub struct ExCertificate(rcgen::Certificate);

#[verifier::external_type_specification]
#[verifier::external_body]
pub struct ExCustomExtension(rcgen::CustomExtension);

#[verifier::external_type_specification]
#[verifier::external_body]
pub struct ExRcgenError(RcgenError);

/// Whether `bytes` is the protobuf encoding of a public key of a supported
/// algorithm, as `PublicKey::try_decode_protobuf` judges it.
pub uninterp spec fn decodes_public_key(bytes: Seq<u8>) -> bool;

/// Relies on `Keypair::sign`: the long-term key's signature of `msg`; it
/// fails only for key kinds whose signer can fail.
pub assume_specification[ Keypair::sign ](keypair: &Keypair, msg: &[u8]) -> Result<Vec<u8>, SigningError>;

/// Relies on `Keypair::public`: the public half of the long-term key.
pub assume_specification[ Keypair::public ](keypair: &Keypair) -> PublicKey;

/// Relies on `PublicKey::encode_protobuf`: the key's protobuf encoding.
pub assume_specification[ PublicKey::encode_protobuf ](key: &PublicKey) -> Vec<u8>;


/// Whether `sig` is, under the public key whose protobuf encoding is `key`,
/// a valid signature of `msg`, as `PublicKey::verify` judges it.
pub uninterp spec fn signature_valid(key: Seq<u8>, msg: Seq<u8>, sig: Seq<u8>) -> bool;

/// Relies on `PublicKey::try_decode_protobuf` and `PublicKey::verify`: the
/// key decodes exactly when it is a supported key's encoding, and then the
/// verdict depends on the key bytes, the message and the signature alone.
#[verifier::external_body]
fn verify_with_encoded_key(key: &[u8], msg: &[u8], sig: &[u8]) -> (r: Option<bool>)
    ensures
        r is Some <==> decodes_public_key(key@),
        r matches Some(b) ==> b == signature_valid(key@, msg@, sig@),
{
    match PublicKey::try_decode_protobuf(key) {
        Ok(public_key) => Some(public_key.verify(msg, sig)),
        Err(_) => None,
    }
}

/// The bytes of the peer identifier derived from the public key whose
/// protobuf encoding is `key`, as `PublicKey::to_peer_id` derives it.
pub uninterp spec fn peer_id_of(key: Seq<u8>) -> Seq<u8>;

/// A peer identifier together with its bytes.
pub struct PeerIdentity {
    pub peer_id: PeerId,
    /// What `PeerId::to_bytes` gives for `peer_id`.
    pub bytes: Vec<u8>,
}

/// Relies on `PublicKey::try_decode_protobuf`, `PublicKey::to_peer_id` and
/// `PeerId::to_bytes`: the key decodes exactly when it is a supported
/// key's encoding, and the identifier derived from it depends on the key
/// bytes alone.
#[verifier::external_body]
fn peer_id_from_encoded_key(key: &[u8]) -> (r: Option<PeerIdentity>)
    ensures
        r is Some <==> decodes_public_key(key@),
        r matches Some(p) ==> p.bytes@ == peer_id_of(key@),
{
    match PublicKey::try_decode_protobuf(key) {
        Ok(public_key) => {
            let peer_id = public_key.to_peer_id();
            Some(PeerIdentity { peer_id, bytes: peer_id.to_bytes() })
        },
        Err(_) => None,
    }
}

/// Relies on `rcgen::KeyPair::public_key_raw`: the key pair's raw public key.
pub assume_specification<'a>[ rcgen::KeyPair::public_key_raw ](key_pair: &'a rcgen::KeyPair) -> &'a [u8];

/// Relies on `rcgen::Certificate::serialize_der`: the signed certificate in
/// DER.
pub assume_specification[ rcgen::Certificate::serialize_der ](certificate: &rcgen::Certificate) -> Result<Vec<u8>, RcgenError>;

/// Relies on `rcgen::KeyPair::generate` and `rcgen::KeyPair::serialize_der`:
/// a fresh random ECDSA P-256 key pair, generated here and so held locally,
/// with its private key in PKCS#8 DER.
#[verifier::external_body]
fn generate_p256_key_pair() -> (r: Result<(rcgen::KeyPair, Vec<u8>), RcgenError>) {
    let key_pair = rcgen::KeyPair::generate(&rcgen::PKCS_ECDSA_P256_SHA256)?;
    let private_key = key_pair.serialize_der();
    Ok((key_pair, private_key))
}

/// Relies on `rcgen::CustomExtension::from_oid_content`: an extension with
/// the given identifier and content.
pub assume_specification[ rcgen::CustomExtension::from_oid_content ](oid: &[u64], content: Vec<u8>) -> rcgen::CustomExtension;

/// Relies on `rcgen::CustomExtension::set_criticality`: sets whether the
/// extension is critical.
pub assume_specification[ rcgen::CustomExtension::set_criticality ](ext: &mut rcgen::CustomExtension, criticality: bool);

/// Relies on `rcgen::Certificate::from_params`: a self-signed ECDSA P-256
/// SHA-256 certificate, with an empty subject and no subject names, whose only extension is
/// `extension`, signed by `key_pair`.
#[verifier::external_body]
fn self_signed_certificate(extension: rcgen::CustomExtension, key_pair: rcgen::KeyPair) -> (r: Result<rcgen::Certificate, RcgenError>) {
    let mut params = rcgen::CertificateParams::new(Vec::<String>::new());
    params.distinguished_name = rcgen::DistinguishedName::new();
    params.custom_extensions.push(extension);
    params.alg = &rcgen::PKCS_ECDSA_P256_SHA256;
    params.key_pair = Some(key_pair);
    rcgen::Certificate::from_params(params)
}

/// Length of the uncompressed P-256 point that signs the certificate.
pub const CERT_KEY_LEN: usize = 65;

/// The text that precedes the certificate key in the signed message.
pub open spec fn signing_prefix() -> Seq<u8> {
    seq![
        108u8, 105, 98, 112, 50, 112, 45, 116, 108, 115, 45,
        104, 97, 110, 100, 115, 104, 97, 107, 101, 58,
    ]
}

/// What the identity key signs: the prefix, then the certificate's raw
/// public key.
pub open spec fn handshake_message(certificate_key: Seq<u8>) -> Seq<u8> {
    signing_prefix() + certificate_key
}

/// The object identifier of the identity extension, arc by arc.
pub open spec fn extension_oid() -> Seq<u64> {
    seq![1u64, 3, 6, 1, 4, 1, 53594, 1, 1]
}

/// The DER body of [`extension_oid`], as an X.509 walk reports it.
pub open spec fn extension_oid_bytes() -> Seq<u8> {
    seq![43u8, 6, 1, 4, 1, 131, 162, 90, 1, 1]
}

/// Builds the message that the identity key signs for `certificate_key`.
pub fn signing_message(certificate_key: &[u8]) -> (r: Vec<u8>)
    ensures
        r@ == handshake_message(certificate_key@),
{
    let mut r: Vec<u8> = vec![
        108u8, 105, 98, 112, 50, 112, 45, 116, 108, 115, 45,
        104, 97, 110, 100, 115, 104, 97, 107, 101, 58,
    ];
    assert(r@ =~= signing_prefix());
    let mut i: usize = 0;
    while i < certificate_key.len()
        invariant
            i <= certificate_key@.len(),
            r@ == signing_prefix() + certificate_key@.subrange(0, i as int),
        decreases certificate_key@.len() - i,
    {
        r.push(certificate_key[i]);
        i = i + 1;
        assert(r@ =~= signing_prefix() + certificate_key@.subrange(0, i as int));
    }
    assert(certificate_key@.subrange(0, i as int) =~= certificate_key@);
    r
}

/// Why a certificate could not be issued.
#[derive(Clone, Copy, Debug, PartialEq, Eq, Structural)]
pub enum IssueError {
    /// No signing key pair could be generated.
    KeyGeneration,
    /// The generated key is not an uncompressed P-256 point.
    UnexpectedKeyLength,
    /// The identity key refused to sign.
    Signing,
    /// The signature does not verify under the identity key, so no peer
    /// could accept the binding.
    SignatureRejected,
    /// The encoded identity key and signature do not fit the extension.
    ExtensionTooLarge,
    /// The certificate could not be assembled.
    Certificate,
}

/// Why a peer's identity extension was rejected.
#[derive(Clone, Copy, Debug, PartialEq, Eq, Structural)]
pub enum VerificationError {
    /// The extension value is not a canonical SEQUENCE of two BIT STRINGs
    /// with no unused bits.
    MalformedExtension,
    /// The embedded identity key is not a supported key's encoding.
    UnsupportedKey,
    /// The embedded signature does not verify against the embedded key and
    /// the certificate's own key.
    SignatureMismatch,
    /// The certificate has no identity extension.
    MissingExtension,
}

/// How extraction judges an extension value, `None` meaning it is accepted.
pub open spec fn verification_outcome(extension: Seq<u8>, certificate_key: Seq<u8>) -> Option<VerificationError> {
    match decode_signed_key_extension(extension) {
        None => Some(VerificationError::MalformedExtension),
        Some((key, signature)) => if !decodes_public_key(key) {
            Some(VerificationError::UnsupportedKey)
        } else if !signature_valid(key, handshake_message(certificate_key), signature) {
            Some(VerificationError::SignatureMismatch)
        } else {
            None
        },
    }
}

/// The encoded identity key that an extension value carries.
pub open spec fn embedded_key(extension: Seq<u8>) -> Seq<u8> {
    match decode_signed_key_extension(extension) {
        Some((key, _)) => key,
        None => Seq::empty(),
    }
}

/// The error of a result, `None` for success.
pub open spec fn error_of<T>(r: Result<T, VerificationError>) -> Option<VerificationError> {
    match r {
        Ok(_) => None,
        Err(e) => Some(e),
    }
}

/// A fresh signing key pair with the extension that binds it to an
/// identity.
pub struct SignedKeyPair {
    pub key_pair: rcgen::KeyPair,
    /// The private key of `key_pair` in PKCS#8 DER.
    pub private_key: Vec<u8>,
    /// The raw public key of `key_pair`.
    pub certificate_key: Vec<u8>,
    /// The protobuf encoding of the identity's public key.
    pub identity_key: Vec<u8>,
    /// The identity key's signature of the handshake message.
    pub signature: Vec<u8>,
    /// The extension value.
    pub extension: Vec<u8>,
}

/// A self-signed certificate for one connection attempt, with what its
/// identity extension holds.
pub struct IdentityCertificate {
    pub certificate: rcgen::Certificate,
    /// The certificate's private key in PKCS#8 DER.
    pub private_key: Vec<u8>,
    /// The identifier handed to the extension, arc by arc.
    pub oid: Vec<u64>,
    /// Whether the extension was marked critical.
    pub critical: bool,
    pub certificate_key: Vec<u8>,
    pub identity_key: Vec<u8>,
    pub signature: Vec<u8>,
    pub extension: Vec<u8>,
}

/// The facts that hold of every issued binding.
pub open spec fn binding_holds(
    certificate_key: Seq<u8>,
    identity_key: Seq<u8>,
    signature: Seq<u8>,
    extension: Seq<u8>,
) -> bool {
    &&& certificate_key.len() == CERT_KEY_LEN
    &&& decodes_public_key(identity_key)
    &&& signature_valid(identity_key, handshake_message(certificate_key), signature)
    &&& encodable(identity_key, signature)
    &&& extension == signed_key_extension(identity_key, signature)
}

impl SignedKeyPair {
    pub open spec fn wf(&self) -> bool {
        binding_holds(self.certificate_key@, self.identity_key@, self.signature@, self.extension@)
    }
}

impl IdentityCertificate {
    pub open spec fn wf(&self) -> bool {
        binding_holds(self.certificate_key@, self.identity_key@, self.signature@, self.extension@)
    }

    /// The certificate in DER, for the TLS layer.
    pub fn der(&self) -> Result<Vec<u8>, RcgenError> {
        self.certificate.serialize_der()
    }

    /// The certificate's private key in PKCS#8 DER, for the TLS layer.
    pub fn private_key_der(&self) -> (r: Vec<u8>)
        ensures
            r@ == self.private_key@,
    {
        self.private_key.clone()
    }
}

/// Decides, from what key generation, signing and verification gave, whether
/// the binding can be issued, and if so builds its extension value.
/// `verdict` is the identity key's judgement of `signature` over the
/// handshake message for `certificate_key` (`None`: the key did not decode).
pub fn bind_certificate_key(
    certificate_key: &[u8],
    identity_key: &[u8],
    signature: &[u8],
    verdict: Option<bool>,
) -> (r: Result<Vec<u8>, IssueError>)
    ensures
        certificate_key@.len() != CERT_KEY_LEN ==> r == Err::<Vec<u8>, IssueError>(
            IssueError::UnexpectedKeyLength,
        ),
        certificate_key@.len() == CERT_KEY_LEN && verdict != Some(true) ==> r == Err::<
            Vec<u8>,
            IssueError,
        >(IssueError::SignatureRejected),
        certificate_key@.len() == CERT_KEY_LEN && verdict == Some(true) ==> (r is Ok <==> encodable(
            identity_key@,
            signature@,
        )),
        r is Err ==> r == Err::<Vec<u8>, IssueError>(IssueError::UnexpectedKeyLength) || r == Err::<
            Vec<u8>,
            IssueError,
        >(IssueError::SignatureRejected) || r == Err::<Vec<u8>, IssueError>(
            IssueError::ExtensionTooLarge,
        ),
        r matches Ok(v) ==> v@ == signed_key_extension(identity_key@, signature@),
{
    if certificate_key.len() != CERT_KEY_LEN {
        return Err(IssueError::UnexpectedKeyLength);
    }
    match verdict {
        Some(true) => {},
        _ => return Err(IssueError::SignatureRejected),
    }
    match encode_signed_key(identity_key, signature) {
        Some(e) => Ok(e),
        None => Err(IssueError::ExtensionTooLarge),
    }
}

/// Generates a fresh P-256 signing key and has `keypair` sign the handshake
/// message for it; the result's extension binds the two.
pub fn gen_signed_keypair(keypair: &Keypair) -> (r: Result<SignedKeyPair, IssueError>)
    ensures
        r matches Ok(s) ==> s.wf(),
        r matches Err(e) ==> e != IssueError::Certificate,
{
    let (key_pair, private_key) = match generate_p256_key_pair() {
        Ok(k) => k,
        Err(_) => return Err(IssueError::KeyGeneration),
    };
    let raw = key_pair.public_key_raw();
    let certificate_key = copy_range(raw, 0, raw.len());
    let message = signing_message(certificate_key.as_slice());
    let signature = match keypair.sign(message.as_slice()) {
        Ok(sig) => sig,
        Err(_) => return Err(IssueError::Signing),
    };
    let identity_key = keypair.public().encode_protobuf();
    let verdict = verify_with_encoded_key(
        identity_key.as_slice(),
        message.as_slice(),
        signature.as_slice(),
    );
    let extension = bind_certificate_key(
        certificate_key.as_slice(),
        identity_key.as_slice(),
        signature.as_slice(),
        verdict,
    )?;
    Ok(SignedKeyPair { key_pair, private_key, certificate_key, identity_key, signature, extension })
}

/// The identifier of the identity extension, arc by arc.
pub fn identity_extension_oid() -> (r: Vec<u64>)
    ensures
        r@ == extension_oid(),
{
    let r: Vec<u64> = vec![1u64, 3, 6, 1, 4, 1, 53594, 1, 1];
    assert(r@ =~= extension_oid());
    r
}

/// Issues a self-signed certificate whose one critical extension binds a
/// fresh signing key to `keypair`'s identity.
pub fn make_cert(keypair: &Keypair) -> (r: Result<IdentityCertificate, IssueError>)
    ensures
        r matches Ok(c) ==> c.wf() && c.oid@ == extension_oid() && c.critical,
{
    let signed = gen_signed_keypair(keypair)?;
    let SignedKeyPair { key_pair, private_key, certificate_key, identity_key, signature, extension } =
        signed;
    let oid = identity_extension_oid();
    let critical = true;
    let mut ext = rcgen::CustomExtension::from_oid_content(oid.as_slice(), extension.clone());
    ext.set_criticality(critical);
    match self_signed_certificate(ext, key_pair) {
        Ok(certificate) => Ok(
            IdentityCertificate {
                certificate,
                private_key,
                oid,
                critical,
                certificate_key,
                identity_key,
                signature,
                extension,
            },
        ),
        Err(_) => Err(IssueError::Certificate),
    }
}

/// An issued certificate's extension reads back exactly: extraction finds
/// the identity key and the signature that issuance embedded.
pub proof fn lemma_issued_extension_reads_back(c: IdentityCertificate)
    requires
        c.wf(),
    ensures
        decode_signed_key_extension(c.extension@) == Some((c.identity_key@, c.signature@)),
{
    lemma_extension_round_trip(c.identity_key@, c.signature@);
}

/// Whether `oid`, the DER body of an extension's identifier, names the
/// identity extension.
pub fn is_identity_extension(oid: &[u8]) -> (r: bool)
    ensures
        r == (oid@ == extension_oid_bytes()),
{
    let expected: Vec<u8> = vec![43u8, 6, 1, 4, 1, 131, 162, 90, 1, 1];
    assert(expected@ =~= extension_oid_bytes());
    if oid.len() != expected.len() {
        return false;
    }
    let mut i: usize = 0;
    while i < oid.len()
        invariant
            i <= oid@.len(),
            oid@.len() == expected@.len(),
            expected@ == extension_oid_bytes(),
            forall|j: int| 0 <= j < i ==> oid@[j] == expected@[j],
        decreases oid@.len() - i,
    {
        if oid[i] != expected[i] {
            assert(oid@[i as int] != extension_oid_bytes()[i as int]);
            return false;
        }
        i = i + 1;
    }
    assert(oid@ =~= expected@);
    true
}

/// Reads the peer identity from the value of a certificate's identity
/// extension, `certificate_key` being the raw public key of that
/// certificate. The embedded signature must verify, under the embedded
/// identity key, against the handshake message for `certificate_key`.
pub fn extract_libp2p_peerid(extension: &[u8], certificate_key: &[u8]) -> (r: Result<PeerIdentity, VerificationError>)
    ensures
        error_of(r) == verification_outcome(extension@, certificate_key@),
        r matches Ok(p) ==> p.bytes@ == peer_id_of(embedded_key(extension@)),
{
    let (key, signature) = match parse_signed_key_extension(extension) {
        Some(p) => p,
        None => return Err(VerificationError::MalformedExtension),
    };
    let message = signing_message(certificate_key);
    match verify_with_encoded_key(key.as_slice(), message.as_slice(), signature.as_slice()) {
        None => Err(VerificationError::UnsupportedKey),
        Some(false) => Err(VerificationError::SignatureMismatch),
        Some(true) => match peer_id_from_encoded_key(key.as_slice()) {
            Some(p) => Ok(p),
            None => Err(VerificationError::UnsupportedKey),
        },
    }
}

/// Reads the peer identity from a certificate's extensions, each given as
/// the DER body of its identifier and its value, `certificate_key` being
/// the certificate's raw public key. The first identity extension decides;
/// without one the certificate is refused.
pub fn peer_id_from_extensions(extensions: &Vec<(Vec<u8>, Vec<u8>)>, certificate_key: &[u8]) -> (r: Result<PeerIdentity, VerificationError>)
    ensures
        (forall|i: int| 0 <= i < extensions@.len() ==> #[trigger] extensions@[i].0@ != extension_oid_bytes())
            ==> r matches Err(VerificationError::MissingExtension),
        forall|i: int|
            0 <= i < extensions@.len() && #[trigger] extensions@[i].0@ == extension_oid_bytes() && (
            forall|j: int| 0 <= j < i ==> extensions@[j].0@ != extension_oid_bytes()) ==> error_of(r)
                == verification_outcome(extensions@[i].1@, certificate_key@) && (r matches Ok(p)
                ==> p.bytes@ == peer_id_of(embedded_key(extensions@[i].1@))),
{
    let mut i: usize = 0;
    while i < extensions.len()
        invariant
            i <= extensions@.len(),
            forall|j: int| 0 <= j < i ==> #[trigger] extensions@[j].0@ != extension_oid_bytes(),
        decreases extensions@.len() - i,
    {
        if is_identity_extension(extensions[i].0.as_slice()) {
            return extract_libp2p_peerid(extensions[i].1.as_slice(), certificate_key);
        }
        i = i + 1;
    }
    Err(VerificationError::MissingExtension)
}

/// An issued certificate is accepted: extraction on its extension and its
/// own key succeeds.
pub proof fn lemma_issued_certificate_accepted(c: IdentityCertificate)
    requires
        c.wf(),
    ensures
        verification_outcome(c.extension@, c.certificate_key@) is None,
        embedded_key(c.extension@) == c.identity_key@,
{
    lemma_extension_round_trip(c.identity_key@, c.signature@);
}

} // verus!
