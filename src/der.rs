//! The wire format of the signed-key certificate extension: a DER SEQUENCE
//! of two BIT STRINGs, the encoded identity key and then its signature.
use vstd::prelude::*;

verus! {

/// DER tag of a SEQUENCE.
pub const TAG_SEQUENCE: u8 = 0x30;

/// DER tag of a BIT STRING.
pub const TAG_BIT_STRING: u8 = 0x03;

/// Largest content length that a length header of this format can state
/// (the short form, or a long form of one or two bytes).
pub const MAX_CONTENT_LEN: usize = 65535;

/// The canonical DER length header for a content of `n` bytes.
pub open spec fn length_header(n: nat) -> Seq<u8> {
    if n < 128 {
        seq![n as u8]
    } else if n < 256 {
        seq![0x81u8, n as u8]
    } else {
        seq![0x82u8, (n / 256) as u8, (n % 256) as u8]
    }
}

/// A tag, the length header of `content`, then `content`.
pub open spec fn tlv(tag: u8, content: Seq<u8>) -> Seq<u8> {
    seq![tag] + length_header(content.len()) + content
}

/// A BIT STRING with no unused bits holding `bytes`.
pub open spec fn bit_string(bytes: Seq<u8>) -> Seq<u8> {
    tlv(TAG_BIT_STRING, seq![0u8] + bytes)
}

/// The extension value: SEQUENCE { BIT STRING key, BIT STRING signature }.
pub open spec fn signed_key_extension(key: Seq<u8>, signature: Seq<u8>) -> Seq<u8> {
    tlv(TAG_SEQUENCE, bit_string(key) + bit_string(signature))
}

/// Whether the extension for `key` and `signature` has a body whose length
/// a header of this format can state.
pub open spec fn encodable(key: Seq<u8>, signature: Seq<u8>) -> bool {
    bit_string(key).len() + bit_string(signature).len() <= MAX_CONTENT_LEN
}

/// Reads a canonical length header at the start of `b`: the length it
/// states and the number of header bytes.
pub open spec fn decode_length(b: Seq<u8>) -> Option<(nat, nat)> {
    if b.len() >= 1 && b[0] < 128 {
        Some((b[0] as nat, 1))
    } else if b.len() >= 2 && b[0] == 0x81 && b[1] >= 128 {
        Some((b[1] as nat, 2))
    } else if b.len() >= 3 && b[0] == 0x82 && b[1] >= 1 {
        Some((b[1] as nat * 256 + b[2] as nat, 3))
    } else {
        None
    }
}

/// Reads one element with tag `tag` at the start of `b`: its content and
/// what follows it.
pub open spec fn decode_tlv(tag: u8, b: Seq<u8>) -> Option<(Seq<u8>, Seq<u8>)> {
    if b.len() >= 1 && b[0] == tag {
        match decode_length(b.subrange(1, b.len() as int)) {
            Some((n, h)) => if 1 + h + n <= b.len() {
                Some(
                    (
                        b.subrange(1 + h as int, 1 + h + n as int),
                        b.subrange(1 + h + n as int, b.len() as int),
                    ),
                )
            } else {
                None
            },
            None => None,
        }
    } else {
        None
    }
}

/// Reads one BIT STRING with no unused bits at the start of `b`.
pub open spec fn decode_bit_string(b: Seq<u8>) -> Option<(Seq<u8>, Seq<u8>)> {
    match decode_tlv(TAG_BIT_STRING, b) {
        Some((c, rest)) => if c.len() >= 1 && c[0] == 0 {
            Some((c.subrange(1, c.len() as int), rest))
        } else {
            None
        },
        None => None,
    }
}

/// Reads a whole extension value: the key and the signature it holds.
pub open spec fn decode_signed_key_extension(b: Seq<u8>) -> Option<(Seq<u8>, Seq<u8>)> {
    match decode_tlv(TAG_SEQUENCE, b) {
        Some((body, rest)) => if rest.len() == 0 {
            match decode_bit_string(body) {
                Some((key, r1)) => match decode_bit_string(r1) {
                    Some((signature, r2)) => if r2.len() == 0 {
                        Some((key, signature))
                    } else {
                        None
                    },
                    None => None,
                },
                None => None,
            }
        } else {
            None
        },
        None => None,
    }
}

pub open spec fn pair_view(r: Option<(Vec<u8>, Vec<u8>)>) -> Option<(Seq<u8>, Seq<u8>)> {
    match r {
        Some((a, b)) => Some((a@, b@)),
        None => None,
    }
}

proof fn lemma_length_header(n: nat, rest: Seq<u8>)
    requires
        n <= MAX_CONTENT_LEN,
    ensures
        decode_length(length_header(n) + rest) == Some((n, length_header(n).len())),
        1 <= length_header(n).len() <= 3,
{
    let b = length_header(n) + rest;
    if n >= 256 {
        assert(n / 256 * 256 + n % 256 == n);
        assert(1 <= n / 256 < 256);
        assert(b[1] as nat == n / 256);
        assert(b[2] as nat == n % 256);
    }
}

proof fn lemma_tlv(tag: u8, content: Seq<u8>, rest: Seq<u8>)
    requires
        content.len() <= MAX_CONTENT_LEN,
    ensures
        decode_tlv(tag, tlv(tag, content) + rest) == Some((content, rest)),
{
    let h = length_header(content.len());
    let b = tlv(tag, content) + rest;
    assert(b.subrange(1, b.len() as int) =~= h + (content + rest));
    lemma_length_header(content.len(), content + rest);
    let k: int = 1 + h.len() as int;
    assert(b.subrange(k, k + content.len()) =~= content);
    assert(b.subrange(k + content.len(), b.len() as int) =~= rest);
}

proof fn lemma_bit_string(bytes: Seq<u8>, rest: Seq<u8>)
    requires
        bytes.len() < MAX_CONTENT_LEN,
    ensures
        decode_bit_string(bit_string(bytes) + rest) == Some((bytes, rest)),
{
    let c = seq![0u8] + bytes;
    lemma_tlv(TAG_BIT_STRING, c, rest);
    assert(c.subrange(1, c.len() as int) =~= bytes);
}

/// Decoding an encoded extension gives back the key and the signature that
/// went into it.
pub proof fn lemma_extension_round_trip(key: Seq<u8>, signature: Seq<u8>)
    requires
        encodable(key, signature),
    ensures
        decode_signed_key_extension(signed_key_extension(key, signature)) == Some(
            (key, signature),
        ),
{
    let body = bit_string(key) + bit_string(signature);
    lemma_tlv(TAG_SEQUENCE, body, Seq::empty());
    assert(signed_key_extension(key, signature) + Seq::<u8>::empty() =~= signed_key_extension(
        key,
        signature,
    ));
    lemma_bit_string(key, bit_string(signature));
    lemma_bit_string(signature, Seq::empty());
    assert(bit_string(signature) + Seq::<u8>::empty() =~= bit_string(signature));
}

proof fn lemma_decode_length_canonical(b: Seq<u8>)
    requires
        decode_length(b) is Some,
    ensures
        ({
            let (n, h) = decode_length(b)->0;
            &&& n <= MAX_CONTENT_LEN
            &&& h <= b.len()
            &&& b.subrange(0, h as int) == length_header(n)
        }),
{
    let (n, h) = decode_length(b)->0;
    if b[0] == 0x82 && b.len() >= 3 && b[1] >= 1 && b[0] >= 128 {
        let hi = b[1] as nat;
        let lo = b[2] as nat;
        assert(n == hi * 256 + lo);
        assert((hi * 256 + lo) / 256 == hi && (hi * 256 + lo) % 256 == lo) by (nonlinear_arith)
            requires
                lo < 256,
        ;
        assert(n <= 65535) by (nonlinear_arith)
            requires
                n == hi * 256 + lo,
                hi < 256,
                lo < 256,
        ;
    }
    assert(b.subrange(0, h as int) =~= length_header(n));
}

proof fn lemma_decode_tlv_canonical(tag: u8, b: Seq<u8>)
    requires
        decode_tlv(tag, b) is Some,
    ensures
        ({
            let (c, rest) = decode_tlv(tag, b)->0;
            &&& c.len() <= MAX_CONTENT_LEN
            &&& b == tlv(tag, c) + rest
        }),
{
    let tail = b.subrange(1, b.len() as int);
    lemma_decode_length_canonical(tail);
    let (n, h) = decode_length(tail)->0;
    let (c, rest) = decode_tlv(tag, b)->0;
    assert(tail.subrange(0, h as int) =~= b.subrange(1, 1 + h as int));
    assert(b =~= tlv(tag, c) + rest);
}

proof fn lemma_decode_bit_string_canonical(b: Seq<u8>)
    requires
        decode_bit_string(b) is Some,
    ensures
        ({
            let (bytes, rest) = decode_bit_string(b)->0;
            &&& bytes.len() < MAX_CONTENT_LEN
            &&& b == bit_string(bytes) + rest
        }),
{
    lemma_decode_tlv_canonical(TAG_BIT_STRING, b);
    let (c, rest) = decode_tlv(TAG_BIT_STRING, b)->0;
    let (bytes, _) = decode_bit_string(b)->0;
    assert(c =~= seq![0u8] + bytes);
}

/// Only canonical encodings decode: an extension value that decodes is
/// exactly the encoding of the key and signature read from it.
pub proof fn lemma_extension_canonical(b: Seq<u8>)
    requires
        decode_signed_key_extension(b) is Some,
    ensures
        ({
            let (key, signature) = decode_signed_key_extension(b)->0;
            &&& encodable(key, signature)
            &&& b == signed_key_extension(key, signature)
        }),
{
    lemma_decode_tlv_canonical(TAG_SEQUENCE, b);
    let (body, rest) = decode_tlv(TAG_SEQUENCE, b)->0;
    lemma_decode_bit_string_canonical(body);
    let (key, r1) = decode_bit_string(body)->0;
    lemma_decode_bit_string_canonical(r1);
    let (signature, r2) = decode_bit_string(r1)->0;
    assert(body =~= bit_string(key) + bit_string(signature));
    assert(b =~= signed_key_extension(key, signature));
}

pub(crate) fn copy_range(b: &[u8], lo: usize, hi: usize) -> (r: Vec<u8>)
    requires
        lo <= hi <= b@.len(),
    ensures
        r@ == b@.subrange(lo as int, hi as int),
{
    let mut r: Vec<u8> = Vec::new();
    let mut i: usize = lo;
    while i < hi
        invariant
            lo <= i <= hi,
            hi <= b@.len(),
            r@ == b@.subrange(lo as int, i as int),
        decreases hi - i,
    {
        r.push(b[i]);
        i = i + 1;
        assert(r@ =~= b@.subrange(lo as int, i as int));
    }
    r
}

fn push_bytes(out: &mut Vec<u8>, bytes: &[u8])
    ensures
        final(out)@ == old(out)@ + bytes@,
{
    let mut i: usize = 0;
    while i < bytes.len()
        invariant
            i <= bytes@.len(),
            out@ == old(out)@ + bytes@.subrange(0, i as int),
        decreases bytes@.len() - i,
    {
        out.push(bytes[i]);
        i = i + 1;
        assert(out@ =~= old(out)@ + bytes@.subrange(0, i as int));
    }
    assert(bytes@.subrange(0, i as int) =~= bytes@);
}

fn push_length(out: &mut Vec<u8>, n: usize)
    requires
        n <= MAX_CONTENT_LEN,
    ensures
        final(out)@ == old(out)@ + length_header(n as nat),
{
    if n < 128 {
        out.push(n as u8);
    } else if n < 256 {
        out.push(0x81u8);
        out.push(n as u8);
    } else {
        out.push(0x82u8);
        out.push((n / 256) as u8);
        out.push((n % 256) as u8);
    }
    assert(out@ =~= old(out)@ + length_header(n as nat));
}

fn header_len(n: usize) -> (r: usize)
    ensures
        n <= MAX_CONTENT_LEN ==> r == length_header(n as nat).len(),
        1 <= r <= 3,
{
    if n < 128 {
        1
    } else if n < 256 {
        2
    } else {
        3
    }
}

fn push_bit_string(out: &mut Vec<u8>, bytes: &[u8])
    requires
        bytes@.len() < MAX_CONTENT_LEN,
    ensures
        final(out)@ == old(out)@ + bit_string(bytes@),
{
    out.push(TAG_BIT_STRING);
    push_length(out, bytes.len() + 1);
    out.push(0u8);
    push_bytes(out, bytes);
    assert(out@ =~= old(out)@ + bit_string(bytes@));
}

/// Encodes the extension value that binds `key` (an encoded identity key)
/// to `signature`; `None` when its body is too long for a length header of
/// this format.
pub fn encode_signed_key(key: &[u8], signature: &[u8]) -> (r: Option<Vec<u8>>)
    ensures
        r is Some <==> encodable(key@, signature@),
        r matches Some(v) ==> v@ == signed_key_extension(key@, signature@),
{
    if key.len() >= MAX_CONTENT_LEN || signature.len() >= MAX_CONTENT_LEN {
        return None;
    }
    let total = 2 + header_len(key.len() + 1) + key.len() + 2 + header_len(signature.len() + 1)
        + signature.len();
    if total > MAX_CONTENT_LEN {
        return None;
    }
    let mut body: Vec<u8> = Vec::new();
    push_bit_string(&mut body, key);
    push_bit_string(&mut body, signature);
    let mut out: Vec<u8> = Vec::new();
    out.push(TAG_SEQUENCE);
    push_length(&mut out, body.len());
    push_bytes(&mut out, body.as_slice());
    assert(out@ =~= signed_key_extension(key@, signature@));
    Some(out)
}

/// Reads one element with tag `tag` at the start of `b`, returning its
/// content and the bytes after it.
pub fn parse_tlv(tag: u8, b: &[u8]) -> (r: Option<(Vec<u8>, Vec<u8>)>)
    ensures
        pair_view(r) == decode_tlv(tag, b@),
{
    let n = b.len();
    if n < 2 || b[0] != tag {
        return None;
    }
    let ghost tail = b@.subrange(1, n as int);
    let first = b[1];
    let len: usize;
    let hdr: usize;
    if first < 128 {
        len = first as usize;
        hdr = 1;
    } else if first == 0x81 && n >= 3 && b[2] >= 128 {
        len = b[2] as usize;
        hdr = 2;
    } else if first == 0x82 && n >= 4 && b[2] >= 1 {
        len = (b[2] as usize) * 256 + b[3] as usize;
        hdr = 3;
    } else {
        assert(decode_length(tail) is None);
        return None;
    }
    assert(decode_length(tail) == Some((len as nat, hdr as nat)));
    if len > n - 1 - hdr {
        return None;
    }
    let content = copy_range(b, 1 + hdr, 1 + hdr + len);
    let rest = copy_range(b, 1 + hdr + len, n);
    Some((content, rest))
}

/// Reads one BIT STRING with no unused bits at the start of `b`, returning
/// the bytes it holds and the bytes after it.
pub fn parse_bit_string(b: &[u8]) -> (r: Option<(Vec<u8>, Vec<u8>)>)
    ensures
        pair_view(r) == decode_bit_string(b@),
{
    match parse_tlv(TAG_BIT_STRING, b) {
        Some((c, rest)) => {
            if c.len() >= 1 && c[0] == 0 {
                let bits = copy_range(c.as_slice(), 1, c.len());
                Some((bits, rest))
            } else {
                None
            }
        },
        None => None,
    }
}

/// Reads an extension value written by [`encode_signed_key`]: the encoded
/// identity key and the signature it carries. Anything else, including a
/// non-canonical length, nonzero unused bits, a missing or extra element,
/// or trailing bytes, is refused.
pub fn parse_signed_key_extension(b: &[u8]) -> (r: Option<(Vec<u8>, Vec<u8>)>)
    ensures
        pair_view(r) == decode_signed_key_extension(b@),
{
    let (body, rest) = match parse_tlv(TAG_SEQUENCE, b) {
        Some(p) => p,
        None => return None,
    };
    if rest.len() != 0 {
        return None;
    }
    let (key, r1) = match parse_bit_string(body.as_slice()) {
        Some(p) => p,
        None => return None,
    };
    let (signature, r2) = match parse_bit_string(r1.as_slice()) {
        Some(p) => p,
        None => return None,
    };
    if r2.len() != 0 {
        return None;
    }
    Some((key, signature))
}

} // verus!
