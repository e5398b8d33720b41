//! Session cryptography: one fresh 512-bit RSA keypair per connection, a
//! PKCS#1 DER wire encoding for public keys, and PKCS#1 v1.5 encryption of
//! whole messages.
//!
//! A key is identified throughout the crate by the DER bytes of its public
//! half: two keys with the same bytes behave the same, so contracts speak of
//! those bytes and never of the opaque `rsa` values themselves.

use vstd::prelude::*;

use rsa::pkcs1::DecodeRsaPublicKey;
use rsa::pkcs1::EncodeRsaPublicKey;

verus! {

#[verifier::external_type_specification]
#[verifier::external_body]
pub struct ExRsaPublicKey(rsa::RsaPublicKey);

#[verifier::external_type_specification]
#[verifier::external_body]
pub struct ExRsaPrivateKey(rsa::RsaPrivateKey);

/// Bytes in one ciphertext block under a session key: the byte length of the
/// 512-bit modulus. Every message travels as exactly one such block.
pub const CIPHERTEXT_LEN: usize = 64;

/// The largest plaintext PKCS#1 v1.5 padding fits in one block: the block
/// length less the scheme's eleven bytes of padding. A longer message fails
/// to encrypt; there is no multi-block framing.
pub const MAX_PLAINTEXT_LEN: usize = 53;

/// Whether `rsa::RsaPublicKey::from_pkcs1_der` accepts these bytes; the
/// outcome depends on the bytes alone.
pub uninterp spec fn parses_as_key(der: Seq<u8>) -> bool;

/// Whether these bytes are the PKCS#1 DER of the public half of a 512-bit
/// keypair produced by `rsa::RsaPrivateKey::new`: a well-formed RSA key whose
/// modulus fills one ciphertext block, and under which encryption is inverted
/// by the matching private half.
pub uninterp spec fn generated_key(der: Seq<u8>) -> bool;

/// What `rsa::RsaPrivateKey::decrypt` with `Pkcs1v15Encrypt` padding returns
/// (`None` for an error) for the keypair identified by `key` (the DER bytes
/// of its public half) and this ciphertext; decryption takes no randomness,
/// so the result is a function of the key and the ciphertext alone.
pub uninterp spec fn decrypt_of(key: Seq<u8>, ciphertext: Seq<u8>) -> Option<Seq<u8>>;

/// The public half of a session keypair, as handed to or received from a
/// peer, together with the exact DER bytes that identify it.
pub struct PublicKey {
    raw: rsa::RsaPublicKey,
    der: Vec<u8>,
}

impl View for PublicKey {
    type V = Seq<u8>;

    closed spec fn view(&self) -> Seq<u8> {
        self.der@
    }
}

/// The private half of a session keypair, identified by the DER bytes of its
/// public half.
pub struct PrivateKey {
    raw: rsa::RsaPrivateKey,
    pub_der: Vec<u8>,
}

impl View for PrivateKey {
    type V = Seq<u8>;

    closed spec fn view(&self) -> Seq<u8> {
        self.pub_der@
    }
}

/// Relies on `rsa::RsaPrivateKey::new` (fresh 512-bit keypair from `OsRng`,
/// a deliberately small modulus for a fast handshake), `rsa::RsaPublicKey::from`
/// (the public half of that pair) and `to_pkcs1_der`/`from_pkcs1_der` (a
/// deterministic DER round trip): the two halves carry the same identifying
/// bytes, and those bytes parse back to the same key.
#[verifier::external_body]
pub fn generate_keypair() -> (r: Option<(PrivateKey, PublicKey)>)
    ensures
        match r {
            Some(pair) => {
                &&& pair.0@ == pair.1@
                &&& generated_key(pair.1@)
                &&& parses_as_key(pair.1@)
            },
            None => true,
        },
{
    let mut rng = rand::rngs::OsRng;
    let private = match rsa::RsaPrivateKey::new(&mut rng, 512) {
        Ok(k) => k,
        Err(_) => return None,
    };
    let public = rsa::RsaPublicKey::from(&private);
    let der = match public.to_pkcs1_der() {
        Ok(doc) => doc.as_bytes().to_vec(),
        Err(_) => return None,
    };
    Some((PrivateKey { raw: private, pub_der: der.clone() }, PublicKey { raw: public, der }))
}

/// Relies on `rsa::RsaPublicKey::from_pkcs1_der`: a deterministic parse of
/// the bytes a peer sent; the returned key is identified by exactly those
/// bytes.
#[verifier::external_body]
pub fn parse_public_key(der: &[u8]) -> (r: Option<PublicKey>)
    ensures
        r is Some <==> parses_as_key(der@),
        match r {
            Some(pk) => pk@ == der@,
            None => true,
        },
{
    match rsa::RsaPublicKey::from_pkcs1_der(der) {
        Ok(key) => Some(PublicKey { raw: key, der: der.to_vec() }),
        Err(_) => None,
    }
}

/// Relies on `rsa::RsaPublicKey::encrypt` with `Pkcs1v15Encrypt` padding and
/// `OsRng`: the padding is random, so two calls on the same input may differ,
/// but under a well-formed generated key every ciphertext it returns decrypts,
/// with the matching private half, to exactly the plaintext given here; such
/// a key's modulus fills one block, padding rejects exactly the messages the
/// block cannot hold, and the ciphertext is one full block.
#[verifier::external_body]
pub fn encrypt(key: &PublicKey, plaintext: &[u8]) -> (r: Option<Vec<u8>>)
    ensures
        generated_key(key@) ==> (r is Some <==> plaintext@.len() <= MAX_PLAINTEXT_LEN),
        match r {
            Some(c) => generated_key(key@) ==> decrypt_of(key@, c@) == Some(plaintext@)
                && c@.len() == CIPHERTEXT_LEN,
            None => true,
        },
{
    let mut rng = rand::rngs::OsRng;
    key.raw.encrypt(&mut rng, rsa::pkcs1v15::Pkcs1v15Encrypt, plaintext).ok()
}

/// Relies on `rsa::RsaPrivateKey::decrypt` with `Pkcs1v15Encrypt` padding:
/// deterministic (no blinding randomness), so the result is exactly the
/// function of key and ciphertext that `decrypt_of` names.
#[verifier::external_body]
pub fn decrypt(key: &PrivateKey, ciphertext: &[u8]) -> (r: Option<Vec<u8>>)
    ensures
        match r {
            Some(p) => decrypt_of(key@, ciphertext@) == Some(p@),
            None => decrypt_of(key@, ciphertext@) is None,
        },
{
    key.raw.decrypt(rsa::pkcs1v15::Pkcs1v15Encrypt, ciphertext).ok()
}

/// The fixed wire encoding of a public key: the DER bytes that identify it.
pub fn serialize_public_key(key: &PublicKey) -> (r: Vec<u8>)
    ensures
        r@ == key@,
{
    let mut out: Vec<u8> = Vec::new();
    let mut i: usize = 0;
    while i < key.der.len()
        invariant
            i <= key.der@.len(),
            out@ =~= key.der@.subrange(0, i as int),
        decreases key.der@.len() - i,
    {
        out.push(key.der[i]);
        i = i + 1;
    }
    proof {
        assert(out@ =~= key.der@);
    }
    out
}

/// The keys a responder holds after the two-message exchange: the initiator's
/// public key as received, and the fresh local pair whose public half is sent
/// back.
pub struct HandshakeKeys {
    pub peer_key: PublicKey,
    pub local_private: PrivateKey,
    pub local_public: PublicKey,
}

/// The responder half of the handshake, after the peer's serialized public
/// key has been read: parse it, then generate the fresh local keypair whose
/// public half is to be sent back. Fails exactly when the peer's bytes do not
/// parse or when key generation itself fails.
pub fn respond_handshake(peer_der: &[u8]) -> (r: Option<HandshakeKeys>)
    ensures
        !parses_as_key(peer_der@) ==> r is None,
        match r {
            Some(hk) => {
                &&& hk.peer_key@ == peer_der@
                &&& parses_as_key(peer_der@)
                &&& hk.local_private@ == hk.local_public@
                &&& generated_key(hk.local_public@)
                &&& parses_as_key(hk.local_public@)
            },
            None => true,
        },
{
    let peer_key = match parse_public_key(peer_der) {
        Some(k) => k,
        None => return None,
    };
    let (local_private, local_public) = match generate_keypair() {
        Some(p) => p,
        None => return None,
    };
    Some(HandshakeKeys { peer_key, local_private, local_public })
}

} // verus!
