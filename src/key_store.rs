//! The server's RSA key pair for the encryption handshake of direct logins:
//! the DER form of its public key, decryption of the shared secret a client
//! sends, and the legacy session digest checked by the authentication service.
use num_bigint::BigInt;
use rsa::traits::PublicKeyParts;
use rsa::{Pkcs1v15Encrypt, RsaPrivateKey, RsaPublicKey};
use sha1::{Digest, Sha1};
use vstd::prelude::*;

use crate::wire::be_value;

verus! {

/// Modulus size of the server key. The protocol's key exchange is laid out for
/// keys of this size.
pub const KEY_BITS: usize = 1024;

#[verifier::external_type_specification]
#[verifier::external_body]
pub struct ExRsaPrivateKey(rsa::RsaPrivateKey);

#[verifier::external_type_specification]
#[verifier::external_body]
pub struct ExRsaPublicKey(rsa::RsaPublicKey);

#[verifier::external_type_specification]
#[verifier::external_body]
pub struct ExRsaError(rsa::Error);

/// Why a key operation failed.
#[derive(Debug, Clone, Copy, PartialEq, Eq, Structural)]
pub enum EncryptionError {
    FailedGenerateKey,
    FailedDecrypt,
}

/// The process-wide key pair and the DER encoding of its public half.
pub struct BikeShedKeyStore {
    pub _public_key: RsaPublicKey,
    pub private_key: RsaPrivateKey,
    pub public_key_der: Vec<u8>,
}

/// What the server sends to ask a client to enable encryption.
#[derive(Debug, Clone, PartialEq, Eq)]
pub struct EncryptionRequest {
    pub server_id: String,
    pub public_key: Vec<u8>,
    pub verification_token: [u8; 4],
    pub should_authenticate: bool,
}

/// The DER `SubjectPublicKeyInfo` of an RSA key with big-endian modulus `n`
/// and exponent `e`.
pub uninterp spec fn der_public_key(n: Seq<u8>, e: Seq<u8>) -> Seq<u8>;

/// The big-endian modulus of `key`.
pub uninterp spec fn rsa_modulus(key: RsaPrivateKey) -> Seq<u8>;

/// The big-endian public exponent of `key`.
pub uninterp spec fn rsa_exponent(key: RsaPrivateKey) -> Seq<u8>;

/// The big-endian modulus of a public key.
pub uninterp spec fn rsa_public_modulus(key: RsaPublicKey) -> Seq<u8>;

/// The big-endian exponent of a public key.
pub uninterp spec fn rsa_public_exponent(key: RsaPublicKey) -> Seq<u8>;

/// The PKCS#1 v1.5 plaintext of `data` under `key`, or `None` when the
/// ciphertext or its padding is bad.
pub uninterp spec fn pkcs1v15_plain(key: RsaPrivateKey, data: Seq<u8>) -> Option<Seq<u8>>;

/// The SHA-1 digest of `data`.
pub uninterp spec fn sha1_digest(data: Seq<u8>) -> Seq<u8>;

/// The two's-complement big-endian value of `b` (zero when empty).
pub open spec fn signed_be_value(b: Seq<u8>) -> int {
    if b.len() > 0 && b[0] >= 128 {
        be_value(b) - crate::wire::pow256(b.len())
    } else {
        be_value(b) as int
    }
}

/// The lowercase hexadecimal digit for `d < 16`.
pub open spec fn hex_digit(d: nat) -> char {
    if d < 10 {
        ((48 + d) as u8) as char
    } else {
        ((87 + d) as u8) as char
    }
}

/// `n` in lowercase hexadecimal, without leading zeros (`"0"` for zero).
pub open spec fn hex_of(n: nat) -> Seq<char>
    decreases n,
{
    if n < 16 {
        seq![hex_digit(n)]
    } else {
        hex_of(n / 16).push(hex_digit(n % 16))
    }
}

/// `i` in hexadecimal, with a leading `-` when negative.
pub open spec fn signed_hex_of_int(i: int) -> Seq<char> {
    if i < 0 {
        seq!['-'] + hex_of((-i) as nat)
    } else {
        hex_of(i as nat)
    }
}

/// The bytes read as a signed big-endian integer, written in hexadecimal.
pub open spec fn signed_hex(b: Seq<u8>) -> Seq<char> {
    signed_hex_of_int(signed_be_value(b))
}

/// The session digest: SHA-1 of the shared secret then the DER public key,
/// as a signed hexadecimal integer.
pub open spec fn session_digest(secret: Seq<u8>, public_key_der: Seq<u8>) -> Seq<char> {
    signed_hex(sha1_digest(secret + public_key_der))
}

/// The session digest is a function of the shared secret and the public key
/// alone: equal inputs give equal digests.
pub proof fn lemma_digest_deterministic(secret1: Seq<u8>, der1: Seq<u8>, secret2: Seq<u8>, der2: Seq<u8>)
    requires
        secret1 == secret2,
        der1 == der2,
    ensures
        session_digest(secret1, der1) == session_digest(secret2, der2),
{
}

proof fn lemma_hex_digit_injective(d1: nat, d2: nat)
    requires
        d1 < 16,
        d2 < 16,
        hex_digit(d1) == hex_digit(d2),
    ensures
        d1 == d2,
{
    let u1: u8 = if d1 < 10 { (48 + d1) as u8 } else { (87 + d1) as u8 };
    let u2: u8 = if d2 < 10 { (48 + d2) as u8 } else { (87 + d2) as u8 };
    assert(u1 as char as u32 == u1 as u32);
    assert(u2 as char as u32 == u2 as u32);
}

proof fn lemma_hex_of_shape(n: nat)
    ensures
        hex_of(n).len() >= 1,
        n >= 16 ==> hex_of(n).len() >= 2,
        hex_of(n)[0] != '-',
    decreases n,
{
    if n >= 16 {
        lemma_hex_of_shape(n / 16);
        assert(hex_of(n)[0] == hex_of(n / 16)[0]);
    } else {
        let u: u8 = if n < 10 { (48 + n) as u8 } else { (87 + n) as u8 };
        assert(u as char as u32 == u as u32);
        assert('-' as u32 == 45);
    }
}

proof fn lemma_hex_of_injective(n: nat, m: nat)
    requires
        hex_of(n) == hex_of(m),
    ensures
        n == m,
    decreases n,
{
    lemma_hex_of_shape(n);
    lemma_hex_of_shape(m);
    if n < 16 && m < 16 {
        lemma_hex_digit_injective(n, m);
    } else if n >= 16 && m >= 16 {
        let h = hex_of(n);
        assert(h.last() == hex_digit(n % 16));
        assert(hex_of(m).last() == hex_digit(m % 16));
        lemma_hex_digit_injective(n % 16, m % 16);
        assert(h.drop_last() =~= hex_of(n / 16));
        assert(hex_of(m).drop_last() =~= hex_of(m / 16));
        lemma_hex_of_injective(n / 16, m / 16);
    }
}

proof fn lemma_be_value_injective(a: Seq<u8>, b: Seq<u8>)
    requires
        a.len() == b.len(),
        be_value(a) == be_value(b),
    ensures
        a == b,
    decreases a.len(),
{
    if a.len() > 0 {
        let x = be_value(a.drop_last());
        let y = be_value(b.drop_last());
        let la = a.last() as nat;
        let lb = b.last() as nat;
        assert(x == y && la == lb) by (nonlinear_arith)
            requires
                x * 256 + la == y * 256 + lb,
                la < 256,
                lb < 256,
        ;
        lemma_be_value_injective(a.drop_last(), b.drop_last());
        assert(a =~= a.drop_last().push(a.last()));
        assert(b =~= b.drop_last().push(b.last()));
    } else {
        assert(a =~= b);
    }
}

/// Byte strings of one length with the same signed hexadecimal form are
/// equal: the session digest changes whenever the SHA-1 digest does.
pub proof fn lemma_signed_hex_injective(a: Seq<u8>, b: Seq<u8>)
    requires
        a.len() == b.len(),
        signed_hex(a) == signed_hex(b),
    ensures
        a == b,
{
    let va = signed_be_value(a);
    let vb = signed_be_value(b);
    crate::wire::lemma_be_value_bound(a);
    crate::wire::lemma_be_value_bound(b);
    if va < 0 && vb >= 0 {
        lemma_hex_of_shape(vb as nat);
        assert(signed_hex(a)[0] == '-');
    } else if va >= 0 && vb < 0 {
        lemma_hex_of_shape(va as nat);
        assert(signed_hex(b)[0] == '-');
    } else if va < 0 {
        assert(signed_hex(a) =~= seq!['-'] + hex_of((-va) as nat));
        assert(hex_of((-va) as nat) =~= signed_hex(a).drop_first());
        assert(hex_of((-vb) as nat) =~= signed_hex(b).drop_first());
        lemma_hex_of_injective((-va) as nat, (-vb) as nat);
        lemma_be_value_injective(a, b);
    } else {
        lemma_hex_of_injective(va as nat, vb as nat);
        lemma_be_value_injective(a, b);
    }
}

/// Relies on rsa's `RsaPrivateKey::new` with `rand::thread_rng()`, a
/// cryptographically secure generator: a fresh key whose modulus has exactly
/// `bits` bits (generation retries until it does), or its error.
#[verifier::external_body]
fn generate_private_key(bits: usize) -> (r: Result<RsaPrivateKey, rsa::Error>)
    requires
        KEY_BITS <= bits <= 4096,
        bits % 8 == 0,
    ensures
        r matches Ok(k) ==> rsa_modulus(k).len() == bits / 8 && rsa_modulus(k)[0] >= 128,
{
    RsaPrivateKey::new(&mut rand::thread_rng(), bits)
}

/// Relies on rsa's `From<&RsaPrivateKey> for RsaPublicKey`: the public half,
/// with the private key's modulus and exponent.
#[verifier::external_body]
fn public_half(key: &RsaPrivateKey) -> (r: RsaPublicKey)
    ensures
        rsa_public_modulus(r) == rsa_modulus(*key),
        rsa_public_exponent(r) == rsa_exponent(*key),
{
    RsaPublicKey::from(key)
}

/// Relies on rsa's `PublicKeyParts::n` and `BigUint::to_bytes_be`: the modulus
/// in big-endian bytes.
#[verifier::external_body]
fn modulus_be(key: &RsaPrivateKey) -> (r: Vec<u8>)
    ensures
        r@ == rsa_modulus(*key),
{
    key.n().to_bytes_be()
}

/// Relies on rsa's `PublicKeyParts::e` and `BigUint::to_bytes_be`: the public
/// exponent in big-endian bytes.
#[verifier::external_body]
fn exponent_be(key: &RsaPrivateKey) -> (r: Vec<u8>)
    ensures
        r@ == rsa_exponent(*key),
{
    key.e().to_bytes_be()
}

/// Relies on `rsa_der::public_key_to_der`: the DER public key of modulus `n`
/// and exponent `e`.
#[verifier::external_body]
fn public_key_to_der(n: &[u8], e: &[u8]) -> (r: Vec<u8>)
    ensures
        r@ == der_public_key(n@, e@),
{
    rsa_der::public_key_to_der(n, e)
}

/// Relies on rsa's `RsaPrivateKey::decrypt` with `Pkcs1v15Encrypt`: the
/// plaintext, at least 11 bytes shorter than the modulus (the padding takes
/// them), or an error when the padding or the ciphertext is bad. Without a
/// random generator the result depends on the key and the ciphertext alone.
#[verifier::external_body]
fn pkcs1v15_decrypt(key: &RsaPrivateKey, data: &[u8]) -> (r: Result<Vec<u8>, rsa::Error>)
    ensures
        match r {
            Ok(p) => pkcs1v15_plain(*key, data@) == Some(p@) && p@.len() + 11 <= rsa_modulus(
                *key,
            ).len(),
            Err(_) => pkcs1v15_plain(*key, data@) is None,
        },
{
    key.decrypt(Pkcs1v15Encrypt, data)
}

/// Relies on sha1's `Sha1::digest`: the 20-byte digest of `data`.
#[verifier::external_body]
fn sha1(data: &[u8]) -> (r: Vec<u8>)
    ensures
        r@ == sha1_digest(data@),
        r@.len() == 20,
{
    Sha1::digest(data).to_vec()
}

/// Relies on num-bigint's `BigInt::from_signed_bytes_be` and
/// `BigInt::to_str_radix(16)`: the two's-complement value of `b` in lowercase
/// hexadecimal, with `-` before a negative one.
#[verifier::external_body]
fn signed_hex_be(b: &[u8]) -> (r: String)
    ensures
        r@ == signed_hex(b@),
{
    BigInt::from_signed_bytes_be(b).to_str_radix(16)
}

/// Formats bytes as a signed big-endian integer in hexadecimal, as the
/// authentication service expects the session digest.
pub fn auth_digest(bytes: &[u8]) -> (r: String)
    ensures
        r@ == signed_hex(bytes@),
{
    signed_hex_be(bytes)
}

impl BikeShedKeyStore {
    /// Whether the stored public key is the private key's public half, and the
    /// cached DER bytes are its encoding.
    pub open spec fn wf(&self) -> bool {
        &&& rsa_public_modulus(self._public_key) == rsa_modulus(self.private_key)
        &&& rsa_public_exponent(self._public_key) == rsa_exponent(self.private_key)
        &&& self.public_key_der@ == der_public_key(rsa_modulus(self.private_key), rsa_exponent(self.private_key))
    }

    /// A store around `private_key`, with the DER form of its public half
    /// computed once.
    pub fn from_private_key(private_key: RsaPrivateKey) -> (r: Self)
        ensures
            r.private_key == private_key,
            r.wf(),
    {
        let public_key = public_half(&private_key);
        let n = modulus_be(&private_key);
        let e = exponent_be(&private_key);
        let public_key_der = public_key_to_der(n.as_slice(), e.as_slice());
        BikeShedKeyStore { _public_key: public_key, private_key, public_key_der }
    }

    /// A store with a freshly generated key of `KEY_BITS` bits: its modulus
    /// takes `KEY_BITS / 8` bytes with the top bit set.
    pub fn new() -> (r: Result<Self, EncryptionError>)
        ensures
            r matches Ok(s) ==> s.wf() && rsa_modulus(s.private_key).len() == KEY_BITS / 8
                && rsa_modulus(s.private_key)[0] >= 128,
            r matches Err(e) ==> e == EncryptionError::FailedGenerateKey,
    {
        match generate_private_key(KEY_BITS) {
            Ok(key) => Ok(Self::from_private_key(key)),
            Err(_) => Err(EncryptionError::FailedGenerateKey),
        }
    }

    /// The encryption request for a client: the cached public key with the
    /// given server id, token and authentication flag.
    pub fn encryption_request(&self, server_id: &str, verification_token: &[u8; 4], should_authenticate: bool) -> (r: EncryptionRequest)
        ensures
            r.server_id@ == server_id@,
            r.public_key@ == self.public_key_der@,
            r.verification_token == *verification_token,
            r.should_authenticate == should_authenticate,
    {
        EncryptionRequest {
            server_id: server_id.to_owned(),
            public_key: self.public_key_der.clone(),
            verification_token: *verification_token,
            should_authenticate,
        }
    }

    /// Decrypts a client's shared secret with the private key (PKCS#1 v1.5).
    pub fn decrypt(&self, data: &[u8]) -> (r: Result<Vec<u8>, EncryptionError>)
        ensures
            match r {
                Ok(p) => pkcs1v15_plain(self.private_key, data@) == Some(p@),
                Err(e) => pkcs1v15_plain(self.private_key, data@) is None && e
                    == EncryptionError::FailedDecrypt,
            },
    {
        match pkcs1v15_decrypt(&self.private_key, data) {
            Ok(plain) => Ok(plain),
            Err(_) => Err(EncryptionError::FailedDecrypt),
        }
    }

    /// The session digest of `secret` with this store's public key.
    pub fn get_digest(&self, secret: &[u8]) -> (r: String)
        ensures
            r@ == session_digest(secret@, self.public_key_der@),
    {
        let mut input: Vec<u8> = Vec::new();
        let mut i: usize = 0;
        while i < secret.len()
            invariant
                i <= secret@.len(),
                input@ == secret@.subrange(0, i as int),
            decreases secret@.len() - i,
        {
            input.push(secret[i]);
            i = i + 1;
        }
        let mut j: usize = 0;
        while j < self.public_key_der.len()
            invariant
                i == secret@.len(),
                j <= self.public_key_der@.len(),
                input@ == secret@ + self.public_key_der@.subrange(0, j as int),
            decreases self.public_key_der@.len() - j,
        {
            input.push(self.public_key_der[j]);
            j = j + 1;
        }
        assert(input@ =~= secret@ + self.public_key_der@);
        let hash = sha1(input.as_slice());
        auth_digest(hash.as_slice())
    }
}

} // verus!
