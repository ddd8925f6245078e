//! ed25519 signatures over hexadecimal keys, and wallets whose private key is
//! kept encrypted under a password.
//!
//! The private key is encrypted by XOR with a key stream: block `c` of the
//! stream is SHA-256 of the password, the salt (as hex text) and `c` as
//! eight little-endian bytes; the blocks follow each other from `c = 0` and
//! the stream is cut to the key's length.

use vstd::prelude::*;
use ed25519_dalek::{Signature, Signer, SigningKey, Verifier, VerifyingKey};
use rand::rngs::OsRng;
use vstd::utf8::encode_utf8;
use crate::binary::append_bytes;
use crate::hash::{hex_lower, hex_digit, hex_encode, sha256, sha256_digest};
use crate::text::{str_eq, digit_char, dec_u64, dec_nat};

verus! {

/// Byte length of an ed25519 private key.
pub const SECRET_KEY_LEN: usize = 32;
/// Byte length of an ed25519 public key.
pub const PUBLIC_KEY_LEN: usize = 32;
/// Byte length of an ed25519 signature.
pub const SIGNATURE_LEN: usize = 64;

/// Crypto errors.
#[derive(Debug, Clone, PartialEq, Eq)]
pub enum CryptoError {
    /// Text that is not hexadecimal.
    InvalidHex(String),
    /// A key of the wrong length.
    InvalidKeyLength { expected: usize, actual: usize },
    /// A signature of the wrong length.
    InvalidSignatureLength { expected: usize, actual: usize },
    /// A public key that is not a curve point.
    InvalidSignature,
    /// The password is empty.
    EmptyPassword,
    /// The wallet did not decrypt (wrong password or damaged data).
    WalletDecryptFailed,
}

/// A crypto error with its text viewed.
pub enum CryptoErrorV {
    InvalidHex(Seq<char>),
    InvalidKeyLength { expected: usize, actual: usize },
    InvalidSignatureLength { expected: usize, actual: usize },
    InvalidSignature,
    EmptyPassword,
    WalletDecryptFailed,
}

impl View for CryptoError {
    type V = CryptoErrorV;

    open spec fn view(&self) -> CryptoErrorV {
        match self {
            CryptoError::InvalidHex(s) => CryptoErrorV::InvalidHex(s@),
            CryptoError::InvalidKeyLength { expected, actual } => CryptoErrorV::InvalidKeyLength { expected: *expected, actual: *actual },
            CryptoError::InvalidSignatureLength { expected, actual } => CryptoErrorV::InvalidSignatureLength { expected: *expected, actual: *actual },
            CryptoError::InvalidSignature => CryptoErrorV::InvalidSignature,
            CryptoError::EmptyPassword => CryptoErrorV::EmptyPassword,
            CryptoError::WalletDecryptFailed => CryptoErrorV::WalletDecryptFailed,
        }
    }
}

/// The text of a crypto error.
pub open spec fn crypto_error_text(e: CryptoErrorV) -> Seq<char> {
    match e {
        CryptoErrorV::InvalidHex(s) => "十六进制编码不合法: "@ + s,
        CryptoErrorV::InvalidKeyLength { expected, actual } =>
            "密钥长度不合法: "@ + "expected="@ + dec_nat(expected as nat) + ", actual="@ + dec_nat(actual as nat),
        CryptoErrorV::InvalidSignatureLength { expected, actual } =>
            "签名长度不合法: "@ + "expected="@ + dec_nat(expected as nat) + ", actual="@ + dec_nat(actual as nat),
        CryptoErrorV::InvalidSignature => "签名验证失败"@,
        CryptoErrorV::EmptyPassword => "密码不能为空"@,
        CryptoErrorV::WalletDecryptFailed => "钱包解密失败"@,
    }
}

/// `prefix`, then `expected=`, then `, actual=` with the two numbers.
fn lengths_text(prefix: &str, expected: usize, actual: usize) -> (r: String)
    ensures
        r@ == prefix@ + "expected="@ + dec_nat(expected as nat) + ", actual="@ + dec_nat(actual as nat),
{
    let mut t = String::from_str(prefix);
    t.append("expected=");
    let e = dec_u64(expected as u64);
    t.append(e.as_str());
    t.append(", actual=");
    let a = dec_u64(actual as u64);
    t.append(a.as_str());
    t
}

impl CryptoError {
    /// The error as text.
    pub fn message(&self) -> (r: String)
        ensures
            r@ == crypto_error_text(self@),
    {
        match self {
            CryptoError::InvalidHex(s) => {
                let mut t = String::from_str("十六进制编码不合法: ");
                t.append(s.as_str());
                t
            },
            CryptoError::InvalidKeyLength { expected, actual } => {
                let t = lengths_text("密钥长度不合法: ", *expected, *actual);
                proof { assert(t@ =~= crypto_error_text(self@)); }
                t
            },
            CryptoError::InvalidSignatureLength { expected, actual } => {
                let t = lengths_text("签名长度不合法: ", *expected, *actual);
                proof { assert(t@ =~= crypto_error_text(self@)); }
                t
            },
            CryptoError::InvalidSignature => String::from_str("签名验证失败"),
            CryptoError::EmptyPassword => String::from_str("密码不能为空"),
            CryptoError::WalletDecryptFailed => String::from_str("钱包解密失败"),
        }
    }
}

// ---------------------------------------------------------------- hex

/// Whether `c` is a hexadecimal digit, in either case.
pub open spec fn is_hex_char(c: char) -> bool {
    ('0' <= c && c <= '9') || ('a' <= c && c <= 'f') || ('A' <= c && c <= 'F')
}

/// The value of a hexadecimal digit.
pub open spec fn hex_val(c: char) -> int {
    if '0' <= c && c <= '9' {
        (c as int) - 48
    } else if 'a' <= c && c <= 'f' {
        (c as int) - 87
    } else {
        (c as int) - 55
    }
}

/// Whether text is hexadecimal: an even number of hexadecimal digits.
pub open spec fn hex_valid(s: Seq<char>) -> bool {
    s.len() % 2 == 0 && forall|i: int| 0 <= i < s.len() ==> is_hex_char(#[trigger] s[i])
}

/// The bytes hexadecimal text stands for, two digits per byte, high nibble first.
pub open spec fn hex_bytes(s: Seq<char>) -> Seq<u8>
    decreases s.len(),
{
    if s.len() < 2 {
        Seq::empty()
    } else {
        hex_bytes(s.subrange(0, s.len() - 2)).push((hex_val(s[s.len() - 2]) * 16 + hex_val(s[s.len() - 1])) as u8)
    }
}

/// The `hex` crate's error text for bytes that are not hexadecimal.
pub uninterp spec fn hex_error_text(data: Seq<u8>) -> Seq<char>;

/// Calls `hex::decode` on the text's bytes. The contract claims what the
/// crate documents: hexadecimal text of an even number of digits, in either
/// case, decodes two digits per byte, high nibble first; other text fails,
/// with the crate's error text (named, not spelled out).
#[verifier::external_body]
fn hex_decode(value: &str) -> (r: Result<Vec<u8>, String>)
    ensures
        match r {
            Ok(b) => hex_valid(value@) && b@ == hex_bytes(value@),
            Err(m) => !hex_valid(value@) && m@ == hex_error_text(encode_utf8(value@)),
        },
{
    match hex::decode(value) {
        Ok(b) => Ok(b),
        Err(e) => Err(e.to_string()),
    }
}

/// A lowercase hex digit has the value it was written for.
pub proof fn lemma_hex_digit_val(d: int)
    requires
        0 <= d < 16,
    ensures
        is_hex_char(hex_digit(d)),
        hex_val(hex_digit(d)) == d,
{
}

/// Lowercase hex text of bytes is valid hex, twice as long, and decodes back to the bytes.
pub proof fn lemma_hex_roundtrip(b: Seq<u8>)
    ensures
        hex_lower(b).len() == 2 * b.len(),
        hex_valid(hex_lower(b)),
        hex_bytes(hex_lower(b)) == b,
    decreases b.len(),
{
    if b.len() > 0 {
        let p = b.drop_last();
        lemma_hex_roundtrip(p);
        let hi = (b.last() / 16) as int;
        let lo = (b.last() % 16) as int;
        lemma_hex_digit_val(hi);
        lemma_hex_digit_val(lo);
        let h = hex_lower(b);
        assert(h == hex_lower(p) + seq![hex_digit(hi), hex_digit(lo)]);
        assert(h.subrange(0, h.len() - 2) =~= hex_lower(p));
        assert forall|i: int| 0 <= i < h.len() implies is_hex_char(#[trigger] h[i]) by {
            if i < h.len() - 2 {
                assert(h[i] == hex_lower(p)[i]);
            }
        }
        assert(b =~= p.push(b.last()));
    }
}

// ---------------------------------------------------------------- ed25519

/// The ed25519 signature of `message` under the private key `secret`
/// (deterministic, RFC 8032).
pub uninterp spec fn ed25519_signature(secret: Seq<u8>, message: Seq<u8>) -> Seq<u8>;

/// The ed25519 public key of the private key `secret`.
pub uninterp spec fn ed25519_public_key(secret: Seq<u8>) -> Seq<u8>;

/// Whether 32 bytes are the encoding of a curve point, so a usable public key.
pub uninterp spec fn ed25519_point_valid(public: Seq<u8>) -> bool;

/// Whether `signature` is a valid signature of `message` under `public`.
pub uninterp spec fn ed25519_verifies(public: Seq<u8>, message: Seq<u8>, signature: Seq<u8>) -> bool;

/// Calls `SigningKey::from_bytes` and `Signer::sign` of `ed25519-dalek`.
/// The contract claims that the signature is the (deterministic) one of the
/// message under the key, 64 bytes long, and that it verifies under the
/// key's public key.
#[verifier::external_body]
fn ed25519_sign(secret: &[u8], message: &[u8]) -> (r: Vec<u8>)
    requires
        secret@.len() == 32,
    ensures
        r@ == ed25519_signature(secret@, message@),
        r@.len() == 64,
        ed25519_verifies(ed25519_public_key(secret@), message@, r@),
{
    let mut key = [0u8; 32];
    key.copy_from_slice(secret);
    SigningKey::from_bytes(&key).sign(message).to_bytes().to_vec()
}

/// Calls `SigningKey::verifying_key` of `ed25519-dalek`. The contract claims
/// that the result is the key's public key, 32 bytes that encode a point.
#[verifier::external_body]
fn ed25519_public(secret: &[u8]) -> (r: Vec<u8>)
    requires
        secret@.len() == 32,
    ensures
        r@ == ed25519_public_key(secret@),
        r@.len() == 32,
        ed25519_point_valid(r@),
{
    let mut key = [0u8; 32];
    key.copy_from_slice(secret);
    SigningKey::from_bytes(&key).verifying_key().to_bytes().to_vec()
}

/// Calls `VerifyingKey::from_bytes` of `ed25519-dalek`: whether the bytes
/// encode a curve point.
#[verifier::external_body]
fn ed25519_key_ok(public: &[u8]) -> (r: bool)
    requires
        public@.len() == 32,
    ensures
        r == ed25519_point_valid(public@),
{
    let mut key = [0u8; 32];
    key.copy_from_slice(public);
    VerifyingKey::from_bytes(&key).is_ok()
}

/// Calls `Verifier::verify` of `ed25519-dalek` on a valid public key:
/// whether the signature verifies.
#[verifier::external_body]
fn ed25519_check(public: &[u8], message: &[u8], signature: &[u8]) -> (r: bool)
    requires
        public@.len() == 32,
        signature@.len() == 64,
        ed25519_point_valid(public@),
    ensures
        r == ed25519_verifies(public@, message@, signature@),
{
    let mut key = [0u8; 32];
    key.copy_from_slice(public);
    let mut sig = [0u8; 64];
    sig.copy_from_slice(signature);
    match VerifyingKey::from_bytes(&key) {
        Ok(k) => k.verify(message, &Signature::from_bytes(&sig)).is_ok(),
        Err(_) => false,
    }
}

/// Draws a fresh private key from the operating system's generator. Nothing
/// is stated of the value but its length: it is random.
#[verifier::external_body]
fn random_secret() -> (r: Vec<u8>)
    ensures
        r@.len() == 32,
{
    SigningKey::generate(&mut OsRng).to_bytes().to_vec()
}

// ---------------------------------------------------------------- signatures

/// Decodes hexadecimal text.
fn decode_hex(value: &str) -> (r: Result<Vec<u8>, CryptoError>)
    ensures
        match r {
            Ok(b) => hex_valid(value@) && b@ == hex_bytes(value@),
            Err(e) => !hex_valid(value@) && e@ == CryptoErrorV::InvalidHex(hex_error_text(encode_utf8(value@))),
        },
{
    match hex_decode(value) {
        Ok(b) => Ok(b),
        Err(m) => Err(CryptoError::InvalidHex(m)),
    }
}

/// The bytes of hex text, or the error it gives.
pub open spec fn hex_result(s: Seq<char>) -> Result<Seq<u8>, CryptoErrorV> {
    if hex_valid(s) { Ok(hex_bytes(s)) } else { Err(CryptoErrorV::InvalidHex(hex_error_text(encode_utf8(s)))) }
}

/// Signing `message` with a hex private key: the hex signature.
pub open spec fn sign_spec(message: Seq<u8>, private_key_hex: Seq<char>) -> Result<Seq<char>, CryptoErrorV> {
    match hex_result(private_key_hex) {
        Err(e) => Err(e),
        Ok(k) => if k.len() != SECRET_KEY_LEN {
            Err(CryptoErrorV::InvalidKeyLength { expected: SECRET_KEY_LEN, actual: k.len() as usize })
        } else {
            Ok(hex_lower(ed25519_signature(k, message)))
        },
    }
}

/// Verifying a hex signature of `message` under a hex public key.
pub open spec fn verify_spec(message: Seq<u8>, signature_hex: Seq<char>, public_key_hex: Seq<char>) -> Result<bool, CryptoErrorV> {
    match hex_result(public_key_hex) {
        Err(e) => Err(e),
        Ok(pk) => if pk.len() != PUBLIC_KEY_LEN {
            Err(CryptoErrorV::InvalidKeyLength { expected: PUBLIC_KEY_LEN, actual: pk.len() as usize })
        } else {
            match hex_result(signature_hex) {
                Err(e) => Err(e),
                Ok(sig) => if sig.len() != SIGNATURE_LEN {
                    Err(CryptoErrorV::InvalidSignatureLength { expected: SIGNATURE_LEN, actual: sig.len() as usize })
                } else if !ed25519_point_valid(pk) {
                    Err(CryptoErrorV::InvalidSignature)
                } else {
                    Ok(ed25519_verifies(pk, message, sig))
                },
            }
        },
    }
}

/// A result, viewed.
pub open spec fn crypto_result<T>(r: Result<T, CryptoError>) -> Result<T, CryptoErrorV> {
    match r {
        Ok(x) => Ok(x),
        Err(e) => Err(e@),
    }
}

/// Signs `message` with a hex private key and returns the hex signature.
pub fn sign_message(message: &[u8], private_key_hex: &str) -> (r: Result<String, CryptoError>)
    ensures
        match sign_spec(message@, private_key_hex@) {
            Ok(s) => r is Ok && r->Ok_0@ == s,
            Err(e) => r is Err && r->Err_0@ == e,
        },
        r is Ok ==> ({
            let k = hex_bytes(private_key_hex@);
            &&& ed25519_signature(k, message@).len() == 64
            &&& ed25519_verifies(ed25519_public_key(k), message@, ed25519_signature(k, message@))
        }),
{
    let private_key = match decode_hex(private_key_hex) {
        Err(e) => { return Err(e); },
        Ok(k) => k,
    };
    if private_key.len() != SECRET_KEY_LEN {
        return Err(CryptoError::InvalidKeyLength { expected: SECRET_KEY_LEN, actual: private_key.len() });
    }
    let signature = ed25519_sign(private_key.as_slice(), message);
    Ok(hex_encode(signature.as_slice()))
}

/// Checks a hex signature of `message` under a hex public key: `Ok(false)`
/// when it does not verify, an error when the inputs are malformed.
pub fn verify_message(message: &[u8], signature_hex: &str, public_key_hex: &str) -> (r: Result<bool, CryptoError>)
    ensures
        crypto_result(r) == verify_spec(message@, signature_hex@, public_key_hex@),
{
    let public_key = match decode_hex(public_key_hex) {
        Err(e) => { return Err(e); },
        Ok(k) => k,
    };
    if public_key.len() != PUBLIC_KEY_LEN {
        return Err(CryptoError::InvalidKeyLength { expected: PUBLIC_KEY_LEN, actual: public_key.len() });
    }
    let signature = match decode_hex(signature_hex) {
        Err(e) => { return Err(e); },
        Ok(s) => s,
    };
    if signature.len() != SIGNATURE_LEN {
        return Err(CryptoError::InvalidSignatureLength { expected: SIGNATURE_LEN, actual: signature.len() });
    }
    if !ed25519_key_ok(public_key.as_slice()) {
        return Err(CryptoError::InvalidSignature);
    }
    Ok(ed25519_check(public_key.as_slice(), message, signature.as_slice()))
}

/// Whether a hex private key and a hex public key belong together: the
/// private key is the hex of some 32-byte secret and the public key the hex
/// of that secret's public key, a usable curve point.
pub open spec fn matching_pair(private_key_hex: Seq<char>, public_key_hex: Seq<char>) -> bool {
    exists|secret: Seq<u8>| {
        &&& secret.len() == 32
        &&& #[trigger] hex_lower(secret) == private_key_hex
        &&& public_key_hex == hex_lower(ed25519_public_key(secret))
        &&& ed25519_public_key(secret).len() == 32
        &&& ed25519_point_valid(ed25519_public_key(secret))
    }
}

/// Signs `message` with the key pair's private key and checks the signature
/// under its public key. For a pair whose keys belong together, such as one
/// that `create_wallet` makes, the signature always verifies.
pub fn sign_and_verify_with_key_pair(message: &[u8], key_pair: &WalletKeyPair) -> (r: Result<bool, CryptoError>)
    ensures
        match sign_spec(message@, key_pair.private_key@) {
            Err(e) => r is Err && r->Err_0@ == e,
            Ok(s) => crypto_result(r) == verify_spec(message@, s, key_pair.public_key@),
        },
        matching_pair(key_pair.private_key@, key_pair.public_key@) ==> r == Ok::<bool, CryptoError>(true),
{
    let signature = match sign_message(message, key_pair.private_key.as_str()) {
        Err(e) => {
            proof {
                if matching_pair(key_pair.private_key@, key_pair.public_key@) {
                    let secret = choose|secret: Seq<u8>| {
                        &&& secret.len() == 32
                        &&& #[trigger] hex_lower(secret) == key_pair.private_key@
                        &&& key_pair.public_key@ == hex_lower(ed25519_public_key(secret))
                        &&& ed25519_public_key(secret).len() == 32
                        &&& ed25519_point_valid(ed25519_public_key(secret))
                    };
                    lemma_hex_roundtrip(secret);
                }
            }
            return Err(e);
        },
        Ok(s) => s,
    };
    let r = verify_message(message, signature.as_str(), key_pair.public_key.as_str());
    proof {
        if matching_pair(key_pair.private_key@, key_pair.public_key@) {
            let secret = choose|secret: Seq<u8>| {
                &&& secret.len() == 32
                &&& #[trigger] hex_lower(secret) == key_pair.private_key@
                &&& key_pair.public_key@ == hex_lower(ed25519_public_key(secret))
                &&& ed25519_public_key(secret).len() == 32
                &&& ed25519_point_valid(ed25519_public_key(secret))
            };
            lemma_hex_roundtrip(secret);
            let sig = ed25519_signature(secret, message@);
            lemma_hex_roundtrip(sig);
            lemma_hex_roundtrip(ed25519_public_key(secret));
            assert(signature@ == hex_lower(sig));
        }
    }
    r
}

// ---------------------------------------------------------------- wallets

/// A wallet: public data and the encrypted private key.
#[derive(Debug, Clone, PartialEq, Eq)]
pub struct Wallet {
    /// Address (derived from the public key).
    pub address: String,
    /// Public key, in hex.
    pub public_key: String,
    /// Encrypted private key, in hex.
    pub encrypted_private_key: String,
    /// Salt, in hex.
    pub kdf_salt: String,
    /// Checksum of the private key, to detect a wrong password.
    pub private_key_checksum: String,
}

/// The keys returned when a wallet is created.
#[derive(Debug, Clone, PartialEq, Eq)]
pub struct WalletKeyPair {
    /// Address (the wallet's).
    pub address: String,
    /// Public key, in hex.
    pub public_key: String,
    /// Private key, in hex.
    pub private_key: String,
}

/// The eight little-endian bytes of `c`.
pub open spec fn le_bytes(c: u64) -> Seq<u8> {
    Seq::new(8, |i: int| ((c as int / pow256(i)) % 256) as u8)
}

/// 256 to the power `i`.
pub open spec fn pow256(i: int) -> int
    decreases i,
{
    if i <= 0 { 1 } else { 256 * pow256(i - 1) }
}

/// Block `c` of the key stream.
pub open spec fn stream_block(password: Seq<char>, salt_hex: Seq<char>, c: u64) -> Seq<u8> {
    sha256_digest(encode_utf8(password) + encode_utf8(salt_hex) + le_bytes(c))
}

/// The key stream cut to `len` bytes: byte `i` is byte `i % 32` of block `i / 32`.
pub open spec fn key_stream_spec(password: Seq<char>, salt_hex: Seq<char>, len: nat) -> Seq<u8> {
    Seq::new(len, |i: int| stream_block(password, salt_hex, (i / 32) as u64)[i % 32])
}

/// XOR of two byte strings, as long as the shorter.
pub open spec fn xor_spec(a: Seq<u8>, b: Seq<u8>) -> Seq<u8> {
    Seq::new(if a.len() < b.len() { a.len() } else { b.len() }, |i: int| a[i] ^ b[i])
}

/// The checksum of a hex private key: the first 8 bytes of its SHA-256, in hex.
pub open spec fn checksum_spec(private_key_hex: Seq<char>) -> Seq<char> {
    hex_lower(sha256_digest(encode_utf8(private_key_hex)).subrange(0, 8))
}

/// The address of a public key: `0x` and the first 20 bytes of its SHA-256, in hex.
pub open spec fn address_spec(public_key: Seq<u8>) -> Seq<char> {
    "0x"@ + hex_lower(sha256_digest(public_key).subrange(0, 20))
}

/// Encrypting a hex private key under a password and hex salt.
pub open spec fn encrypt_spec(private_key_hex: Seq<char>, password: Seq<char>, salt_hex: Seq<char>) -> Result<Seq<char>, CryptoErrorV> {
    if password.len() == 0 {
        Err(CryptoErrorV::EmptyPassword)
    } else {
        match hex_result(private_key_hex) {
            Err(e) => Err(e),
            Ok(k) => Ok(hex_lower(xor_spec(k, key_stream_spec(password, salt_hex, k.len())))),
        }
    }
}

/// Decrypting a hex encrypted private key under a password and hex salt.
pub open spec fn decrypt_spec(encrypted_hex: Seq<char>, password: Seq<char>, salt_hex: Seq<char>) -> Result<Seq<char>, CryptoErrorV> {
    if password.len() == 0 {
        Err(CryptoErrorV::EmptyPassword)
    } else {
        match hex_result(encrypted_hex) {
            Err(e) => Err(e),
            Ok(c) => {
                let plain = xor_spec(c, key_stream_spec(password, salt_hex, c.len()));
                if plain.len() != 32 { Err(CryptoErrorV::WalletDecryptFailed) } else { Ok(hex_lower(plain)) }
            },
        }
    }
}

/// SHA-256 of `data`, cut to its first `n` bytes, in hex.
fn digest_prefix_hex(data: &[u8], n: usize) -> (r: String)
    requires
        n <= 32,
    ensures
        r@ == hex_lower(sha256_digest(data@).subrange(0, n as int)),
{
    let digest = sha256(data);
    let mut prefix: Vec<u8> = Vec::new();
    let mut i: usize = 0;
    while i < n
        invariant
            i <= n <= 32,
            digest@.len() == 32,
            prefix@ == digest@.subrange(0, i as int),
        decreases n - i,
    {
        prefix.push(digest[i]);
        proof { assert(prefix@ =~= digest@.subrange(0, i + 1)); }
        i = i + 1;
    }
    hex_encode(prefix.as_slice())
}

/// The checksum of a hex private key.
fn checksum_hex(private_key_hex: &str) -> (r: String)
    ensures
        r@ == checksum_spec(private_key_hex@),
{
    digest_prefix_hex(private_key_hex.as_bytes(), 8)
}

/// The address of a public key.
fn derive_address(public_key: &[u8]) -> (r: String)
    ensures
        r@ == address_spec(public_key@),
{
    let mut s = String::from_str("0x");
    let h = digest_prefix_hex(public_key, 20);
    s.append(h.as_str());
    s
}

/// The eight little-endian bytes of `c`.
fn to_le_bytes(c: u64) -> (r: Vec<u8>)
    ensures
        r@ == le_bytes(c),
{
    let mut out: Vec<u8> = Vec::new();
    let mut x: u64 = c;
    let mut i: usize = 0;
    while i < 8
        invariant
            i <= 8,
            out@.len() == i,
            x as int == c as int / pow256(i as int),
            forall|j: int| 0 <= j < i ==> #[trigger] out@[j] == ((c as int / pow256(j)) % 256) as u8,
        decreases 8 - i,
    {
        proof {
            assert(pow256(i + 1) == 256 * pow256(i as int));
            assert(pow256(i as int) > 0) by {
                lemma_pow256_pos(i as int);
            }
            assert(c as int / pow256(i + 1) == (c as int / pow256(i as int)) / 256) by {
                vstd::arithmetic::div_mod::lemma_div_denominator(c as int, pow256(i as int), 256);
            }
        }
        out.push((x % 256) as u8);
        x = x / 256;
        i = i + 1;
    }
    proof { assert(out@ =~= le_bytes(c)); }
    out
}

/// Powers of 256 are positive.
pub proof fn lemma_pow256_pos(i: int)
    ensures
        pow256(i) > 0,
    decreases i,
{
    if i > 0 {
        lemma_pow256_pos(i - 1);
    }
}

/// The key stream for `password` and `salt_hex`, `len` bytes long.
fn derive_key_stream(password: &str, salt_hex: &str, len: usize) -> (r: Vec<u8>)
    ensures
        r@ == key_stream_spec(password@, salt_hex@, len as nat),
{
    let mut stream: Vec<u8> = Vec::new();
    let mut counter: u64 = 0;
    let ghost p = password@;
    let ghost s = salt_hex@;
    while stream.len() < len
        invariant
            stream@.len() == 32 * counter,
            p == password@,
            s == salt_hex@,
            32 * counter < len + 32,
            forall|j: int| 0 <= j < stream@.len() ==> #[trigger] stream@[j] == stream_block(p, s, (j / 32) as u64)[j % 32],
        decreases len + 32 - stream@.len(),
    {
        let mut input: Vec<u8> = Vec::new();
        append_bytes(&mut input, password.as_bytes());
        append_bytes(&mut input, salt_hex.as_bytes());
        let c = to_le_bytes(counter);
        append_bytes(&mut input, c.as_slice());
        let block = sha256(input.as_slice());
        proof { assert(input@ =~= encode_utf8(p) + encode_utf8(s) + le_bytes(counter)); }
        let ghost before = stream@;
        append_bytes(&mut stream, block.as_slice());
        proof {
            assert forall|j: int| 0 <= j < stream@.len() implies #[trigger] stream@[j] == stream_block(p, s, (j / 32) as u64)[j % 32] by {
                if j < before.len() {
                    assert(stream@[j] == before[j]);
                } else {
                    assert(j / 32 == counter && j % 32 == j - 32 * counter);
                    assert(stream@[j] == block@[j - before.len()]);
                }
            }
        }
        counter = counter + 1;
    }
    let mut out: Vec<u8> = Vec::new();
    let mut i: usize = 0;
    while i < len
        invariant
            i <= len <= stream@.len(),
            out@ == stream@.subrange(0, i as int),
        decreases len - i,
    {
        out.push(stream[i]);
        proof { assert(out@ =~= stream@.subrange(0, i + 1)); }
        i = i + 1;
    }
    proof { assert(out@ =~= key_stream_spec(p, s, len as nat)); }
    out
}

/// XOR of two byte strings, as long as the shorter.
fn xor_bytes(left: &[u8], right: &[u8]) -> (r: Vec<u8>)
    ensures
        r@ == xor_spec(left@, right@),
{
    let n = if left.len() < right.len() { left.len() } else { right.len() };
    let mut out: Vec<u8> = Vec::new();
    let mut i: usize = 0;
    while i < n
        invariant
            i <= n,
            n <= left@.len(),
            n <= right@.len(),
            out@.len() == i,
            forall|j: int| 0 <= j < i ==> #[trigger] out@[j] == left@[j] ^ right@[j],
        decreases n - i,
    {
        out.push(left[i] ^ right[i]);
        i = i + 1;
    }
    proof { assert(out@ =~= xor_spec(left@, right@)); }
    out
}

/// Encrypts a hex private key under a password and hex salt.
fn encrypt_private_key(private_key_hex: &str, password: &str, salt_hex: &str) -> (r: Result<String, CryptoError>)
    ensures
        match encrypt_spec(private_key_hex@, password@, salt_hex@) {
            Ok(s) => r is Ok && r->Ok_0@ == s,
            Err(e) => r is Err && r->Err_0@ == e,
        },
{
    if password.unicode_len() == 0 {
        return Err(CryptoError::EmptyPassword);
    }
    let private_key = match decode_hex(private_key_hex) {
        Err(e) => { return Err(e); },
        Ok(k) => k,
    };
    let key_stream = derive_key_stream(password, salt_hex, private_key.len());
    let cipher = xor_bytes(private_key.as_slice(), key_stream.as_slice());
    Ok(hex_encode(cipher.as_slice()))
}

/// Decrypts a hex encrypted private key under a password and hex salt.
pub fn decrypt_private_key(encrypted_private_key_hex: &str, password: &str, salt_hex: &str) -> (r: Result<String, CryptoError>)
    ensures
        match decrypt_spec(encrypted_private_key_hex@, password@, salt_hex@) {
            Ok(s) => r is Ok && r->Ok_0@ == s,
            Err(e) => r is Err && r->Err_0@ == e,
        },
{
    if password.unicode_len() == 0 {
        return Err(CryptoError::EmptyPassword);
    }
    let cipher = match decode_hex(encrypted_private_key_hex) {
        Err(e) => { return Err(e); },
        Ok(c) => c,
    };
    let key_stream = derive_key_stream(password, salt_hex, cipher.len());
    let plain = xor_bytes(cipher.as_slice(), key_stream.as_slice());
    if plain.len() != 32 {
        return Err(CryptoError::WalletDecryptFailed);
    }
    Ok(hex_encode(plain.as_slice()))
}

/// The address a hex public key derives.
pub open spec fn address_from_hex_spec(public_key_hex: Seq<char>) -> Result<Seq<char>, CryptoErrorV> {
    match hex_result(public_key_hex) {
        Err(e) => Err(e),
        Ok(pk) => if pk.len() != 32 {
            Err(CryptoErrorV::InvalidKeyLength { expected: 32, actual: pk.len() as usize })
        } else if !ed25519_point_valid(pk) {
            Err(CryptoErrorV::InvalidHex("公钥内容不合法"@))
        } else {
            Ok(address_spec(pk))
        },
    }
}

/// The address of a hex public key, to check that a signer owns an address.
pub fn derive_address_from_public_key(public_key_hex: &str) -> (r: Result<String, CryptoError>)
    ensures
        match address_from_hex_spec(public_key_hex@) {
            Ok(s) => r is Ok && r->Ok_0@ == s,
            Err(e) => r is Err && r->Err_0@ == e,
        },
{
    let public_key = match decode_hex(public_key_hex) {
        Err(e) => { return Err(e); },
        Ok(k) => k,
    };
    if public_key.len() != 32 {
        return Err(CryptoError::InvalidKeyLength { expected: 32, actual: public_key.len() });
    }
    if !ed25519_key_ok(public_key.as_slice()) {
        return Err(CryptoError::InvalidHex(String::from_str("公钥内容不合法")));
    }
    Ok(derive_address(public_key.as_slice()))
}

/// A wallet, viewed.
pub struct WalletV {
    pub address: Seq<char>,
    pub public_key: Seq<char>,
    pub encrypted_private_key: Seq<char>,
    pub kdf_salt: Seq<char>,
    pub private_key_checksum: Seq<char>,
}

impl View for Wallet {
    type V = WalletV;

    open spec fn view(&self) -> WalletV {
        WalletV {
            address: self.address@,
            public_key: self.public_key@,
            encrypted_private_key: self.encrypted_private_key@,
            kdf_salt: self.kdf_salt@,
            private_key_checksum: self.private_key_checksum@,
        }
    }
}

/// The wallet and key pair made from a private key and salt under a
/// non-empty password.
pub open spec fn wallet_spec(password: Seq<char>, secret: Seq<u8>, salt: Seq<u8>) -> (WalletV, (Seq<char>, Seq<char>, Seq<char>)) {
    let private_key = hex_lower(secret);
    let public_key = hex_lower(ed25519_public_key(secret));
    let address = address_spec(ed25519_public_key(secret));
    let salt_hex = hex_lower(salt);
    let encrypted = hex_lower(xor_spec(secret, key_stream_spec(password, salt_hex, secret.len())));
    (
        WalletV {
            address,
            public_key,
            encrypted_private_key: encrypted,
            kdf_salt: salt_hex,
            private_key_checksum: checksum_spec(private_key),
        },
        (address, public_key, private_key),
    )
}

/// A wallet for a fresh random private key and salt, the private key
/// encrypted under `password`.
pub fn create_wallet(password: &str) -> (r: Result<(Wallet, WalletKeyPair), CryptoError>)
    ensures
        password@.len() == 0 ==> r == Err::<(Wallet, WalletKeyPair), CryptoError>(CryptoError::EmptyPassword),
        password@.len() > 0 ==> r is Ok && exists|secret: Seq<u8>, salt: Seq<u8>| secret.len() == 32 && salt.len() == 32
            && #[trigger] wallet_spec(password@, secret, salt) == (r->Ok_0.0@, (r->Ok_0.1.address@, r->Ok_0.1.public_key@, r->Ok_0.1.private_key@)),
        password@.len() > 0 ==> matching_pair(r->Ok_0.1.private_key@, r->Ok_0.1.public_key@),
        password@.len() > 0 ==> decrypt_spec(r->Ok_0.0.encrypted_private_key@, password@, r->Ok_0.0.kdf_salt@)
                == Ok::<Seq<char>, CryptoErrorV>(r->Ok_0.1.private_key@)
            && checksum_spec(r->Ok_0.1.private_key@) == r->Ok_0.0.private_key_checksum@,
{
    if password.unicode_len() == 0 {
        return Err(CryptoError::EmptyPassword);
    }
    let secret = random_secret();
    let salt = random_secret();
    let r = wallet_from_secret(password, secret.as_slice(), salt.as_slice());
    proof {
        let w = wallet_spec(password@, secret@, salt@);
        assert(w == (r.0@, (r.1.address@, r.1.public_key@, r.1.private_key@)));
        assert(hex_lower(secret@) == r.1.private_key@);
        law_wallet_decrypts(password@, secret@, salt@);
    }
    Ok(r)
}

/// The wallet and key pair for a given private key and salt, the private
/// key encrypted under a non-empty `password`.
pub fn wallet_from_secret(password: &str, secret: &[u8], salt: &[u8]) -> (r: (Wallet, WalletKeyPair))
    requires
        password@.len() > 0,
        secret@.len() == 32,
    ensures
        wallet_spec(password@, secret@, salt@) == (r.0@, (r.1.address@, r.1.public_key@, r.1.private_key@)),
        ed25519_public_key(secret@).len() == 32,
        ed25519_point_valid(ed25519_public_key(secret@)),
{
    let private_key = hex_encode(secret);
    let public = ed25519_public(secret);
    let public_key = hex_encode(public.as_slice());
    let address = derive_address(public.as_slice());
    let salt_hex = hex_encode(salt);
    let key_stream = derive_key_stream(password, salt_hex.as_str(), secret.len());
    let cipher = xor_bytes(secret, key_stream.as_slice());
    let encrypted_private_key = hex_encode(cipher.as_slice());
    let private_key_checksum = checksum_hex(private_key.as_str());
    let wallet = Wallet {
        address: address.clone(),
        public_key: public_key.clone(),
        encrypted_private_key,
        kdf_salt: salt_hex,
        private_key_checksum,
    };
    let key_pair = WalletKeyPair { address, public_key, private_key };
    (wallet, key_pair)
}

impl Wallet {
    /// The hex private key, decrypted with `password` and checked against
    /// the stored checksum.
    pub fn decrypt_private_key(&self, password: &str) -> (r: Result<String, CryptoError>)
        ensures
            match decrypt_spec(self.encrypted_private_key@, password@, self.kdf_salt@) {
                Err(e) => r is Err && r->Err_0@ == e,
                Ok(k) => if checksum_spec(k) != self.private_key_checksum@ {
                    r == Err::<String, CryptoError>(CryptoError::WalletDecryptFailed)
                } else {
                    r is Ok && r->Ok_0@ == k
                },
            },
    {
        let private_key = match decrypt_private_key(self.encrypted_private_key.as_str(), password, self.kdf_salt.as_str()) {
            Err(e) => { return Err(e); },
            Ok(k) => k,
        };
        let sum = checksum_hex(private_key.as_str());
        if !str_eq(sum.as_str(), self.private_key_checksum.as_str()) {
            return Err(CryptoError::WalletDecryptFailed);
        }
        Ok(private_key)
    }

    /// Signs `message` with the wallet's private key, decrypted with `password`.
    pub fn sign_message(&self, message: &[u8], password: &str) -> (r: Result<String, CryptoError>)
        ensures
            match decrypt_spec(self.encrypted_private_key@, password@, self.kdf_salt@) {
                Err(e) => r is Err && r->Err_0@ == e,
                Ok(k) => if checksum_spec(k) != self.private_key_checksum@ {
                    r == Err::<String, CryptoError>(CryptoError::WalletDecryptFailed)
                } else {
                    match sign_spec(message@, k) {
                        Ok(s) => r is Ok && r->Ok_0@ == s,
                        Err(e) => r is Err && r->Err_0@ == e,
                    }
                },
            },
            r is Ok ==> ({
                let key = hex_bytes(decrypt_spec(self.encrypted_private_key@, password@, self.kdf_salt@)->Ok_0);
                &&& ed25519_signature(key, message@).len() == 64
                &&& ed25519_verifies(ed25519_public_key(key), message@, ed25519_signature(key, message@))
            }),
            r is Ok && matching_pair(decrypt_spec(self.encrypted_private_key@, password@, self.kdf_salt@)->Ok_0, self.public_key@)
                ==> verify_spec(message@, r->Ok_0@, self.public_key@) == Ok::<bool, CryptoErrorV>(true),
    {
        let private_key = match self.decrypt_private_key(password) {
            Err(e) => { return Err(e); },
            Ok(k) => k,
        };
        let r = sign_message(message, private_key.as_str());
        proof {
            if r is Ok && matching_pair(private_key@, self.public_key@) {
                let secret = choose|secret: Seq<u8>| {
                    &&& secret.len() == 32
                    &&& #[trigger] hex_lower(secret) == private_key@
                    &&& self.public_key@ == hex_lower(ed25519_public_key(secret))
                    &&& ed25519_public_key(secret).len() == 32
                    &&& ed25519_point_valid(ed25519_public_key(secret))
                };
                lemma_hex_roundtrip(secret);
                let sig = ed25519_signature(secret, message@);
                lemma_hex_roundtrip(sig);
                lemma_hex_roundtrip(ed25519_public_key(secret));
                assert(r->Ok_0@ == hex_lower(sig));
            }
        }
        r
    }

    /// Checks a hex signature of `message` under the wallet's public key.
    pub fn verify_message(&self, message: &[u8], signature_hex: &str) -> (r: Result<bool, CryptoError>)
        ensures
            crypto_result(r) == verify_spec(message@, signature_hex@, self.public_key@),
    {
        verify_message(message, signature_hex, self.public_key.as_str())
    }
}

/// XOR with the same stream twice gives the bytes back.
pub proof fn lemma_xor_twice(a: Seq<u8>, k: Seq<u8>)
    requires
        a.len() <= k.len(),
    ensures
        xor_spec(xor_spec(a, k), k) == a,
{
    let x = xor_spec(a, k);
    let y = xor_spec(x, k);
    assert forall|i: int| 0 <= i < a.len() implies #[trigger] y[i] == a[i] by {
        let ai = a[i];
        let ki = k[i];
        assert((ai ^ ki) ^ ki == ai) by (bit_vector);
    }
    assert(y =~= a);
}

/// Encrypting a 32-byte private key under a non-empty password and then
/// decrypting it with the same password and salt gives the key back.
pub proof fn law_encrypt_then_decrypt(secret: Seq<u8>, password: Seq<char>, salt_hex: Seq<char>)
    requires
        secret.len() == 32,
        password.len() > 0,
    ensures
        encrypt_spec(hex_lower(secret), password, salt_hex) is Ok,
        decrypt_spec(encrypt_spec(hex_lower(secret), password, salt_hex)->Ok_0, password, salt_hex) == Ok::<Seq<char>, CryptoErrorV>(hex_lower(secret)),
{
    lemma_hex_roundtrip(secret);
    let k = key_stream_spec(password, salt_hex, 32);
    let x = xor_spec(secret, k);
    assert(x.len() == 32);
    lemma_hex_roundtrip(x);
    lemma_xor_twice(secret, k);
}

/// A wallet made from a private key decrypts, with its password, to that
/// key, and the key matches the wallet's checksum.
pub proof fn law_wallet_decrypts(password: Seq<char>, secret: Seq<u8>, salt: Seq<u8>)
    requires
        secret.len() == 32,
        password.len() > 0,
    ensures
        ({
            let (w, keys) = wallet_spec(password, secret, salt);
            &&& decrypt_spec(w.encrypted_private_key, password, w.kdf_salt) == Ok::<Seq<char>, CryptoErrorV>(keys.2)
            &&& checksum_spec(keys.2) == w.private_key_checksum
        }),
{
    lemma_hex_roundtrip(secret);
    law_encrypt_then_decrypt(secret, password, hex_lower(salt));
    let (w, keys) = wallet_spec(password, secret, salt);
    assert(encrypt_spec(hex_lower(secret), password, hex_lower(salt)) == Ok::<Seq<char>, CryptoErrorV>(w.encrypted_private_key));
}

/// A message signed with a hex private key verifies under the matching hex
/// public key (given what the signing library states of its keys and
/// signatures).
pub proof fn law_sign_then_verify(message: Seq<u8>, secret: Seq<u8>)
    requires
        secret.len() == 32,
        ed25519_signature(secret, message).len() == 64,
        ed25519_public_key(secret).len() == 32,
        ed25519_point_valid(ed25519_public_key(secret)),
        ed25519_verifies(ed25519_public_key(secret), message, ed25519_signature(secret, message)),
    ensures
        sign_spec(message, hex_lower(secret)) == Ok::<Seq<char>, CryptoErrorV>(hex_lower(ed25519_signature(secret, message))),
        verify_spec(message, hex_lower(ed25519_signature(secret, message)), hex_lower(ed25519_public_key(secret))) == Ok::<bool, CryptoErrorV>(true),
{
    lemma_hex_roundtrip(secret);
    lemma_hex_roundtrip(ed25519_signature(secret, message));
    lemma_hex_roundtrip(ed25519_public_key(secret));
}

} // verus!
