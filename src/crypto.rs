//! Sign-then-encrypt (Ed25519, then ChaCha20-Poly1305) and key management.

use vstd::prelude::*;
use chacha20poly1305::aead::{Aead, KeyInit};
use chacha20poly1305::{ChaCha20Poly1305, Key, Nonce};
use ed25519_dalek::{Signature, Signer, SigningKey, Verifier, VerifyingKey};
use rand::RngCore;
use crate::bytes::append_bytes;
use crate::envelope::{CryptoInfo, CryptoInfoView, Envelope, EnvelopeMetadataView, EnvelopeView};
use crate::error::{AriaError, AriaResult};

verus! {

#[verifier::external_type_specification]
#[verifier::external_body]
pub struct ExAeadError(chacha20poly1305::Error);

pub const SIGNATURE_LEN: usize = 64;

pub const NONCE_LEN: usize = 12;

/// The Ed25519 public key of a 32-byte secret key.
pub uninterp spec fn ed25519_public(secret: Seq<u8>) -> Seq<u8>;

/// The Ed25519 signature of `msg` under a 32-byte secret key.
pub uninterp spec fn ed25519_signature(secret: Seq<u8>, msg: Seq<u8>) -> Seq<u8>;

/// Whether Ed25519 verification accepts `sig` for `msg` under `public`.
pub uninterp spec fn ed25519_accepts(public: Seq<u8>, msg: Seq<u8>, sig: Seq<u8>) -> bool;

/// ChaCha20-Poly1305 ciphertext and tag of `msg` under `key` and `nonce`.
pub uninterp spec fn chacha_seal(key: Seq<u8>, nonce: Seq<u8>, msg: Seq<u8>) -> Seq<u8>;

/// What ChaCha20-Poly1305 decryption of `ct` under `key` and `nonce`
/// yields, or `None` where the tag does not check.
pub uninterp spec fn chacha_open(key: Seq<u8>, nonce: Seq<u8>, ct: Seq<u8>) -> Option<Seq<u8>>;

/// Relies on `rand::rngs::OsRng` (`RngCore::fill_bytes`): 32 bytes from the
/// operating system's generator. Nothing is promised of them.
#[verifier::external_body]
fn random_key() -> (r: [u8; 32]) {
    let mut k = [0u8; 32];
    rand::rngs::OsRng.fill_bytes(&mut k);
    k
}

/// Relies on `SigningKey::from_bytes` and `SigningKey::verifying_key`.
#[verifier::external_body]
fn ed25519_public_key(secret: &[u8; 32]) -> (r: [u8; 32])
    ensures
        r@ == ed25519_public(secret@),
{
    SigningKey::from_bytes(secret).verifying_key().to_bytes()
}

/// Relies on `Signer::sign` of `SigningKey`: the signature, which
/// verification under the matching public key accepts.
#[verifier::external_body]
fn ed25519_sign(secret: &[u8; 32], msg: &[u8]) -> (r: [u8; 64])
    ensures
        r@ == ed25519_signature(secret@, msg@),
        ed25519_accepts(ed25519_public(secret@), msg@, r@),
{
    SigningKey::from_bytes(secret).sign(msg).to_bytes()
}

/// Relies on `VerifyingKey::from_bytes`, `Signature::from_slice` and
/// `Verifier::verify`; a key or signature that does not parse is rejected.
#[verifier::external_body]
fn ed25519_verify(public: &[u8; 32], msg: &[u8], sig: &[u8]) -> (r: bool)
    requires
        sig@.len() == 64,
    ensures
        r == ed25519_accepts(public@, msg@, sig@),
{
    match (VerifyingKey::from_bytes(public), Signature::from_slice(sig)) {
        (Ok(vk), Ok(s)) => vk.verify(msg, &s).is_ok(),
        _ => false,
    }
}

/// Relies on `ChaCha20Poly1305::new` and `Aead::encrypt`: the sealed message,
/// which `Aead::decrypt` with the same key and nonce opens to the message;
/// encryption fails only from 2^32 - 1 blocks of 64 bytes on.
#[verifier::external_body]
fn chacha_encrypt(key: &[u8; 32], nonce: &[u8], msg: &[u8]) -> (r: Result<Vec<u8>, chacha20poly1305::Error>)
    requires
        nonce@.len() == 12,
    ensures
        msg@.len() <= 0xFFFF_FFFF ==> r is Ok,
        r matches Ok(c) ==> c@ == chacha_seal(key@, nonce@, msg@) && chacha_open(key@, nonce@, c@)
            == Some(msg@),
{
    ChaCha20Poly1305::new(Key::from_slice(key)).encrypt(Nonce::from_slice(nonce), msg)
}

/// Relies on `ChaCha20Poly1305::new` and `Aead::decrypt`.
#[verifier::external_body]
fn chacha_decrypt(key: &[u8; 32], nonce: &[u8], ct: &[u8]) -> (r: Result<Vec<u8>, chacha20poly1305::Error>)
    requires
        nonce@.len() == 12,
    ensures
        r is Ok <==> chacha_open(key@, nonce@, ct@) is Some,
        r matches Ok(v) ==> chacha_open(key@, nonce@, ct@) == Some(v@),
{
    ChaCha20Poly1305::new(Key::from_slice(key)).decrypt(Nonce::from_slice(nonce), ct)
}

/// Signing and authenticated encryption under one key set.
pub trait ICryptoBox {
    spec fn public_key(&self) -> Seq<u8>;

    spec fn secret_key(&self) -> Seq<u8>;

    spec fn cipher_key(&self) -> Seq<u8>;

    spec fn id(&self) -> Seq<char>;

    /// The Ed25519 signature of `data`; verification accepts it.
    fn sign(&self, data: &[u8]) -> (r: AriaResult<Vec<u8>>)
        ensures
            r matches Ok(s) && s@ == ed25519_signature(self.secret_key(), data@) && s@.len() == 64
                && ed25519_accepts(self.public_key(), data@, s@),
    ;

    /// Whether `signature` is valid for `data`; a signature that is not 64
    /// bytes long is an error.
    fn verify(&self, data: &[u8], signature: &[u8]) -> (r: AriaResult<bool>)
        ensures
            signature@.len() != 64 ==> (r matches Err(e) && e is Crypto),
            signature@.len() == 64 ==> r == Ok::<bool, AriaError>(
                ed25519_accepts(self.public_key(), data@, signature@),
            ),
    ;

    /// Seals `data` under a 12-byte nonce; the same nonce opens it.
    fn encrypt(&self, data: &[u8], nonce: &[u8]) -> (r: AriaResult<Vec<u8>>)
        ensures
            nonce@.len() != 12 ==> (r matches Err(e) && e is Crypto),
            nonce@.len() == 12 && data@.len() <= 0xFFFF_FFFF ==> r is Ok,
            r matches Ok(c) ==> c@ == chacha_seal(self.cipher_key(), nonce@, data@) && chacha_open(
                self.cipher_key(),
                nonce@,
                c@,
            ) == Some(data@),
    ;

    /// Opens `ciphertext`; a failed tag check is `CryptoDecryptionFailed`.
    fn decrypt(&self, ciphertext: &[u8], nonce: &[u8]) -> (r: AriaResult<Vec<u8>>)
        ensures
            nonce@.len() != 12 ==> (r matches Err(e) && e is Crypto),
            nonce@.len() == 12 ==> match chacha_open(self.cipher_key(), nonce@, ciphertext@) {
                Some(p) => r matches Ok(v) && v@ == p,
                None => r matches Err(e) && e is CryptoDecryptionFailed,
            },
    ;

    fn key_id(&self) -> (r: &str)
        ensures
            r@ == self.id(),
    ;
}

/// The outcome of verify-then-decrypt of `env` under the given keys: its
/// payload opened with the recorded nonce, the leading 64 bytes checked as
/// the signature of the rest, which becomes the payload.
pub open spec fn opens_to(public: Seq<u8>, cipher: Seq<u8>, env: EnvelopeView, r: AriaResult<Envelope>) -> bool {
    match env.metadata.crypto_info {
        None => r matches Err(e) && e is Crypto,
        Some(info) => if info.nonce.len() != 12 {
            r matches Err(e) && e is Crypto
        } else {
            match chacha_open(cipher, info.nonce, env.payload) {
                None => r matches Err(e) && e is CryptoDecryptionFailed,
                Some(p) => if p.len() >= 64 && ed25519_accepts(
                    public,
                    p.subrange(64, p.len() as int),
                    p.subrange(0, 64),
                ) {
                    r matches Ok(o) && o@ == EnvelopeView {
                        payload: p.subrange(64, p.len() as int),
                        metadata: EnvelopeMetadataView {
                            crypto_info: None,
                            ..env.metadata
                        },
                        ..env
                    }
                } else {
                    r matches Err(e) && e is CryptoSignatureInvalid
                },
            }
        },
    }
}

/// An Ed25519 key pair and a ChaCha20-Poly1305 key, under one key id.
pub struct CryptoBox {
    signing_key: [u8; 32],
    verifying_key: [u8; 32],
    cipher_key: [u8; 32],
    key_id: String,
}

impl CryptoBox {
    #[verifier::type_invariant]
    spec fn keys_match(&self) -> bool {
        self.verifying_key@ == ed25519_public(self.signing_key@)
    }

    /// Fresh random keys.
    pub fn new(key_id: String) -> (r: Self)
        ensures
            r.public_key() == ed25519_public(r.secret_key()),
            r.id() == key_id@,
    {
        let signing_key = random_key();
        let cipher_key = random_key();
        Self::from_keys(signing_key, &cipher_key, key_id)
    }

    /// Keys from their bytes: a 32-byte Ed25519 secret key and a 32-byte
    /// ChaCha20-Poly1305 key.
    pub fn from_keys(signing_key: [u8; 32], cipher_key: &[u8; 32], key_id: String) -> (r: Self)
        ensures
            r.secret_key() == signing_key@,
            r.public_key() == ed25519_public(signing_key@),
            r.cipher_key() == cipher_key@,
            r.id() == key_id@,
    {
        let verifying_key = ed25519_public_key(&signing_key);
        CryptoBox { signing_key, verifying_key, cipher_key: *cipher_key, key_id }
    }

    /// Sign-then-encrypt: the payload is signed, then the signature followed
    /// by the payload is sealed under `nonce`; `crypto_info` records the
    /// signature, this key id and the nonce. An envelope that already
    /// carries crypto info is refused with `InvalidState`.
    pub fn seal(&self, envelope: Envelope, nonce: &[u8]) -> (r: AriaResult<Envelope>)
        ensures
            envelope@.metadata.crypto_info is Some ==> (r matches Err(e) && e is InvalidState),
            envelope@.metadata.crypto_info is None && nonce@.len() != 12 ==> (r matches Err(e)
                && e is Crypto),
            envelope@.metadata.crypto_info is None && nonce@.len() == 12 && envelope@.payload.len() + 64
                <= 0xFFFF_FFFF ==> r is Ok,
            r matches Ok(s) ==> {
                let sig = ed25519_signature(self.secret_key(), envelope@.payload);
                &&& s@ == EnvelopeView {
                    payload: chacha_seal(self.cipher_key(), nonce@, sig + envelope@.payload),
                    metadata: EnvelopeMetadataView {
                        crypto_info: Some(
                            CryptoInfoView { signature: sig, key_id: self.id(), nonce: nonce@ },
                        ),
                        ..envelope@.metadata
                    },
                    ..envelope@
                }
                &&& chacha_open(self.cipher_key(), nonce@, s@.payload) == Some(
                    sig + envelope@.payload,
                )
                &&& sig.len() == 64
                &&& ed25519_accepts(self.public_key(), envelope@.payload, sig)
            },
    {
        if envelope.metadata.crypto_info.is_some() {
            return Err(AriaError::InvalidState("envelope is already sealed".to_string()));
        }
        let sig = self.sign(envelope.payload.as_slice())?;
        let mut plain: Vec<u8> = Vec::new();
        append_bytes(&mut plain, sig.as_slice());
        append_bytes(&mut plain, envelope.payload.as_slice());
        let ct = self.encrypt(plain.as_slice(), nonce)?;
        let mut out = envelope.with_payload(ct);
        out.metadata.crypto_info = Some(
            CryptoInfo {
                signature: sig,
                key_id: self.key_id.clone(),
                nonce: vstd::slice::slice_to_vec(nonce),
            },
        );
        Ok(out)
    }

    /// Verify-then-decrypt: opens the payload with the recorded nonce, splits
    /// off the signature and checks it over the rest, which becomes the
    /// payload; `crypto_info` is cleared. A failed tag check is
    /// `CryptoDecryptionFailed`; a bad signature is `CryptoSignatureInvalid`.
    pub fn open(&self, envelope: Envelope) -> (r: AriaResult<Envelope>)
        ensures
            opens_to(self.public_key(), self.cipher_key(), envelope@, r),
    {
        let nonce = match &envelope.metadata.crypto_info {
            Some(info) => vstd::slice::slice_to_vec(info.nonce.as_slice()),
            None => return Err(AriaError::Crypto("envelope is not sealed".to_string())),
        };
        let plain = self.decrypt(envelope.payload.as_slice(), nonce.as_slice())?;
        if plain.len() < SIGNATURE_LEN {
            return Err(AriaError::CryptoSignatureInvalid);
        }
        let sig = crate::bytes::copy_range(plain.as_slice(), 0, SIGNATURE_LEN);
        let body = crate::bytes::copy_range(plain.as_slice(), SIGNATURE_LEN, plain.len());
        if !ed25519_verify(&self.verifying_key, body.as_slice(), sig.as_slice()) {
            return Err(AriaError::CryptoSignatureInvalid);
        }
        let mut out = envelope.with_payload(body);
        out.metadata.crypto_info = None;
        Ok(out)
    }
}

impl ICryptoBox for CryptoBox {
    closed spec fn public_key(&self) -> Seq<u8> {
        self.verifying_key@
    }

    closed spec fn secret_key(&self) -> Seq<u8> {
        self.signing_key@
    }

    closed spec fn cipher_key(&self) -> Seq<u8> {
        self.cipher_key@
    }

    closed spec fn id(&self) -> Seq<char> {
        self.key_id@
    }

    fn sign(&self, data: &[u8]) -> (r: AriaResult<Vec<u8>>) {
        let s = ed25519_sign(&self.signing_key, data);
        proof {
            use_type_invariant(self);
        }
        Ok(vstd::slice::slice_to_vec(s.as_slice()))
    }

    fn verify(&self, data: &[u8], signature: &[u8]) -> (r: AriaResult<bool>) {
        if signature.len() != SIGNATURE_LEN {
            return Err(AriaError::Crypto("signature must be 64 bytes".to_string()));
        }
        Ok(ed25519_verify(&self.verifying_key, data, signature))
    }

    fn encrypt(&self, data: &[u8], nonce: &[u8]) -> (r: AriaResult<Vec<u8>>) {
        if nonce.len() != NONCE_LEN {
            return Err(AriaError::Crypto("nonce must be 12 bytes".to_string()));
        }
        match chacha_encrypt(&self.cipher_key, nonce, data) {
            Ok(c) => Ok(c),
            Err(_) => Err(AriaError::Crypto("encryption failed".to_string())),
        }
    }

    fn decrypt(&self, ciphertext: &[u8], nonce: &[u8]) -> (r: AriaResult<Vec<u8>>) {
        if nonce.len() != NONCE_LEN {
            return Err(AriaError::Crypto("nonce must be 12 bytes".to_string()));
        }
        match chacha_decrypt(&self.cipher_key, nonce, ciphertext) {
            Ok(p) => Ok(p),
            Err(_) => Err(AriaError::CryptoDecryptionFailed),
        }
    }

    fn key_id(&self) -> (r: &str) {
        self.key_id.as_str()
    }
}

/// The box held under `id`: the one added last under it.
pub open spec fn key_under(keys: Seq<(String, CryptoBox)>, id: Seq<char>) -> Option<CryptoBox>
    decreases keys.len(),
{
    if keys.len() == 0 {
        None
    } else if keys.last().0@ == id {
        Some(keys.last().1)
    } else {
        key_under(keys.drop_last(), id)
    }
}

/// Key sets by key id, one of them active for new outgoing envelopes.
pub struct KeyManager {
    active_key_id: String,
    keys: Vec<(String, CryptoBox)>,
}

impl KeyManager {
    pub closed spec fn active_id(&self) -> Seq<char> {
        self.active_key_id@
    }

    /// The box held under `id`, if any.
    pub closed spec fn key(&self, id: Seq<char>) -> Option<CryptoBox> {
        key_under(self.keys@, id)
    }

    pub fn new() -> (r: Self)
        ensures
            r.active_id() == Seq::<char>::empty(),
            forall|id: Seq<char>| #[trigger] r.key(id) is None,
    {
        KeyManager { active_key_id: String::new(), keys: Vec::new() }
    }

    /// Holds `crypto_box` under `key_id`, replacing any box held under it;
    /// the first key added becomes the active one.
    pub fn add_key(&mut self, key_id: String, crypto_box: CryptoBox)
        ensures
            final(self).key(key_id@) == Some(crypto_box),
            forall|id: Seq<char>| id != key_id@ ==> #[trigger] final(self).key(id) == old(self).key(id),
            final(self).active_id() == if old(self).active_id().len() == 0 {
                key_id@
            } else {
                old(self).active_id()
            },
    {
        if self.active_key_id.as_str().is_empty() {
            self.active_key_id = key_id.clone();
        }
        let ghost id = key_id@;
        let ghost before = self.keys@;
        self.keys.push((key_id, crypto_box));
        assert(self.keys@.drop_last() == before);
    }

    /// The box held under `key_id`, if any.
    pub fn get_key(&self, key_id: &str) -> (r: Option<&CryptoBox>)
        ensures
            match self.key(key_id@) {
                Some(b) => r matches Some(x) && *x == b,
                None => r is None,
            },
    {
        let wanted: String = key_id.to_owned();
        let mut i: usize = self.keys.len();
        assert(self.keys@.subrange(0, i as int) =~= self.keys@);
        while i > 0
            invariant
                wanted@ == key_id@,
                i <= self.keys@.len(),
                key_under(self.keys@, key_id@) == key_under(self.keys@.subrange(0, i as int), key_id@),
            decreases i,
        {
            proof {
                assert(self.keys@.subrange(0, i as int).drop_last() =~= self.keys@.subrange(0, i - 1));
            }
            if self.keys[i - 1].0 == wanted {
                return Some(&self.keys[i - 1].1);
            }
            i = i - 1;
        }
        None
    }

    /// The box of the active key id, if one is held.
    pub fn get_active_key(&self) -> (r: Option<&CryptoBox>)
        ensures
            match self.key(self.active_id()) {
                Some(b) => r matches Some(x) && *x == b,
                None => r is None,
            },
    {
        self.get_key(self.active_key_id.as_str())
    }

    /// Makes `new_key_id` active where a box is held under it; otherwise
    /// nothing changes.
    pub fn rotate(&mut self, new_key_id: String)
        ensures
            forall|id: Seq<char>| #[trigger] final(self).key(id) == old(self).key(id),
            final(self).active_id() == if old(self).key(new_key_id@) is Some {
                new_key_id@
            } else {
                old(self).active_id()
            },
    {
        if self.get_key(new_key_id.as_str()).is_some() {
            self.active_key_id = new_key_id;
        }
    }

    /// Opens a sealed envelope with the box of the key id it names; an
    /// unknown key id is `CryptoUnknownKey`.
    pub fn open_envelope(&self, envelope: Envelope) -> (r: AriaResult<Envelope>)
        ensures
            match envelope@.metadata.crypto_info {
                None => r matches Err(e) && e is Crypto,
                Some(info) => match self.key(info.key_id) {
                    None => r matches Err(e) && e is CryptoUnknownKey,
                    Some(b) => opens_to(b.public_key(), b.cipher_key(), envelope@, r),
                },
            },
    {
        let found = match &envelope.metadata.crypto_info {
            Some(info) => self.get_key(info.key_id.as_str()),
            None => return Err(AriaError::Crypto("envelope is not sealed".to_string())),
        };
        match found {
            Some(b) => b.open(envelope),
            None => Err(AriaError::CryptoUnknownKey),
        }
    }
}

/// Byte `i` (0 = most significant) of `x`.
pub open spec fn be_byte(x: u64, i: int) -> u8 {
    ((x >> ((56 - 8 * i) as u64)) & 0xff) as u8
}

/// The nonce for counter value `counter` of stream `stream`: the stream's
/// four bytes, then the counter's eight, both big-endian.
pub open spec fn nonce_of(stream: u32, counter: u64) -> Seq<u8> {
    seq![
        ((stream >> 24u32) & 0xff) as u8,
        ((stream >> 16u32) & 0xff) as u8,
        ((stream >> 8u32) & 0xff) as u8,
        (stream & 0xff) as u8,
    ] + Seq::new(8, |i: int| be_byte(counter, i))
}

/// Hands out each nonce of one (key id, stream) once: a counter that never
/// repeats a value, and stops when it runs out.
pub struct NonceCounter {
    stream: u32,
    next: u64,
    exhausted: bool,
}

impl NonceCounter {
    pub closed spec fn stream_id(&self) -> u32 {
        self.stream
    }

    /// The counter value handed out next, or `None` once all are used.
    pub closed spec fn next_counter(&self) -> Option<u64> {
        if self.exhausted {
            None
        } else {
            Some(self.next)
        }
    }

    pub fn new(stream: u32) -> (r: Self)
        ensures
            r.stream_id() == stream,
            r.next_counter() == Some(0u64),
    {
        NonceCounter { stream, next: 0, exhausted: false }
    }

    /// The next nonce; afterwards the counter has moved past it. Once every
    /// counter value has been used this fails with `Crypto`.
    pub fn next_nonce(&mut self) -> (r: AriaResult<Vec<u8>>)
        ensures
            final(self).stream_id() == old(self).stream_id(),
            match old(self).next_counter() {
                None => (r matches Err(e) && e is Crypto) && final(self).next_counter() is None,
                Some(c) => {
                    &&& r matches Ok(n) && n@ == nonce_of(old(self).stream_id(), c)
                    &&& final(self).next_counter() == if c == u64::MAX {
                        None
                    } else {
                        Some((c + 1) as u64)
                    }
                },
            },
    {
        if self.exhausted {
            return Err(AriaError::Crypto("nonces exhausted".to_string()));
        }
        let s = self.stream;
        let c = self.next;
        let mut n: Vec<u8> = Vec::new();
        n.push(((s >> 24u32) & 0xff) as u8);
        n.push(((s >> 16u32) & 0xff) as u8);
        n.push(((s >> 8u32) & 0xff) as u8);
        n.push((s & 0xff) as u8);
        let mut i: u64 = 0;
        while i < 8
            invariant
                i <= 8,
                n@.len() == 4 + i,
                forall|j: int| 0 <= j < 4 ==> n@[j] == nonce_of(s, c)[j],
                forall|j: int| 0 <= j < i ==> n@[4 + j] == be_byte(c, j),
            decreases 8 - i,
        {
            n.push(((c >> (56 - 8 * i)) & 0xff) as u8);
            i = i + 1;
        }
        assert(n@ =~= nonce_of(s, c));
        if c == u64::MAX {
            self.exhausted = true;
        } else {
            self.next = c + 1;
        }
        Ok(n)
    }
}

/// Nonce uniqueness: within one stream, distinct counter values give
/// distinct nonces.
pub proof fn lemma_nonce_unique(stream: u32, a: u64, b: u64)
    requires
        a != b,
    ensures
        nonce_of(stream, a) != nonce_of(stream, b),
{
    let na = nonce_of(stream, a);
    let nb = nonce_of(stream, b);
    if na == nb {
        assert forall|i: int| 0 <= i < 8 implies be_byte(a, i) == be_byte(b, i) by {
            assert(na[4 + i] == nb[4 + i]);
        }
        let a0 = be_byte(a, 0);
        let a1 = be_byte(a, 1);
        let a2 = be_byte(a, 2);
        let a3 = be_byte(a, 3);
        let a4 = be_byte(a, 4);
        let a5 = be_byte(a, 5);
        let a6 = be_byte(a, 6);
        let a7 = be_byte(a, 7);
        assert(a == b) by (bit_vector)
            requires
                a0 == ((a >> 56u64) & 0xff) as u8 && a0 == ((b >> 56u64) & 0xff) as u8,
                a1 == ((a >> 48u64) & 0xff) as u8 && a1 == ((b >> 48u64) & 0xff) as u8,
                a2 == ((a >> 40u64) & 0xff) as u8 && a2 == ((b >> 40u64) & 0xff) as u8,
                a3 == ((a >> 32u64) & 0xff) as u8 && a3 == ((b >> 32u64) & 0xff) as u8,
                a4 == ((a >> 24u64) & 0xff) as u8 && a4 == ((b >> 24u64) & 0xff) as u8,
                a5 == ((a >> 16u64) & 0xff) as u8 && a5 == ((b >> 16u64) & 0xff) as u8,
                a6 == ((a >> 8u64) & 0xff) as u8 && a6 == ((b >> 8u64) & 0xff) as u8,
                a7 == ((a >> 0u64) & 0xff) as u8 && a7 == ((b >> 0u64) & 0xff) as u8,
        ;
    }
}

/// Sign-then-encrypt round trip: what `seal` produced (the sealed payload
/// opening to the signature followed by the payload, the signature valid
/// for the payload) passes every check of `open`, which returns the
/// original payload.
pub proof fn lemma_seal_open_round_trip(
    public: Seq<u8>,
    cipher: Seq<u8>,
    nonce: Seq<u8>,
    payload: Seq<u8>,
    sealed_payload: Seq<u8>,
    sig: Seq<u8>,
)
    requires
        sig.len() == 64,
        ed25519_accepts(public, payload, sig),
        chacha_open(cipher, nonce, sealed_payload) == Some(sig + payload),
    ensures
        chacha_open(cipher, nonce, sealed_payload) matches Some(p) && p.len() >= 64
            && p.subrange(64, p.len() as int) == payload && ed25519_accepts(
            public,
            p.subrange(64, p.len() as int),
            p.subrange(0, 64),
        ),
{
    let p = sig + payload;
    assert(p.subrange(64, p.len() as int) =~= payload);
    assert(p.subrange(0, 64) =~= sig);
}

} // verus!
