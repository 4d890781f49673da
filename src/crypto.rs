//! Session encryption: X25519 key agreement on ephemeral keys and
//! ChaCha20-Poly1305 sealing of whole segments, each under its own nonce.
use crate::error::Error;
use vstd::bytes::*;
use vstd::prelude::*;

verus! {

/// X25519 public key length.
pub const PUBLIC_KEY_SIZE: usize = 32;

/// ChaCha20-Poly1305 nonce length.
pub const NONCE_SIZE: usize = 12;

/// ChaCha20-Poly1305 tag length.
pub const TAG_SIZE: usize = 16;

/// Why a crypto step failed, in detail; the protocol engine reports each as
/// `Error::CryptoFailed`.
#[derive(Debug, Clone, Copy, PartialEq, Eq, Structural)]
pub enum CryptoError {
    KeyExchangeFailed,
    EncryptionFailed,
    DecryptionFailed,
    InvalidKeySize,
    InvalidNonce,
}

impl CryptoError {
    /// The protocol error kind of this failure.
    pub fn to_error(self) -> (r: Error)
        ensures
            r == Error::CryptoFailed,
    {
        Error::CryptoFailed
    }
}

/// What `ChaCha20Poly1305::encrypt` returns for a key, nonce and plaintext:
/// the ciphertext followed by the tag.
pub uninterp spec fn chacha_seal(key: Seq<u8>, nonce: Seq<u8>, plaintext: Seq<u8>) -> Seq<u8>;

/// What `ChaCha20Poly1305::decrypt` returns for a key, nonce and sealed
/// bytes when it accepts them: the plaintext.
pub uninterp spec fn chacha_open(key: Seq<u8>, nonce: Seq<u8>, sealed: Seq<u8>) -> Seq<u8>;

/// What X25519 gives for a secret scalar and the base point: the public key
/// (`PublicKey::from(&StaticSecret::from(secret))`).
pub uninterp spec fn x25519_public(secret: Seq<u8>) -> Seq<u8>;

/// What X25519 gives for a secret scalar and a peer's public key: the shared
/// secret (`StaticSecret::from(secret).diffie_hellman(&PublicKey::from(peer))`).
pub uninterp spec fn x25519_shared(secret: Seq<u8>, peer: Seq<u8>) -> Seq<u8>;

/// Relies on `StaticSecret::random_from_rng` with `rand_core::OsRng`: 32
/// fresh secret bytes from the operating system's generator.
#[verifier::external_body]
fn random_secret() -> (r: [u8; 32]) {
    x25519_dalek::StaticSecret::random_from_rng(rand_core::OsRng).to_bytes()
}

/// Relies on `PublicKey::from(&StaticSecret)`: the public key of the secret.
#[verifier::external_body]
fn x25519_base(secret: &[u8; 32]) -> (r: [u8; 32])
    ensures
        r@ == x25519_public(secret@),
{
    x25519_dalek::PublicKey::from(&x25519_dalek::StaticSecret::from(*secret)).to_bytes()
}

/// Relies on `StaticSecret::diffie_hellman`: the shared secret with the
/// peer's public key. Both sides of an exchange get the same value, as the
/// crate documents: a peer holding `other`, whose public key is `peer`,
/// computes the same secret from this side's public key.
#[verifier::external_body]
fn x25519_dh(secret: &[u8; 32], peer: &[u8; 32]) -> (r: [u8; 32])
    ensures
        r@ == x25519_shared(secret@, peer@),
        forall|other: Seq<u8>|
            #![trigger x25519_public(other)]
            other.len() == 32 && peer@ == x25519_public(other) ==> x25519_shared(
                other,
                x25519_public(secret@),
            ) == r@,
{
    x25519_dalek::StaticSecret::from(*secret).diffie_hellman(&x25519_dalek::PublicKey::from(*peer)).to_bytes()
}

/// Largest plaintext, in 64-byte blocks, that the cipher seals: it refuses
/// a buffer of `u32::MAX` blocks or more.
pub open spec fn sealable(plaintext: Seq<u8>) -> bool {
    plaintext.len() / 64 < u32::MAX
}

/// Relies on `ChaCha20Poly1305::new` and `Aead::encrypt`: the plaintext
/// encrypted under the key and nonce, followed by a 16-byte tag; the only
/// refusal is a buffer of `u32::MAX` blocks or more.
#[verifier::external_body]
fn aead_seal(key: &[u8; 32], nonce: &[u8; 12], plaintext: &[u8]) -> (r: Option<Vec<u8>>)
    ensures
        r is Some <==> sealable(plaintext@),
        r matches Some(c) ==> c@ == chacha_seal(key@, nonce@, plaintext@) && c@.len()
            == plaintext@.len() + 16,
{
    let cipher = <chacha20poly1305::ChaCha20Poly1305 as chacha20poly1305::KeyInit>::new(
        chacha20poly1305::Key::from_slice(key),
    );
    chacha20poly1305::aead::Aead::encrypt(
        &cipher,
        chacha20poly1305::Nonce::from_slice(nonce),
        plaintext,
    ).ok()
}

/// The vector an option holds (spec only; arbitrary for `None`).
pub open spec fn opened(r: Option<Vec<u8>>) -> Vec<u8> {
    r->Some_0
}

/// Relies on `ChaCha20Poly1305::new` and `Aead::decrypt`: the tag is checked
/// and on success the plaintext, 16 bytes shorter than its input, is returned;
/// `None` where the tag does not verify. What a seal under the same key and
/// nonce produced opens to its plaintext.
#[verifier::external_body]
fn aead_open(key: &[u8; 32], nonce: &[u8], sealed: &[u8]) -> (r: Option<Vec<u8>>)
    requires
        nonce@.len() == 12,
    ensures
        r matches Some(p) ==> p@ == chacha_open(key@, nonce@, sealed@) && p@.len() + 16
            == sealed@.len(),
        forall|p: Seq<u8>|
            #![trigger chacha_seal(key@, nonce@, p)]
            sealable(p) && sealed@ == chacha_seal(key@, nonce@, p) ==> r == Some(opened(r)) && opened(r)@ == p,
{
    let cipher = <chacha20poly1305::ChaCha20Poly1305 as chacha20poly1305::KeyInit>::new(
        chacha20poly1305::Key::from_slice(key),
    );
    chacha20poly1305::aead::Aead::decrypt(&cipher, chacha20poly1305::Nonce::from_slice(nonce), sealed).ok()
}

/// A long-term key pair, usable for any number of agreements.
pub struct KeyPair {
    secret: [u8; 32],
    public: [u8; 32],
}

impl KeyPair {
    pub closed spec fn secret_view(&self) -> Seq<u8> {
        self.secret@
    }

    pub closed spec fn public_view(&self) -> Seq<u8> {
        self.public@
    }

    /// A fresh random key pair.
    pub fn generate() -> (r: KeyPair)
        ensures
            r.public_view() == x25519_public(r.secret_view()),
            r.secret_view().len() == 32,
    {
        let secret = random_secret();
        let public = x25519_base(&secret);
        KeyPair { secret, public }
    }

    pub fn public_key(&self) -> (r: &[u8; 32])
        ensures
            r@ == self.public_view(),
    {
        &self.public
    }

    pub fn public_key_bytes(&self) -> (r: [u8; 32])
        ensures
            r@ == self.public_view(),
    {
        self.public
    }

    /// The shared secret with a peer's public key; the peer, computing with
    /// this pair's public key, gets the same.
    pub fn compute_shared_secret(&self, peer_public: &[u8; 32]) -> (r: [u8; 32])
        ensures
            r@ == x25519_shared(self.secret_view(), peer_public@),
            forall|other: Seq<u8>|
                #![trigger x25519_public(other)]
                other.len() == 32 && peer_public@ == x25519_public(other) ==> x25519_shared(
                    other,
                    x25519_public(self.secret_view()),
                ) == r@,
    {
        x25519_dh(&self.secret, peer_public)
    }
}

/// A session key pair used once.
pub struct EphemeralKeyPair {
    secret: [u8; 32],
    public: [u8; 32],
}

impl EphemeralKeyPair {
    pub closed spec fn secret_view(&self) -> Seq<u8> {
        self.secret@
    }

    pub closed spec fn public_view(&self) -> Seq<u8> {
        self.public@
    }

    /// A fresh random key pair.
    pub fn generate() -> (r: EphemeralKeyPair)
        ensures
            r.public_view() == x25519_public(r.secret_view()),
            r.secret_view().len() == 32,
    {
        let secret = random_secret();
        let public = x25519_base(&secret);
        EphemeralKeyPair { secret, public }
    }

    pub fn public_key(&self) -> (r: &[u8; 32])
        ensures
            r@ == self.public_view(),
    {
        &self.public
    }

    pub fn public_key_bytes(&self) -> (r: [u8; 32])
        ensures
            r@ == self.public_view(),
    {
        self.public
    }

    /// The shared secret with a peer's public key; the pair is used up. The
    /// peer, computing with this pair's public key, gets the same.
    pub fn compute_shared_secret(self, peer_public: &[u8; 32]) -> (r: [u8; 32])
        ensures
            r@ == x25519_shared(self.secret_view(), peer_public@),
            forall|other: Seq<u8>|
                #![trigger x25519_public(other)]
                other.len() == 32 && peer_public@ == x25519_public(other) ==> x25519_shared(
                    other,
                    x25519_public(self.secret_view()),
                ) == r@,
    {
        x25519_dh(&self.secret, peer_public)
    }
}

/// The 12-byte nonce of a seal: the segment id, then the counter, both
/// little-endian.
pub open spec fn nonce_bytes(segment_id: u64, counter: u32) -> Seq<u8> {
    spec_u64_to_le_bytes(segment_id) + spec_u32_to_le_bytes(counter)
}

/// A nonce is 12 bytes.
pub proof fn lemma_nonce_len(segment_id: u64, counter: u32)
    ensures
        nonce_bytes(segment_id, counter).len() == 12,
{
    lemma_auto_spec_u32_to_from_le_bytes();
    lemma_auto_spec_u64_to_from_le_bytes();
}

/// Nonces of two seals with different counters differ, whatever their
/// segments: a session's counter never repeats, so neither do its nonces.
pub proof fn lemma_nonces_distinct(s1: u64, c1: u32, s2: u64, c2: u32)
    requires
        c1 != c2,
    ensures
        nonce_bytes(s1, c1) != nonce_bytes(s2, c2),
{
    lemma_auto_spec_u32_to_from_le_bytes();
    lemma_auto_spec_u64_to_from_le_bytes();
    let a = nonce_bytes(s1, c1);
    let b = nonce_bytes(s2, c2);
    assert(a.subrange(8, 12) =~= spec_u32_to_le_bytes(c1));
    assert(b.subrange(8, 12) =~= spec_u32_to_le_bytes(c2));
}

/// Seals and opens segments under one key. Every seal takes the next
/// counter value; once the 32-bit counter space is used up, sealing fails.
pub struct SegmentCipher {
    key: [u8; 32],
    nonce_counter: u64,
}

impl SegmentCipher {
    pub closed spec fn key_view(&self) -> Seq<u8> {
        self.key@
    }

    /// Seals done so far.
    pub closed spec fn counter(&self) -> u64 {
        self.nonce_counter
    }

    /// A cipher keyed by the shared secret, counter at 0.
    pub fn new(shared_secret: &[u8; 32]) -> (r: SegmentCipher)
        ensures
            r.key_view() == shared_secret@,
            r.counter() == 0,
    {
        SegmentCipher { key: *shared_secret, nonce_counter: 0 }
    }

    /// The nonce for `segment_id` and `counter`.
    pub fn nonce_from_segment(segment_id: u64, counter: u32) -> (r: [u8; 12])
        ensures
            r@ == nonce_bytes(segment_id, counter),
    {
        let s = u64_to_le_bytes(segment_id);
        let c = u32_to_le_bytes(counter);
        let mut n = [0u8; 12];
        let mut i: usize = 0;
        while i < 12
            invariant
                i <= 12,
                n@.len() == 12,
                s@ == spec_u64_to_le_bytes(segment_id),
                c@ == spec_u32_to_le_bytes(counter),
                s@.len() == 8,
                c@.len() == 4,
                forall|j: int| 0 <= j < i ==> n@[j] == (s@ + c@)[j],
            decreases 12 - i,
        {
            n[i] = if i < 8 {
                s[i]
            } else {
                c[i - 8]
            };
            i = i + 1;
        }
        assert(n@ =~= s@ + c@);
        n
    }

    /// Seals a segment: `nonce || ciphertext || tag`, under the next counter
    /// value. Fails, changing nothing, once the counter has passed
    /// `u32::MAX`; fails too where the cipher refuses.
    pub fn encrypt_segment(&mut self, segment_id: u64, plaintext: &[u8]) -> (r: Result<
        Vec<u8>,
        Error,
    >)
        ensures
            final(self).key_view() == old(self).key_view(),
            old(self).counter() > u32::MAX ==> r == Err::<Vec<u8>, Error>(Error::CryptoFailed)
                && final(self).counter() == old(self).counter(),
            old(self).counter() <= u32::MAX ==> final(self).counter() == old(
                self,
            ).counter() + 1,
            r matches Ok(c) ==> old(self).counter() <= u32::MAX && c@ == nonce_bytes(
                segment_id,
                old(self).counter() as u32,
            ) + chacha_seal(
                old(self).key_view(),
                nonce_bytes(segment_id, old(self).counter() as u32),
                plaintext@,
            ),
            r matches Err(e) ==> e == Error::CryptoFailed,
            old(self).counter() <= u32::MAX && sealable(plaintext@) ==> r is Ok,
            r is Ok ==> sealable(plaintext@),
            r matches Ok(c) ==> c@.len() == plaintext@.len() + 28,
            r matches Ok(c) ==> c@.subrange(0, 12) == nonce_bytes(segment_id, old(self).counter() as u32)
                && c@.subrange(12, c@.len() as int) == chacha_seal(
                old(self).key_view(),
                c@.subrange(0, 12),
                plaintext@,
            ),
    {
        if self.nonce_counter > u32::MAX as u64 {
            return Err(Error::CryptoFailed);
        }
        let nonce = SegmentCipher::nonce_from_segment(segment_id, self.nonce_counter as u32);
        self.nonce_counter = self.nonce_counter + 1;
        match aead_seal(&self.key, &nonce, plaintext) {
            Some(sealed) => {
                let mut out: Vec<u8> = Vec::new();
                out.extend_from_slice(nonce.as_slice());
                out.extend_from_slice(sealed.as_slice());
                proof {
                    lemma_nonce_len(segment_id, old(self).nonce_counter as u32);
                    assert(out@.subrange(0, 12) =~= nonce@);
                    assert(out@.subrange(12, out@.len() as int) =~= sealed@);
                }
                Ok(out)
            },
            None => Err(Error::CryptoFailed),
        }
    }

    /// Opens `nonce || ciphertext || tag`. Input shorter than a nonce and a
    /// tag, or one the cipher refuses, is an error.
    pub fn decrypt_segment(&self, encrypted: &[u8]) -> (r: Result<Vec<u8>, Error>)
        ensures
            encrypted@.len() < 28 ==> r == Err::<Vec<u8>, Error>(Error::CryptoFailed),
            r matches Ok(p) ==> encrypted@.len() >= 28 && p@ == chacha_open(
                self.key_view(),
                encrypted@.subrange(0, 12),
                encrypted@.subrange(12, encrypted@.len() as int),
            ) && p@.len() + 28 == encrypted@.len(),
            r matches Err(e) ==> e == Error::CryptoFailed,
            forall|p: Seq<u8>|
                encrypted@.len() >= 28 && sealable(p) && encrypted@.subrange(
                    12,
                    encrypted@.len() as int,
                ) == #[trigger] chacha_seal(self.key_view(), encrypted@.subrange(0, 12), p) ==> (
                r matches Ok(q) && q@ == p),
    {
        if encrypted.len() < NONCE_SIZE + TAG_SIZE {
            return Err(Error::CryptoFailed);
        }
        let nonce = vstd::slice::slice_subrange(encrypted, 0, NONCE_SIZE);
        let sealed = vstd::slice::slice_subrange(encrypted, NONCE_SIZE, encrypted.len());
        match aead_open(&self.key, nonce, sealed) {
            Some(p) => Ok(p),
            None => Err(Error::CryptoFailed),
        }
    }

    /// Opens sealed bytes (without a nonce prefix) under the nonce of
    /// `segment_id` and `counter`.
    pub fn decrypt_segment_with_id(&self, segment_id: u64, counter: u32, ciphertext: &[u8]) -> (r:
        Result<Vec<u8>, Error>)
        ensures
            r matches Ok(p) ==> p@ == chacha_open(
                self.key_view(),
                nonce_bytes(segment_id, counter),
                ciphertext@,
            ),
            r matches Err(e) ==> e == Error::CryptoFailed,
            forall|p: Seq<u8>|
                sealable(p) && ciphertext@ == #[trigger] chacha_seal(
                    self.key_view(),
                    nonce_bytes(segment_id, counter),
                    p,
                ) ==> (r matches Ok(q) && q@ == p),
    {
        let nonce = SegmentCipher::nonce_from_segment(segment_id, counter);
        match aead_open(&self.key, nonce.as_slice(), ciphertext) {
            Some(p) => Ok(p),
            None => Err(Error::CryptoFailed),
        }
    }
}

/// Both directions of an encrypted session.
pub struct CryptoSession {
    pub cipher: SegmentCipher,
    pub local_public_key: [u8; 32],
    pub peer_public_key: [u8; 32],
}

impl CryptoSession {
    /// Starts a key exchange: a fresh pair and its public key to send.
    pub fn new() -> (r: (EphemeralKeyPair, [u8; 32]))
        ensures
            r.1@ == r.0.public_view(),
            r.0.public_view() == x25519_public(r.0.secret_view()),
            r.0.secret_view().len() == 32,
    {
        let keypair = EphemeralKeyPair::generate();
        let public_key = keypair.public_key_bytes();
        (keypair, public_key)
    }

    /// Completes the exchange with the peer's public key; the shared secret
    /// keys the cipher.
    pub fn establish(keypair: EphemeralKeyPair, peer_public_key: [u8; 32]) -> (r: CryptoSession)
        ensures
            r.local_public_key@ == keypair.public_view(),
            r.cipher.key_view() == x25519_shared(keypair.secret_view(), peer_public_key@),
            forall|other: Seq<u8>|
                #![trigger x25519_public(other)]
                other.len() == 32 && peer_public_key@ == x25519_public(other) ==> x25519_shared(
                    other,
                    x25519_public(keypair.secret_view()),
                ) == r.cipher.key_view(),
            r.peer_public_key == peer_public_key,
            r.cipher.counter() == 0,
    {
        let local_public_key = keypair.public_key_bytes();
        let shared_secret = keypair.compute_shared_secret(&peer_public_key);
        let cipher = SegmentCipher::new(&shared_secret);
        CryptoSession { cipher, local_public_key, peer_public_key }
    }

    /// Seals a segment (see `SegmentCipher::encrypt_segment`).
    pub fn encrypt(&mut self, segment_id: u64, data: &[u8]) -> (r: Result<Vec<u8>, Error>)
        ensures
            final(self).cipher.key_view() == old(self).cipher.key_view(),
            final(self).local_public_key == old(self).local_public_key,
            final(self).peer_public_key == old(self).peer_public_key,
            old(self).cipher.counter() <= u32::MAX ==> final(self).cipher.counter() == old(
                self,
            ).cipher.counter() + 1,
            old(self).cipher.counter() > u32::MAX ==> r is Err,
            old(self).cipher.counter() <= u32::MAX && sealable(data@) ==> r is Ok,
            r is Ok ==> sealable(data@) && old(self).cipher.counter() <= u32::MAX,
            r matches Ok(c) ==> c@.len() == data@.len() + 28,
            r matches Ok(c) ==> c@.subrange(0, 12) == nonce_bytes(segment_id, old(self).cipher.counter() as u32)
                && c@.subrange(12, c@.len() as int) == chacha_seal(
                old(self).cipher.key_view(),
                c@.subrange(0, 12),
                data@,
            ),
            r matches Ok(c) ==> c@ == nonce_bytes(segment_id, old(self).cipher.counter() as u32)
                + chacha_seal(
                old(self).cipher.key_view(),
                nonce_bytes(segment_id, old(self).cipher.counter() as u32),
                data@,
            ),
    {
        self.cipher.encrypt_segment(segment_id, data)
    }

    /// Opens a sealed segment (see `SegmentCipher::decrypt_segment`).
    pub fn decrypt(&self, encrypted: &[u8]) -> (r: Result<Vec<u8>, Error>)
        ensures
            encrypted@.len() < 28 ==> r is Err,
            forall|p: Seq<u8>|
                encrypted@.len() >= 28 && sealable(p) && encrypted@.subrange(
                    12,
                    encrypted@.len() as int,
                ) == #[trigger] chacha_seal(self.cipher.key_view(), encrypted@.subrange(0, 12), p)
                    ==> (r matches Ok(q) && q@ == p),
            r matches Ok(p) ==> p@ == chacha_open(
                self.cipher.key_view(),
                encrypted@.subrange(0, 12),
                encrypted@.subrange(12, encrypted@.len() as int),
            ),
    {
        self.cipher.decrypt_segment(encrypted)
    }

    /// Opens a sealed segment and refuses a plaintext whose length is not the
    /// segment's declared size.
    pub fn decrypt_expecting(&self, encrypted: &[u8], expected_len: usize) -> (r: Result<
        Vec<u8>,
        Error,
    >)
        ensures
            encrypted@.len() < 28 ==> r is Err,
            r matches Ok(p) ==> encrypted@.len() >= 28 && p@ == chacha_open(
                self.cipher.key_view(),
                encrypted@.subrange(0, 12),
                encrypted@.subrange(12, encrypted@.len() as int),
            ) && p@.len() == expected_len,
            encrypted@.len() >= 28 && encrypted@.len() != expected_len + 28 ==> r is Err,
            forall|p: Seq<u8>|
                encrypted@.len() >= 28 && sealable(p) && p.len() == expected_len
                    && encrypted@.subrange(12, encrypted@.len() as int) == #[trigger] chacha_seal(
                    self.cipher.key_view(),
                    encrypted@.subrange(0, 12),
                    p,
                ) ==> (r matches Ok(q) && q@ == p),
    {
        let p = self.cipher.decrypt_segment(encrypted)?;
        if p.len() != expected_len {
            return Err(Error::LengthMismatch { expected: expected_len, got: p.len() });
        }
        Ok(p)
    }
}

impl Default for CryptoSession {
    /// A session keyed with its own fresh key as the peer's, for local use.
    fn default() -> (r: CryptoSession)
        ensures
            r.cipher.counter() == 0,
            r.peer_public_key@ == r.local_public_key@,
    {
        let keypair = EphemeralKeyPair::generate();
        let own = keypair.public_key_bytes();
        CryptoSession::establish(keypair, own)
    }
}

} // verus!
