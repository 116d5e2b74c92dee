//! Authenticated encryption with ChaCha20-Poly1305.

use crate::utils::bytes::{copy_range, put_all};
use crate::utils::error::{PhantomError, PhantomResult};
use crate::utils::text::join;
use ring::rand::SecureRandom;
use vstd::prelude::*;

verus! {

/// Bytes of a nonce.
pub const NONCE_LEN: usize = 12;

/// Bytes of a tag.
pub const TAG_LEN: usize = 16;

/// Most bytes that can be encrypted at once.
pub const MAX_PLAINTEXT: u64 = 274_877_906_880;

/// What `ring::aead::LessSafeKey` makes of a plaintext with ChaCha20-Poly1305 and no
/// further data: the ciphertext and its tag, or nothing.
pub uninterp spec fn sealed(key: Seq<u8>, nonce: Seq<u8>, plain: Seq<u8>) -> Option<Seq<u8>>;

/// What `ring::aead::LessSafeKey` makes of a ciphertext and its tag: the plaintext, or
/// nothing.
pub uninterp spec fn opened(key: Seq<u8>, nonce: Seq<u8>, data: Seq<u8>) -> Option<Seq<u8>>;

/// `ring::aead::LessSafeKey::seal_in_place_append_tag` with ChaCha20-Poly1305 and no further
/// data. The result is named. Claimed of it: it succeeds on exactly the plaintexts that are
/// not too long, and is as long as the plaintext and a tag; the error's text is that of
/// `ring::error::Unspecified`.
#[verifier::external_body]
fn aead_seal(key: &[u8; 32], nonce: &[u8; 12], plain: &[u8]) -> (r: Result<Vec<u8>, String>)
    ensures
        match r {
            Ok(v) => sealed(key@, nonce@, plain@) == Some(v@) && v@.len() == plain@.len() + TAG_LEN
                && plain@.len() <= MAX_PLAINTEXT,
            Err(e) => sealed(key@, nonce@, plain@) is None && plain@.len() > MAX_PLAINTEXT && e@
                == "ring::error::Unspecified"@,
        },
{
    let unbound = ring::aead::UnboundKey::new(&ring::aead::CHACHA20_POLY1305, key);
    let key = unbound.map(ring::aead::LessSafeKey::new).map_err(|e| e.to_string())?;
    let nonce = ring::aead::Nonce::assume_unique_for_key(*nonce);
    let mut out = plain.to_vec();
    key.seal_in_place_append_tag(nonce, ring::aead::Aad::empty(), &mut out)
        .map_err(|e| e.to_string())?;
    Ok(out)
}

/// `ring::aead::LessSafeKey::open_in_place` with ChaCha20-Poly1305 and no further data. The
/// result is named. Claimed of it: what was sealed with the same key and nonce is opened
/// again; the plaintext is a tag shorter than the data; the error's text is that of
/// `ring::error::Unspecified`.
#[verifier::external_body]
fn aead_open(key: &[u8; 32], nonce: &[u8; 12], data: &[u8]) -> (r: Result<Vec<u8>, String>)
    ensures
        match r {
            Ok(v) => opened(key@, nonce@, data@) == Some(v@) && v@.len() + TAG_LEN == data@.len(),
            Err(e) => opened(key@, nonce@, data@) is None && e@ == "ring::error::Unspecified"@,
        },
        forall|plain: Seq<u8>|
            #![trigger sealed(key@, nonce@, plain)]
            sealed(key@, nonce@, plain) == Some(data@) ==> r is Ok && r->Ok_0@ == plain,
{
    let unbound = ring::aead::UnboundKey::new(&ring::aead::CHACHA20_POLY1305, key);
    let key = unbound.map(ring::aead::LessSafeKey::new).map_err(|e| e.to_string())?;
    let nonce = ring::aead::Nonce::assume_unique_for_key(*nonce);
    let mut out = data.to_vec();
    let plain = key.open_in_place(nonce, ring::aead::Aad::empty(), &mut out);
    plain.map(|p| p.to_vec()).map_err(|e| e.to_string())
}

/// `ring::rand::SecureRandom::fill` with `ring::rand::SystemRandom`. The bytes come from the
/// operating system, so nothing is claimed of them, nor of when there are none; the error's
/// text is that of `ring::error::Unspecified`.
#[verifier::external_body]
pub(crate) fn secure_bytes<const N: usize>() -> (r: Result<[u8; N], String>)
    ensures
        r matches Err(e) ==> e@ == "ring::error::Unspecified"@,
{
    let mut bytes = [0u8; N];
    match ring::rand::SystemRandom::new().fill(&mut bytes) {
        Ok(()) => Ok(bytes),
        Err(e) => Err(e.to_string()),
    }
}

/// Hands out one nonce, once.
#[derive(Debug)]
pub struct OneNonceSequence {
    nonce: Option<[u8; 12]>,
}

impl OneNonceSequence {
    /// The nonce that is left.
    pub closed spec fn left(&self) -> Option<Seq<u8>> {
        match self.nonce {
            Some(n) => Some(n@),
            None => None,
        }
    }

    pub fn new(nonce: [u8; 12]) -> (s: Self)
        ensures
            s.left() == Some(nonce@),
    {
        OneNonceSequence { nonce: Some(nonce) }
    }

    /// The nonce, the first time; nothing from then on.
    pub fn advance(&mut self) -> (n: Option<[u8; 12]>)
        ensures
            match n {
                Some(a) => old(self).left() == Some(a@),
                None => old(self).left() is None,
            },
            final(self).left() is None,
    {
        let n: Option<[u8; 12]> = self.nonce;
        self.nonce = None;
        n
    }
}

/// Whether `c` is `plain` encrypted under the key: a nonce, and what is sealed with it.
pub open spec fn is_encryption(key: Seq<u8>, plain: Seq<u8>, c: Seq<u8>) -> bool {
    c.len() >= NONCE_LEN && sealed(key, c.subrange(0, NONCE_LEN as int), plain) == Some(
        c.subrange(NONCE_LEN as int, c.len() as int),
    )
}

/// What `c` decrypts to under the key, if anything.
pub open spec fn decrypted(key: Seq<u8>, c: Seq<u8>) -> Option<Seq<u8>> {
    if c.len() < NONCE_LEN {
        None
    } else {
        opened(
            key,
            c.subrange(0, NONCE_LEN as int),
            c.subrange(NONCE_LEN as int, c.len() as int),
        )
    }
}

/// Encrypts with one key and decrypts with another.
pub struct PhantomCipher {
    sealing_key_bytes: [u8; 32],
    opening_key_bytes: [u8; 32],
}

impl PhantomCipher {
    pub closed spec fn sealing_key(&self) -> Seq<u8> {
        self.sealing_key_bytes@
    }

    pub closed spec fn opening_key(&self) -> Seq<u8> {
        self.opening_key_bytes@
    }

    pub fn new(sealing_key: [u8; 32], opening_key: [u8; 32]) -> (r: PhantomResult<Self>)
        ensures
            r matches Ok(c) && c.sealing_key() == sealing_key@ && c.opening_key() == opening_key@,
    {
        Ok(Self::from_keys(sealing_key, opening_key))
    }

    /// Any two keys make a cipher.
    pub fn from_keys(sealing_key: [u8; 32], opening_key: [u8; 32]) -> (c: Self)
        ensures
            c.sealing_key() == sealing_key@,
            c.opening_key() == opening_key@,
    {
        PhantomCipher { sealing_key_bytes: sealing_key, opening_key_bytes: opening_key }
    }

    /// Encrypts with a given nonce: the nonce, the ciphertext and the tag.
    pub fn encrypt_with_nonce(&self, nonce: [u8; 12], plaintext: &[u8]) -> (r: PhantomResult<
        Vec<u8>,
    >)
        ensures
            match r {
                Ok(c) => {
                    &&& plaintext@.len() <= MAX_PLAINTEXT
                    &&& c@.len() == NONCE_LEN + plaintext@.len() + TAG_LEN
                    &&& c@.subrange(0, NONCE_LEN as int) == nonce@
                    &&& is_encryption(self.sealing_key(), plaintext@, c@)
                },
                Err(e) => plaintext@.len() > MAX_PLAINTEXT && e.is_crypto(
                    "encryption failed: "@ + "ring::error::Unspecified"@,
                ),
            },
    {
        match aead_seal(&self.sealing_key_bytes, &nonce, plaintext) {
            Ok(body) => {
                let mut c: Vec<u8> = Vec::new();
                put_all(&mut c, &nonce);
                put_all(&mut c, body.as_slice());
                assert(c@.subrange(0, NONCE_LEN as int) =~= nonce@);
                assert(c@.subrange(NONCE_LEN as int, c@.len() as int) =~= body@);
                Ok(c)
            },
            Err(e) => Err(PhantomError::CryptoError(join("encryption failed: ", e.as_str()))),
        }
    }

    /// Encrypts with a nonce from the operating system.
    pub fn encrypt(&self, plaintext: &[u8]) -> (r: PhantomResult<Vec<u8>>)
        ensures
            match r {
                Ok(c) => {
                    &&& plaintext@.len() <= MAX_PLAINTEXT
                    &&& c@.len() == NONCE_LEN + plaintext@.len() + TAG_LEN
                    &&& is_encryption(self.sealing_key(), plaintext@, c@)
                },
                Err(e) => {
                    ||| e.is_crypto("failed to generate nonce: "@ + "ring::error::Unspecified"@)
                    ||| plaintext@.len() > MAX_PLAINTEXT && e.is_crypto(
                        "encryption failed: "@ + "ring::error::Unspecified"@,
                    )
                },
            },
    {
        match generate_nonce() {
            Ok(n) => {
                let mut nonces = OneNonceSequence::new(n);
                match nonces.advance() {
                    Some(nonce) => self.encrypt_with_nonce(nonce, plaintext),
                    None => Err(PhantomError::CryptoError("encryption failed: ".to_string())),
                }
            },
            Err(e) => Err(e),
        }
    }

    /// Decrypts what was encrypted under the opening key.
    pub fn decrypt(&self, ciphertext: &[u8]) -> (r: PhantomResult<Vec<u8>>)
        ensures
            match r {
                Ok(p) => {
                    &&& decrypted(self.opening_key(), ciphertext@) == Some(p@)
                    &&& p@.len() + NONCE_LEN + TAG_LEN == ciphertext@.len()
                },
                Err(e) => decrypted(self.opening_key(), ciphertext@) is None && e.is_crypto(
                    if ciphertext@.len() < NONCE_LEN {
                        "ciphertext too short to contain nonce"@
                    } else {
                        "decryption failed: "@ + "ring::error::Unspecified"@
                    },
                ),
            },
            ciphertext@.len() < NONCE_LEN + TAG_LEN ==> r is Err,
            forall|plain: Seq<u8>| #[trigger]
                is_encryption(self.opening_key(), plain, ciphertext@) ==> r is Ok && r->Ok_0@
                    == plain,
    {
        if ciphertext.len() < NONCE_LEN {
            return Err(
                PhantomError::CryptoError("ciphertext too short to contain nonce".to_string()),
            );
        }
        let nonce: [u8; 12] = [
            ciphertext[0],
            ciphertext[1],
            ciphertext[2],
            ciphertext[3],
            ciphertext[4],
            ciphertext[5],
            ciphertext[6],
            ciphertext[7],
            ciphertext[8],
            ciphertext[9],
            ciphertext[10],
            ciphertext[11],
        ];
        assert(nonce@ =~= ciphertext@.subrange(0, NONCE_LEN as int));
        let body = copy_range(ciphertext, NONCE_LEN, ciphertext.len());
        match aead_open(&self.opening_key_bytes, &nonce, body.as_slice()) {
            Ok(p) => Ok(p),
            Err(e) => Err(PhantomError::CryptoError(join("decryption failed: ", e.as_str()))),
        }
    }
}

/// The nonce that was drawn, or why there is none.
pub fn nonce_from(drawn: Result<[u8; 12], String>) -> (r: PhantomResult<[u8; 12]>)
    ensures
        match drawn {
            Ok(n) => r matches Ok(nonce) && nonce@ == n@,
            Err(why) => r matches Err(e) && e.is_crypto("failed to generate nonce: "@ + why@),
        },
{
    match drawn {
        Ok(n) => Ok(n),
        Err(why) => Err(
            PhantomError::CryptoError(join("failed to generate nonce: ", why.as_str())),
        ),
    }
}

/// A nonce from the operating system, which alone decides the bytes and whether there are
/// any; `nonce_from` says what comes of each draw.
fn generate_nonce() -> (r: PhantomResult<[u8; 12]>)
    ensures
        r matches Err(e) ==> e.is_crypto(
            "failed to generate nonce: "@ + "ring::error::Unspecified"@,
        ),
{
    nonce_from(secure_bytes::<12>())
}

/// Encrypted data is twelve bytes of nonce and, behind them, what was sealed with it; decrypting
/// opens what stands behind the nonce, and refuses what has none.
pub proof fn law_nonce_stands_in_front(key: Seq<u8>, nonce: Seq<u8>, body: Seq<u8>, plain: Seq<u8>)
    requires
        nonce.len() == 12,
    ensures
        is_encryption(key, plain, nonce + body) <==> sealed(key, nonce, plain) == Some(body),
        decrypted(key, nonce + body) == opened(key, nonce, body),
        body.len() < 12 ==> decrypted(key, body) is None && !is_encryption(key, plain, body),
{
    let c = nonce + body;
    assert(c.subrange(0, 12) =~= nonce);
    assert(c.subrange(12, c.len() as int) =~= body);
}

} // verus!
