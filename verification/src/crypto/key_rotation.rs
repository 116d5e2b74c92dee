//! Keys that change after a while.

use crate::crypto::cipher::{secure_bytes, PhantomCipher};
use crate::utils::error::{PhantomError, PhantomResult};
use crate::utils::text::join;
use vstd::prelude::*;

verus! {

/// Holds a cipher and knows when its keys are due for a change. Times are microseconds since
/// some start that the caller keeps to.
pub struct KeyRotator {
    cipher: PhantomCipher,
    rotation_interval_s: u64,
    last_rotation_us: u64,
    exit_pubkey: Option<[u8; 32]>,
}

/// Whether a whole interval has passed.
pub open spec fn is_due(last_us: int, interval_s: int, now_us: int) -> bool {
    (if now_us > last_us {
        now_us - last_us
    } else {
        0
    }) >= interval_s * 1_000_000
}

impl KeyRotator {
    pub closed spec fn interval_s(&self) -> int {
        self.rotation_interval_s as int
    }

    pub closed spec fn last_us(&self) -> int {
        self.last_rotation_us as int
    }

    pub closed spec fn current(&self) -> PhantomCipher {
        self.cipher
    }

    /// The key of the exit, where it is known.
    pub closed spec fn exit_key(&self) -> Option<[u8; 32]> {
        self.exit_pubkey
    }

    /// Starts with random keys.
    pub fn new(rotation_minutes: u64, now_us: u64) -> (r: Self)
        requires
            rotation_minutes * 60 <= u64::MAX,
        ensures
            r.interval_s() == rotation_minutes * 60,
            r.last_us() == now_us,
            r.exit_key() is None,
            exists|a: Result<[u8; 32], String>, b: Result<[u8; 32], String>|
                r.current().sealing_key() == #[trigger] key_of(a) && r.current().opening_key()
                    == #[trigger] key_of(b),
    {
        let (sealing_key, opening_key): ([u8; 32], [u8; 32]) = Self::generate_keypair();
        Self::with_keys(rotation_minutes, sealing_key, opening_key, now_us)
    }

    /// Starts with the given keys.
    pub fn with_keys(
        rotation_minutes: u64,
        sealing_key: [u8; 32],
        opening_key: [u8; 32],
        now_us: u64,
    ) -> (r: Self)
        requires
            rotation_minutes * 60 <= u64::MAX,
        ensures
            r.interval_s() == rotation_minutes * 60,
            r.last_us() == now_us,
            r.exit_key() is None,
            r.current().sealing_key() == sealing_key@,
            r.current().opening_key() == opening_key@,
    {
        KeyRotator {
            cipher: PhantomCipher::from_keys(sealing_key, opening_key),
            rotation_interval_s: rotation_minutes * 60,
            last_rotation_us: now_us,
            exit_pubkey: None,
        }
    }

    /// Whether the keys are due for a change.
    pub fn should_rotate(&self, now_us: u64) -> (due: bool)
        ensures
            due == is_due(self.last_us(), self.interval_s(), now_us as int),
    {
        let passed: u64 = if now_us > self.last_rotation_us {
            now_us - self.last_rotation_us
        } else {
            0
        };
        passed as u128 >= (self.rotation_interval_s as u128) * 1_000_000
    }

    /// Two random keys; zeros where the operating system has no random bytes.
    pub fn generate_keypair() -> (keys: ([u8; 32], [u8; 32]))
        ensures
            exists|a: Result<[u8; 32], String>, b: Result<[u8; 32], String>|
                keys.0@ == #[trigger] key_of(a) && keys.1@ == #[trigger] key_of(b),
    {
        (generate_random_key(), generate_random_key())
    }

    /// Takes over new keys where the other side has been told of the sealing key, and keeps the
    /// old ones where it could not be told.
    pub fn finish_rotation(
        &mut self,
        sealing_key: [u8; 32],
        opening_key: [u8; 32],
        sent: Result<(), String>,
        now_us: u64,
    ) -> (r: PhantomResult<()>)
        ensures
            match sent {
                Ok(_) => {
                    &&& r is Ok
                    &&& final(self).current().sealing_key() == sealing_key@
                    &&& final(self).current().opening_key() == opening_key@
                    &&& final(self).last_us() == now_us
                    &&& final(self).interval_s() == old(self).interval_s()
                    &&& final(self).exit_key() == old(self).exit_key()
                },
                Err(cause) => {
                    &&& r matches Err(e) && e.is_crypto("key rotation send failed: "@ + cause@)
                    &&& *final(self) == *old(self)
                },
            },
    {
        if let Err(cause) = sent {
            return Err(
                PhantomError::CryptoError(join("key rotation send failed: ", cause.as_str())),
            );
        }
        self.cipher = PhantomCipher::from_keys(sealing_key, opening_key);
        self.last_rotation_us = now_us;
        Ok(())
    }

    pub fn get_cipher(&self) -> (c: &PhantomCipher)
        ensures
            *c == self.current(),
    {
        &self.cipher
    }

    pub fn exit_pubkey(&self) -> (k: Option<[u8; 32]>)
        ensures
            k == self.exit_key(),
    {
        self.exit_pubkey
    }
}

/// The key that comes of a draw: its bytes, or zeros where there are none.
pub open spec fn key_of(drawn: Result<[u8; 32], String>) -> Seq<u8> {
    match drawn {
        Ok(key) => key@,
        Err(_) => Seq::new(32, |i: int| 0u8),
    }
}

/// The key that comes of a draw.
pub fn key_from(drawn: Result<[u8; 32], String>) -> (key: [u8; 32])
    ensures
        key@ == key_of(drawn),
{
    match drawn {
        Ok(key) => key,
        Err(_) => {
            let zeros: [u8; 32] = [0; 32];
            assert(zeros@ =~= Seq::new(32, |i: int| 0u8));
            zeros
        },
    }
}

/// A key from the operating system, which alone decides the bytes and whether there are any;
/// `key_from` says what comes of each draw.
fn generate_random_key() -> (key: [u8; 32])
    ensures
        exists|drawn: Result<[u8; 32], String>| key@ == #[trigger] key_of(drawn),
{
    key_from(secure_bytes::<32>())
}

/// Keys that have just been changed are due no sooner than an interval later, and stay due
/// from then on.
pub proof fn law_rotation_is_due_after_an_interval(last_us: int, interval_s: int, now_us: int)
    requires
        0 <= last_us <= now_us,
        interval_s >= 1,
    ensures
        is_due(last_us, interval_s, now_us) <==> now_us >= last_us + interval_s * 1_000_000,
        !is_due(last_us, interval_s, last_us),
{
}

} // verus!
