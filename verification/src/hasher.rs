//! The hashers: a 64-bit digest of the key, then the jump recurrence on that
//! digest.
//!
//! The digest is computed outside the verified code: the key's
//! `std::hash::Hash` impl feeds a `std::hash::Hasher`, which is SipHash-1-3
//! under the hasher's secret for [`JumpHasher`] and a clone of the caller's
//! hasher for [`CustomJumpHasher`]. Nothing is assumed of the digest, so the
//! contracts here hold for whatever 64 bits come back, and say of the slot
//! that it is the one that [`crate::jump::spec_jump`] gives for some digest.
//! What the slot is for a given digest is stated, exactly, by
//! [`crate::jump::jump`].

use crate::jump::{jump, spec_jump};
use rand::rngs::ThreadRng;
use rand::RngCore;
use siphasher::sip::SipHasher13;
use std::hash::{Hash, Hasher};
use vstd::pervasive::runtime_assert;
use vstd::prelude::*;

verus! {

/// `siphasher::sip::SipHasher13`, the state of a SipHash-1-3 computation. Its
/// contents are not visible to the verifier.
#[verifier::external_type_specification]
#[verifier::external_body]
pub struct ExSipHasher13(SipHasher13);

/// `rand::rngs::ThreadRng`, a handle to the thread's generator. Its contents
/// are not visible to the verifier.
#[verifier::external_type_specification]
#[verifier::external_body]
pub struct ExThreadRng(ThreadRng);

/// `SipHasher13::new_with_keys` returns a fresh state for the two key words.
/// Nothing is claimed of the state.
pub assume_specification[ SipHasher13::new_with_keys ](key0: u64, key1: u64) -> (state:
    SipHasher13)
;

/// `rand::thread_rng` returns a handle to the generator of the calling thread,
/// which the operating system seeds on first use. Nothing is claimed of the
/// handle. The call panics if the operating system's source of randomness
/// cannot be read when the generator is first set up.
pub assume_specification[ rand::thread_rng ]() -> (rng: ThreadRng)
;

/// `RngCore::next_u64` on a `ThreadRng` draws the next 64 random bits. Nothing
/// is claimed of them. The call panics if the generator is due to be reseeded
/// and the operating system's source of randomness cannot be read.
#[verifier::external_body]
fn next_u64(rng: &mut ThreadRng) -> (word: u64) {
    rng.next_u64()
}

/// `Hash::hash` feeds `key` to `state`. What is fed is up to the key's impl and
/// what it does to the state is up to the hasher's: nothing is claimed of the
/// state afterwards, nor that either impl returns.
#[verifier::external_body]
fn absorb<T: Hash, H: Hasher>(key: &T, state: &mut H) {
    key.hash(state)
}

/// `Hasher::finish` returns the digest of what was fed to `state`. Nothing is
/// claimed of it, nor that the hasher's impl returns.
#[verifier::external_body]
fn finish<H: Hasher>(state: &H) -> (digest: u64) {
    state.finish()
}

/// Why a slot could not be computed.
#[derive(Clone, Copy, Debug, PartialEq, Eq, Structural)]
pub enum Error {
    /// The slot count was zero: there is no slot to return.
    InvalidArgument,
}

/// A jump hasher that digests keys with SipHash-1-3 under a 128-bit secret.
#[derive(Clone, Copy, Debug)]
pub struct JumpHasher {
    k1: u64,
    k2: u64,
}

impl View for JumpHasher {
    type V = (u64, u64);

    /// The two words of the secret.
    closed spec fn view(&self) -> (u64, u64) {
        (self.k1, self.k2)
    }
}

impl Default for JumpHasher {
    /// A hasher with a secret drawn from the thread's random generator, which
    /// is cryptographically strong and seeded by the operating system. Where
    /// the operating system's source of randomness cannot be read, the
    /// generator stops the program.
    fn default() -> JumpHasher {
        let mut rng = rand::thread_rng();
        let k1: u64 = next_u64(&mut rng);
        let k2: u64 = next_u64(&mut rng);
        JumpHasher::new_with_keys(k1, k2)
    }
}

impl JumpHasher {
    /// A hasher with a secret drawn from the thread's random generator: two
    /// hashers made this way agree on the slots of all keys only by chance.
    pub fn new() -> JumpHasher {
        JumpHasher::default()
    }

    /// The hasher with the secret `(k1, k2)`.
    pub fn new_with_keys(k1: u64, k2: u64) -> (hasher: JumpHasher)
        ensures
            hasher@ == (k1, k2),
    {
        JumpHasher { k1, k2 }
    }

    /// The slot of `key` among `slot_count` slots: what the jump recurrence
    /// gives for the SipHash-1-3 digest of the key under the secret.
    ///
    /// A slot count of zero is a caller's error. Verified callers are held to
    /// the precondition; for any other caller the function stops the program
    /// rather than return a slot that does not exist. See
    /// [`JumpHasher::try_slot`] for a variant that reports the error.
    pub fn slot<T: Hash>(&self, key: &T, slot_count: u32) -> (slot: u32)
        requires
            slot_count >= 1,
        ensures
            slot < slot_count,
            slot_count == 1 ==> slot == 0,
            exists|digest: u64| slot == #[trigger] spec_jump(digest, slot_count),
    {
        runtime_assert(slot_count >= 1);
        let mut state = SipHasher13::new_with_keys(self.k1, self.k2);
        absorb(key, &mut state);
        let digest: u64 = finish(&state);
        jump(digest, slot_count)
    }

    /// As [`JumpHasher::slot`], for callers that cannot show that the slot
    /// count is positive: a slot count of zero gives
    /// [`Error::InvalidArgument`], any other a slot.
    pub fn try_slot<T: Hash>(&self, key: &T, slot_count: u32) -> (result: Result<u32, Error>)
        ensures
            slot_count == 0 <==> result == Err::<u32, Error>(Error::InvalidArgument),
            slot_count >= 1 <==> result is Ok,
            result matches Ok(slot) ==> {
                &&& slot < slot_count
                &&& slot_count == 1 ==> slot == 0
                &&& exists|digest: u64| slot == #[trigger] spec_jump(digest, slot_count)
            },
    {
        if slot_count == 0 {
            Err(Error::InvalidArgument)
        } else {
            Ok(self.slot(key, slot_count))
        }
    }
}

/// A jump hasher that digests keys with a hasher of the caller's choice.
#[derive(Clone, Copy, Debug)]
pub struct CustomJumpHasher<H: Hasher + Clone> {
    hs: H,
}

impl<H: Hasher + Clone> View for CustomJumpHasher<H> {
    type V = H;

    /// The hasher state that every digest starts from.
    closed spec fn view(&self) -> H {
        self.hs
    }
}

impl<H: Hasher + Clone> CustomJumpHasher<H> {
    /// A jump hasher whose digests start from a clone of `hasher`.
    pub fn new(hasher: H) -> (custom: CustomJumpHasher<H>)
        ensures
            custom@ == hasher,
    {
        CustomJumpHasher { hs: hasher }
    }

    /// The slot of `key` among `slot_count` slots: what the jump recurrence
    /// gives for the digest that a clone of the hasher computes of the key.
    ///
    /// A slot count of zero is a caller's error. Verified callers are held to
    /// the precondition; for any other caller the function stops the program
    /// rather than return a slot that does not exist. See
    /// [`CustomJumpHasher::try_slot`] for a variant that reports the error.
    pub fn slot<T: Hash>(&self, key: &T, slot_count: u32) -> (slot: u32)
        requires
            slot_count >= 1,
        ensures
            slot < slot_count,
            slot_count == 1 ==> slot == 0,
            exists|digest: u64| slot == #[trigger] spec_jump(digest, slot_count),
    {
        runtime_assert(slot_count >= 1);
        let mut state = self.hs.clone();
        absorb(key, &mut state);
        let digest: u64 = finish(&state);
        jump(digest, slot_count)
    }

    /// As [`CustomJumpHasher::slot`], for callers that cannot show that the
    /// slot count is positive: a slot count of zero gives
    /// [`Error::InvalidArgument`], any other a slot.
    pub fn try_slot<T: Hash>(&self, key: &T, slot_count: u32) -> (result: Result<u32, Error>)
        ensures
            slot_count == 0 <==> result == Err::<u32, Error>(Error::InvalidArgument),
            slot_count >= 1 <==> result is Ok,
            result matches Ok(slot) ==> {
                &&& slot < slot_count
                &&& slot_count == 1 ==> slot == 0
                &&& exists|digest: u64| slot == #[trigger] spec_jump(digest, slot_count)
            },
    {
        if slot_count == 0 {
            Err(Error::InvalidArgument)
        } else {
            Ok(self.slot(key, slot_count))
        }
    }
}

} // verus!
