//! The random number generator that tuners draw from.

use vstd::prelude::*;
use rand::rngs::StdRng;
use rand::seq::SliceRandom;
use rand::SeedableRng;
use std::sync::{Arc, Mutex};

verus! {

/// The generator of the `rand` crate that the library draws from. Nothing
/// of its state is visible to proofs.
#[verifier::external_type_specification]
#[verifier::external_body]
pub struct ExStdRng(rand::rngs::StdRng);

/// The standard library's lock. Nothing of what it guards is visible to
/// proofs.
#[verifier::external_type_specification]
#[verifier::external_body]
#[verifier::reject_recursive_types(T)]
pub struct ExMutex<T: ?Sized>(std::sync::Mutex<T>);

/// The number that bytes stand for when the highest byte comes first.
pub open spec fn big_endian(bytes: Seq<u8>) -> nat
    decreases bytes.len(),
{
    if bytes.len() == 0 {
        0
    } else {
        big_endian(bytes.drop_last()) * 256 + bytes.last() as nat
    }
}

/// The seed of a generator.
#[derive(Debug, Clone, Copy, PartialEq, Eq, Structural)]
pub struct RngSeed(pub u64);

impl RngSeed {
    pub fn new(seed: u64) -> (r: Self)
        ensures
            r.0 == seed,
    {
        Self(seed)
    }

    pub fn get(self) -> (r: u64)
        ensures
            r == self.0,
    {
        self.0
    }

    /// The 32 bytes that a generator is started from: the seed in the first
    /// eight, highest byte first, and zeros behind them.
    pub fn to_bytes(self) -> (r: Vec<u8>)
        ensures
            r@.len() == 32,
            self.0 == big_endian(r@.take(8)),
            forall|i: int| 8 <= i < 32 ==> r@[i] == 0,
    {
        let x = self.0;
        let mut out: Vec<u8> = Vec::new();
        out.push((x / 0x0100_0000_0000_0000) as u8);
        out.push((x / 0x0001_0000_0000_0000 % 256) as u8);
        out.push((x / 0x0000_0100_0000_0000 % 256) as u8);
        out.push((x / 0x0000_0001_0000_0000 % 256) as u8);
        out.push((x / 0x0000_0000_0100_0000 % 256) as u8);
        out.push((x / 0x0000_0000_0001_0000 % 256) as u8);
        out.push((x / 0x0000_0000_0000_0100 % 256) as u8);
        out.push((x % 256) as u8);
        proof {
            let head = out@.take(8);
            assert(head =~= out@);
            reveal_with_fuel(big_endian, 9);
        }
        let mut i: usize = 8;
        while i < 32
            invariant
                8 <= i <= 32,
                out@.len() == i,
                self.0 == big_endian(out@.take(8)),
                forall|j: int| 8 <= j < i ==> out@[j] == 0,
            decreases 32 - i,
        {
            let ghost before = out@;
            out.push(0);
            proof {
                assert(out@.take(8) =~= before.take(8));
            }
            i = i + 1;
        }
        out
    }

    /// Reads a seed: a decimal number that fits into 64 bits.
    pub fn from_str(s: &str) -> (r: Result<Self, crate::error::Error>)
        ensures
            match crate::text::number(s@) {
                Some(v) => if v <= u64::MAX {
                    r == Ok::<Self, crate::error::Error>(RngSeed(v as u64))
                } else {
                    r == Err::<Self, crate::error::Error>(crate::error::Error::InvalidNumber)
                },
                None => r == Err::<Self, crate::error::Error>(crate::error::Error::InvalidNumber),
            },
    {
        match crate::text::parse_u64(s) {
            Ok(seed) => Ok(Self(seed)),
            Err(e) => Err(e),
        }
    }

    /// A seed taken from the entropy of the machine: `rand::random`, which
    /// draws from the generator of the current thread and may return any
    /// value. Nothing is claimed of the result. That generator is seeded
    /// from the operating system; where the system gives no entropy the
    /// call does not return.
    #[verifier::external_body]
    pub(crate) fn random() -> (r: Self) {
        Self(rand::random())
    }
}

impl Default for RngSeed {
    /// A seed taken from the entropy of the machine.
    fn default() -> (r: Self) {
        Self::random()
    }
}

/// A seeded generator behind a shared handle: every copy of the handle
/// draws from the same stream. The handle keeps the seed that the
/// generator was started from.
#[derive(Debug, Clone)]
pub struct ArcRng {
    inner: Arc<Mutex<StdRng>>,
    seed: RngSeed,
}

impl ArcRng {
    /// The seed that the generator was started from.
    pub closed spec fn spec_seed(&self) -> RngSeed {
        self.seed
    }

    /// The lock that guards the generator, shared by every copy of the
    /// handle.
    pub closed spec fn spec_shared(&self) -> Arc<Mutex<StdRng>> {
        self.inner
    }

    /// A generator started from `seed`: from the 32 bytes that
    /// `seed.to_bytes()` gives.
    pub fn new(seed: RngSeed) -> (r: Self)
        ensures
            r.spec_seed() == seed,
    {
        Self { inner: Self::from_seed(&seed.to_bytes()), seed }
    }

    /// The seed that the generator was started from.
    #[verifier::when_used_as_spec(spec_seed)]
    pub fn seed(&self) -> (r: RngSeed)
        ensures
            r == self.spec_seed(),
    {
        self.seed
    }

    /// The lock that guards the generator, for drawing from the same stream
    /// outside the library.
    pub fn shared(&self) -> (r: &Arc<Mutex<StdRng>>)
        ensures
            *r == self.spec_shared(),
    {
        &self.inner
    }

    /// A generator started from 32 bytes, behind a new lock and a new
    /// shared handle: `StdRng::from_seed`. Nothing is claimed of the
    /// generator but that there is one.
    #[verifier::external_body]
    fn from_seed(bytes: &Vec<u8>) -> (r: Arc<Mutex<StdRng>>)
        requires
            bytes@.len() == 32,
    {
        let mut seed = [0u8; 32];
        seed.copy_from_slice(bytes);
        Arc::new(Mutex::new(StdRng::from_seed(seed)))
    }

    /// One element of `choices` picked at random: `SliceRandom::choose`,
    /// which returns nothing for an empty slice and otherwise a reference
    /// to one of the slice's elements. Which one depends on the
    /// generator's state, so only that much is claimed.
    #[verifier::external_body]
    pub(crate) fn pick<'a>(&mut self, choices: &'a [String]) -> (r: Option<&'a String>)
        ensures
            match r {
                Some(s) => choices@.contains(*s),
                None => choices@.len() == 0,
            },
    {
        let mut guard = match self.inner.lock() {
            Ok(guard) => guard,
            Err(poisoned) => poisoned.into_inner(),
        };
        choices.choose(&mut *guard)
    }
}

} // verus!
