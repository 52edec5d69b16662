//! The single source of randomness in the simulation: a coin that decides
//! the order in which the two diagonal escape candidates are tried when a
//! particle collides.  The coin is injectable so that ticks are
//! reproducible: tests script its outcomes, the driver seeds it.

use vstd::prelude::*;
use rand::Rng;
use rand::SeedableRng;

verus! {

#[verifier::external_type_specification]
#[verifier::external_body]
pub struct ExStdRng(rand::rngs::StdRng);

/// Relies on rand::rngs::StdRng::seed_from_u64 (via rand::SeedableRng):
/// builds a pseudo-random generator from a seed.  Nothing is assumed of
/// the generator's state.
#[verifier::external_body]
fn rng_from_seed(seed: u64) -> rand::rngs::StdRng {
    rand::rngs::StdRng::seed_from_u64(seed)
}

/// Relies on rand::Rng::gen::<bool>: draws one uniformly distributed
/// boolean.  Nothing is assumed of the outcome.
#[verifier::external_body]
fn rng_coin(r: &mut rand::rngs::StdRng) -> bool {
    r.gen::<bool>()
}

/// The outcome a scripted coin yields at position `p` of its script:
/// the scripted value while the script lasts, `false` once it is spent.
pub open spec fn scripted_flip(script: Seq<bool>, p: int) -> bool {
    if 0 <= p < script.len() {
        script[p]
    } else {
        false
    }
}

/// Where a coin's position stands after `k` further flips: it advances by
/// one per flip until it reaches the end of the script, then stays.
pub open spec fn sat_advance(p: int, l: int, k: int) -> int {
    if p >= l {
        p
    } else if p + k <= l {
        p + k
    } else {
        l
    }
}

/// The tie-break coin handed to `World::update`: either a scripted
/// sequence of outcomes (for reproducible tests), or a seeded
/// pseudo-random generator.
pub enum Coin {
    Scripted { flips: Vec<bool>, next: usize },
    Seeded { rng: rand::rngs::StdRng },
}

impl Coin {
    pub open spec fn is_scripted(self) -> bool {
        self is Scripted
    }

    /// The scripted outcomes (empty for a seeded coin).
    pub open spec fn script(self) -> Seq<bool> {
        match self {
            Coin::Scripted { flips, next } => flips@,
            Coin::Seeded { .. } => Seq::empty(),
        }
    }

    /// The position of the next outcome within the script.
    pub open spec fn pos(self) -> int {
        match self {
            Coin::Scripted { flips, next } => next as int,
            Coin::Seeded { .. } => 0,
        }
    }

    /// A coin that replays `flips` in order and then keeps answering
    /// `false`.
    pub fn scripted(flips: Vec<bool>) -> (c: Coin)
        ensures
            c.is_scripted(),
            c.script() == flips@,
            c.pos() == 0,
    {
        Coin::Scripted { flips, next: 0 }
    }

    /// A pseudo-random coin with a reproducible seed.
    pub fn seeded(seed: u64) -> (c: Coin)
        ensures
            !c.is_scripted(),
    {
        Coin::Seeded { rng: rng_from_seed(seed) }
    }

    /// One tie-break outcome.  For a scripted coin the outcome and the new
    /// position are pinned exactly; of a seeded coin nothing is promised
    /// but that it stays seeded.
    pub fn flip(&mut self) -> (b: bool)
        ensures
            final(self).is_scripted() == old(self).is_scripted(),
            final(self).script() == old(self).script(),
            old(self).is_scripted() ==> b == scripted_flip(old(self).script(), old(self).pos()),
            old(self).is_scripted() ==> final(self).pos() == sat_advance(
                old(self).pos(),
                old(self).script().len() as int,
                1,
            ),
    {
        match self {
            Coin::Scripted { flips, next } => {
                if *next < flips.len() {
                    let b = flips[*next];
                    *next = *next + 1;
                    b
                } else {
                    false
                }
            },
            Coin::Seeded { rng } => rng_coin(rng),
        }
    }
}

} // verus!
