//! The synthetic outbound client: on every tick it forwards one phrase,
//! chosen by a linear congruential generator, until it is stopped or its
//! consumer goes away.
use vstd::prelude::*;

verus! {

pub const SEED_MULTIPLIER: u64 = 1103515245;

pub const SEED_INCREMENT: u64 = 12345;

/// Seeds are kept below this bound.
pub const SEED_MODULUS: u64 = 2147483648;

/// The seed a new feed starts from.
pub const INITIAL_SEED: u32 = 114514;

pub open spec fn spec_next_seed(seed: u32) -> int {
    (seed * SEED_MULTIPLIER + SEED_INCREMENT) % (SEED_MODULUS as int)
}

/// The seed that follows `seed`.
pub fn next_seed(seed: u32) -> (r: u32)
    ensures
        r == spec_next_seed(seed),
        r < SEED_MODULUS,
{
    let s: u64 = seed as u64;
    assert(s * 1103515245 <= 4294967295 * 1103515245) by (nonlinear_arith)
        requires
            s <= 4294967295,
    ;
    let x: u64 = s * SEED_MULTIPLIER + SEED_INCREMENT;
    (x % SEED_MODULUS) as u32
}

#[derive(Debug, Clone, Copy, PartialEq, Eq)]
pub enum FeedEvent {
    /// The feed's interval elapsed.
    Tick,
    /// The feed was asked to stop.
    Stop,
    /// The last phrase could not be forwarded: the consumer is gone.
    ForwardFailed,
}

#[derive(Debug, PartialEq, Eq)]
pub enum FeedAction {
    /// Forward this phrase to the supervisor's inbound channel.
    Forward(String),
    /// Leave the loop and return normally.
    Exit,
}

#[derive(Debug)]
pub struct SyntheticFeed {
    pub seed: u32,
}

impl SyntheticFeed {
    pub fn new() -> (r: Self)
        ensures
            r.seed == INITIAL_SEED,
    {
        SyntheticFeed { seed: INITIAL_SEED }
    }

    /// Takes one event of the feed's loop. On a tick the seed advances and
    /// the phrase at the new seed, taken modulo the number of phrases, is
    /// forwarded; a stop or a failed forward ends the loop.
    pub fn step(&mut self, e: FeedEvent, phrases: &Vec<String>) -> (r: FeedAction)
        requires
            phrases.len() > 0,
        ensures
            e is Tick ==> final(self).seed == spec_next_seed(old(self).seed) && r is Forward
                && r->Forward_0@ == phrases@[final(self).seed as int % phrases.len() as int]@,
            !(e is Tick) ==> final(self).seed == old(self).seed && r is Exit,
    {
        match e {
            FeedEvent::Tick => {
                self.seed = next_seed(self.seed);
                let i = (self.seed as usize) % phrases.len();
                FeedAction::Forward(phrases[i].clone())
            },
            FeedEvent::Stop => FeedAction::Exit,
            FeedEvent::ForwardFailed => FeedAction::Exit,
        }
    }
}

} // verus!
