//! Choosing phrases for the demo source: from the phrases loaded from a
//! file when there are any, else from the built-in ones, at random.
use vstd::prelude::*;
use rand::Rng;

verus! {

#[verifier::external_type_specification]
#[verifier::external_body]
pub struct ExStdRng(rand::rngs::StdRng);

/// Relies on `rand::Rng::gen_range` over `0..n`: a value in the range; it
/// panics on an empty range, which `requires` rules out.
#[verifier::external_body]
fn random_below(rng: &mut rand::rngs::StdRng, n: usize) -> (r: usize)
    requires
        n > 0,
    ensures
        r < n,
{
    rng.gen_range(0..n)
}

/// The phrases the demo draws from: the loaded ones if any were loaded,
/// else the built-in ones.
pub fn demo_catalog(loaded: Option<Vec<String>>, builtin: Vec<String>) -> (r: Vec<String>)
    ensures
        loaded is Some && loaded->Some_0@.len() > 0 ==> r@ == loaded->Some_0@,
        !(loaded is Some && loaded->Some_0@.len() > 0) ==> r@ == builtin@,
{
    match loaded {
        Some(v) => {
            if v.len() > 0 {
                v
            } else {
                builtin
            }
        },
        None => builtin,
    }
}

/// One of `phrases`, drawn at random.
pub fn pick_phrase(rng: &mut rand::rngs::StdRng, phrases: &Vec<String>) -> (r: String)
    requires
        phrases.len() > 0,
    ensures
        exists|i: int| 0 <= i < phrases.len() && r@ == phrases@[i]@,
{
    let i = random_below(rng, phrases.len());
    phrases[i].clone()
}

} // verus!
