//! The random choices the game needs: a uniform draw below a bound, a die
//! roll, and shuffling. Implemented for the generators of `rand` and
//! `rand_chacha`.

use rand::seq::SliceRandom;
use rand::RngExt;
use vstd::prelude::*;

verus! {

#[verifier::external_type_specification]
#[verifier::external_body]
pub struct ExStdRng(rand::rngs::StdRng);

#[verifier::external_type_specification]
#[verifier::external_body]
pub struct ExChaCha8Rng(rand_chacha::ChaCha8Rng);

/// A source of the random choices made by the simulator. Which values come
/// out is up to the generator; the contracts state what holds of every
/// outcome.
pub trait GameRng {
    /// A value drawn from `0..n`.
    fn below(&mut self, n: u8) -> (r: u8)
        requires
            n > 0,
        ensures
            r < n,
    ;

    /// A value drawn from `1..=6`.
    fn die(&mut self) -> (r: u8)
        ensures
            1 <= r <= 6,
    ;

    /// Reorders `items`; the same items remain, each as often as before.
    fn shuffle<T>(&mut self, items: &mut [T])
        ensures
            final(items)@.to_multiset() == old(items)@.to_multiset(),
    ;
}

/// Calls `RngExt::random_range` with `0..n` on a `StdRng`; the result lies in
/// the range (the call panics only on an empty range, excluded here).
#[verifier::external_body]
fn std_below(rng: &mut rand::rngs::StdRng, n: u8) -> (r: u8)
    requires
        n > 0,
    ensures
        r < n,
{
    rng.random_range(0..n)
}

/// Calls `RngExt::random_range` with `1..=6` on a `StdRng`; the result lies in
/// the range.
#[verifier::external_body]
fn std_die(rng: &mut rand::rngs::StdRng) -> (r: u8)
    ensures
        1 <= r <= 6,
{
    rng.random_range(1..=6u8)
}

/// Calls `SliceRandom::shuffle` with a `StdRng`, which permutes the slice in
/// place.
#[verifier::external_body]
fn std_shuffle<T>(rng: &mut rand::rngs::StdRng, items: &mut [T])
    ensures
        final(items)@.to_multiset() == old(items)@.to_multiset(),
{
    items.shuffle(rng)
}

/// Calls `RngExt::random_range` with `0..n` on a `ChaCha8Rng`; the result lies
/// in the range (the call panics only on an empty range, excluded here).
#[verifier::external_body]
fn chacha_below(rng: &mut rand_chacha::ChaCha8Rng, n: u8) -> (r: u8)
    requires
        n > 0,
    ensures
        r < n,
{
    rng.random_range(0..n)
}

/// Calls `RngExt::random_range` with `1..=6` on a `ChaCha8Rng`; the result lies
/// in the range.
#[verifier::external_body]
fn chacha_die(rng: &mut rand_chacha::ChaCha8Rng) -> (r: u8)
    ensures
        1 <= r <= 6,
{
    rng.random_range(1..=6u8)
}

/// Calls `SliceRandom::shuffle` with a `ChaCha8Rng`, which permutes the slice
/// in place.
#[verifier::external_body]
fn chacha_shuffle<T>(rng: &mut rand_chacha::ChaCha8Rng, items: &mut [T])
    ensures
        final(items)@.to_multiset() == old(items)@.to_multiset(),
{
    items.shuffle(rng)
}

impl GameRng for rand::rngs::StdRng {
    fn below(&mut self, n: u8) -> (r: u8) {
        std_below(self, n)
    }

    fn die(&mut self) -> (r: u8) {
        std_die(self)
    }

    fn shuffle<T>(&mut self, items: &mut [T]) {
        std_shuffle(self, items)
    }
}

impl GameRng for rand_chacha::ChaCha8Rng {
    fn below(&mut self, n: u8) -> (r: u8) {
        chacha_below(self, n)
    }

    fn die(&mut self) -> (r: u8) {
        chacha_die(self)
    }

    fn shuffle<T>(&mut self, items: &mut [T]) {
        chacha_shuffle(self, items)
    }
}

} // verus!
