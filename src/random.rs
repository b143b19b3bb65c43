//! The pseudo-random draws that parameter generation and noise take from `rand`.

use rand::distributions::{Distribution, Uniform};
use rand::{Rng, SeedableRng};
use rand_chacha::ChaCha8Rng;
use vstd::prelude::*;

verus! {

/// The generator of the current thread, seeded from the operating system.
#[verifier::external_type_specification]
#[verifier::external_body]
pub struct ExThreadRng(rand::rngs::ThreadRng);

/// Relies on rand::thread_rng: a handle to the generator of the current thread.
pub assume_specification[ rand::thread_rng ]() -> rand::rngs::ThreadRng;

/// Relies on Rng::gen::<i32> of ThreadRng: any `i32`.
#[verifier::external_body]
pub(crate) fn thread_i32(rng: &mut rand::rngs::ThreadRng) -> i32 {
    rng.gen()
}

/// Relies on Rng::gen::<i8> of ThreadRng: any `i8`.
#[verifier::external_body]
pub(crate) fn thread_i8(rng: &mut rand::rngs::ThreadRng) -> i8 {
    rng.gen()
}

/// Relies on Uniform::from(0..n).sample of ThreadRng: a value in `0..n`, which is
/// empty (and panics) for `n == 0`.
#[verifier::external_body]
pub(crate) fn thread_index(rng: &mut rand::rngs::ThreadRng, n: usize) -> (r: usize)
    requires
        n > 0,
    ensures
        r < n,
{
    Uniform::from(0..n).sample(rng)
}

/// The first `count` draws, each uniform over all of `u64`, of a ChaCha8 generator
/// seeded with `seed`.
pub uninterp spec fn chacha8_u64_stream(seed: u64, count: nat) -> Seq<u64>;

/// Relies on ChaCha8Rng::seed_from_u64 and Uniform::from(u64::MIN..=u64::MAX).sample:
/// the stream depends on `seed` alone, and `count` draws come out.
#[verifier::external_body]
pub(crate) fn chacha8_u64_draws(seed: u64, count: usize) -> (r: Vec<u64>)
    ensures
        r@ == chacha8_u64_stream(seed, count as nat),
        r@.len() == count,
{
    let mut rng = ChaCha8Rng::seed_from_u64(seed);
    let dist = Uniform::from(u64::MIN..=u64::MAX);
    (0..count).map(|_| dist.sample(&mut rng)).collect()
}

/// The parameters that one ChaCha8 generator seeded with `seed` draws, in this order:
/// `neuron_count` tresholds and `effect_count` effects over all of their types, then
/// `input_count` and `output_count` neuron indices uniform in `0..neuron_count`.
pub uninterp spec fn chacha8_base(
    seed: u64,
    neuron_count: nat,
    effect_count: nat,
    input_count: nat,
    output_count: nat,
) -> (Seq<i32>, Seq<i8>, Seq<usize>, Seq<usize>);

/// Relies on ChaCha8Rng::seed_from_u64, Rng::gen::<i32>, Rng::gen::<i8> and
/// Uniform::from(0..neuron_count).sample: the draws depend on the arguments alone,
/// each sequence has the length asked for, and each index is below `neuron_count`.
#[verifier::external_body]
pub(crate) fn chacha8_base_params(
    seed: u64,
    neuron_count: usize,
    effect_count: usize,
    input_count: usize,
    output_count: usize,
) -> (r: (Vec<i32>, Vec<i8>, Vec<usize>, Vec<usize>))
    requires
        neuron_count > 0,
    ensures
        (r.0@, r.1@, r.2@, r.3@) == chacha8_base(
            seed,
            neuron_count as nat,
            effect_count as nat,
            input_count as nat,
            output_count as nat,
        ),
        r.0@.len() == neuron_count,
        r.1@.len() == effect_count,
        r.2@.len() == input_count,
        r.3@.len() == output_count,
        forall|k: int| 0 <= k < input_count ==> #[trigger] r.2@[k] < neuron_count,
        forall|k: int| 0 <= k < output_count ==> #[trigger] r.3@[k] < neuron_count,
{
    let mut rng = ChaCha8Rng::seed_from_u64(seed);
    let tresholds = (0..neuron_count).map(|_| rng.gen()).collect();
    let effects = (0..effect_count).map(|_| rng.gen()).collect();
    let dist = Uniform::from(0..neuron_count);
    let inputs = (0..input_count).map(|_| dist.sample(&mut rng)).collect();
    let outputs = (0..output_count).map(|_| dist.sample(&mut rng)).collect();
    (tresholds, effects, inputs, outputs)
}

} // verus!
