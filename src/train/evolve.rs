//! Seed-driven noise passes, and networks built from a seed and a list of them.

use crate::network::{
    check_shape, fresh_view, lemma_mod_bounds, lemma_mod_near, shape_error, Effect, Error, Network,
    NetworkView, NeuronValue,
};
use crate::random::{chacha8_base, chacha8_base_params, chacha8_u64_draws, chacha8_u64_stream};
use vstd::arithmetic::div_mod::{
    lemma_add_mod_noop_right, lemma_fundamental_div_mod, lemma_mod_multiples_vanish,
};
use vstd::prelude::*;

verus! {

/// Parameters for a noise pass, see [build_network_from_noise].
#[derive(Debug, Clone, Copy)]
pub struct NoisePassParams {
    pub seed: u64,
    pub power: u8,
}

/// `x` limited to `lo..=hi`.
pub open spec fn clamp(x: int, lo: int, hi: int) -> int {
    if x < lo {
        lo
    } else if x > hi {
        hi
    } else {
        x
    }
}

/// `x / 4` rounded toward zero.
pub open spec fn quarter(x: int) -> int {
    if x >= 0 {
        x / 4
    } else {
        -((-x) / 4)
    }
}

/// The offset that one draw `r` gives at intensity `power`: close to zero for most
/// draws, and spread wider as `power` grows. A draw below `1 + power` counts as
/// if its quotient were 1, which gives the farthest offset.
pub open spec fn noise_offset(r: u64, power: u8) -> int {
    let q = r as int / (1 + power as int);
    let unsigned = u64::MAX as int / (if q == 0 {
        1
    } else {
        q
    }) - power as int;
    let magnitude = unsigned / 2;
    if r % 2 == 0 {
        -magnitude
    } else {
        magnitude
    }
}

/// An effect moved by `offset`, first limited to the range of `i8`, saturating.
pub open spec fn noised_effect(effect: Effect, offset: int) -> Effect {
    Effect(clamp(effect.0 + clamp(offset, i8::MIN as int, i8::MAX as int), i8::MIN as int, i8::MAX as int) as i8)
}

/// A treshold moved by `offset`, first limited to the range of `i32`, saturating.
pub open spec fn noised_treshold(treshold: NeuronValue, offset: int) -> NeuronValue {
    NeuronValue(
        clamp(treshold.0 + clamp(offset, i32::MIN as int, i32::MAX as int), i32::MIN as int, i32::MAX as int) as i32,
    )
}

/// A neuron index moved around the ring of `n` neurons by a quarter of `offset`,
/// first limited to the range of `isize`.
pub open spec fn noised_index(index: usize, offset: int, n: nat) -> usize {
    ((index + quarter(clamp(offset, isize::MIN as int, isize::MAX as int))) % (n as int)) as usize
}

/// How many draws one noise pass on a network takes: one per effect, treshold,
/// input index and output index.
pub open spec fn noise_draw_count(v: NetworkView) -> nat {
    v.effects.len() + v.tresholds.len() + v.input_neurons.len() + v.output_neurons.len()
}

/// A network after a noise pass at intensity `power` whose stream gave `draws`:
/// the effects take the first draws in order, then the tresholds, then the input
/// indices, then the output indices.
pub open spec fn noised(v: NetworkView, draws: Seq<u64>, power: u8) -> NetworkView {
    let e = v.effects.len() as int;
    let t = v.tresholds.len() as int;
    let i = v.input_neurons.len() as int;
    let n = v.neuron_count();
    NetworkView {
        effects: Seq::new(
            v.effects.len(),
            |k: int| noised_effect(v.effects[k], noise_offset(draws[k], power)),
        ),
        tresholds: Seq::new(
            v.tresholds.len(),
            |k: int| noised_treshold(v.tresholds[k], noise_offset(draws[e + k], power)),
        ),
        input_neurons: Seq::new(
            v.input_neurons.len(),
            |k: int| noised_index(v.input_neurons[k], noise_offset(draws[e + t + k], power), n),
        ),
        output_neurons: Seq::new(
            v.output_neurons.len(),
            |k: int| noised_index(v.output_neurons[k], noise_offset(draws[e + t + i + k], power), n),
        ),
        ..v
    }
}

/// Applies one noise pass whose stream gave `draws`, at intensity `power`;
/// see [noised].
pub fn apply_noise_draws(net: &mut Network, draws: &[u64], power: u8)
    requires
        old(net).wf(),
        draws@.len() == noise_draw_count(old(net)@),
    ensures
        final(net).wf(),
        final(net)@ == noised(old(net)@, draws@, power),
{
    let ghost v = net@;
    let ghost goal = noised(v, draws@, power);
    let draw_count = draws.len();
    let n = net.tresholds().len();
    let effect_count = net.effects().len();
    let mut k: usize = 0;
    while k < effect_count
        invariant
            n == v.neuron_count(),
            effect_count == v.effects.len(),
            draws@.len() == noise_draw_count(v),
            draw_count == draws@.len(),
            goal == noised(v, draws@, power),
            k <= effect_count,
            net@ == (NetworkView { effects: net@.effects, ..v }),
            net@.effects.len() == effect_count,
            forall|j: int| 0 <= j < k ==> #[trigger] net@.effects[j] == goal.effects[j],
            forall|j: int| k <= j < effect_count ==> #[trigger] net@.effects[j] == v.effects[j],
        decreases effect_count - k,
    {
        let effect = net.effects()[k];
        let offset = offset_from_draw(draws[k], power);
        net.effects_mut()[k] = perturb_effect(effect, offset);
        k += 1;
    }
    assert(net@.effects =~= goal.effects);

    let mut k: usize = 0;
    while k < n
        invariant
            n == v.neuron_count(),
            effect_count == v.effects.len(),
            draws@.len() == noise_draw_count(v),
            draw_count == draws@.len(),
            goal == noised(v, draws@, power),
            k <= n,
            net@ == (NetworkView { tresholds: net@.tresholds, effects: goal.effects, ..v }),
            net@.tresholds.len() == n,
            forall|j: int| 0 <= j < k ==> #[trigger] net@.tresholds[j] == goal.tresholds[j],
            forall|j: int| k <= j < n ==> #[trigger] net@.tresholds[j] == v.tresholds[j],
        decreases n - k,
    {
        let treshold = net.tresholds()[k];
        let offset = offset_from_draw(draws[effect_count + k], power);
        net.tresholds_mut()[k] = perturb_treshold(treshold, offset);
        k += 1;
    }
    assert(net@.tresholds =~= goal.tresholds);

    let base = effect_count + n;
    let input_count = net.input_neurons().len();
    let mut k: usize = 0;
    while k < input_count
        invariant
            n == v.neuron_count(),
            effect_count == v.effects.len(),
            base == effect_count + n,
            input_count == v.input_neurons.len(),
            draws@.len() == noise_draw_count(v),
            draw_count == draws@.len(),
            goal == noised(v, draws@, power),
            v.wf(),
            k <= input_count,
            net@ == (NetworkView {
                input_neurons: net@.input_neurons,
                tresholds: goal.tresholds,
                effects: goal.effects,
                ..v
            }),
            net@.input_neurons.len() == input_count,
            forall|j: int| 0 <= j < k ==> #[trigger] net@.input_neurons[j] == goal.input_neurons[j],
            forall|j: int|
                k <= j < input_count ==> #[trigger] net@.input_neurons[j] == v.input_neurons[j],
        decreases input_count - k,
    {
        let index = net.input_neurons()[k];
        let offset = offset_from_draw(draws[base + k], power);
        net.input_neurons_mut()[k] = perturb_index(index, offset, n);
        k += 1;
    }
    assert(net@.input_neurons =~= goal.input_neurons);

    let base = base + input_count;
    let output_count = net.output_neurons().len();
    let mut k: usize = 0;
    while k < output_count
        invariant
            n == v.neuron_count(),
            base == v.effects.len() + n + v.input_neurons.len(),
            output_count == v.output_neurons.len(),
            draws@.len() == noise_draw_count(v),
            draw_count == draws@.len(),
            goal == noised(v, draws@, power),
            v.wf(),
            k <= output_count,
            net@ == (NetworkView {
                output_neurons: net@.output_neurons,
                input_neurons: goal.input_neurons,
                tresholds: goal.tresholds,
                effects: goal.effects,
                ..v
            }),
            net@.output_neurons.len() == output_count,
            forall|j: int| 0 <= j < k ==> #[trigger] net@.output_neurons[j] == goal.output_neurons[j],
            forall|j: int|
                k <= j < output_count ==> #[trigger] net@.output_neurons[j] == v.output_neurons[j],
        decreases output_count - k,
    {
        let index = net.output_neurons()[k];
        let offset = offset_from_draw(draws[base + k], power);
        net.output_neurons_mut()[k] = perturb_index(index, offset, n);
        k += 1;
    }
    assert(net@.output_neurons =~= goal.output_neurons);
    assert(net@ == goal);
}

/// Apply noise to the parameters of a [Network].
/// This process is deterministic: the draws come from a ChaCha8 stream seeded
/// with `seed` alone, one draw per parameter, so the amount of parameters must
/// fit in a `usize`.
/// `power` is a value related to the magnitude of the noise.
/// The higher this value, the more the network parameters will change on average.
/// The following table gives an estimate of the probabilities of certain offsets on the parameters
/// ```text
/// | power   | 0    | 1, -1 | 2, -2 | 3, -3 |
/// |---------|------|-------|-------|-------|
/// | 0       | 0.50 | 0.13  | 0.04  | 0.02  |
/// | 1       | 0.33 | 0.13  | 0.06  | 0.03  |
/// | 2       | 0.25 | 0.12  | 0.06  | 0.04  |
/// | 3       | 0.20 | 0.11  | 0.06  | 0.04  |
/// ```
pub fn apply_parameter_noise(net: &mut Network, seed: u64, power: u8)
    requires
        old(net).wf(),
        noise_draw_count(old(net)@) <= usize::MAX,
    ensures
        final(net).wf(),
        final(net)@ == noised(
            old(net)@,
            chacha8_u64_stream(seed, noise_draw_count(old(net)@)),
            power,
        ),
{
    let count = net.effects().len() + net.tresholds().len() + net.input_neurons().len()
        + net.output_neurons().len();
    let draws = chacha8_u64_draws(seed, count);
    apply_noise_draws(net, draws.as_slice(), power);
}

/// A network after the first `k` of `passes` in order, each a noise pass on the
/// stream of its own seed.
pub open spec fn after_passes(v: NetworkView, passes: Seq<NoisePassParams>, k: int) -> NetworkView
    decreases k,
{
    if k <= 0 {
        v
    } else {
        let prev = after_passes(v, passes, k - 1);
        noised(
            prev,
            chacha8_u64_stream(passes[k - 1].seed, noise_draw_count(prev)),
            passes[k - 1].power,
        )
    }
}

/// The network that one ChaCha8 generator seeded with `seed` draws, before any
/// noise pass: tresholds, then effects, then input and output neuron indices.
pub open spec fn seeded_view(
    seed: u64,
    neuron_count: nat,
    connection_count: nat,
    input_count: nat,
    output_count: nat,
) -> NetworkView {
    let base = chacha8_base(
        seed,
        neuron_count,
        neuron_count * connection_count,
        input_count,
        output_count,
    );
    fresh_view(
        Seq::new(neuron_count, |k: int| NeuronValue(base.0[k])),
        Seq::new(neuron_count * connection_count, |k: int| Effect(base.1[k])),
        base.2,
        base.3,
    )
}

/// Passes that come after others leave the result of the earlier ones as it was:
/// the first `k` passes of `passes` followed by more give what `passes` alone gives
/// after `k`.
pub proof fn lemma_after_passes_prefix(
    v: NetworkView,
    passes: Seq<NoisePassParams>,
    more: Seq<NoisePassParams>,
    k: int,
)
    requires
        k <= passes.len(),
    ensures
        after_passes(v, passes + more, k) == after_passes(v, passes, k),
    decreases k,
{
    if k > 0 {
        lemma_after_passes_prefix(v, passes, more, k - 1);
        assert((passes + more)[k - 1] == passes[k - 1]);
    }
}

/// Building with one more pass equals one more noise pass on the shorter build:
/// the passes compose in the given order.
pub proof fn lemma_one_more_pass(v: NetworkView, passes: Seq<NoisePassParams>, pass: NoisePassParams)
    ensures
        ({
            let shorter = after_passes(v, passes, passes.len() as int);
            after_passes(v, passes.push(pass), (passes.len() + 1) as int) == noised(
                shorter,
                chacha8_u64_stream(pass.seed, noise_draw_count(shorter)),
                pass.power,
            )
        }),
{
    lemma_after_passes_prefix(v, passes, seq![pass], passes.len() as int);
    assert(passes + seq![pass] == passes.push(pass));
    assert(passes.push(pass)[passes.len() as int] == pass);
}

/// The amounts of the parameters of a network, added together, fit in a `usize`.
pub open spec fn parameter_total_fits(
    neuron_count: nat,
    connection_count: nat,
    input_count: nat,
    output_count: nat,
) -> bool {
    neuron_count * connection_count + neuron_count + input_count + output_count <= usize::MAX
}

/// `NeuronValue`s holding `values` in order.
fn to_neuron_values(values: Vec<i32>) -> (r: Vec<NeuronValue>)
    ensures
        r@ == Seq::new(values@.len(), |k: int| NeuronValue(values@[k])),
{
    let mut r: Vec<NeuronValue> = Vec::new();
    let mut k: usize = 0;
    while k < values.len()
        invariant
            k <= values@.len(),
            r@ == Seq::new(k as nat, |j: int| NeuronValue(values@[j])),
        decreases values@.len() - k,
    {
        r.push(NeuronValue(values[k]));
        k += 1;
        assert(r@ =~= Seq::new(k as nat, |j: int| NeuronValue(values@[j])));
    }
    r
}

/// `Effect`s holding `values` in order.
fn to_effects(values: Vec<i8>) -> (r: Vec<Effect>)
    ensures
        r@ == Seq::new(values@.len(), |k: int| Effect(values@[k])),
{
    let mut r: Vec<Effect> = Vec::new();
    let mut k: usize = 0;
    while k < values.len()
        invariant
            k <= values@.len(),
            r@ == Seq::new(k as nat, |j: int| Effect(values@[j])),
        decreases values@.len() - k,
    {
        r.push(Effect(values[k]));
        k += 1;
        assert(r@ =~= Seq::new(k as nat, |j: int| Effect(values@[j])));
    }
    r
}

/// Constructs a [Network] by generating initial parameters with `seed`
/// (tresholds, then effects, then input and output neuron indices, all from one
/// ChaCha8 stream), then applying the specified `passes` of noise in order.
/// See [apply_parameter_noise] for more information. The amount of all
/// parameters together must fit in a `usize`.
/// # Errors
/// Those of [Network::new], on the same sizes.
pub fn build_network_from_noise(
    neuron_count: usize,
    connection_count: usize,
    input_count: usize,
    output_count: usize,
    seed: u64,
    passes: &[NoisePassParams],
) -> (r: Result<Network, Error>)
    requires
        shape_error(neuron_count as nat, connection_count as nat) == None::<Error>
            ==> parameter_total_fits(
            neuron_count as nat,
            connection_count as nat,
            input_count as nat,
            output_count as nat,
        ),
    ensures
        match r {
            Ok(net) => {
                &&& shape_error(neuron_count as nat, connection_count as nat) == None::<Error>
                &&& net.wf()
                &&& net@.neuron_count() == neuron_count
                &&& net@.connection_count == connection_count
                &&& net@.effects.len() == neuron_count * connection_count
                &&& net@.input_neurons.len() == input_count
                &&& net@.output_neurons.len() == output_count
                &&& net@ == after_passes(
                    seeded_view(
                        seed,
                        neuron_count as nat,
                        connection_count as nat,
                        input_count as nat,
                        output_count as nat,
                    ),
                    passes@,
                    passes@.len() as int,
                )
            },
            Err(e) => shape_error(neuron_count as nat, connection_count as nat) == Some(e),
        },
{
    let effect_count = match check_shape(neuron_count, connection_count) {
        Ok(c) => c,
        Err(e) => return Err(e),
    };

    let (tresholds, effects, input_neurons, output_neurons) = chacha8_base_params(
        seed,
        neuron_count,
        effect_count,
        input_count,
        output_count,
    );
    let mut net = Network::from_parts(
        to_neuron_values(tresholds),
        to_effects(effects),
        connection_count,
        input_neurons,
        output_neurons,
    );
    let ghost base = seeded_view(
        seed,
        neuron_count as nat,
        connection_count as nat,
        input_count as nat,
        output_count as nat,
    );
    assert(net@ == base);

    let mut i: usize = 0;
    while i < passes.len()
        invariant
            i <= passes@.len(),
            net.wf(),
            net@ == after_passes(base, passes@, i as int),
            net@.neuron_count() == neuron_count,
            net@.connection_count == connection_count,
            net@.effects.len() == effect_count,
            net@.input_neurons.len() == input_count,
            net@.output_neurons.len() == output_count,
            noise_draw_count(net@) == effect_count + neuron_count + input_count + output_count,
            parameter_total_fits(
                neuron_count as nat,
                connection_count as nat,
                input_count as nat,
                output_count as nat,
            ),
            effect_count == neuron_count * connection_count,
        decreases passes@.len() - i,
    {
        let pass = passes[i];
        apply_parameter_noise(&mut net, pass.seed, pass.power);
        i += 1;
    }
    Ok(net)
}

/// Computes the offset that one draw gives; see [noise_offset].
pub fn offset_from_draw(r: u64, power: u8) -> (o: i64)
    ensures
        o == noise_offset(r, power),
{
    let p = power as u64;
    let q = r / (1 + p);
    // for a large part of the domain, this will produce values close to 0
    // also, it is unlikely to skip values at least at reasonable powers
    let divisor = if q == 0 {
        1
    } else {
        q
    };
    let whole = u64::MAX / divisor;
    proof {
        if q > 0 {
            lemma_fundamental_div_mod(r as int, 1 + p as int);
            lemma_mod_bounds(r as int, 1 + p as int);
            lemma_quotient_bound(u64::MAX as int, q as int, 1 + p as int);
        }
    }
    // this makes sure powers >= 1 still have 0 as possible output
    let unsigned = whole - p;
    let magnitude = (unsigned / 2) as i64;
    if r % 2 == 0 {
        -magnitude
    } else {
        magnitude
    }
}

/// Dividing by `q` leaves at least `a` when `q * a` fits under the dividend.
proof fn lemma_quotient_bound(m: int, q: int, a: int)
    requires
        q > 0,
        a >= 0,
        q * a <= m,
    ensures
        m / q >= a,
{
    lemma_fundamental_div_mod(m, q);
    lemma_mod_bounds(m, q);
    assert(m / q >= a) by (nonlinear_arith)
        requires
            q > 0,
            q * a <= m,
            m == q * (m / q) + m % q,
            m % q < q,
    ;
}

/// Moves an effect by an offset; see [noised_effect].
pub fn perturb_effect(effect: Effect, offset: i64) -> (r: Effect)
    ensures
        r == noised_effect(effect, offset as int),
{
    let noise: i64 = if offset < i8::MIN as i64 {
        i8::MIN as i64
    } else if offset > i8::MAX as i64 {
        i8::MAX as i64
    } else {
        offset
    };
    // saturating add because a small offset should never cause a huge difference in
    // the parameter value
    let sum = effect.0 as i64 + noise;
    if sum < i8::MIN as i64 {
        Effect(i8::MIN)
    } else if sum > i8::MAX as i64 {
        Effect(i8::MAX)
    } else {
        Effect(sum as i8)
    }
}

/// Moves a treshold by an offset; see [noised_treshold].
pub fn perturb_treshold(treshold: NeuronValue, offset: i64) -> (r: NeuronValue)
    ensures
        r == noised_treshold(treshold, offset as int),
{
    let noise: i64 = if offset < i32::MIN as i64 {
        i32::MIN as i64
    } else if offset > i32::MAX as i64 {
        i32::MAX as i64
    } else {
        offset
    };
    let sum = treshold.0 as i64 + noise;
    if sum < i32::MIN as i64 {
        NeuronValue(i32::MIN)
    } else if sum > i32::MAX as i64 {
        NeuronValue(i32::MAX)
    } else {
        NeuronValue(sum as i32)
    }
}

/// Moves a neuron index around a ring of `n` neurons by an offset, damped by four;
/// see [noised_index].
pub fn perturb_index(index: usize, offset: i64, n: usize) -> (r: usize)
    requires
        index < n,
    ensures
        r == noised_index(index, offset as int, n as nat),
        r < n,
{
    // index arithmetic is signed at the width of `isize`
    let offset: i64 = if offset < isize::MIN as i64 {
        isize::MIN as i64
    } else if offset > isize::MAX as i64 {
        isize::MAX as i64
    } else {
        offset
    };
    let ghost d = quarter(offset as int);
    if offset >= 0 {
        let step = (((offset as u64) / 4) % (n as u64)) as usize;
        proof {
            lemma_mod_bounds(d, n as int);
            lemma_add_mod_noop_right(index as int, d, n as int);
            lemma_mod_near(index + step, n as int);
        }
        if step >= n - index {
            index - (n - step)
        } else {
            index + step
        }
    } else {
        let magnitude = ((-(offset + 1)) as u64 + 1) / 4;
        let step = (magnitude % (n as u64)) as usize;
        proof {
            let k = magnitude as int / n as int;
            lemma_fundamental_div_mod(magnitude as int, n as int);
            lemma_mod_bounds(magnitude as int, n as int);
            lemma_mod_multiples_vanish(-k, index - step, n as int);
            assert(index + d == n * (-k) + (index - step)) by (nonlinear_arith)
                requires
                    d == -(magnitude as int),
                    magnitude as int == n * k + step,
            ;
            lemma_mod_near(index - step, n as int);
        }
        if index >= step {
            index - step
        } else {
            index + (n - step)
        }
    }
}

} // verus!
