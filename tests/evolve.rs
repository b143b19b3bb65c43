use siarne::train::evolve::{
    apply_noise_draws, apply_parameter_noise, build_network_from_noise, offset_from_draw,
    perturb_effect, perturb_index, perturb_treshold, NoisePassParams,
};
use siarne::{Effect, Error, Network, NeuronValue};

fn golden_passes() -> Vec<NoisePassParams> {
    (0..=u8::MAX)
        .map(|i| NoisePassParams { seed: i as u64 + 1234, power: u8::MAX - i })
        .collect()
}

fn golden_tresholds() -> Vec<NeuronValue> {
    vec![
        NeuronValue(-1278279962),
        NeuronValue(1657864061),
        NeuronValue(239123806),
        NeuronValue(-15785932),
        NeuronValue(-455062199),
        NeuronValue(-1731366824),
        NeuronValue(597245901),
        NeuronValue(1358662888),
        NeuronValue(555452750),
        NeuronValue(646707917),
        NeuronValue(-344060829),
        NeuronValue(1485825241),
        NeuronValue(-1644047160),
        NeuronValue(-1839883124),
        NeuronValue(-1904695363),
        NeuronValue(702228411),
    ]
}

fn golden_effects() -> Vec<Effect> {
    vec![
        Effect(117), Effect(-128),
        Effect(-102), Effect(124),
        Effect(-103), Effect(-64),
        Effect(-32), Effect(65),
        Effect(-71), Effect(73),
        Effect(-82), Effect(-128),
        Effect(127), Effect(-87),
        Effect(23), Effect(-74),
        Effect(-97), Effect(-91),
        Effect(-69), Effect(-63),
        Effect(89), Effect(80),
        Effect(-79), Effect(-123),
        Effect(-102), Effect(-3),
        Effect(126), Effect(-107),
        Effect(127), Effect(121),
        Effect(95), Effect(-128),
    ]
}

#[test]
fn noise_determinism() {
    let passes = golden_passes();

    let net = build_network_from_noise(16, 2, 10, 10, 1234, &passes).unwrap();

    assert_eq!(net.tresholds(), golden_tresholds().as_slice());
    assert_eq!(net.effects(), golden_effects().as_slice());

    let again = build_network_from_noise(16, 2, 10, 10, 1234, &passes).unwrap();
    assert_eq!(net.tresholds(), again.tresholds());
    assert_eq!(net.effects(), again.effects());
    assert_eq!(net.input_neurons(), again.input_neurons());
    assert_eq!(net.output_neurons(), again.output_neurons());
    assert_eq!(net.input_neurons().len(), 10);
    assert_eq!(net.output_neurons().len(), 10);
    assert!(net.input_neurons().iter().chain(net.output_neurons()).all(|&i| i < 16));
}

#[test]
fn noise_determinism_without_io_neurons() {
    let net = build_network_from_noise(16, 2, 0, 0, 1234, &golden_passes()).unwrap();
    assert_eq!(net.tresholds(), golden_tresholds().as_slice());
    assert_eq!(net.effects(), golden_effects().as_slice());
    assert!(net.input_neurons().is_empty());
    assert!(net.output_neurons().is_empty());
}

#[test]
fn build_rejects_bad_shapes() {
    assert!(matches!(build_network_from_noise(0, 1, 0, 0, 1, &[]), Err(Error::ZeroNeurons)));
    assert!(matches!(build_network_from_noise(3, 0, 0, 0, 1, &[]), Err(Error::ZeroConnections)));
    assert!(matches!(build_network_from_noise(3, 4, 0, 0, 1, &[]), Err(Error::TooManyConnections)));
    assert!(matches!(
        build_network_from_noise(usize::MAX, 2, 0, 0, 1, &[]),
        Err(Error::EffectCountOverflow)
    ));
}

#[test]
fn build_without_passes_is_seeded_generation() {
    let a = build_network_from_noise(8, 3, 2, 2, 99, &[]).unwrap();
    let b = build_network_from_noise(8, 3, 2, 2, 99, &[]).unwrap();
    assert_eq!(a.tresholds(), b.tresholds());
    assert_eq!(a.effects(), b.effects());
    assert_eq!(a.effects().len(), 24);
    assert_eq!(a.connection_count(), 3);
    assert_eq!(a.last_accumulator_buf(), &[NeuronValue(0); 8]);
}

#[test]
fn offset_formula_values() {
    // a draw below 1 + power counts as quotient 1: the farthest offset
    assert_eq!(offset_from_draw(0, 0), -i64::MAX);
    assert_eq!(offset_from_draw(1, 0), i64::MAX);
    assert_eq!(offset_from_draw(u64::MAX, 0), 0);
    assert_eq!(offset_from_draw((1u64 << 62) + 1, 0), 1);
    assert_eq!(offset_from_draw(1u64 << 62, 1), -3);
    assert_eq!(offset_from_draw(1u64 << 62, 0), -1);
    // u64::MAX / (u64::MAX / 256) == 256, less power 255, halved: 0
    assert_eq!(offset_from_draw(u64::MAX, 255), 0);
}

#[test]
fn effect_noise_clamps_then_saturates() {
    assert_eq!(perturb_effect(Effect(100), 50), Effect(127));
    assert_eq!(perturb_effect(Effect(-100), -1000), Effect(-128));
    assert_eq!(perturb_effect(Effect(-128), 1000), Effect(-1));
    assert_eq!(perturb_effect(Effect(5), -3), Effect(2));
}

#[test]
fn treshold_noise_clamps_then_saturates() {
    assert_eq!(perturb_treshold(NeuronValue(i32::MAX), 5), NeuronValue(i32::MAX));
    assert_eq!(perturb_treshold(NeuronValue(0), i64::MIN), NeuronValue(i32::MIN));
    assert_eq!(perturb_treshold(NeuronValue(-5), i64::MAX), NeuronValue(i32::MAX - 5));
    assert_eq!(perturb_treshold(NeuronValue(10), -3), NeuronValue(7));
}

#[test]
fn index_noise_moves_a_quarter_around_the_ring() {
    assert_eq!(perturb_index(3, 8, 5), 0);
    assert_eq!(perturb_index(1, -8, 5), 4);
    assert_eq!(perturb_index(0, -3, 5), 0);
    assert_eq!(perturb_index(2, 4003, 5), 2);
    assert_eq!(perturb_index(0, i64::MIN, 7), 5);
    assert_eq!(perturb_index(4, i64::MAX, 5), 0);
    // on 64-bit targets the range of isize is that of i64: nothing is clamped
    assert_eq!(perturb_index(0, i64::MIN, 7), if isize::BITS == 64 { 5 } else { 7 - (1 << 29) % 7 });
}

#[test]
fn noise_from_given_draws() {
    let mut net = Network::with_params(
        vec![NeuronValue(0); 2],
        vec![Effect(0); 2],
        vec![1],
        vec![0],
    )
    .unwrap();
    let draws = [(1u64 << 62) + 1, 0, 1, 1u64 << 62, 1, (1u64 << 62) + 1];
    apply_noise_draws(&mut net, &draws, 0);
    assert_eq!(net.effects(), &[Effect(1), Effect(-128)]);
    assert_eq!(net.tresholds(), &[NeuronValue(i32::MAX), NeuronValue(-1)]);
    assert_eq!(net.input_neurons(), &[0]);
    assert_eq!(net.output_neurons(), &[0]);
}

#[test]
fn one_more_pass_equals_noise_on_the_shorter_build() {
    let passes = vec![
        NoisePassParams { seed: 5, power: 3 },
        NoisePassParams { seed: 6, power: 0 },
    ];
    let extra = NoisePassParams { seed: 7, power: 200 };
    let mut shorter = build_network_from_noise(12, 4, 3, 2, 42, &passes).unwrap();
    apply_parameter_noise(&mut shorter, extra.seed, extra.power);
    let mut all = passes.clone();
    all.push(extra);
    let longer = build_network_from_noise(12, 4, 3, 2, 42, &all).unwrap();
    assert_eq!(shorter.tresholds(), longer.tresholds());
    assert_eq!(shorter.effects(), longer.effects());
    assert_eq!(shorter.input_neurons(), longer.input_neurons());
    assert_eq!(shorter.output_neurons(), longer.output_neurons());
}

#[test]
fn noise_pass_is_reproducible() {
    let make = || {
        Network::with_params(
            vec![NeuronValue(3); 6],
            vec![Effect(-4); 12],
            vec![0, 5],
            vec![3],
        )
        .unwrap()
    };
    let mut a = make();
    let mut b = make();
    apply_parameter_noise(&mut a, 77, 9);
    apply_parameter_noise(&mut b, 77, 9);
    assert_eq!(a.tresholds(), b.tresholds());
    assert_eq!(a.effects(), b.effects());
    assert_eq!(a.input_neurons(), b.input_neurons());
    assert_eq!(a.output_neurons(), b.output_neurons());
    assert_eq!(a.effects().len(), 12);
    assert!(a.input_neurons().iter().all(|&i| i < 6));
}
