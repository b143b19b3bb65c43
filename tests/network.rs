use siarne::{Effect, Error, Network, NeuronValue};

#[test]
fn input_validation() {
    match Network::new(0, 1, 0, 0) {
        Err(Error::ZeroNeurons) => (),
        _ => panic!(),
    }

    match Network::new(1, 0, 0, 0) {
        Err(Error::ZeroConnections) => (),
        _ => panic!(),
    }

    match Network::new(1, 2, 0, 0) {
        Err(Error::TooManyConnections) => (),
        _ => panic!(),
    }

    match Network::new(usize::MAX, 2, 0, 0) {
        Err(Error::EffectCountOverflow) => (),
        _ => panic!(),
    }

    match Network::with_params(vec![], vec![Effect(0)], vec![], vec![]) {
        Err(Error::ZeroNeurons) => (),
        _ => panic!(),
    }

    match Network::with_params(vec![NeuronValue(0); 2], vec![Effect(0)], vec![], vec![]) {
        Err(Error::ZeroConnections) => (),
        _ => panic!(),
    }

    match Network::with_params(vec![NeuronValue(0); 2], vec![Effect(0); 6], vec![], vec![]) {
        Err(Error::TooManyConnections) => (),
        _ => panic!(),
    }

    match Network::with_params(vec![NeuronValue(0); 2], vec![Effect(0); 4], vec![2usize], vec![]) {
        Err(Error::InvalidNeuronIndex) => (),
        _ => panic!(),
    }

    match Network::with_params(vec![NeuronValue(0); 2], vec![Effect(0); 4], vec![], vec![2usize]) {
        Err(Error::InvalidNeuronIndex) => (),
        _ => panic!(),
    }
}

#[test]
fn tick_io() {
    let action_potentials = vec![NeuronValue(0), NeuronValue(16), NeuronValue(-16)];

    let effects = vec![
        Effect(-8), Effect(1), Effect(2),
        Effect(-17), Effect(127), Effect(0),
        Effect(127), Effect(0), Effect(0),
    ];

    let input_neurons = vec![2, 0];

    let output_neurons = vec![2, 0, 1];

    let mut net = Network::with_params(action_potentials, effects, input_neurons, output_neurons).unwrap();

    // first evaluate 2 ticks for expected output
    net.tick();

    assert_eq!(
        net.last_accumulator_buf(),
        &[NeuronValue(1), NeuronValue(129), NeuronValue(-8)],
    );

    net.tick();

    assert_eq!(
        net.last_accumulator_buf(),
        &[NeuronValue(-16), NeuronValue(256), NeuronValue(-8)],
    );

    // then check if inputs and outputs are handled correctly
    net.apply_inputs(&[NeuronValue(-9), NeuronValue(0)]);

    net.tick();

    assert_eq!(
        net.last_accumulator_buf(),
        &[NeuronValue(-17), NeuronValue(127), NeuronValue(0)],
    );

    let mut outputs = [NeuronValue(0); 3];

    net.read_outputs(&mut outputs);

    assert_eq!(&outputs, &[NeuronValue(0), NeuronValue(-17), NeuronValue(127)]);
}

/// A network of `n` neurons where only `src` fires, with `row` as its effects.
fn single_firing(n: usize, src: usize, row: &[i8]) -> Network {
    let cc = row.len();
    let mut tresholds = vec![NeuronValue(1); n];
    tresholds[src] = NeuronValue(0);
    let mut effects = vec![Effect(0); n * cc];
    for (k, e) in row.iter().enumerate() {
        effects[src * cc + k] = Effect(*e);
    }
    Network::with_params(tresholds, effects, vec![], vec![]).unwrap()
}

fn after_one_tick(n: usize, src: usize, row: &[i8]) -> Vec<i32> {
    let mut net = single_firing(n, src, row);
    net.tick();
    net.last_accumulator_buf().iter().map(|v| v.0).collect()
}

#[test]
fn wraparound_odd_row_near_start() {
    assert_eq!(after_one_tick(5, 0, &[10, 20, 30]), vec![20, 30, 0, 0, 10]);
}

#[test]
fn wraparound_odd_row_in_middle() {
    assert_eq!(after_one_tick(5, 2, &[10, 20, 30]), vec![0, 10, 20, 30, 0]);
}

#[test]
fn wraparound_odd_row_near_end() {
    assert_eq!(after_one_tick(5, 4, &[10, 20, 30]), vec![30, 0, 0, 10, 20]);
}

#[test]
fn wraparound_even_row_near_start() {
    assert_eq!(after_one_tick(5, 0, &[1, 2, 3, 4]), vec![3, 4, 0, 1, 2]);
    assert_eq!(after_one_tick(5, 1, &[1, 2, 3, 4]), vec![2, 3, 4, 0, 1]);
}

#[test]
fn wraparound_even_row_near_end() {
    assert_eq!(after_one_tick(5, 4, &[1, 2, 3, 4]), vec![4, 0, 1, 2, 3]);
    assert_eq!(after_one_tick(5, 2, &[1, 2, 3, 4]), vec![1, 2, 3, 4, 0]);
}

#[test]
fn wraparound_full_ring() {
    assert_eq!(after_one_tick(4, 1, &[1, 2, 3, 4]), vec![2, 3, 4, 1]);
    assert_eq!(after_one_tick(4, 3, &[1, 2, 3, 4]), vec![4, 1, 2, 3]);
    assert_eq!(after_one_tick(3, 0, &[5, 6, 7]), vec![6, 7, 5]);
    assert_eq!(after_one_tick(2, 0, &[5, 6]), vec![6, 5]);
    assert_eq!(after_one_tick(2, 1, &[5, 6]), vec![5, 6]);
}

#[test]
fn self_connection_only() {
    assert_eq!(after_one_tick(3, 1, &[7]), vec![0, 7, 0]);
    assert_eq!(after_one_tick(1, 0, &[-7]), vec![-7]);
}

#[test]
fn nothing_fires_gives_zeros() {
    let mut net = Network::with_params(
        vec![NeuronValue(1); 3],
        vec![Effect(100); 9],
        vec![],
        vec![],
    )
    .unwrap();
    net.tick();
    assert_eq!(net.last_accumulator_buf(), &[NeuronValue(0); 3]);
}

#[test]
fn accumulation_wraps_on_overflow() {
    let mut net = Network::with_params(
        vec![NeuronValue(i32::MIN)],
        vec![Effect(127)],
        vec![0],
        vec![0],
    )
    .unwrap();
    net.tick();
    assert_eq!(net.last_accumulator_buf(), &[NeuronValue(127)]);
    net.apply_inputs(&[NeuronValue(i32::MAX)]);
    assert_eq!(net.last_accumulator_buf(), &[NeuronValue(i32::MIN + 126)]);
}

#[test]
fn inputs_at_repeated_indices_add_up() {
    let mut net = Network::with_params(
        vec![NeuronValue(0); 3],
        vec![Effect(0); 3],
        vec![1, 1, 2],
        vec![1, 2, 1, 0],
    )
    .unwrap();
    net.apply_inputs(&[NeuronValue(5), NeuronValue(-2), NeuronValue(9)]);
    assert_eq!(
        net.last_accumulator_buf(),
        &[NeuronValue(0), NeuronValue(3), NeuronValue(9)],
    );
    let mut outputs = [NeuronValue(-1); 4];
    net.read_outputs(&mut outputs);
    assert_eq!(
        outputs,
        [NeuronValue(3), NeuronValue(9), NeuronValue(3), NeuronValue(0)],
    );
}

#[test]
fn with_params_drops_effects_past_whole_rows() {
    let effects = vec![Effect(1), Effect(2), Effect(3), Effect(4), Effect(5)];
    let mut net = Network::with_params(vec![NeuronValue(0); 2], effects, vec![], vec![]).unwrap();
    assert_eq!(net.connection_count(), 2);
    assert_eq!(net.effects(), &[Effect(1), Effect(2), Effect(3), Effect(4)]);
    assert_eq!(net.tresholds(), &[NeuronValue(0); 2]);
    assert_eq!(net.last_accumulator_buf(), &[NeuronValue(0); 2]);
    // both neurons fire: neuron 0 reaches 1 then 0, neuron 1 reaches 0 then 1
    net.tick();
    assert_eq!(net.last_accumulator_buf(), &[NeuronValue(2 + 3), NeuronValue(1 + 4)]);
    // too few effects for one full row stays a connection count of zero
    match Network::with_params(vec![NeuronValue(0); 3], vec![Effect(3); 2], vec![], vec![]) {
        Err(Error::ZeroConnections) => (),
        _ => panic!(),
    }
}

#[test]
fn new_has_requested_shape() {
    let net = Network::new(10, 3, 4, 5).unwrap();
    assert_eq!(net.tresholds().len(), 10);
    assert_eq!(net.effects().len(), 30);
    assert_eq!(net.connection_count(), 3);
    assert_eq!(net.input_neurons().len(), 4);
    assert_eq!(net.output_neurons().len(), 5);
    assert!(net.input_neurons().iter().all(|&i| i < 10));
    assert!(net.output_neurons().iter().all(|&i| i < 10));
    assert_eq!(net.last_accumulator_buf(), &[NeuronValue(0); 10]);
}

#[test]
fn new_full_ring_is_accepted() {
    let mut net = Network::new(3, 3, 0, 0).unwrap();
    net.tick();
    assert_eq!(net.last_accumulator_buf().len(), 3);
}

#[test]
fn mutable_views_change_parameters_in_place() {
    let mut net = Network::with_params(vec![NeuronValue(1); 3], vec![Effect(0); 3], vec![], vec![]).unwrap();
    net.tresholds_mut()[1] = NeuronValue(0);
    net.effects_mut()[1] = Effect(42);
    assert_eq!(net.tresholds(), &[NeuronValue(1), NeuronValue(0), NeuronValue(1)]);
    net.tick();
    assert_eq!(net.last_accumulator_buf(), &[NeuronValue(0), NeuronValue(42), NeuronValue(0)]);
}

#[test]
fn reads_leave_the_network_unchanged() {
    let mut net = Network::with_params(
        vec![NeuronValue(0), NeuronValue(16), NeuronValue(-16)],
        vec![
            Effect(-8), Effect(1), Effect(2),
            Effect(-17), Effect(127), Effect(0),
            Effect(127), Effect(0), Effect(0),
        ],
        vec![2, 0],
        vec![2, 0, 1],
    )
    .unwrap();
    net.tick();
    let tresholds = net.tresholds().to_vec();
    let effects = net.effects().to_vec();
    let last = net.last_accumulator_buf().to_vec();
    let mut first = [NeuronValue(0); 3];
    let mut second = [NeuronValue(0); 3];
    net.read_outputs(&mut first);
    net.read_outputs(&mut second);
    assert_eq!(first, second);
    assert_eq!(net.tresholds(), tresholds.as_slice());
    assert_eq!(net.effects(), effects.as_slice());
    assert_eq!(net.last_accumulator_buf(), last.as_slice());
}
