//! Creating and executing [Network]s.

use vstd::arithmetic::div_mod::{
    lemma_add_mod_noop_right, lemma_fundamental_div_mod, lemma_fundamental_div_mod_converse_mod,
};
use crate::random::{thread_i32, thread_i8, thread_index};
use vstd::prelude::*;

verus! {

/// Why a [Network] could not be built.
#[derive(Debug, PartialEq, Eq, Structural)]
pub enum Error {
    ZeroNeurons,
    ZeroConnections,
    TooManyConnections,
    EffectCountOverflow,
    InvalidNeuronIndex,
}

/// A value related to the input of a neuron.
#[derive(Clone, Copy, Debug, PartialEq, PartialOrd, Eq, Ord, Default, Structural)]
pub struct NeuronValue(pub i32);

/// The effect of a connection is the value added to the input of a neuron
/// when the neuron at the other end of the connection fires. Connections
/// are one-directional.
#[derive(Clone, Copy, Debug, PartialEq, PartialOrd, Eq, Ord, Default, Structural)]
pub struct Effect(pub i8);

/// `x` brought into the range of `i32` modulo 2^32, as wrapping addition does.
pub open spec fn wrap_i32(x: int) -> i32 {
    ((x - i32::MIN) % 0x1_0000_0000 + i32::MIN) as i32
}

/// Amount of neurons before a neuron that its row of effects reaches.
pub open spec fn extent_back(cc: int) -> int {
    cc / 2
}

/// Amount of neurons after a neuron that its row of effects reaches.
pub open spec fn extent_front(cc: int) -> int {
    if cc / 2 == 0 {
        0
    } else if cc % 2 != 0 {
        cc / 2
    } else {
        cc / 2 - 1
    }
}

/// An accumulator buffer of `n` zeros.
pub open spec fn zeros(n: nat) -> Seq<NeuronValue> {
    Seq::new(n, |i: int| NeuronValue(0))
}

/// The state of a [Network] as mathematical values.
pub struct NetworkView {
    pub tresholds: Seq<NeuronValue>,
    /// Row-major matrix of `connection_count` columns, one row per neuron.
    pub effects: Seq<Effect>,
    pub connection_count: nat,
    pub input_neurons: Seq<usize>,
    pub output_neurons: Seq<usize>,
    /// The accumulator buffer completed by the last tick.
    pub last: Seq<NeuronValue>,
    /// The accumulator buffer the next tick writes into.
    pub current: Seq<NeuronValue>,
}

impl NetworkView {
    pub open spec fn neuron_count(self) -> nat {
        self.tresholds.len()
    }

    /// The sizes that the tick relies on.
    pub open spec fn shape_ok(self) -> bool {
        let n = self.neuron_count();
        &&& n >= 1
        &&& 1 <= self.connection_count <= n
        &&& self.effects.len() == n * self.connection_count
        &&& self.last.len() == n
    }

    pub open spec fn wf(self) -> bool {
        let n = self.neuron_count();
        &&& self.shape_ok()
        &&& self.current == zeros(n)
        &&& forall|k: int| 0 <= k < self.input_neurons.len() ==> #[trigger] self.input_neurons[k] < n
        &&& forall|k: int|
            0 <= k < self.output_neurons.len() ==> #[trigger] self.output_neurons[k] < n
    }

    /// Whether neuron `src` fires in the next tick.
    pub open spec fn fires(self, src: int) -> bool {
        self.last[src].0 >= self.tresholds[src].0
    }

    /// The column of the row of `src` that sits over neuron `dst` on the ring;
    /// `src` reaches `dst` when it is below the connection count.
    pub open spec fn slot(self, src: int, dst: int) -> int {
        (dst - src + extent_back(self.connection_count as int)) % (self.neuron_count() as int)
    }

    /// What neuron `src` adds to neuron `dst` in the next tick.
    pub open spec fn contribution(self, src: int, dst: int) -> int {
        let cc = self.connection_count as int;
        let k = self.slot(src, dst);
        if self.fires(src) && k < cc {
            self.effects[src * cc + k].0 as int
        } else {
            0
        }
    }

    /// What neurons `0..s` add together to neuron `dst` in the next tick.
    pub open spec fn received(self, s: int, dst: int) -> int
        decreases s,
    {
        if s <= 0 {
            0
        } else {
            self.received(s - 1, dst) + self.contribution(s - 1, dst)
        }
    }

    /// The state after one tick.
    pub open spec fn ticked(self) -> NetworkView {
        let n = self.neuron_count();
        NetworkView {
            last: Seq::new(n, |dst: int| NeuronValue(wrap_i32(self.received(n as int, dst)))),
            current: zeros(n),
            ..self
        }
    }
}

/// The error [Network::new] gives for `neuron_count` neurons with
/// `connection_count` connections each, if any.
pub open spec fn shape_error(neuron_count: nat, connection_count: nat) -> Option<Error> {
    if neuron_count == 0 {
        Some(Error::ZeroNeurons)
    } else if connection_count == 0 {
        Some(Error::ZeroConnections)
    } else if connection_count > neuron_count {
        Some(Error::TooManyConnections)
    } else if neuron_count * connection_count > usize::MAX {
        Some(Error::EffectCountOverflow)
    } else {
        None
    }
}

/// Whether every index of `indices` names one of `n` neurons.
pub open spec fn all_below(indices: Seq<usize>, n: nat) -> bool {
    forall|k: int| 0 <= k < indices.len() ==> #[trigger] indices[k] < n
}

/// The error [Network::with_params] gives for these parameters, if any.
pub open spec fn params_error(
    tresholds: Seq<NeuronValue>,
    effects: Seq<Effect>,
    input_neurons: Seq<usize>,
    output_neurons: Seq<usize>,
) -> Option<Error> {
    let n = tresholds.len();
    if n == 0 {
        Some(Error::ZeroNeurons)
    } else if effects.len() / n == 0 {
        Some(Error::ZeroConnections)
    } else if effects.len() / n > n {
        Some(Error::TooManyConnections)
    } else if !all_below(input_neurons, n) || !all_below(output_neurons, n) {
        Some(Error::InvalidNeuronIndex)
    } else {
        None
    }
}

/// The effects that make whole rows for `n` neurons: those past the last whole
/// row are left out.
pub open spec fn whole_rows(effects: Seq<Effect>, n: nat) -> Seq<Effect> {
    effects.subrange(0, (n * (effects.len() / n)) as int)
}

/// A network with these parameters and zeroed accumulator buffers.
pub open spec fn fresh_view(
    tresholds: Seq<NeuronValue>,
    effects: Seq<Effect>,
    input_neurons: Seq<usize>,
    output_neurons: Seq<usize>,
) -> NetworkView {
    NetworkView {
        tresholds,
        effects,
        connection_count: effects.len() / tresholds.len(),
        input_neurons,
        output_neurons,
        last: zeros(tresholds.len()),
        current: zeros(tresholds.len()),
    }
}

/// The last buffer after adding `values[i]` at `indices[i]`, wrapping, for each
/// `i < k` in order.
pub open spec fn inputs_applied(
    last: Seq<NeuronValue>,
    indices: Seq<usize>,
    values: Seq<NeuronValue>,
    k: int,
) -> Seq<NeuronValue>
    decreases k,
{
    if k <= 0 {
        last
    } else {
        let prev = inputs_applied(last, indices, values, k - 1);
        let j = indices[k - 1] as int;
        prev.update(j, NeuronValue(wrap_i32(prev[j].0 + values[k - 1].0)))
    }
}

/// A structure containing a collection of interconnected neurons.
pub struct Network {
    acc_a: Vec<NeuronValue>,
    acc_b: Vec<NeuronValue>,
    /// Whether `acc_a` is the buffer the next tick writes into.
    current_is_a: bool,
    connection_count: usize,
    tresholds: Vec<NeuronValue>,
    effects: Vec<Effect>,
    input_neurons: Vec<usize>,
    output_neurons: Vec<usize>,
}

impl View for Network {
    type V = NetworkView;

    closed spec fn view(&self) -> NetworkView {
        NetworkView {
            tresholds: self.tresholds@,
            effects: self.effects@,
            connection_count: self.connection_count as nat,
            input_neurons: self.input_neurons@,
            output_neurons: self.output_neurons@,
            last: if self.current_is_a {
                self.acc_b@
            } else {
                self.acc_a@
            },
            current: if self.current_is_a {
                self.acc_a@
            } else {
                self.acc_b@
            },
        }
    }
}

proof fn lemma_wrap_add(x: int, c: int)
    ensures
        wrap_i32(wrap_i32(x) as int + c) == wrap_i32(x + c),
{
    let m: int = 0x1_0000_0000;
    lemma_add_mod_noop_right(c, x - i32::MIN, m);
    assert((x - i32::MIN) % m >= 0 && (x - i32::MIN) % m < m) by {
        lemma_fundamental_div_mod(x - i32::MIN, m);
    }
}

proof fn lemma_wrap_near(x: int)
    requires
        i32::MIN - 0x1_0000_0000 <= x < i32::MAX + 0x1_0000_0000,
    ensures
        wrap_i32(x) == (if x > i32::MAX {
            x - 0x1_0000_0000
        } else if x < i32::MIN {
            x + 0x1_0000_0000
        } else {
            x
        }),
{
    let m: int = 0x1_0000_0000;
    let y = x - i32::MIN;
    if y < 0 {
        lemma_fundamental_div_mod_converse_mod(y, m, -1, y + m);
    } else if y < m {
        lemma_fundamental_div_mod_converse_mod(y, m, 0, y);
    } else {
        lemma_fundamental_div_mod_converse_mod(y, m, 1, y - m);
    }
}

/// `x % n` for `x` within one turn of the ring around `0..n`.
pub(crate) proof fn lemma_mod_near(x: int, n: int)
    requires
        n > 0,
        -n <= x < 2 * n,
    ensures
        x % n == (if x < 0 {
            x + n
        } else if x < n {
            x
        } else {
            x - n
        }),
{
    if x < 0 {
        lemma_fundamental_div_mod_converse_mod(x, n, -1, x + n);
    } else if x < n {
        lemma_fundamental_div_mod_converse_mod(x, n, 0, x);
    } else {
        lemma_fundamental_div_mod_converse_mod(x, n, 1, x - n);
    }
}


/// Adds, wrapping, `effects[base + i]` to `cum[dst_start + i]` for each `dst_start + i`
/// in `dst_start..dst_end`.
fn apply_effects(
    effects: &Vec<Effect>,
    cum: &mut Vec<NeuronValue>,
    base: usize,
    dst_start: usize,
    dst_end: usize,
)
    requires
        dst_start <= dst_end <= old(cum)@.len(),
        base + (dst_end - dst_start) <= effects.len(),
    ensures
        final(cum)@.len() == old(cum)@.len(),
        forall|d: int|
            0 <= d < old(cum)@.len() ==> #[trigger] final(cum)@[d] == (if dst_start <= d < dst_end {
                NeuronValue(wrap_i32(old(cum)@[d].0 + effects@[base + d - dst_start].0))
            } else {
                old(cum)@[d]
            }),
{
    let mut dst = dst_start;
    while dst < dst_end
        invariant
            dst_start <= dst <= dst_end <= old(cum)@.len(),
            base + (dst_end - dst_start) <= effects.len(),
            cum@.len() == old(cum)@.len(),
            forall|d: int|
                0 <= d < old(cum)@.len() ==> #[trigger] cum@[d] == (if dst_start <= d < dst {
                    NeuronValue(wrap_i32(old(cum)@[d].0 + effects@[base + d - dst_start].0))
                } else {
                    old(cum)@[d]
                }),
        decreases dst_end - dst,
    {
        let effect = effects[base + (dst - dst_start)];
        let sum = cum[dst].0.wrapping_add(effect.0 as i32);
        proof {
            lemma_wrap_near(cum@[dst as int].0 + effect.0);
        }
        cum[dst] = NeuronValue(sum);
        dst += 1;
    }
}

/// Checks the sizes of a network of `neuron_count` neurons with `connection_count`
/// connections each, and gives the amount of effects it has.
pub(crate) fn check_shape(neuron_count: usize, connection_count: usize) -> (r: Result<usize, Error>)
    ensures
        match r {
            Ok(effect_count) => {
                &&& shape_error(neuron_count as nat, connection_count as nat) == None::<Error>
                &&& effect_count == neuron_count * connection_count
                &&& effect_count / neuron_count == connection_count
            },
            Err(e) => shape_error(neuron_count as nat, connection_count as nat) == Some(e),
        },
{
    if neuron_count == 0 {
        return Err(Error::ZeroNeurons);
    }
    if connection_count == 0 {
        return Err(Error::ZeroConnections);
    }
    if connection_count > neuron_count {
        return Err(Error::TooManyConnections);
    }
    match neuron_count.checked_mul(connection_count) {
        Some(effect_count) => {
            proof {
                vstd::arithmetic::div_mod::lemma_div_multiples_vanish(
                    connection_count as int,
                    neuron_count as int,
                );
            }
            Ok(effect_count)
        },
        None => Err(Error::EffectCountOverflow),
    }
}

/// Whether every index of `indices` is below `n`.
fn indices_below(indices: &Vec<usize>, n: usize) -> (r: bool)
    ensures
        r == all_below(indices@, n as nat),
{
    let mut k: usize = 0;
    while k < indices.len()
        invariant
            k <= indices@.len(),
            forall|j: int| 0 <= j < k ==> #[trigger] indices@[j] < n,
        decreases indices@.len() - k,
    {
        if indices[k] >= n {
            return false;
        }
        k += 1;
    }
    true
}

/// Adds `values[i]` (wrapping) to `cum[indices[i]]` for each `i`, in order.
fn add_inputs(cum: &mut Vec<NeuronValue>, indices: &Vec<usize>, values: &[NeuronValue])
    requires
        values@.len() == indices@.len(),
        all_below(indices@, old(cum)@.len()),
    ensures
        final(cum)@ == inputs_applied(old(cum)@, indices@, values@, values@.len() as int),
{
    let mut k: usize = 0;
    while k < values.len()
        invariant
            values@.len() == indices@.len(),
            all_below(indices@, old(cum)@.len()),
            k <= values@.len(),
            cum@ == inputs_applied(old(cum)@, indices@, values@, k as int),
        decreases values@.len() - k,
    {
        proof {
            lemma_inputs_applied_len(old(cum)@, indices@, values@, k as int);
        }
        let neuron = indices[k];
        let sum = cum[neuron].0.wrapping_add(values[k].0);
        proof {
            lemma_wrap_near(cum@[neuron as int].0 + values@[k as int].0);
        }
        cum[neuron] = NeuronValue(sum);
        k += 1;
    }
}

proof fn lemma_inputs_applied_len(
    last: Seq<NeuronValue>,
    indices: Seq<usize>,
    values: Seq<NeuronValue>,
    k: int,
)
    requires
        0 <= k <= indices.len(),
        all_below(indices, last.len()),
    ensures
        inputs_applied(last, indices, values, k).len() == last.len(),
    decreases k,
{
    if k > 0 {
        lemma_inputs_applied_len(last, indices, values, k - 1);
    }
}

/// Sets every value of `buf` to zero.
fn clear_buf(buf: &mut Vec<NeuronValue>)
    ensures
        final(buf)@ == zeros(old(buf)@.len()),
{
    let mut i: usize = 0;
    while i < buf.len()
        invariant
            0 <= i <= buf@.len() == old(buf)@.len(),
            forall|j: int| 0 <= j < i ==> #[trigger] buf@[j] == NeuronValue(0),
        decreases buf@.len() - i,
    {
        buf[i] = NeuronValue(0);
        i += 1;
    }
    assert(buf@ =~= zeros(old(buf)@.len()));
}

/// An accumulator buffer of `n` zeros.
fn zeroed_buf(n: usize) -> (r: Vec<NeuronValue>)
    ensures
        r@ == zeros(n as nat),
{
    let mut r: Vec<NeuronValue> = Vec::new();
    let mut i: usize = 0;
    while i < n
        invariant
            i <= n,
            r@ == zeros(i as nat),
        decreases n - i,
    {
        r.push(NeuronValue(0));
        i += 1;
        assert(r@ =~= zeros(i as nat));
    }
    r
}


/// Every effect in the row of a neuron lands on exactly one neuron, and no two
/// effects of the row land on the same one: column `k` of the row of `src` is
/// added to the neuron `k - extent_back` steps after `src` around the ring, and to
/// no other, whichever of the start, the middle or the end of the ring `src` lies
/// in, also when the row covers the whole ring.
pub proof fn lemma_effect_lands_once(v: NetworkView, src: int, k: int, dst: int)
    requires
        v.shape_ok(),
        0 <= src < v.neuron_count(),
        0 <= k < v.connection_count,
        0 <= dst < v.neuron_count(),
    ensures
        ({
            let n = v.neuron_count() as int;
            let cc = v.connection_count as int;
            let target = (src - extent_back(cc) + k) % n;
            &&& v.slot(src, dst) == k <==> dst == target
            &&& v.fires(src) && dst == target ==> v.contribution(src, dst)
                == v.effects[src * cc + k].0
            &&& !v.fires(src) ==> v.contribution(src, dst) == 0
        }),
{
    let n = v.neuron_count() as int;
    let cc = v.connection_count as int;
    lemma_extents(cc);
    lemma_mod_near(src - extent_back(cc) + k, n);
    lemma_mod_near(dst - src + extent_back(cc), n);
}

proof fn lemma_extents(cc: int)
    requires
        cc >= 1,
    ensures
        extent_back(cc) + extent_front(cc) + 1 == cc,
        0 <= extent_front(cc) <= extent_back(cc),
{
}

/// Where the row of a source near the start lands: its first columns wrap to the
/// end of the ring, the others start at neuron 0.
proof fn lemma_row_near_start(v: NetworkView, src: int, d: int)
    requires
        v.shape_ok(),
        0 <= src < extent_back(v.connection_count as int),
        0 <= d < v.neuron_count(),
    ensures
        ({
            let cc = v.connection_count as int;
            let n = v.neuron_count() as int;
            let len = extent_back(cc) - src;
            v.contribution(src, d) == if !v.fires(src) {
                0
            } else if d < cc - len {
                v.effects[src * cc + len + d].0 as int
            } else if n - len <= d {
                v.effects[src * cc + (d - (n - len))].0 as int
            } else {
                0
            }
        }),
{
    let cc = v.connection_count as int;
    lemma_mod_near(d - src + extent_back(cc), v.neuron_count() as int);
}

/// Where the row of a source in the middle lands: on its neighborhood, without wrapping.
proof fn lemma_row_in_middle(v: NetworkView, src: int, d: int)
    requires
        v.shape_ok(),
        extent_back(v.connection_count as int) <= src < v.neuron_count() - extent_front(
            v.connection_count as int,
        ),
        0 <= d < v.neuron_count(),
    ensures
        ({
            let cc = v.connection_count as int;
            let lo = src - extent_back(cc);
            v.contribution(src, d) == if v.fires(src) && lo <= d < src + extent_front(cc) + 1 {
                v.effects[src * cc + (d - lo)].0 as int
            } else {
                0
            }
        }),
{
    let cc = v.connection_count as int;
    lemma_extents(cc);
    lemma_mod_near(d - src + extent_back(cc), v.neuron_count() as int);
}

/// Where the row of a source near the end lands: its last columns wrap to the
/// start of the ring, the others end at the last neuron.
proof fn lemma_row_near_end(v: NetworkView, src: int, d: int)
    requires
        v.shape_ok(),
        v.neuron_count() - extent_front(v.connection_count as int) <= src < v.neuron_count(),
        0 <= d < v.neuron_count(),
    ensures
        ({
            let cc = v.connection_count as int;
            let n = v.neuron_count() as int;
            let lo = src - extent_back(cc);
            let len = n - lo;
            v.contribution(src, d) == if !v.fires(src) {
                0
            } else if d < cc - len {
                v.effects[src * cc + len + d].0 as int
            } else if lo <= d {
                v.effects[src * cc + (d - lo)].0 as int
            } else {
                0
            }
        }),
{
    let cc = v.connection_count as int;
    lemma_extents(cc);
    lemma_mod_near(d - src + extent_back(cc), v.neuron_count() as int);
}

/// The rows of the effect matrix lie within it.
proof fn lemma_row_bounds(v: NetworkView, src: int)
    requires
        v.shape_ok(),
        0 <= src < v.neuron_count(),
    ensures
        src * v.connection_count + v.connection_count <= v.effects.len(),
{
    let n = v.neuron_count() as int;
    let cc = v.connection_count as int;
    assert(src * cc + cc <= n * cc) by (nonlinear_arith)
        requires
            0 <= src < n,
            cc >= 0,
    ;
}

pub(crate) proof fn lemma_mod_bounds(x: int, n: int)
    requires
        n > 0,
    ensures
        0 <= x % n < n,
{
}

impl Network {
    /// The invariant of every [Network] built by this library.
    pub open spec fn wf(&self) -> bool {
        self@.wf()
    }

    /// Create a [Network] with randomly initialized parameters.
    /// `connection_count` is the amount of inputs per neuron.
    /// # Errors
    /// When `neuron_count` is 0, [Error::ZeroNeurons].
    /// When `connection_count` is 0, [Error::ZeroConnections].
    /// When `connection_count` > `neuron_count`, [Error::TooManyConnections].
    /// When the result of `neuron_count * connection_count` does not fit in a [usize], [Error::EffectCountOverflow].
    pub fn new(
        neuron_count: usize,
        connection_count: usize,
        input_count: usize,
        output_count: usize,
    ) -> (r: Result<Self, Error>)
        ensures
            match r {
                Ok(net) => {
                    &&& shape_error(neuron_count as nat, connection_count as nat) == None::<Error>
                    &&& net.wf()
                    &&& net@.neuron_count() == neuron_count
                    &&& net@.connection_count == connection_count
                    &&& net@.effects.len() == neuron_count * connection_count
                    &&& net@.input_neurons.len() == input_count
                    &&& net@.output_neurons.len() == output_count
                    &&& net@ == fresh_view(
                        net@.tresholds,
                        net@.effects,
                        net@.input_neurons,
                        net@.output_neurons,
                    )
                },
                Err(e) => shape_error(neuron_count as nat, connection_count as nat) == Some(e),
            },
    {
        let effect_count = match check_shape(neuron_count, connection_count) {
            Ok(c) => c,
            Err(e) => return Err(e),
        };

        let mut rng = rand::thread_rng();

        let mut tresholds: Vec<NeuronValue> = Vec::new();
        while tresholds.len() < neuron_count
            invariant
                tresholds@.len() <= neuron_count,
            decreases neuron_count - tresholds@.len(),
        {
            tresholds.push(NeuronValue(thread_i32(&mut rng)));
        }

        let mut effects: Vec<Effect> = Vec::new();
        while effects.len() < effect_count
            invariant
                effects@.len() <= effect_count,
            decreases effect_count - effects@.len(),
        {
            effects.push(Effect(thread_i8(&mut rng)));
        }

        let mut input_neurons: Vec<usize> = Vec::new();
        while input_neurons.len() < input_count
            invariant
                input_neurons@.len() <= input_count,
                neuron_count > 0,
                all_below(input_neurons@, neuron_count as nat),
            decreases input_count - input_neurons@.len(),
        {
            input_neurons.push(thread_index(&mut rng, neuron_count));
        }

        let mut output_neurons: Vec<usize> = Vec::new();
        while output_neurons.len() < output_count
            invariant
                output_neurons@.len() <= output_count,
                neuron_count > 0,
                all_below(output_neurons@, neuron_count as nat),
            decreases output_count - output_neurons@.len(),
        {
            output_neurons.push(thread_index(&mut rng, neuron_count));
        }

        Ok(Self::from_parts(tresholds, effects, connection_count, input_neurons, output_neurons))
    }

    /// Create a [Network] with the specified parameters.
    /// The connection count is the amount of whole rows of effects per neuron;
    /// effects past the last whole row are dropped, as no connection would read them.
    /// # Errors
    /// When `tresholds` is empty, [Error::ZeroNeurons].
    /// When the amount of effects per neuron is less than 1, [Error::ZeroConnections].
    /// When there are more connections per neuron than neurons, [Error::TooManyConnections].
    /// When `input_neurons` or `output_neurons` contains an out of bounds index, [Error::InvalidNeuronIndex].
    pub fn with_params(
        tresholds: Vec<NeuronValue>,
        effects: Vec<Effect>,
        input_neurons: Vec<usize>,
        output_neurons: Vec<usize>,
    ) -> (r: Result<Self, Error>)
        ensures
            match r {
                Ok(net) => {
                    &&& params_error(tresholds@, effects@, input_neurons@, output_neurons@) == None::<Error>
                    &&& net.wf()
                    &&& net@ == fresh_view(
                        tresholds@,
                        whole_rows(effects@, tresholds@.len()),
                        input_neurons@,
                        output_neurons@,
                    )
                },
                Err(e) => params_error(tresholds@, effects@, input_neurons@, output_neurons@) == Some(e),
            },
    {
        let neuron_count = tresholds.len();
        if neuron_count == 0 {
            return Err(Error::ZeroNeurons);
        }

        let connection_count = effects.len() / neuron_count;
        if connection_count == 0 {
            return Err(Error::ZeroConnections);
        }

        if connection_count > neuron_count {
            return Err(Error::TooManyConnections);
        }

        if !(indices_below(&input_neurons, neuron_count) && indices_below(&output_neurons, neuron_count)) {
            return Err(Error::InvalidNeuronIndex);
        }

        let mut effects = effects;
        proof {
            lemma_fundamental_div_mod(effects@.len() as int, neuron_count as int);
            lemma_mod_bounds(effects@.len() as int, neuron_count as int);
        }
        effects.truncate(neuron_count * connection_count);
        Ok(Self::from_parts(tresholds, effects, connection_count, input_neurons, output_neurons))
    }

    /// Assembles a network around validated parameters, with zeroed buffers.
    pub(crate) fn from_parts(
        tresholds: Vec<NeuronValue>,
        effects: Vec<Effect>,
        connection_count: usize,
        input_neurons: Vec<usize>,
        output_neurons: Vec<usize>,
    ) -> (r: Self)
        requires
            tresholds@.len() >= 1,
            1 <= connection_count <= tresholds@.len(),
            effects@.len() == tresholds@.len() * connection_count,
            all_below(input_neurons@, tresholds@.len()),
            all_below(output_neurons@, tresholds@.len()),
        ensures
            r.wf(),
            r@ == fresh_view(tresholds@, effects@, input_neurons@, output_neurons@),
    {
        proof {
            vstd::arithmetic::div_mod::lemma_div_multiples_vanish(
                connection_count as int,
                tresholds@.len() as int,
            );
        }
        let neuron_count = tresholds.len();
        Network {
            acc_a: zeroed_buf(neuron_count),
            acc_b: zeroed_buf(neuron_count),
            current_is_a: true,
            connection_count,
            tresholds,
            effects,
            input_neurons,
            output_neurons,
        }
    }

    /// Returns a slice of the activation tresholds of the neurons.
    pub fn tresholds(&self) -> (r: &[NeuronValue])
        ensures
            r@ == self@.tresholds,
    {
        self.tresholds.as_slice()
    }

    /// Returns a mutable slice of the activation tresholds of the neurons.
    /// The slice cannot grow or shrink, so the network keeps its shape.
    pub fn tresholds_mut(&mut self) -> (r: &mut [NeuronValue])
        ensures
            r@ == old(self)@.tresholds,
            final(self)@ == (NetworkView { tresholds: final(r)@, ..old(self)@ }),
    {
        self.tresholds.as_mut_slice()
    }

    /// Returns a slice of the effects of the connections between neurons.
    /// This is a matrix with dimensions `connection_count` x `neuron_count`
    /// where each row is the outputs to nearby neurons. At column `connection_count` / 2
    /// the connection from the neuron to itself is stored, the other columns store
    /// connections to neurons before and after the neuron. You can think of neurons
    /// being arranged in a circle.
    pub fn effects(&self) -> (r: &[Effect])
        ensures
            r@ == self@.effects,
    {
        self.effects.as_slice()
    }

    /// Returns a mutable slice of the effects of the connections between neurons.
    /// See [Network::effects] for more information about the layout of this slice.
    pub fn effects_mut(&mut self) -> (r: &mut [Effect])
        ensures
            r@ == old(self)@.effects,
            final(self)@ == (NetworkView { effects: final(r)@, ..old(self)@ }),
    {
        self.effects.as_mut_slice()
    }

    /// Returns the amount of connections (effects) per neuron.
    pub fn connection_count(&self) -> (r: usize)
        ensures
            r == self@.connection_count,
    {
        self.connection_count
    }

    /// Returns the indices of the neurons designated as input neurons.
    pub fn input_neurons(&self) -> (r: &[usize])
        ensures
            r@ == self@.input_neurons,
    {
        self.input_neurons.as_slice()
    }

    /// Returns the indices of the neurons designated as output neurons.
    pub fn output_neurons(&self) -> (r: &[usize])
        ensures
            r@ == self@.output_neurons,
    {
        self.output_neurons.as_slice()
    }

    /// Returns a mutable slice of the indices of the input neurons.
    pub(crate) fn input_neurons_mut(&mut self) -> (r: &mut [usize])
        ensures
            r@ == old(self)@.input_neurons,
            final(self)@ == (NetworkView { input_neurons: final(r)@, ..old(self)@ }),
    {
        self.input_neurons.as_mut_slice()
    }

    /// Returns a mutable slice of the indices of the output neurons.
    pub(crate) fn output_neurons_mut(&mut self) -> (r: &mut [usize])
        ensures
            r@ == old(self)@.output_neurons,
            final(self)@ == (NetworkView { output_neurons: final(r)@, ..old(self)@ }),
    {
        self.output_neurons.as_mut_slice()
    }

    /// Applies the specified inputs to the neurons designated as input neurons, in order,
    /// by adding them (wrapping) to the buffer completed by the last tick.
    pub fn apply_inputs(&mut self, inputs: &[NeuronValue])
        requires
            old(self).wf(),
            inputs@.len() == old(self)@.input_neurons.len(),
        ensures
            final(self).wf(),
            final(self)@ == (NetworkView {
                last: inputs_applied(
                    old(self)@.last,
                    old(self)@.input_neurons,
                    inputs@,
                    inputs@.len() as int,
                ),
                ..old(self)@
            }),
    {
        if self.current_is_a {
            add_inputs(&mut self.acc_b, &self.input_neurons, inputs);
        } else {
            add_inputs(&mut self.acc_a, &self.input_neurons, inputs);
        }
        proof {
            lemma_inputs_applied_len(old(self)@.last, old(self)@.input_neurons, inputs@, inputs@.len() as int);
        }
    }

    /// Read values of the designated output neurons into the specified buffer, in order.
    pub fn read_outputs(&self, outputs: &mut [NeuronValue])
        requires
            self.wf(),
            old(outputs)@.len() == self@.output_neurons.len(),
        ensures
            final(outputs)@ == Seq::new(
                self@.output_neurons.len(),
                |i: int| self@.last[self@.output_neurons[i] as int],
            ),
    {
        let cum = self.last_accumulator_buf();
        let mut i: usize = 0;
        while i < self.output_neurons.len()
            invariant
                self.wf(),
                cum@ == self@.last,
                outputs@.len() == self@.output_neurons.len(),
                0 <= i <= outputs@.len(),
                forall|j: int|
                    0 <= j < i ==> #[trigger] outputs@[j] == self@.last[self@.output_neurons[j] as int],
            decreases self@.output_neurons.len() - i,
        {
            let neuron = self.output_neurons[i];
            outputs[i] = cum[neuron];
            i += 1;
        }
        assert(outputs@ =~= Seq::new(
            self@.output_neurons.len(),
            |i: int| self@.last[self@.output_neurons[i] as int],
        ));
    }

    /// Writes into `cum`, which holds zeros, what the firing neurons add to each neuron.
    fn propagate(&self, cum: &mut Vec<NeuronValue>)
        requires
            self@.shape_ok(),
            old(cum)@ == zeros(self@.neuron_count()),
        ensures
            final(cum)@ == (NetworkView { current: zeros(self@.neuron_count()), ..self@ }).ticked().last,
    {
        let ghost v = NetworkView { current: zeros(self@.neuron_count()), ..self@ };
        let inputs = self.last_accumulator_buf();
        let n = self.tresholds.len();
        let cc = self.connection_count;
        let effect_count = self.effects.len();

        // amount of neurons before and after any neuron (on the circle).
        let eb = cc / 2;
        let ef = if eb == 0 {
            0
        } else if cc % 2 != 0 {
            eb
        } else {
            eb - 1
        };
        proof {
            lemma_extents(cc as int);
        }

        let mut src: usize = 0;
        while src < eb
            invariant
                v == (NetworkView { current: zeros(self@.neuron_count()), ..self@ }),
                v.shape_ok(),
                effect_count == v.effects.len(),
                inputs@ == v.last,
                n == v.neuron_count(),
                cc == v.connection_count,
                eb == extent_back(cc as int),
                ef == extent_front(cc as int),
                eb + ef + 1 == cc,
                src <= eb,
                cum@.len() == n,
                forall|d: int|
                    0 <= d < n ==> #[trigger] cum@[d] == NeuronValue(
                        wrap_i32(v.received(src as int, d)),
                    ),
            decreases eb - src,
        {
            proof {
                lemma_row_bounds(v, src as int);
            }
            let len = eb - src;
            if inputs[src].0 >= self.tresholds[src].0 {
                apply_effects(&self.effects, cum, src * cc + len, 0, cc - len);
                apply_effects(&self.effects, cum, src * cc, n - len, n);
            }
            proof {
                assert forall|d: int| 0 <= d < n implies #[trigger] cum@[d] == NeuronValue(
                    wrap_i32(v.received(src + 1, d)),
                ) by {
                    lemma_row_near_start(v, src as int, d);
                    lemma_wrap_add(v.received(src as int, d), v.contribution(src as int, d));
                }
            }
            src += 1;
        }

        while src < n - ef
            invariant
                v == (NetworkView { current: zeros(self@.neuron_count()), ..self@ }),
                v.shape_ok(),
                effect_count == v.effects.len(),
                inputs@ == v.last,
                n == v.neuron_count(),
                cc == v.connection_count,
                eb == extent_back(cc as int),
                ef == extent_front(cc as int),
                eb + ef + 1 == cc,
                eb <= src <= n - ef,
                cum@.len() == n,
                forall|d: int|
                    0 <= d < n ==> #[trigger] cum@[d] == NeuronValue(
                        wrap_i32(v.received(src as int, d)),
                    ),
            decreases n - ef - src,
        {
            proof {
                lemma_row_bounds(v, src as int);
            }
            if inputs[src].0 >= self.tresholds[src].0 {
                apply_effects(&self.effects, cum, src * cc, src - eb, src + ef + 1);
            }
            proof {
                assert forall|d: int| 0 <= d < n implies #[trigger] cum@[d] == NeuronValue(
                    wrap_i32(v.received(src + 1, d)),
                ) by {
                    lemma_row_in_middle(v, src as int, d);
                    lemma_wrap_add(v.received(src as int, d), v.contribution(src as int, d));
                }
            }
            src += 1;
        }

        while src < n
            invariant
                v == (NetworkView { current: zeros(self@.neuron_count()), ..self@ }),
                v.shape_ok(),
                effect_count == v.effects.len(),
                inputs@ == v.last,
                n == v.neuron_count(),
                cc == v.connection_count,
                eb == extent_back(cc as int),
                ef == extent_front(cc as int),
                eb + ef + 1 == cc,
                n - ef <= src <= n,
                cum@.len() == n,
                forall|d: int|
                    0 <= d < n ==> #[trigger] cum@[d] == NeuronValue(
                        wrap_i32(v.received(src as int, d)),
                    ),
            decreases n - src,
        {
            proof {
                lemma_row_bounds(v, src as int);
            }
            let lo = src - eb;
            let len = n - lo;
            if inputs[src].0 >= self.tresholds[src].0 {
                apply_effects(&self.effects, cum, src * cc + len, 0, cc - len);
                apply_effects(&self.effects, cum, src * cc, lo, n);
            }
            proof {
                assert forall|d: int| 0 <= d < n implies #[trigger] cum@[d] == NeuronValue(
                    wrap_i32(v.received(src + 1, d)),
                ) by {
                    lemma_row_near_end(v, src as int, d);
                    lemma_wrap_add(v.received(src as int, d), v.contribution(src as int, d));
                }
            }
            src += 1;
        }
        assert(cum@ =~= v.ticked().last);
    }

    /// Execute a tick on the network, evaluating each neuron and applying effects to other neurons if it fires.
    /// Only the result of the last tick is considered, i.e the effects are applied on a zeroed buffer,
    /// but whether to apply an effect or not is determined by looking at the buffer from the last tick.
    /// Accumulation wraps on `i32` overflow.
    pub fn tick(&mut self)
        requires
            old(self).wf(),
        ensures
            final(self).wf(),
            final(self)@ == old(self)@.ticked(),
    {
        let mut cum: Vec<NeuronValue> = Vec::new();
        if self.current_is_a {
            std::mem::swap(&mut cum, &mut self.acc_a);
        } else {
            std::mem::swap(&mut cum, &mut self.acc_b);
        }
        self.propagate(&mut cum);
        assert(old(self)@ == (NetworkView { current: zeros(self@.neuron_count()), ..self@ }));
        if self.current_is_a {
            self.acc_a = cum;
        } else {
            self.acc_b = cum;
        }
        self.advance_cum_buf();
    }

    /// Turns the buffer just written into the last one, and zeroes the other for the next tick.
    fn advance_cum_buf(&mut self)
        ensures
            final(self)@ == (NetworkView {
                last: old(self)@.current,
                current: zeros(old(self)@.last.len()),
                ..old(self)@
            }),
    {
        if self.current_is_a {
            clear_buf(&mut self.acc_b);
        } else {
            clear_buf(&mut self.acc_a);
        }
        self.current_is_a = !self.current_is_a;
    }

    /// Returns a slice of the accumulator buffer completed by the last tick.
    pub fn last_accumulator_buf(&self) -> (r: &[NeuronValue])
        ensures
            r@ == self@.last,
    {
        if self.current_is_a {
            self.acc_b.as_slice()
        } else {
            self.acc_a.as_slice()
        }
    }
}

} // verus!
