//! The deterministic dueling policy network.
//!
//! A hidden layer computes `ReLU(Wx + b)`, an output layer `Wx + b`. The dueling head
//! combines a scalar value and per-action advantages as
//! `Q(s,a) = V(s) + (A(s,a) - mean_a A(s,a))`, and the greedy action is the first index
//! holding the largest Q-value.
use vstd::prelude::*;

use crate::fixed::{away, dot, dot_spec, mean, mean_spec, mul_spec, sat, sum_bits, tdiv, Fx};

verus! {

/// A fully-connected layer. Row-major: `weights[o * inputs + i]`.
#[derive(Debug, Clone, PartialEq, Eq)]
pub struct Layer {
    pub inputs: usize,
    pub outputs: usize,
    pub weights: Vec<Fx>,
    pub biases: Vec<Fx>,
}

#[derive(Debug, Clone, Copy, PartialEq, Eq, Structural)]
pub enum Activation {
    Relu,
    Linear,
}

#[derive(Debug, Clone, Copy, PartialEq, Eq, Structural)]
pub enum MeshError {
    ShapeMismatch { expected: usize, got: usize },
    EmptyNetwork,
    NoActions,
}

/// Apply an activation to one pre-activation value.
pub open spec fn activate(v: Fx, act: Activation) -> Fx {
    match act {
        Activation::Relu => if v.0 > 0 { v } else { Fx(0) },
        Activation::Linear => v,
    }
}

/// A vector of `n` zeros.
pub fn zeros(n: usize) -> (v: Vec<Fx>)
    ensures
        v@ == Seq::new(n as nat, |i: int| Fx(0)),
{
    let mut v: Vec<Fx> = Vec::with_capacity(n);
    let mut i: usize = 0;
    while i < n
        invariant
            i <= n,
            v@ == Seq::new(i as nat, |k: int| Fx(0)),
        decreases n - i,
    {
        v.push(Fx(0));
        i = i + 1;
        assert(v@ =~= Seq::new(i as nat, |k: int| Fx(0)));
    }
    v
}

impl Layer {
    /// The weight and bias vectors have the lengths the shape implies.
    pub open spec fn well_formed(&self) -> bool {
        &&& self.weights@.len() == self.inputs * self.outputs
        &&& self.biases@.len() == self.outputs
    }

    /// The weights feeding output `o`.
    pub open spec fn row(&self, o: int) -> Seq<Fx> {
        self.weights@.subrange(o * self.inputs, o * self.inputs + self.inputs)
    }

    /// `act(Wx + b)`, for an input of the right length.
    pub open spec fn forward_spec(&self, x: Seq<Fx>, act: Activation) -> Seq<Fx> {
        Seq::new(
            self.outputs as nat,
            |o: int| activate(Fx(sat(dot_spec(self.row(o), x) + self.biases@[o].0)), act),
        )
    }

    /// The result of a forward pass: a shape error when the input has the wrong length.
    pub open spec fn forward_result(&self, x: Seq<Fx>, act: Activation) -> Result<Seq<Fx>, MeshError> {
        if x.len() != self.inputs {
            Err(MeshError::ShapeMismatch { expected: self.inputs, got: x.len() as usize })
        } else {
            Ok(self.forward_spec(x, act))
        }
    }

    /// A zero layer of the given shape.
    pub fn new(inputs: usize, outputs: usize) -> (l: Layer)
        requires
            inputs * outputs <= usize::MAX,
        ensures
            l.inputs == inputs,
            l.outputs == outputs,
            l.weights@ == Seq::new((inputs * outputs) as nat, |i: int| Fx(0)),
            l.biases@ == Seq::new(outputs as nat, |i: int| Fx(0)),
            l.well_formed(),
    {
        Layer { inputs, outputs, weights: zeros(inputs * outputs), biases: zeros(outputs) }
    }

    /// `y = act(Wx + b)`.
    pub fn forward(&self, x: &[Fx], act: Activation) -> (r: Result<Vec<Fx>, MeshError>)
        requires
            self.well_formed(),
        ensures
            match r {
                Ok(v) => self.forward_result(x@, act) == Ok::<Seq<Fx>, MeshError>(v@),
                Err(e) => self.forward_result(x@, act) == Err::<Seq<Fx>, MeshError>(e),
            },
    {
        if x.len() != self.inputs {
            return Err(MeshError::ShapeMismatch { expected: self.inputs, got: x.len() });
        }
        let mut out: Vec<Fx> = Vec::with_capacity(self.outputs);
        let mut o: usize = 0;
        while o < self.outputs
            invariant
                self.well_formed(),
                x@.len() == self.inputs,
                o <= self.outputs,
                out@ == self.forward_spec(x@, act).take(o as int),
            decreases self.outputs - o,
        {
            let wl = self.weights.len();
            assert(o * self.inputs + self.inputs <= self.inputs * self.outputs) by (nonlinear_arith)
                requires
                    o < self.outputs,
            ;
            let start = o * self.inputs;
            let end = start + self.inputs;
            let row = &self.weights.as_slice()[start..end];
            let sum = dot(row, x).add(self.biases[o]);
            let y = match act {
                Activation::Relu => sum.relu(),
                Activation::Linear => sum,
            };
            out.push(y);
            o = o + 1;
            assert(out@ =~= self.forward_spec(x@, act).take(o as int));
        }
        assert(out@ =~= self.forward_spec(x@, act));
        Ok(out)
    }
}

/// Run a stack of ReLU layers, stopping at the first shape error.
pub open spec fn trunk_result(layers: Seq<Layer>, h: Seq<Fx>) -> Result<Seq<Fx>, MeshError>
    decreases layers.len(),
{
    if layers.len() == 0 {
        Ok(h)
    } else {
        match trunk_result(layers.drop_last(), h) {
            Ok(h2) => layers.last().forward_result(h2, Activation::Relu),
            Err(e) => Err(e),
        }
    }
}

/// The dueling combination `V + (A - mean(A))`, with the specified saturating ops.
pub open spec fn dueling(v: Fx, adv: Seq<Fx>) -> Seq<Fx> {
    Seq::new(adv.len(), |i: int| Fx(sat(v.0 + sat(adv[i].0 - mean_spec(adv)))))
}

/// Each value shifted by `c`.
pub open spec fn shifted(adv: Seq<Fx>, c: int) -> Seq<Fx> {
    Seq::new(adv.len(), |i: int| Fx((adv[i].0 + c) as i32))
}

proof fn sum_bits_bounds(v: Seq<Fx>)
    ensures
        v.len() * (i32::MIN as int) <= sum_bits(v) <= v.len() * (i32::MAX as int),
    decreases v.len(),
{
    if v.len() > 0 {
        sum_bits_bounds(v.drop_last());
        assert((v.len() - 1) * (i32::MIN as int) + i32::MIN == v.len() * (i32::MIN as int)) by (nonlinear_arith);
        assert((v.len() - 1) * (i32::MAX as int) + i32::MAX == v.len() * (i32::MAX as int)) by (nonlinear_arith);
    }
}

proof fn sum_bits_shifted(adv: Seq<Fx>, c: int)
    requires
        forall|i: int| 0 <= i < adv.len() ==> i32::MIN <= #[trigger] adv[i].0 + c <= i32::MAX,
    ensures
        sum_bits(shifted(adv, c)) == sum_bits(adv) + adv.len() * c,
    decreases adv.len(),
{
    if adv.len() > 0 {
        let d = adv.drop_last();
        assert forall|i: int| 0 <= i < d.len() implies i32::MIN <= #[trigger] d[i].0 + c <= i32::MAX by {
            assert(d[i] == adv[i]);
        }
        sum_bits_shifted(d, c);
        assert(shifted(adv, c).drop_last() =~= shifted(d, c));
        assert(shifted(adv, c).last().0 == adv.last().0 + c);
        assert((adv.len() - 1) * c + c == adv.len() * c) by (nonlinear_arith);
    }
}

/// The rounded mean of `i32` values is itself an `i32`: the clamp never acts.
proof fn mean_in_range(v: Seq<Fx>)
    requires
        v.len() > 0,
    ensures
        i32::MIN <= tdiv(away(sum_bits(v), (v.len() as int) / 2), v.len() as int) <= i32::MAX,
{
    let n = v.len() as int;
    let s = sum_bits(v);
    sum_bits_bounds(v);
    crate::fixed::round_div_form(s, n);
    let q = s / n;
    let r = s % n;
    vstd::arithmetic::div_mod::lemma_fundamental_div_mod(s, n);
    assert(s == q * n + r) by (nonlinear_arith)
        requires s == n * q + r;
    assert(i32::MIN <= q <= i32::MAX) by (nonlinear_arith)
        requires
            s == q * n + r,
            0 <= r < n,
            n * (i32::MIN as int) <= s <= n * (i32::MAX as int),
            n > 0;
    if q == i32::MAX {
        assert(r == 0) by (nonlinear_arith)
            requires
                s == q * n + r,
                0 <= r < n,
                s <= n * (i32::MAX as int),
                q == i32::MAX;
    }
}

/// Shifting every advantage by the same amount leaves Q unchanged: the subtracted mean
/// absorbs the shift, which is what makes the value/advantage split identifiable. This
/// holds whenever the shifted advantages stay in range, unless the shift carries an exactly
/// half-way mean across zero (possible only with an even number of actions), where
/// rounding half away from zero breaks the symmetry by one unit.
pub proof fn a_shared_advantage_shift_cancels(v: Fx, adv: Seq<Fx>, c: int)
    requires
        adv.len() > 0,
        forall|i: int| 0 <= i < adv.len() ==> i32::MIN <= #[trigger] adv[i].0 + c <= i32::MAX,
        adv.len() % 2 == 1 || sum_bits(adv) % (adv.len() as int) != adv.len() / 2 || (sum_bits(adv) >= 0) == (
        sum_bits(adv) + adv.len() * c >= 0),
    ensures
        dueling(v, shifted(adv, c)) == dueling(v, adv),
{
    let n = adv.len() as int;
    let sh = shifted(adv, c);
    sum_bits_shifted(adv, c);
    crate::fixed::rounded_mean_shifts(sum_bits(adv), n, c);
    mean_in_range(adv);
    mean_in_range(sh);
    assert(mean_spec(sh) == mean_spec(adv) + c);
    assert forall|i: int| 0 <= i < n implies #[trigger] dueling(v, sh)[i] == dueling(v, adv)[i] by {
        assert(sh[i].0 - mean_spec(sh) == adv[i].0 - mean_spec(adv));
    }
    assert(dueling(v, sh) =~= dueling(v, adv));
}

/// Index of the first maximum among the first `k` values (0 when `k <= 1`).
pub open spec fn first_argmax(q: Seq<Fx>, k: int) -> int
    decreases k,
{
    if k <= 1 {
        0
    } else {
        let b = first_argmax(q, k - 1);
        if q[k - 1].0 > q[b].0 { k - 1 } else { b }
    }
}

/// The greedy choice is a maximum, and every earlier index holds a strictly smaller
/// value: ties go to the lowest index.
pub proof fn first_argmax_is_lowest_maximum(q: Seq<Fx>, k: int)
    requires
        1 <= k <= q.len(),
    ensures
        0 <= first_argmax(q, k) < k,
        forall|j: int| 0 <= j < k ==> (#[trigger] q[j]).0 <= q[first_argmax(q, k)].0,
        forall|j: int| 0 <= j < first_argmax(q, k) ==> (#[trigger] q[j]).0 < q[first_argmax(q, k)].0,
    decreases k,
{
    if k > 1 {
        first_argmax_is_lowest_maximum(q, k - 1);
    }
}

/// Every parameter of a stack of layers: weights then biases, layer by layer.
pub open spec fn params_of(layers: Seq<Layer>) -> Seq<Fx>
    decreases layers.len(),
{
    if layers.len() == 0 {
        Seq::empty()
    } else {
        params_of(layers.drop_last()) + layers.last().weights@ + layers.last().biases@
    }
}

/// Whether a layer is all zeros with the given shape.
pub open spec fn is_zero_layer(l: Layer, inputs: usize, outputs: usize) -> bool {
    &&& l.inputs == inputs
    &&& l.outputs == outputs
    &&& l.weights@ == Seq::new((inputs * outputs) as nat, |i: int| Fx(0))
    &&& l.biases@ == Seq::new(outputs as nat, |i: int| Fx(0))
}

/// The input width of hidden layer `i` of a network built from these widths.
pub open spec fn width_before(state_dim: usize, hidden: Seq<usize>, i: int) -> usize {
    if i == 0 { state_dim } else { hidden[i - 1] }
}

/// Every layer built from these widths has a shape whose size fits in `usize`.
pub open spec fn widths_fit(state_dim: usize, hidden: Seq<usize>, actions: usize) -> bool {
    &&& forall|i: int| 0 <= i < hidden.len() ==> width_before(state_dim, hidden, i) * hidden[i] <= usize::MAX
    &&& width_before(state_dim, hidden, hidden.len() as int) * actions <= usize::MAX
}

/// Append a slice to a vector, element by element.
pub fn append_all(out: &mut Vec<Fx>, src: &[Fx])
    ensures
        final(out)@ == old(out)@ + src@,
{
    let mut i: usize = 0;
    while i < src.len()
        invariant
            i <= src@.len(),
            out@ == old(out)@ + src@.take(i as int),
        decreases src@.len() - i,
    {
        out.push(src[i]);
        i = i + 1;
        assert(out@ =~= old(out)@ + src@.take(i as int));
    }
    assert(src@.take(src@.len() as int) =~= src@);
}

/// A dueling policy network: shared trunk, then value and advantage heads.
#[derive(Debug, Clone, PartialEq, Eq)]
pub struct PolicyNet {
    pub trunk: Vec<Layer>,
    /// Produces a single scalar V(s).
    pub value_head: Layer,
    /// Produces one advantage per action.
    pub advantage_head: Layer,
}

impl PolicyNet {
    /// Every layer has consistent vector lengths and the value head has an output.
    pub open spec fn well_formed(&self) -> bool {
        &&& forall|i: int| 0 <= i < self.trunk@.len() ==> (#[trigger] self.trunk@[i]).well_formed()
        &&& self.value_head.well_formed()
        &&& self.advantage_head.well_formed()
        &&& self.value_head.outputs > 0
    }

    /// All layers in parameter order: trunk, value head, advantage head.
    pub open spec fn all_layers(&self) -> Seq<Layer> {
        self.trunk@ + seq![self.value_head, self.advantage_head]
    }

    /// The parameters in serialisation order.
    pub open spec fn params_spec(&self) -> Seq<Fx> {
        params_of(self.all_layers())
    }

    /// The input width the network expects.
    pub open spec fn state_dim_spec(&self) -> usize {
        if self.trunk@.len() > 0 { self.trunk@[0].inputs } else { self.value_head.inputs }
    }

    /// Q-values for a state, or the first error met.
    pub open spec fn q_spec(&self, state: Seq<Fx>) -> Result<Seq<Fx>, MeshError> {
        if self.advantage_head.outputs == 0 {
            Err(MeshError::NoActions)
        } else {
            match trunk_result(self.trunk@, state) {
                Err(e) => Err(e),
                Ok(h) => match self.value_head.forward_result(h, Activation::Linear) {
                    Err(e) => Err(e),
                    Ok(value) => match self.advantage_head.forward_result(h, Activation::Linear) {
                        Err(e) => Err(e),
                        Ok(adv) => Ok(dueling(value[0], adv)),
                    },
                },
            }
        }
    }

    /// The greedy action for a state, or the first error met.
    pub open spec fn act_spec(&self, state: Seq<Fx>) -> Result<usize, MeshError> {
        match self.q_spec(state) {
            Ok(q) => Ok(first_argmax(q, q.len() as int) as usize),
            Err(e) => Err(e),
        }
    }

    /// Build with the given layer widths. `hidden` may be empty for a linear policy.
    pub fn new(state_dim: usize, hidden: &[usize], actions: usize) -> (net: PolicyNet)
        requires
            widths_fit(state_dim, hidden@, actions),
        ensures
            net.well_formed(),
            net.trunk@.len() == hidden@.len(),
            forall|i: int| 0 <= i < hidden@.len() ==> is_zero_layer(
                #[trigger] net.trunk@[i], width_before(state_dim, hidden@, i), hidden@[i]),
            is_zero_layer(net.value_head, width_before(state_dim, hidden@, hidden@.len() as int), 1),
            is_zero_layer(net.advantage_head, width_before(state_dim, hidden@, hidden@.len() as int), actions),
    {
        let mut trunk: Vec<Layer> = Vec::new();
        let mut width = state_dim;
        let mut i: usize = 0;
        while i < hidden.len()
            invariant
                i <= hidden@.len(),
                widths_fit(state_dim, hidden@, actions),
                width == width_before(state_dim, hidden@, i as int),
                trunk@.len() == i,
                forall|k: int| 0 <= k < i ==> is_zero_layer(
                    #[trigger] trunk@[k], width_before(state_dim, hidden@, k), hidden@[k]),
                forall|k: int| 0 <= k < i ==> (#[trigger] trunk@[k]).well_formed(),
            decreases hidden@.len() - i,
        {
            let h = hidden[i];
            assert(width * h <= usize::MAX);
            trunk.push(Layer::new(width, h));
            width = h;
            i = i + 1;
        }
        let value_head = Layer::new(width, 1);
        let advantage_head = Layer::new(width, actions);
        PolicyNet { trunk, value_head, advantage_head }
    }

    /// Number of actions.
    pub fn action_count(&self) -> (n: usize)
        ensures
            n == self.advantage_head.outputs,
    {
        self.advantage_head.outputs
    }

    /// Input width: that of the first hidden layer, or of the heads for a linear policy.
    pub fn state_dim(&self) -> (n: usize)
        ensures
            n == self.state_dim_spec(),
    {
        if self.trunk.len() > 0 { self.trunk[0].inputs } else { self.value_head.inputs }
    }

    /// Q-values for a state: `Q(s,a) = V(s) + A(s,a) - mean_a A(s,a)`.
    pub fn q_values(&self, state: &[Fx]) -> (r: Result<Vec<Fx>, MeshError>)
        requires
            self.well_formed(),
        ensures
            match r {
                Ok(v) => self.q_spec(state@) == Ok::<Seq<Fx>, MeshError>(v@),
                Err(e) => self.q_spec(state@) == Err::<Seq<Fx>, MeshError>(e),
            },
    {
        if self.advantage_head.outputs == 0 {
            return Err(MeshError::NoActions);
        }
        let mut h: Vec<Fx> = vstd::slice::slice_to_vec(state);
        let mut i: usize = 0;
        while i < self.trunk.len()
            invariant
                self.well_formed(),
                self.advantage_head.outputs != 0,
                i <= self.trunk@.len(),
                trunk_result(self.trunk@.take(i as int), state@) == Ok::<Seq<Fx>, MeshError>(h@),
            decreases self.trunk@.len() - i,
        {
            assert(self.trunk@.take(i as int + 1).drop_last() =~= self.trunk@.take(i as int));
            assert(self.trunk@[i as int].well_formed());
            match self.trunk[i].forward(h.as_slice(), Activation::Relu) {
                Ok(next) => {
                    assert(self.trunk@.take(i as int + 1).last() == self.trunk@[i as int]);
                    h = next;
                }
                Err(e) => {
                    proof {
                        assert(self.trunk@.take(i as int + 1).last() == self.trunk@[i as int]);
                        assert(trunk_result(self.trunk@.take(i as int + 1), state@) == Err::<Seq<Fx>, MeshError>(e));
                        lemma_trunk_error_persists(self.trunk@, state@, i as int + 1);
                        assert(trunk_result(self.trunk@, state@) == Err::<Seq<Fx>, MeshError>(e));
                        assert(self.advantage_head.outputs != 0);
                    }
                    return Err(e);
                }
            }
            i = i + 1;
        }
        assert(self.trunk@.take(self.trunk@.len() as int) =~= self.trunk@);
        let value = match self.value_head.forward(h.as_slice(), Activation::Linear) {
            Ok(v) => v,
            Err(e) => return Err(e),
        };
        let advantages = match self.advantage_head.forward(h.as_slice(), Activation::Linear) {
            Ok(v) => v,
            Err(e) => return Err(e),
        };
        let baseline = mean(advantages.as_slice());
        let v = value[0];
        let mut q: Vec<Fx> = Vec::with_capacity(advantages.len());
        let mut k: usize = 0;
        while k < advantages.len()
            invariant
                k <= advantages@.len(),
                baseline.0 == mean_spec(advantages@),
                q@ == dueling(v, advantages@).take(k as int),
            decreases advantages@.len() - k,
        {
            q.push(v.add(advantages[k].sub(baseline)));
            k = k + 1;
            assert(q@ =~= dueling(v, advantages@).take(k as int));
        }
        assert(q@ =~= dueling(v, advantages@));
        Ok(q)
    }

    /// Greedy action. Ties go to the lowest index.
    pub fn act(&self, state: &[Fx]) -> (r: Result<usize, MeshError>)
        requires
            self.well_formed(),
        ensures
            r == self.act_spec(state@),
            r matches Ok(a) ==> self.q_spec(state@) matches Ok(q) && 0 <= a < q.len()
                && (forall|j: int| 0 <= j < q.len() ==> (#[trigger] q[j]).0 <= q[a as int].0)
                && (forall|j: int| 0 <= j < a ==> (#[trigger] q[j]).0 < q[a as int].0),
    {
        let q = match self.q_values(state) {
            Ok(q) => q,
            Err(e) => return Err(e),
        };
        let mut best: usize = 0;
        let mut i: usize = 1;
        while i < q.len()
            invariant
                1 <= i,
                best < i,
                q@.len() > 0 ==> i <= q@.len(),
                best == first_argmax(q@, i as int),
            decreases q@.len() - i,
        {
            if q[i].0 > q[best].0 {
                best = i;
            }
            i = i + 1;
        }
        proof {
            if q@.len() > 0 {
                first_argmax_is_lowest_maximum(q@, q@.len() as int);
            }
        }
        Ok(best)
    }

    /// Every parameter in a fixed order: trunk, then value head, then advantage head,
    /// weights before biases. This order is the serialisation format.
    pub fn parameters(&self) -> (out: Vec<Fx>)
        ensures
            out@ == self.params_spec(),
    {
        let mut out: Vec<Fx> = Vec::new();
        let mut i: usize = 0;
        while i < self.trunk.len()
            invariant
                i <= self.trunk@.len(),
                out@ == params_of(self.trunk@.take(i as int)),
            decreases self.trunk@.len() - i,
        {
            assert(self.trunk@.take(i as int + 1).drop_last() =~= self.trunk@.take(i as int));
            append_all(&mut out, self.trunk[i].weights.as_slice());
            append_all(&mut out, self.trunk[i].biases.as_slice());
            i = i + 1;
        }
        let ghost layers = self.all_layers();
        assert(layers.drop_last().drop_last() =~= self.trunk@.take(self.trunk@.len() as int));
        assert(layers.drop_last().last() == self.value_head);
        assert(layers.last() == self.advantage_head);
        append_all(&mut out, self.value_head.weights.as_slice());
        append_all(&mut out, self.value_head.biases.as_slice());
        assert(out@ =~= params_of(layers.drop_last()));
        append_all(&mut out, self.advantage_head.weights.as_slice());
        append_all(&mut out, self.advantage_head.biases.as_slice());
        assert(out@ =~= params_of(layers));
        out
    }

    /// How many parameters [`PolicyNet::parameters`] returns.
    pub fn parameter_count(&self) -> (n: usize)
        requires
            self.params_spec().len() <= usize::MAX,
        ensures
            n == self.params_spec().len(),
    {
        let mut n: usize = 0;
        let mut i: usize = 0;
        let ghost layers = self.all_layers();
        proof {
            lemma_params_prefix_len(layers, self.trunk@.len() as int);
        }
        while i < self.trunk.len()
            invariant
                i <= self.trunk@.len(),
                layers == self.all_layers(),
                n == params_of(layers.take(i as int)).len(),
                params_of(layers.take(self.trunk@.len() as int)).len() <= params_of(layers).len(),
                params_of(layers).len() <= usize::MAX,
                forall|j: int| 0 <= j <= layers.len() ==> params_of(#[trigger] layers.take(j)).len()
                    <= params_of(layers).len(),
            decreases self.trunk@.len() - i,
        {
            assert(layers.take(i as int + 1).drop_last() =~= layers.take(i as int));
            assert(layers[i as int] == self.trunk@[i as int]);
            assert(params_of(layers.take(i as int + 1)).len() <= params_of(layers).len());
            n = n + self.trunk[i].weights.len() + self.trunk[i].biases.len();
            i = i + 1;
        }
        let t = self.trunk.len();
        assert(layers.take(t as int + 1).drop_last() =~= layers.take(t as int));
        assert(layers[t as int] == self.value_head);
        assert(params_of(layers.take(t as int + 1)).len() <= params_of(layers).len());
        n = n + self.value_head.weights.len() + self.value_head.biases.len();
        assert(layers.take(t as int + 2).drop_last() =~= layers.take(t as int + 1));
        assert(layers[t as int + 1] == self.advantage_head);
        assert(layers.take(t as int + 2) =~= layers);
        n = n + self.advantage_head.weights.len() + self.advantage_head.biases.len();
        n
    }
}

/// The Q-values are the dueling combination of two linear heads over the trunk's output
/// `h`: `V = W_v h + b_v` and `A[a] = W_a h + b_a`, with no activation on either head, so
/// a negative advantage enters the mean as it is; then `Q[a] = V + (A[a] - mean(A))`,
/// each sum saturating. A pass succeeds exactly when there is an action and each head
/// gets an input of its width.
pub proof fn q_values_are_the_dueling_equation(net: PolicyNet, state: Seq<Fx>)
    requires
        net.well_formed(),
    ensures
        (net.q_spec(state) is Ok) <==> (net.advantage_head.outputs > 0 && trunk_result(net.trunk@, state) is Ok
            && trunk_result(net.trunk@, state)->Ok_0.len() == net.value_head.inputs
            && trunk_result(net.trunk@, state)->Ok_0.len() == net.advantage_head.inputs),
        net.q_spec(state) is Ok ==> ({
            let h = trunk_result(net.trunk@, state)->Ok_0;
            let n = h.len() as int;
            let v = sat(dot_spec(net.value_head.weights@.subrange(0, n), h) + net.value_head.biases@[0].0);
            let adv = Seq::new(
                net.advantage_head.outputs as nat,
                |a: int| Fx(sat(dot_spec(net.advantage_head.weights@.subrange(a * n, a * n + n), h)
                    + net.advantage_head.biases@[a].0)),
            );
            let q = net.q_spec(state)->Ok_0;
            &&& q.len() == net.advantage_head.outputs
            &&& forall|a: int| 0 <= a < q.len() ==> #[trigger] q[a].0 == sat(v + sat(adv[a].0 - mean_spec(adv)))
        }),
{
    if net.q_spec(state) is Ok {
        let h = trunk_result(net.trunk@, state)->Ok_0;
        let n = h.len() as int;
        let adv = Seq::new(
            net.advantage_head.outputs as nat,
            |a: int| Fx(sat(dot_spec(net.advantage_head.weights@.subrange(a * n, a * n + n), h)
                + net.advantage_head.biases@[a].0)),
        );
        let head = net.advantage_head.forward_spec(h, Activation::Linear);
        assert(head =~= adv);
        let value = net.value_head.forward_spec(h, Activation::Linear);
        assert(value[0].0 == sat(dot_spec(net.value_head.weights@.subrange(0, n), h) + net.value_head.biases@[0].0));
    }
}

/// Hidden layers are ReLU layers: what the trunk's last layer hands on is `max(0, Wx + b)`
/// over what the layers before it produced, so it is never negative.
pub proof fn hidden_layers_rectify(layers: Seq<Layer>, state: Seq<Fx>)
    requires
        layers.len() > 0,
        trunk_result(layers, state) is Ok,
    ensures
        ({
            let prev = trunk_result(layers.drop_last(), state)->Ok_0;
            let l = layers.last();
            let h = trunk_result(layers, state)->Ok_0;
            let n = prev.len() as int;
            &&& h.len() == l.outputs
            &&& forall|o: int| 0 <= o < h.len() ==> {
                let pre = sat(dot_spec(l.weights@.subrange(o * n, o * n + n), prev) + l.biases@[o].0);
                &&& (#[trigger] h[o]).0 >= 0
                &&& h[o].0 == (if pre > 0 { pre } else { 0 })
            }
        }),
{
}

/// The greedy action is a best Q-value, and the first of the best: every earlier action
/// scores strictly less, every later one no more.
pub proof fn the_greedy_action_is_the_first_best(net: PolicyNet, state: Seq<Fx>)
    requires
        net.act_spec(state) is Ok,
    ensures
        net.q_spec(state) is Ok,
        ({
            let q = net.q_spec(state)->Ok_0;
            let a = net.act_spec(state)->Ok_0 as int;
            &&& 0 <= a < q.len()
            &&& forall|j: int| 0 <= j < q.len() ==> (#[trigger] q[j]).0 <= q[a].0
            &&& forall|j: int| 0 <= j < a ==> (#[trigger] q[j]).0 < q[a].0
        }),
{
    let q = net.q_spec(state)->Ok_0;
    if net.advantage_head.outputs > 0 {
        assert(q.len() == net.advantage_head.outputs);
        first_argmax_is_lowest_maximum(q, q.len() as int);
    }
}

/// The Bellman target bootstraps from the best successor: past a terminal state, or with
/// no successors, it is the reward alone; otherwise it is `reward + gamma * q` for a
/// successor Q-value `q` that no other successor exceeds.
pub proof fn the_target_bootstraps_from_the_best_successor(reward: Fx, gamma: Fx, next_q: Seq<Fx>, terminal: bool)
    ensures
        terminal || next_q.len() == 0 ==> bellman_spec(reward, gamma, next_q, terminal) == reward,
        !terminal && next_q.len() > 0 ==> exists|i: int|
            0 <= i < next_q.len() && (forall|j: int| 0 <= j < next_q.len() ==> next_q[j].0 <= (#[trigger] next_q[i]).0)
                && bellman_spec(reward, gamma, next_q, terminal).0 == sat(reward.0 + mul_spec(gamma.0 as int, next_q[i].0 as int)),
{
    if !terminal && next_q.len() > 0 {
        let k = next_q.len() as int;
        first_argmax_is_lowest_maximum(next_q, k);
        let b = first_argmax(next_q, k);
        assert(0 <= b < k && (forall|j: int| 0 <= j < k ==> next_q[j].0 <= next_q[b].0));
    }
}

/// The Bellman target `r + gamma * max_a' Q(s', a')`, and `r` alone past a terminal
/// state or when there are no successors.
pub open spec fn bellman_spec(reward: Fx, gamma: Fx, next_q: Seq<Fx>, terminal: bool) -> Fx {
    if terminal || next_q.len() == 0 {
        reward
    } else {
        let best = next_q[first_argmax(next_q, next_q.len() as int)];
        Fx(sat(reward.0 + mul_spec(gamma.0 as int, best.0 as int)))
    }
}

/// The Bellman target: `y = r + gamma * max_a' Q(s', a')`, and `r` beyond a terminal
/// state.
pub fn bellman_target(reward: Fx, gamma: Fx, next_q: &[Fx], terminal: bool) -> (y: Fx)
    ensures
        y == bellman_spec(reward, gamma, next_q@, terminal),
{
    if terminal || next_q.len() == 0 {
        return reward;
    }
    let mut best: usize = 0;
    let mut i: usize = 1;
    while i < next_q.len()
        invariant
            1 <= i <= next_q@.len(),
            best < i,
            best == first_argmax(next_q@, i as int),
        decreases next_q@.len() - i,
    {
        if next_q[i].0 > next_q[best].0 {
            best = i;
        }
        i = i + 1;
    }
    reward.add(gamma.mul(next_q[best]))
}

/// Temporal-difference error: `delta = y - Q(s,a)`, saturating.
pub fn td_error(target: Fx, predicted: Fx) -> (d: Fx)
    ensures
        d.0 == sat(target.0 - predicted.0),
{
    target.sub(predicted)
}

/// A stack of layers never gets shorter output by having more parameters: the
/// parameters of a prefix are a prefix of the parameters.
proof fn lemma_params_prefix_len(layers: Seq<Layer>, k: int)
    requires
        0 <= k <= layers.len(),
    ensures
        forall|j: int| 0 <= j <= layers.len() ==> params_of(#[trigger] layers.take(j)).len()
            <= params_of(layers).len(),
{
    assert forall|j: int| 0 <= j <= layers.len() implies params_of(#[trigger] layers.take(j)).len()
        <= params_of(layers).len() by {
        lemma_params_take_monotone(layers, j, layers.len() as int);
        assert(layers.take(layers.len() as int) =~= layers);
    }
}

proof fn lemma_params_take_monotone(layers: Seq<Layer>, j: int, k: int)
    requires
        0 <= j <= k <= layers.len(),
    ensures
        params_of(layers.take(j)).len() <= params_of(layers.take(k)).len(),
    decreases k - j,
{
    if j < k {
        assert(layers.take(k).drop_last() =~= layers.take(k - 1));
        lemma_params_take_monotone(layers, j, k - 1);
    }
}

/// Once a layer of the trunk has failed, the whole trunk fails with that error.
proof fn lemma_trunk_error_persists(layers: Seq<Layer>, h: Seq<Fx>, k: int)
    requires
        0 <= k <= layers.len(),
        trunk_result(layers.take(k), h) is Err,
    ensures
        trunk_result(layers, h) == trunk_result(layers.take(k), h),
    decreases layers.len() - k,
{
    if k < layers.len() {
        assert(layers.take(k + 1).drop_last() =~= layers.take(k));
        lemma_trunk_error_persists(layers, h, k + 1);
    } else {
        assert(layers.take(k) =~= layers);
    }
}

} // verus!
