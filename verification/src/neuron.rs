//! Layered feed-forward network: forward inference, backpropagation and
//! full-batch gradient-descent training.
//!
//! Layer 0 is the input layer: it only carries the current input column and
//! has zero-sized parameter matrices. Every later layer holds its weights
//! (one row per neuron, one column per neuron of the previous layer), its
//! bias column, and the working columns of the two passes: pre-activation
//! `u`, activation `y`, error signal `delta`, activation derivative `u_diff`,
//! and the gradient accumulators `weight_diff` and `bias_diff`.

use vstd::prelude::*;
use crate::EngineError;
use crate::fx::{fx_add, fx_add_spec, fx_mul, fx_mul_spec, fx_sub, fx_sub_spec, FX_ONE};
use crate::matrix::{rand_seq, Matrix};
use crate::rng::{seed_after, RandomGenerator};

verus! {

/// Slope of the leaky rectifier on negative inputs, as a raw fixed-point
/// value (about one hundredth).
pub const LEAKY_SLOPE: i64 = 655;

/// The closed set of activation functions a layer can be built with.
#[derive(Clone, Copy, Debug, PartialEq, Eq, Structural)]
pub enum Activation {
    Identity,
    Relu,
    LeakyRelu,
}

/// The value an activation yields on one pre-activation entry.
pub open spec fn act_value(a: Activation, u: i64) -> i64 {
    match a {
        Activation::Identity => u,
        Activation::Relu => if u >= 0 {
            u
        } else {
            0
        },
        Activation::LeakyRelu => if u >= 0 {
            u
        } else {
            (fx_mul_spec(LEAKY_SLOPE as int, u as int)) as i64
        },
    }
}

/// The derivative an activation yields on one pre-activation entry.
pub open spec fn act_deriv(a: Activation, u: i64) -> i64 {
    match a {
        Activation::Identity => FX_ONE,
        Activation::Relu => if u >= 0 {
            FX_ONE
        } else {
            0
        },
        Activation::LeakyRelu => if u >= 0 {
            FX_ONE
        } else {
            LEAKY_SLOPE
        },
    }
}

/// Apply one activation to one entry.
fn act_apply(a: Activation, u: i64) -> (r: i64)
    ensures
        r == act_value(a, u),
{
    match a {
        Activation::Identity => u,
        Activation::Relu => if u >= 0 {
            u
        } else {
            0
        },
        Activation::LeakyRelu => if u >= 0 {
            u
        } else {
            fx_mul(LEAKY_SLOPE, u)
        },
    }
}

/// Apply one activation's derivative to one entry.
fn act_apply_deriv(a: Activation, u: i64) -> (r: i64)
    ensures
        r == act_deriv(a, u),
{
    match a {
        Activation::Identity => FX_ONE,
        Activation::Relu => if u >= 0 {
            FX_ONE
        } else {
            0
        },
        Activation::LeakyRelu => if u >= 0 {
            FX_ONE
        } else {
            LEAKY_SLOPE
        },
    }
}

/// One training sample: an input row and the target output row.
struct Target {
    input: Vec<i64>,
    output: Vec<i64>,
}

/// One layer's state.
pub struct Layer {
    neurons: usize,
    u: Matrix,
    y: Matrix,
    weight: Matrix,
    bias: Matrix,
    delta: Matrix,
    u_diff: Matrix,
    weight_diff: Matrix,
    bias_diff: Matrix,
    activation: Activation,
}

/// The mathematical content of one layer: every matrix as its flat
/// row-major buffer, plus the two dimensions that fix the layout.
#[verifier::ext_equal]
pub struct LayerModel {
    pub neurons: usize,
    pub prev_neurons: usize,
    pub u: Seq<i64>,
    pub y: Seq<i64>,
    pub weight: Seq<i64>,
    pub bias: Seq<i64>,
    pub delta: Seq<i64>,
    pub u_diff: Seq<i64>,
    pub weight_diff: Seq<i64>,
    pub bias_diff: Seq<i64>,
    pub activation: Activation,
}

impl Layer {
    /// The layer's mathematical content.
    pub closed spec fn model(self) -> LayerModel {
        LayerModel {
            neurons: self.neurons,
            prev_neurons: self.weight.width_spec(),
            u: self.u@,
            y: self.y@,
            weight: self.weight@,
            bias: self.bias@,
            delta: self.delta@,
            u_diff: self.u_diff@,
            weight_diff: self.weight_diff@,
            bias_diff: self.bias_diff@,
            activation: self.activation,
        }
    }
}

/// A matrix is a column of the given height.
pub open spec fn col_wf(m: Matrix, n: int) -> bool {
    m.wf() && m.width_spec() == 1 && m.height_spec() == n
}

/// A matrix is zero-sized.
pub open spec fn empty_wf(m: Matrix) -> bool {
    m.wf() && m.width_spec() == 0 && m.height_spec() == 0
}

/// Two layer models carry the same fixed parameters (everything the two
/// passes read and training alone rewrites: shape, weights, bias and the
/// bound activation).
pub open spec fn same_params(a: LayerModel, b: LayerModel) -> bool {
    a.neurons == b.neurons && a.prev_neurons == b.prev_neurons && a.weight == b.weight
        && a.bias == b.bias && a.activation == b.activation
}

pub struct Neuron {
    target: Vec<Target>,
    layer: Vec<Layer>,
}

impl Neuron {
    /// The layers' mathematical content, input layer first.
    pub closed spec fn layers(self) -> Seq<LayerModel> {
        Seq::new(self.layer@.len(), |i: int| self.layer@[i].model())
    }

    /// The training samples' input rows, in insertion order.
    pub closed spec fn target_inputs(self) -> Seq<Seq<i64>> {
        Seq::new(self.target@.len(), |t: int| self.target@[t].input@)
    }

    /// The training samples' output rows, in insertion order.
    pub closed spec fn target_outputs(self) -> Seq<Seq<i64>> {
        Seq::new(self.target@.len(), |t: int| self.target@[t].output@)
    }

    /// Number of layers, the input layer included.
    pub open spec fn num_layers(self) -> int {
        self.layers().len() as int
    }

    /// Width of the input layer.
    pub open spec fn input_dim(self) -> int {
        self.layers()[0].neurons as int
    }

    /// Width of the output layer.
    pub open spec fn output_dim(self) -> int {
        self.layers()[self.num_layers() - 1].neurons as int
    }

    /// Shape invariant of the exec state: the input layer holds only its
    /// `y` column; every later layer's matrices agree with its neuron count
    /// and its predecessor's; every sample matches the outer dimensions.
    pub closed spec fn wf(self) -> bool {
        &&& self.layer@.len() >= 1
        &&& col_wf(self.layer@[0].y, self.layer@[0].neurons as int)
        &&& empty_wf(self.layer@[0].u)
        &&& empty_wf(self.layer@[0].weight)
        &&& empty_wf(self.layer@[0].bias)
        &&& empty_wf(self.layer@[0].delta)
        &&& empty_wf(self.layer@[0].u_diff)
        &&& empty_wf(self.layer@[0].weight_diff)
        &&& empty_wf(self.layer@[0].bias_diff)
        &&& forall|i: int|
            1 <= i < self.layer@.len() ==> layer_wf(
                #[trigger] self.layer@[i],
                self.layer@[i - 1].neurons as int,
            )
        &&& forall|t: int|
            0 <= t < self.target@.len() ==> (#[trigger] self.target@[t].input@.len()
                == self.layer@[0].neurons && self.target@[t].output@.len() == self.layer@[self.layer@.len()
                - 1].neurons)
    }
}

/// A flat buffer of zeroes.
pub open spec fn zero_seq(n: nat) -> Seq<i64> {
    Seq::new(n, |j: int| 0i64)
}

/// Saturating dot product of one weight row with the previous layer's
/// activation column: the first `k` products accumulated in index order.
pub open spec fn row_dot(wt: Seq<i64>, wtw: int, prev: Seq<i64>, row: int, k: int) -> int
    decreases k,
{
    if k <= 0 {
        0
    } else {
        fx_add_spec(
            row_dot(wt, wtw, prev, row, k - 1),
            fx_mul_spec(wt[row * wtw + (k - 1)] as int, prev[k - 1] as int),
        )
    }
}

/// Pre-activation of neuron `j` of a layer on a previous activation column:
/// the weight row's dot product with the column, plus the bias entry.
pub open spec fn u_entry(l: LayerModel, prev: Seq<i64>, j: int) -> int {
    fx_add_spec(
        row_dot(l.weight, l.prev_neurons as int, prev, j, l.prev_neurons as int),
        l.bias[j] as int,
    )
}

/// Activation column of layer `i` of the forward pass; layer 0 holds the
/// input itself.
pub open spec fn fwd_y(lays: Seq<LayerModel>, input: Seq<i64>, i: int) -> Seq<i64>
    decreases i,
{
    if i <= 0 {
        input
    } else {
        let prev = fwd_y(lays, input, i - 1);
        Seq::new(
            lays[i].neurons as nat,
            |j: int| act_value(lays[i].activation, u_entry(lays[i], prev, j) as i64),
        )
    }
}

/// Pre-activation column of layer `i >= 1` of the forward pass.
pub open spec fn fwd_u(lays: Seq<LayerModel>, input: Seq<i64>, i: int) -> Seq<i64> {
    Seq::new(
        lays[i].neurons as nat,
        |j: int| u_entry(lays[i], fwd_y(lays, input, i - 1), j) as i64,
    )
}

/// Activation-derivative column of layer `i >= 1` of a training-mode pass.
pub open spec fn fwd_udiff(lays: Seq<LayerModel>, input: Seq<i64>, i: int) -> Seq<i64> {
    Seq::new(
        lays[i].neurons as nat,
        |j: int| act_deriv(lays[i].activation, fwd_u(lays, input, i)[j]),
    )
}

/// How a forward pass leaves the layers: parameters, accumulators and error
/// signals untouched; layer 0 carries the input; every later layer carries
/// its pre-activation and activation columns, and, in training mode, its
/// activation-derivative column.
pub open spec fn forward_post(
    lays0: Seq<LayerModel>,
    lays1: Seq<LayerModel>,
    input: Seq<i64>,
    train: bool,
) -> bool {
    &&& lays1.len() == lays0.len()
    &&& forall|i: int| 0 <= i < lays0.len() ==> same_params(#[trigger] lays1[i], lays0[i])
    &&& forall|i: int|
        0 <= i < lays0.len() ==> (#[trigger] lays1[i].weight_diff == lays0[i].weight_diff
            && lays1[i].bias_diff == lays0[i].bias_diff && lays1[i].delta == lays0[i].delta)
    &&& lays1[0].y == input
    &&& lays1[0].u == lays0[0].u
    &&& lays1[0].u_diff == lays0[0].u_diff
    &&& forall|i: int| 1 <= i < lays0.len() ==> #[trigger] lays1[i].u == fwd_u(lays0, input, i)
    &&& forall|i: int| 1 <= i < lays0.len() ==> #[trigger] lays1[i].y == fwd_y(lays0, input, i)
    &&& forall|i: int|
        1 <= i < lays0.len() ==> #[trigger] lays1[i].u_diff == if train {
            fwd_udiff(lays0, input, i)
        } else {
            lays0[i].u_diff
        }
}

/// Pre-activation column of layer `i` computed from the layers' current
/// state: each entry is the weight row's dot product with the previous
/// layer's current activation column, plus the bias entry.
pub open spec fn col_u(lays: Seq<LayerModel>, i: int) -> Seq<i64> {
    Seq::new(lays[i].neurons as nat, |j: int| u_entry(lays[i], lays[i - 1].y, j) as i64)
}

/// Activation column of layer `i` computed from the layers' current state.
pub open spec fn col_y(lays: Seq<LayerModel>, i: int) -> Seq<i64> {
    Seq::new(
        lays[i].neurons as nat,
        |j: int| act_value(lays[i].activation, col_u(lays, i)[j]),
    )
}

/// Activation-derivative column of layer `i` computed from the layers'
/// current state.
pub open spec fn col_ud(lays: Seq<LayerModel>, i: int) -> Seq<i64> {
    Seq::new(
        lays[i].neurons as nat,
        |j: int| act_deriv(lays[i].activation, col_u(lays, i)[j]),
    )
}

/// Error column of the output layer on one sample: activation minus target,
/// entry by entry.
#[verifier::opaque]
pub open spec fn out_delta(lays: Seq<LayerModel>, input: Seq<i64>, out: Seq<i64>) -> Seq<i64> {
    Seq::new(
        lays.last().neurons as nat,
        |j: int| fx_sub_spec(fwd_y(lays, input, lays.len() - 1)[j] as int, out[j] as int) as i64,
    )
}

/// Saturating dot product of the next layer's error column with column `j`
/// of its weights: the first `k` products accumulated in index order.
#[verifier::opaque]
pub open spec fn back_dot(wt: Seq<i64>, wtw: int, dnext: Seq<i64>, j: int, k: int) -> int
    decreases k,
{
    if k <= 0 {
        0
    } else {
        fx_add_spec(
            back_dot(wt, wtw, dnext, j, k - 1),
            fx_mul_spec(dnext[k - 1] as int, wt[(k - 1) * wtw + j] as int),
        )
    }
}

/// Error column of layer `1 <= i <= last` on one sample: the output layer's
/// is activation minus target; a hidden layer's is the next layer's error
/// pulled back through its weights, scaled by the stored activation
/// derivative.
#[verifier::opaque]
pub open spec fn bp_delta(lays: Seq<LayerModel>, input: Seq<i64>, out: Seq<i64>, i: int) -> Seq<
    i64,
>
    decreases lays.len() - i,
{
    if i >= lays.len() - 1 {
        out_delta(lays, input, out)
    } else {
        let dnext = bp_delta(lays, input, out, i + 1);
        Seq::new(
            lays[i].neurons as nat,
            |j: int|
                fx_mul_spec(
                    back_dot(
                        lays[i + 1].weight,
                        lays[i + 1].prev_neurons as int,
                        dnext,
                        j,
                        lays[i + 1].neurons as int,
                    ),
                    fwd_udiff(lays, input, i)[j] as int,
                ) as i64,
        )
    }
}

/// One sample's contribution added onto a weight-gradient accumulator: the
/// outer product of the layer's error column with the previous layer's
/// activation column, row-major.
#[verifier::opaque]
pub open spec fn acc1_w(prev_wd: Seq<i64>, d: Seq<i64>, py: Seq<i64>, pn: int) -> Seq<i64> {
    Seq::new(
        prev_wd.len(),
        |p: int| fx_add_spec(prev_wd[p] as int, fx_mul_spec(d[p / pn] as int, py[p % pn] as int)) as i64,
    )
}

/// One sample's contribution added onto a bias-gradient accumulator: the
/// layer's error column itself.
#[verifier::opaque]
pub open spec fn acc1_b(prev_bd: Seq<i64>, d: Seq<i64>) -> Seq<i64> {
    Seq::new(prev_bd.len(), |j: int| fx_add_spec(prev_bd[j] as int, d[j] as int) as i64)
}

/// The weight gradients of layer `i` accumulated over the first `t` samples,
/// starting from zero.
#[verifier::opaque]
pub open spec fn acc_wdiff(
    lays: Seq<LayerModel>,
    tins: Seq<Seq<i64>>,
    touts: Seq<Seq<i64>>,
    t: int,
    i: int,
) -> Seq<i64>
    decreases t,
{
    if t <= 0 {
        zero_seq((lays[i].prev_neurons * lays[i].neurons) as nat)
    } else {
        acc1_w(
            acc_wdiff(lays, tins, touts, t - 1, i),
            bp_delta(lays, tins[t - 1], touts[t - 1], i),
            fwd_y(lays, tins[t - 1], i - 1),
            lays[i].prev_neurons as int,
        )
    }
}

/// The bias gradients of layer `i` accumulated over the first `t` samples,
/// starting from zero.
#[verifier::opaque]
pub open spec fn acc_bdiff(
    lays: Seq<LayerModel>,
    tins: Seq<Seq<i64>>,
    touts: Seq<Seq<i64>>,
    t: int,
    i: int,
) -> Seq<i64>
    decreases t,
{
    if t <= 0 {
        zero_seq(lays[i].neurons as nat)
    } else {
        acc1_b(acc_bdiff(lays, tins, touts, t - 1, i), bp_delta(lays, tins[t - 1], touts[t - 1], i))
    }
}

/// A parameter buffer after one batched update: each entry decreased by the
/// accumulated gradient scaled by the learning rate.
#[verifier::opaque]
pub open spec fn upd_seq(w: Seq<i64>, d: Seq<i64>, rate: i64) -> Seq<i64> {
    Seq::new(
        w.len(),
        |p: int| fx_sub_spec(w[p] as int, fx_mul_spec(d[p] as int, rate as int)) as i64,
    )
}

/// One layer after one full-batch epoch at the given learning rate: the
/// working columns hold the last sample's passes, the accumulators hold the
/// summed gradients, and the parameters took one scaled step against them.
/// With no samples the working columns are untouched and the parameters
/// step against zero gradients, which leaves their values in place.
#[verifier::opaque]
pub open spec fn epoch_layer(
    lays: Seq<LayerModel>,
    tins: Seq<Seq<i64>>,
    touts: Seq<Seq<i64>>,
    rate: i64,
    i: int,
) -> LayerModel {
    let t = tins.len() as int;
    if i == 0 {
        LayerModel {
            y: if t >= 1 {
                tins[t - 1]
            } else {
                lays[0].y
            },
            ..lays[0]
        }
    } else {
        LayerModel {
            weight: upd_seq(lays[i].weight, acc_wdiff(lays, tins, touts, t, i), rate),
            bias: upd_seq(lays[i].bias, acc_bdiff(lays, tins, touts, t, i), rate),
            weight_diff: acc_wdiff(lays, tins, touts, t, i),
            bias_diff: acc_bdiff(lays, tins, touts, t, i),
            u: if t >= 1 {
                fwd_u(lays, tins[t - 1], i)
            } else {
                lays[i].u
            },
            y: if t >= 1 {
                fwd_y(lays, tins[t - 1], i)
            } else {
                lays[i].y
            },
            u_diff: if t >= 1 {
                fwd_udiff(lays, tins[t - 1], i)
            } else {
                lays[i].u_diff
            },
            delta: if t >= 1 {
                bp_delta(lays, tins[t - 1], touts[t - 1], i)
            } else {
                lays[i].delta
            },
            ..lays[i]
        }
    }
}

/// The layers after one full-batch epoch.
#[verifier::opaque]
pub open spec fn epoch(
    lays: Seq<LayerModel>,
    tins: Seq<Seq<i64>>,
    touts: Seq<Seq<i64>>,
    rate: i64,
) -> Seq<LayerModel> {
    Seq::new(lays.len(), |i: int| epoch_layer(lays, tins, touts, rate, i))
}

/// The layers after `n` full-batch epochs.
#[verifier::opaque]
pub open spec fn epochs(
    lays: Seq<LayerModel>,
    tins: Seq<Seq<i64>>,
    touts: Seq<Seq<i64>>,
    rate: i64,
    n: nat,
) -> Seq<LayerModel>
    decreases n,
{
    if n == 0 {
        lays
    } else {
        epoch(epochs(lays, tins, touts, rate, (n - 1) as nat), tins, touts, rate)
    }
}

/// Replacing one layer by a layer of the same shape keeps the network
/// invariant, leaves every other layer's content in place, and leaves the
/// samples in place.
#[verifier::rlimit(100)]
#[verifier::spinoff_prover]
proof fn lemma_update_layer(o: Neuron, s: Neuron, i: int)
    requires
        o.wf(),
        0 <= i < o.layer@.len(),
        s.layer@.len() == o.layer@.len(),
        s.target@ == o.target@,
        forall|j: int| 0 <= j < o.layer@.len() && j != i ==> s.layer@[j] == o.layer@[j],
        s.layer@[i].neurons == o.layer@[i].neurons,
        i == 0 ==> col_wf(s.layer@[0].y, s.layer@[0].neurons as int) && empty_wf(s.layer@[0].u)
            && empty_wf(s.layer@[0].weight) && empty_wf(s.layer@[0].bias) && empty_wf(
            s.layer@[0].delta,
        ) && empty_wf(s.layer@[0].u_diff) && empty_wf(s.layer@[0].weight_diff) && empty_wf(
            s.layer@[0].bias_diff,
        ),
        i >= 1 ==> layer_wf(s.layer@[i], o.layer@[i - 1].neurons as int),
    ensures
        s.wf(),
        s.layers().len() == o.layers().len(),
        forall|j: int| 0 <= j < o.layer@.len() && j != i ==> #[trigger] s.layers()[j]
            == o.layers()[j],
        s.target_inputs() == o.target_inputs(),
        s.target_outputs() == o.target_outputs(),
{
    assert forall|j: int| 1 <= j < s.layer@.len() implies layer_wf(
        #[trigger] s.layer@[j],
        s.layer@[j - 1].neurons as int,
    ) by {
        if j != i {
            assert(layer_wf(o.layer@[j], o.layer@[j - 1].neurons as int));
            assert(s.layer@[j] == o.layer@[j]);
            assert(s.layer@[j - 1].neurons == o.layer@[j - 1].neurons);
        }
    }
    assert forall|t: int| 0 <= t < s.target@.len() implies (#[trigger] s.target@[t].input@.len()
        == s.layer@[0].neurons && s.target@[t].output@.len() == s.layer@[s.layer@.len()
        - 1].neurons) by {
        assert(o.target@[t].input@.len() == o.layer@[0].neurons);
        assert(o.target@[t].output@.len() == o.layer@[o.layer@.len() - 1].neurons);
    }
    assert(s.wf());
    assert forall|j: int| 0 <= j < o.layer@.len() && j != i implies #[trigger] s.layers()[j]
        == o.layers()[j] by {
        assert(s.layer@[j] == o.layer@[j]);
    }
    assert(s.target_inputs() =~= o.target_inputs());
    assert(s.target_outputs() =~= o.target_outputs());
}

/// The forward contract restated as one whole-layer equality.
proof fn lemma_post_run_shape(lays: Seq<LayerModel>, ar: Seq<LayerModel>, input: Seq<i64>, j: int)
    requires
        forward_post(lays, ar, input, true),
        0 <= j < lays.len(),
    ensures
        j == 0 ==> ar[0] == (LayerModel { y: input, ..lays[0] }),
        j >= 1 ==> ar[j] == (LayerModel {
            u: fwd_u(lays, input, j),
            y: fwd_y(lays, input, j),
            u_diff: fwd_udiff(lays, input, j),
            delta: lays[j].delta,
            ..lays[j]
        }),
{
    if j == 0 {
        assert(ar[0].weight_diff == lays[0].weight_diff);
        assert(ar[0].delta == lays[0].delta);
        assert(ar[0] =~= (LayerModel { y: input, ..lays[0] }));
    } else {
        assert(ar[j].weight_diff == lays[j].weight_diff);
        assert(ar[j].delta == lays[j].delta);
        assert(ar[j] =~= (LayerModel {
            u: fwd_u(lays, input, j),
            y: fwd_y(lays, input, j),
            u_diff: fwd_udiff(lays, input, j),
            delta: lays[j].delta,
            ..lays[j]
        }));
    }
}

/// The forward pass reads only a layer's fixed parameters, never its
/// working columns: two layer stacks with the same parameters compute the
/// same columns on the same input. With the forward contract this says that
/// inference is deterministic: repeated runs with identical parameters and
/// identical input produce identical columns.
pub proof fn lemma_fwd_same_params(
    l1: Seq<LayerModel>,
    l2: Seq<LayerModel>,
    input: Seq<i64>,
    i: int,
)
    requires
        l1.len() == l2.len(),
        forall|j: int| 0 <= j < l1.len() ==> same_params(#[trigger] l1[j], l2[j]),
        0 <= i < l1.len(),
    ensures
        fwd_y(l1, input, i) == fwd_y(l2, input, i),
        i >= 1 ==> fwd_u(l1, input, i) == fwd_u(l2, input, i),
        i >= 1 ==> fwd_udiff(l1, input, i) == fwd_udiff(l2, input, i),
    decreases i,
{
    if i > 0 {
        lemma_fwd_same_params(l1, l2, input, i - 1);
        assert(fwd_u(l1, input, i) =~= fwd_u(l2, input, i));
        assert(fwd_y(l1, input, i) =~= fwd_y(l2, input, i));
        assert(fwd_udiff(l1, input, i) =~= fwd_udiff(l2, input, i));
    }
}

/// The backward pass likewise reads only fixed parameters and the sample:
/// two layer stacks with the same parameters compute the same error columns.
pub proof fn lemma_bp_same_params(
    l1: Seq<LayerModel>,
    l2: Seq<LayerModel>,
    input: Seq<i64>,
    out: Seq<i64>,
    i: int,
)
    requires
        l1.len() == l2.len(),
        forall|j: int| 0 <= j < l1.len() ==> same_params(#[trigger] l1[j], l2[j]),
        1 <= i < l1.len(),
    ensures
        bp_delta(l1, input, out, i) == bp_delta(l2, input, out, i),
    decreases l1.len() - i,
{
    reveal(out_delta);
    reveal(bp_delta);
    lemma_fwd_same_params(l1, l2, input, l1.len() - 1);
    if i >= l1.len() - 1 {
        assert(out_delta(l1, input, out) =~= out_delta(l2, input, out));
    } else {
        lemma_bp_same_params(l1, l2, input, out, i + 1);
        lemma_fwd_same_params(l1, l2, input, i);
        assert(bp_delta(l1, input, out, i) =~= bp_delta(l2, input, out, i));
    }
}

/// Two networks with the same parameters, run on the same input, end with
/// identical output columns, whatever their working columns held before.
pub proof fn lemma_run_deterministic(
    pre1: Seq<LayerModel>,
    post1: Seq<LayerModel>,
    pre2: Seq<LayerModel>,
    post2: Seq<LayerModel>,
    input: Seq<i64>,
    train1: bool,
    train2: bool,
)
    requires
        pre1.len() == pre2.len(),
        pre1.len() >= 1,
        forall|j: int| 0 <= j < pre1.len() ==> same_params(#[trigger] pre1[j], pre2[j]),
        forward_post(pre1, post1, input, train1),
        forward_post(pre2, post2, input, train2),
    ensures
        post1.last().y == post2.last().y,
{
    let last = pre1.len() - 1;
    if last >= 1 {
        lemma_fwd_same_params(pre1, pre2, input, last);
    }
}

/// A column matrix built from a flat buffer.
fn from_col(n: usize, v: &Vec<i64>) -> (m: Matrix)
    requires
        v@.len() == n,
    ensures
        col_wf(m, n as int),
        m@ == v@,
{
    match Matrix::from(1, n, v) {
        Ok(m) => m,
        Err(_) => vstd::pervasive::unreached(),
    }
}

/// A matrix built from a flat row-major buffer of matching length.
fn from_mat(w: usize, h: usize, v: &Vec<i64>) -> (m: Matrix)
    requires
        v@.len() == w * h,
    ensures
        m.wf(),
        m.width_spec() == w,
        m.height_spec() == h,
        m@ == v@,
{
    match Matrix::from(w, h, v) {
        Ok(m) => m,
        Err(_) => vstd::pervasive::unreached(),
    }
}

/// A flat row-major index decomposes into a row below the height and a
/// column below the width.
#[verifier::nonlinear]
proof fn lemma_flat_decompose(p: int, w: int, h: int)
    requires
        0 <= p < w * h,
        0 <= w,
        0 <= h,
    ensures
        0 < w,
        0 <= p / w < h,
        0 <= p % w < w,
{
}

/// A copy of a flat buffer.
fn copy_vec(v: &Vec<i64>) -> (r: Vec<i64>)
    ensures
        r@ == v@,
{
    let len = v.len();
    let mut r: Vec<i64> = Vec::new();
    let mut k: usize = 0;
    while k < len
        invariant
            r@.len() == k,
            k <= len,
            len == v@.len(),
            forall|j: int| 0 <= j < k ==> r@[j] == v@[j],
        decreases len - k,
    {
        r.push(v[k]);
        k = k + 1;
    }
    proof {
        assert(r@ =~= v@);
    }
    r
}

impl Neuron {
    /// A network with only its input layer, of the given width, and no
    /// training samples.
    pub fn new(inputs: usize) -> (r: Neuron)
        ensures
            r.wf(),
            r.num_layers() == 1,
            r.input_dim() == inputs,
            r.layers()[0].y == zero_seq(inputs as nat),
            r.target_inputs().len() == 0,
            r.target_outputs().len() == 0,
    {
        let l0 = Layer {
            neurons: inputs,
            y: Matrix::new(1, inputs),
            u: Matrix::new(0, 0),
            weight: Matrix::new(0, 0),
            bias: Matrix::new(0, 0),
            delta: Matrix::new(0, 0),
            u_diff: Matrix::new(0, 0),
            weight_diff: Matrix::new(0, 0),
            bias_diff: Matrix::new(0, 0),
            activation: Activation::Identity,
        };
        let mut layer: Vec<Layer> = Vec::new();
        layer.push(l0);
        let r = Neuron { target: Vec::new(), layer };
        proof {
            assert(r.layers()[0].y =~= zero_seq(inputs as nat));
        }
        r
    }

    /// Append a layer of the given width, its weights and biases drawn from
    /// the generator (weights first, row-major), its working columns zeroed,
    /// and the given activation bound to it.
    #[verifier::rlimit(100)]
    pub fn push_layer(&mut self, neurons: usize, activation: Activation, rng: &mut RandomGenerator)
        requires
            old(self).wf(),
            old(self).layers().last().neurons * neurons <= usize::MAX,
            old(self).target_inputs().len() == 0,
        ensures
            final(self).wf(),
            final(self).num_layers() == old(self).num_layers() + 1,
            final(self).layers().subrange(0, old(self).num_layers()) == old(self).layers(),
            final(self).layers().last().neurons == neurons,
            final(self).layers().last().prev_neurons == old(self).layers().last().neurons,
            final(self).layers().last().activation == activation,
            final(self).layers().last().weight == rand_seq(
                old(rng).seed_spec(),
                (old(self).layers().last().neurons * neurons) as nat,
            ),
            final(self).layers().last().bias == rand_seq(
                seed_after(
                    old(rng).seed_spec(),
                    (old(self).layers().last().neurons * neurons) as nat,
                ),
                neurons as nat,
            ),
            final(rng).seed_spec() == seed_after(
                old(rng).seed_spec(),
                (old(self).layers().last().neurons * neurons + neurons) as nat,
            ),
            final(self).layers().last().u == zero_seq(neurons as nat),
            final(self).layers().last().y == zero_seq(neurons as nat),
            final(self).layers().last().delta == zero_seq(neurons as nat),
            final(self).layers().last().u_diff == zero_seq(neurons as nat),
            final(self).layers().last().bias_diff == zero_seq(neurons as nat),
            final(self).layers().last().weight_diff == zero_seq(
                (old(self).layers().last().neurons * neurons) as nat,
            ),
            final(self).target_inputs() == old(self).target_inputs(),
            final(self).target_outputs() == old(self).target_outputs(),
    {
        let ghost seed0 = rng.seed_spec();
        let prev = self.layer[self.layer.len() - 1].neurons;
        let weight = Matrix::rand(prev, neurons, rng);
        let bias = Matrix::rand(1, neurons, rng);
        proof {
            crate::rng::lemma_seed_after_add(
                seed0,
                (prev * neurons) as nat,
                neurons as nat,
            );
        }
        let nl = Layer {
            neurons,
            u: Matrix::new(1, neurons),
            y: Matrix::new(1, neurons),
            weight,
            bias,
            delta: Matrix::new(1, neurons),
            u_diff: Matrix::new(1, neurons),
            weight_diff: Matrix::new(prev, neurons),
            bias_diff: Matrix::new(1, neurons),
            activation,
        };
        self.layer.push(nl);
        proof {
            let s = *self;
            let o = *old(self);
            assert(s.layers().subrange(0, o.num_layers()) =~= o.layers());
            assert(s.layers().last().u =~= zero_seq(neurons as nat));
            assert(s.layers().last().y =~= zero_seq(neurons as nat));
            assert(s.layers().last().delta =~= zero_seq(neurons as nat));
            assert(s.layers().last().u_diff =~= zero_seq(neurons as nat));
            assert(s.layers().last().bias_diff =~= zero_seq(neurons as nat));
            assert(s.layers().last().weight_diff =~= zero_seq((prev * neurons) as nat));
            assert(s.target_inputs() =~= o.target_inputs());
            assert(s.target_outputs() =~= o.target_outputs());
            assert forall|i: int| 1 <= i < s.layer@.len() implies layer_wf(
                #[trigger] s.layer@[i],
                s.layer@[i - 1].neurons as int,
            ) by {
                if i < s.layer@.len() - 1 {
                    assert(layer_wf(o.layer@[i], o.layer@[i - 1].neurons as int));
                }
            }
        }
    }

    /// Append a training sample; rows whose lengths do not match the
    /// network's input and output widths are refused.
    pub fn push_target(&mut self, input: &Vec<i64>, output: &Vec<i64>) -> (r: Result<
        (),
        EngineError,
    >)
        requires
            old(self).wf(),
        ensures
            final(self).wf(),
            final(self).layers() == old(self).layers(),
            r is Ok <==> (input@.len() == old(self).input_dim() && output@.len()
                == old(self).output_dim()),
            r is Ok ==> final(self).target_inputs() == old(self).target_inputs().push(input@)
                && final(self).target_outputs() == old(self).target_outputs().push(output@),
            r is Err ==> final(self).target_inputs() == old(self).target_inputs()
                && final(self).target_outputs() == old(self).target_outputs() && r == Err::<
                (),
                EngineError,
            >(EngineError::ShapeMismatch),
    {
        let n0 = self.layer[0].neurons;
        let nl = self.layer[self.layer.len() - 1].neurons;
        if input.len() != n0 || output.len() != nl {
            return Err(EngineError::ShapeMismatch);
        }
        let t = Target { input: copy_vec(input), output: copy_vec(output) };
        self.target.push(t);
        proof {
            let s = *self;
            let o = *old(self);
            assert(s.layers() =~= o.layers());
            assert(s.target_inputs() =~= o.target_inputs().push(input@));
            assert(s.target_outputs() =~= o.target_outputs().push(output@));
        }
        Ok(())
    }

    /// Set the input layer's activation column to the given row.
    #[verifier::rlimit(100)]
    fn set_input_layer(&mut self, input: &Vec<i64>)
        requires
            old(self).wf(),
            input@.len() == old(self).input_dim(),
        ensures
            final(self).wf(),
            final(self).layers().len() == old(self).layers().len(),
            forall|j: int| 1 <= j < old(self).layers().len() ==> #[trigger] final(self).layers()[j]
                == old(self).layers()[j],
            final(self).layers()[0] == (LayerModel { y: input@, ..old(self).layers()[0] }),
            final(self).target_inputs() == old(self).target_inputs(),
            final(self).target_outputs() == old(self).target_outputs(),
    {
        let n0 = self.layer[0].neurons;
        let y0 = from_col(n0, input);
        let l0 = &self.layer[0];
        let nl0 = Layer {
            neurons: l0.neurons,
            u: l0.u.clone(),
            y: y0,
            weight: l0.weight.clone(),
            bias: l0.bias.clone(),
            delta: l0.delta.clone(),
            u_diff: l0.u_diff.clone(),
            weight_diff: l0.weight_diff.clone(),
            bias_diff: l0.bias_diff.clone(),
            activation: l0.activation,
        };
        self.layer.set(0, nl0);
        proof {
            let s = *self;
            let o = *old(self);
            lemma_update_layer(o, s, 0);
            assert(s.layers()[0] =~= LayerModel { y: input@, ..o.layers()[0] });
        }
    }

    /// Forward pass: set layer 0's column to the input and propagate it
    /// through every later layer; in training mode also record each layer's
    /// activation-derivative column.
    #[verifier::rlimit(100)]
    fn run_(&mut self, input: &Vec<i64>, train: bool)
        requires
            old(self).wf(),
            input@.len() == old(self).input_dim(),
        ensures
            final(self).wf(),
            forward_post(old(self).layers(), final(self).layers(), input@, train),
            final(self).target_inputs() == old(self).target_inputs(),
            final(self).target_outputs() == old(self).target_outputs(),
    {
        let ghost lays0 = old(self).layers();
        self.set_input_layer(input);
        let count = self.layer.len();
        let mut i: usize = 1;
        while i < count
            invariant
                self.wf(),
                count == self.layer@.len(),
                lays0 == old(self).layers(),
                lays0.len() == count,
                1 <= i <= count,
                input@.len() == lays0[0].neurons,
                self.target_inputs() == old(self).target_inputs(),
                self.target_outputs() == old(self).target_outputs(),
                self.layers()[0] == (LayerModel { y: input@, ..lays0[0] }),
                forall|j: int| i <= j < count ==> #[trigger] self.layers()[j] == lays0[j],
                forall|j: int| 1 <= j < i ==> #[trigger] self.layers()[j] == (LayerModel {
                    u: fwd_u(lays0, input@, j),
                    y: fwd_y(lays0, input@, j),
                    u_diff: if train {
                        fwd_udiff(lays0, input@, j)
                    } else {
                        lays0[j].u_diff
                    },
                    ..lays0[j]
                }),
            decreases count - i,
        {
            let ghost pre = self.layers();
            self.forward_layer(i, train);
            proof {
                if i == 1 {
                    assert(pre[i - 1].y == input@);
                } else {
                    assert(pre[i - 1].y == fwd_y(lays0, input@, i - 1));
                }
                assert(col_u(pre, i as int) =~= fwd_u(lays0, input@, i as int));
                assert(col_y(pre, i as int) =~= fwd_y(lays0, input@, i as int));
                assert(col_ud(pre, i as int) =~= fwd_udiff(lays0, input@, i as int));
                assert(self.layers()[i as int] == (LayerModel {
                    u: fwd_u(lays0, input@, i as int),
                    y: fwd_y(lays0, input@, i as int),
                    u_diff: if train {
                        fwd_udiff(lays0, input@, i as int)
                    } else {
                        lays0[i as int].u_diff
                    },
                    ..lays0[i as int]
                }));
            }
            i = i + 1;
        }
        proof {
            let s = self.layers();
            assert forall|j: int| 0 <= j < count implies same_params(#[trigger] s[j], lays0[j])
                && s[j].weight_diff == lays0[j].weight_diff && s[j].bias_diff
                == lays0[j].bias_diff && s[j].delta == lays0[j].delta by {
            }
            assert(fwd_y(lays0, input@, 0) == input@);
        }
    }

    /// One forward step: recompute layer `i`'s pre-activation and activation
    /// columns from the previous layer's current activation column; in
    /// training mode also its activation-derivative column.
    #[verifier::rlimit(100)]
    fn forward_layer(&mut self, i: usize, train: bool)
        requires
            old(self).wf(),
            1 <= i < old(self).layers().len(),
        ensures
            final(self).wf(),
            final(self).layers().len() == old(self).layers().len(),
            forall|j: int|
                0 <= j < old(self).layers().len() && j != i ==> #[trigger] final(self).layers()[j]
                    == old(self).layers()[j],
            final(self).layers()[i as int] == (LayerModel {
                u: col_u(old(self).layers(), i as int),
                y: col_y(old(self).layers(), i as int),
                u_diff: if train {
                    col_ud(old(self).layers(), i as int)
                } else {
                    old(self).layers()[i as int].u_diff
                },
                ..old(self).layers()[i as int]
            }),
            final(self).target_inputs() == old(self).target_inputs(),
            final(self).target_outputs() == old(self).target_outputs(),
    {
        let ghost lays0 = old(self).layers();
        let prev_y = self.layer[i - 1].y.to_vec();
        let n = self.layer[i].neurons;
        let pn = self.layer[i].weight.width();
        proof {
            assert(layer_wf(self.layer@[i as int], self.layer@[i - 1].neurons as int));
            assert(prev_y@.len() == pn);
            assert(prev_y@ == lays0[i - 1].y);
        }
        let mut uv: Vec<i64> = Vec::new();
        let mut j: usize = 0;
        while j < n
            invariant
                uv@.len() == j,
                j <= n,
                self.wf(),
                *self == *old(self),
                lays0 == old(self).layers(),
                1 <= i < self.layer@.len(),
                n == self.layer@[i as int].neurons,
                pn == self.layer@[i as int].weight.width_spec(),
                prev_y@.len() == pn,
                prev_y@ == lays0[i - 1].y,
                forall|jj: int| 0 <= jj < j ==> #[trigger] uv@[jj] == u_entry(
                    lays0[i as int],
                    prev_y@,
                    jj,
                ) as i64,
            decreases n - j,
        {
            let mut acc: i64 = 0;
            let mut k: usize = 0;
            while k < pn
                invariant
                    k <= pn,
                    j < n,
                    self.wf(),
                    *self == *old(self),
                    lays0 == old(self).layers(),
                    1 <= i < self.layer@.len(),
                    n == self.layer@[i as int].neurons,
                    pn == self.layer@[i as int].weight.width_spec(),
                    prev_y@.len() == pn,
                    acc as int == row_dot(
                        lays0[i as int].weight,
                        pn as int,
                        prev_y@,
                        j as int,
                        k as int,
                    ),
                decreases pn - k,
            {
                let w = self.layer[i].weight.get(j, k);
                acc = fx_add(acc, fx_mul(w, prev_y[k]));
                k = k + 1;
            }
            let b = self.layer[i].bias.get(j, 0);
            acc = fx_add(acc, b);
            uv.push(acc);
            j = j + 1;
        }
        let a = self.layer[i].activation;
        let mut yv: Vec<i64> = Vec::new();
        let mut dv: Vec<i64> = Vec::new();
        let mut j2: usize = 0;
        while j2 < n
            invariant
                yv@.len() == j2,
                dv@.len() == j2,
                j2 <= n,
                uv@.len() == n,
                forall|jj: int| 0 <= jj < j2 ==> #[trigger] yv@[jj] == act_value(a, uv@[jj]),
                forall|jj: int| 0 <= jj < j2 ==> #[trigger] dv@[jj] == act_deriv(a, uv@[jj]),
            decreases n - j2,
        {
            let uval = uv[j2];
            yv.push(act_apply(a, uval));
            dv.push(act_apply_deriv(a, uval));
            j2 = j2 + 1;
        }
        let u_m = from_col(n, &uv);
        let y_m = from_col(n, &yv);
        let li = &self.layer[i];
        let ud_m = if train {
            from_col(n, &dv)
        } else {
            li.u_diff.clone()
        };
        let nl = Layer {
            neurons: n,
            u: u_m,
            y: y_m,
            u_diff: ud_m,
            weight: li.weight.clone(),
            bias: li.bias.clone(),
            delta: li.delta.clone(),
            weight_diff: li.weight_diff.clone(),
            bias_diff: li.bias_diff.clone(),
            activation: li.activation,
        };
        self.layer.set(i, nl);
        proof {
            let s = *self;
            let o = *old(self);
            assert(uv@ =~= col_u(lays0, i as int));
            assert(yv@ =~= col_y(lays0, i as int));
            assert(dv@ =~= col_ud(lays0, i as int));
            lemma_update_layer(o, s, i as int);
            assert(s.layers()[i as int] =~= LayerModel {
                u: col_u(lays0, i as int),
                y: col_y(lays0, i as int),
                u_diff: if train {
                    col_ud(lays0, i as int)
                } else {
                    lays0[i as int].u_diff
                },
                ..lays0[i as int]
            });
            assert(s.target_inputs() =~= o.target_inputs());
            assert(s.target_outputs() =~= o.target_outputs());
        }
    }

    /// Forward pass on an input row; a row whose length does not match the
    /// input layer's width is refused and nothing changes.
    pub fn run(&mut self, input: &Vec<i64>) -> (r: Result<(), EngineError>)
        requires
            old(self).wf(),
        ensures
            final(self).wf(),
            r is Ok <==> input@.len() == old(self).input_dim(),
            r is Ok ==> forward_post(old(self).layers(), final(self).layers(), input@, false),
            r is Err ==> final(self).layers() == old(self).layers() && r == Err::<
                (),
                EngineError,
            >(EngineError::ShapeMismatch),
            final(self).target_inputs() == old(self).target_inputs(),
            final(self).target_outputs() == old(self).target_outputs(),
    {
        if input.len() != self.layer[0].neurons {
            return Err(EngineError::ShapeMismatch);
        }
        self.run_(input, false);
        Ok(())
    }

    /// Replace one layer's error column.
    fn replace_delta(&mut self, i: usize, d: Matrix)
        requires
            old(self).wf(),
            1 <= i < old(self).layers().len(),
            col_wf(d, old(self).layers()[i as int].neurons as int),
        ensures
            final(self).wf(),
            final(self).layers().len() == old(self).layers().len(),
            forall|j: int|
                0 <= j < old(self).layers().len() && j != i ==> #[trigger] final(self).layers()[j]
                    == old(self).layers()[j],
            final(self).layers()[i as int] == (LayerModel {
                delta: d@,
                ..old(self).layers()[i as int]
            }),
            final(self).target_inputs() == old(self).target_inputs(),
            final(self).target_outputs() == old(self).target_outputs(),
    {
        let li = &self.layer[i];
        let nl = Layer {
            neurons: li.neurons,
            u: li.u.clone(),
            y: li.y.clone(),
            weight: li.weight.clone(),
            bias: li.bias.clone(),
            delta: d,
            u_diff: li.u_diff.clone(),
            weight_diff: li.weight_diff.clone(),
            bias_diff: li.bias_diff.clone(),
            activation: li.activation,
        };
        proof {
            assert(layer_wf(old(self).layer@[i as int], old(self).layer@[i - 1].neurons as int));
        }
        self.layer.set(i, nl);
        proof {
            lemma_update_layer(*old(self), *self, i as int);
            assert(self.layers()[i as int] =~= LayerModel {
                delta: d@,
                ..old(self).layers()[i as int]
            });
        }
    }

    /// Replace one layer's gradient accumulators.
    fn replace_diffs(&mut self, i: usize, wd: Matrix, bd: Matrix)
        requires
            old(self).wf(),
            1 <= i < old(self).layers().len(),
            wd.wf(),
            wd.width_spec() == old(self).layers()[i as int].prev_neurons,
            wd.height_spec() == old(self).layers()[i as int].neurons,
            col_wf(bd, old(self).layers()[i as int].neurons as int),
        ensures
            final(self).wf(),
            final(self).layers().len() == old(self).layers().len(),
            forall|j: int|
                0 <= j < old(self).layers().len() && j != i ==> #[trigger] final(self).layers()[j]
                    == old(self).layers()[j],
            final(self).layers()[i as int] == (LayerModel {
                weight_diff: wd@,
                bias_diff: bd@,
                ..old(self).layers()[i as int]
            }),
            final(self).target_inputs() == old(self).target_inputs(),
            final(self).target_outputs() == old(self).target_outputs(),
    {
        let li = &self.layer[i];
        let nl = Layer {
            neurons: li.neurons,
            u: li.u.clone(),
            y: li.y.clone(),
            weight: li.weight.clone(),
            bias: li.bias.clone(),
            delta: li.delta.clone(),
            u_diff: li.u_diff.clone(),
            weight_diff: wd,
            bias_diff: bd,
            activation: li.activation,
        };
        proof {
            assert(layer_wf(old(self).layer@[i as int], old(self).layer@[i - 1].neurons as int));
        }
        self.layer.set(i, nl);
        proof {
            lemma_update_layer(*old(self), *self, i as int);
            assert(self.layers()[i as int] =~= LayerModel {
                weight_diff: wd@,
                bias_diff: bd@,
                ..old(self).layers()[i as int]
            });
        }
    }

    /// Replace one layer's parameters.
    fn replace_params(&mut self, i: usize, w: Matrix, b: Matrix)
        requires
            old(self).wf(),
            1 <= i < old(self).layers().len(),
            w.wf(),
            w.width_spec() == old(self).layers()[i as int].prev_neurons,
            w.height_spec() == old(self).layers()[i as int].neurons,
            col_wf(b, old(self).layers()[i as int].neurons as int),
        ensures
            final(self).wf(),
            final(self).layers().len() == old(self).layers().len(),
            forall|j: int|
                0 <= j < old(self).layers().len() && j != i ==> #[trigger] final(self).layers()[j]
                    == old(self).layers()[j],
            final(self).layers()[i as int] == (LayerModel {
                weight: w@,
                bias: b@,
                ..old(self).layers()[i as int]
            }),
            final(self).target_inputs() == old(self).target_inputs(),
            final(self).target_outputs() == old(self).target_outputs(),
    {
        let li = &self.layer[i];
        let nl = Layer {
            neurons: li.neurons,
            u: li.u.clone(),
            y: li.y.clone(),
            weight: w,
            bias: b,
            delta: li.delta.clone(),
            u_diff: li.u_diff.clone(),
            weight_diff: li.weight_diff.clone(),
            bias_diff: li.bias_diff.clone(),
            activation: li.activation,
        };
        proof {
            assert(layer_wf(old(self).layer@[i as int], old(self).layer@[i - 1].neurons as int));
        }
        self.layer.set(i, nl);
        proof {
            lemma_update_layer(*old(self), *self, i as int);
            assert(self.layers()[i as int] =~= LayerModel {
                weight: w@,
                bias: b@,
                ..old(self).layers()[i as int]
            });
        }
    }

    /// Zero every layer's gradient accumulators.
    fn reset_diffs(&mut self)
        requires
            old(self).wf(),
        ensures
            final(self).wf(),
            final(self).layers().len() == old(self).layers().len(),
            final(self).layers()[0] == old(self).layers()[0],
            forall|j: int|
                1 <= j < old(self).layers().len() ==> #[trigger] final(self).layers()[j]
                    == (LayerModel {
                    weight_diff: zero_seq(old(self).layers()[j].weight_diff.len()),
                    bias_diff: zero_seq(old(self).layers()[j].neurons as nat),
                    ..old(self).layers()[j]
                }),
            final(self).target_inputs() == old(self).target_inputs(),
            final(self).target_outputs() == old(self).target_outputs(),
    {
        let ghost lays0 = old(self).layers();
        let count = self.layer.len();
        let mut i: usize = 1;
        while i < count
            invariant
                self.wf(),
                count == self.layer@.len(),
                lays0 == old(self).layers(),
                lays0.len() == count,
                1 <= i <= count,
                self.target_inputs() == old(self).target_inputs(),
                self.target_outputs() == old(self).target_outputs(),
                self.layers()[0] == lays0[0],
                forall|j: int| i <= j < count ==> #[trigger] self.layers()[j] == lays0[j],
                forall|j: int| 1 <= j < i ==> #[trigger] self.layers()[j] == (LayerModel {
                    weight_diff: zero_seq(lays0[j].weight_diff.len()),
                    bias_diff: zero_seq(lays0[j].neurons as nat),
                    ..lays0[j]
                }),
            decreases count - i,
        {
            proof {
                assert(layer_wf(self.layer@[i as int], self.layer@[i - 1].neurons as int));
            }
            let wd = self.layer[i].weight_diff.zero_like();
            let bd = self.layer[i].bias_diff.zero_like();
            self.replace_diffs(i, wd, bd);
            proof {
                assert(wd@ =~= zero_seq(lays0[i as int].weight_diff.len()));
                assert(bd@ =~= zero_seq(lays0[i as int].neurons as nat));
            }
            i = i + 1;
        }
    }

    /// Run one sample forward in training mode and push its error back
    /// through the layers, leaving each layer's error column in place.
    #[verifier::rlimit(100)]
    fn sample_deltas(&mut self, t: usize)
        requires
            old(self).wf(),
            old(self).num_layers() >= 2,
            t < old(self).target_inputs().len(),
        ensures
            final(self).wf(),
            final(self).layers().len() == old(self).layers().len(),
            final(self).target_inputs() == old(self).target_inputs(),
            final(self).target_outputs() == old(self).target_outputs(),
            final(self).layers()[0] == (LayerModel {
                y: old(self).target_inputs()[t as int],
                ..old(self).layers()[0]
            }),
            forall|j: int|
                1 <= j < old(self).layers().len() ==> #[trigger] final(self).layers()[j]
                    == (LayerModel {
                    u: fwd_u(old(self).layers(), old(self).target_inputs()[t as int], j),
                    y: fwd_y(old(self).layers(), old(self).target_inputs()[t as int], j),
                    u_diff: fwd_udiff(old(self).layers(), old(self).target_inputs()[t as int], j),
                    delta: bp_delta(
                        old(self).layers(),
                        old(self).target_inputs()[t as int],
                        old(self).target_outputs()[t as int],
                        j,
                    ),
                    ..old(self).layers()[j]
                }),
    {
        let ghost lays = old(self).layers();
        let ghost tin_s = old(self).target_inputs()[t as int];
        let ghost tout_s = old(self).target_outputs()[t as int];
        let tin = copy_vec(&self.target[t].input);
        proof {
            assert(tin@ == tin_s);
        }
        self.run_(&tin, true);
        let ghost ar = self.layers();
        let count = self.layer.len();
        let last = count - 1;
        let tout = copy_vec(&self.target[t].output);
        proof {
            assert(tout@ == tout_s);
        }
        // output-layer error: activation minus target
        let yv = self.layer[last].y.to_vec();
        let n_last = self.layer[last].neurons;
        let mut dv: Vec<i64> = Vec::new();
        let mut j: usize = 0;
        while j < n_last
            invariant
                dv@.len() == j,
                j <= n_last,
                yv@.len() == n_last,
                tout@.len() == n_last,
                forall|jj: int| 0 <= jj < j ==> #[trigger] dv@[jj] == fx_sub_spec(
                    yv@[jj] as int,
                    tout@[jj] as int,
                ) as i64,
            decreases n_last - j,
        {
            dv.push(fx_sub(yv[j], tout[j]));
            j = j + 1;
        }
        let dm = from_col(n_last, &dv);
        self.replace_delta(last, dm);
        proof {
            reveal(out_delta);
            reveal(bp_delta);
            assert(yv@ == fwd_y(lays, tin_s, last as int));
            assert(dv@ =~= out_delta(lays, tin_s, tout_s));
            assert(self.layers()[last as int].delta == bp_delta(lays, tin_s, tout_s, last as int));
            lemma_post_run_shape(lays, ar, tin_s, 0);
            assert(self.layers()[0] == ar[0]);
            assert forall|j2: int| 1 <= j2 < count implies #[trigger] self.layers()[j2]
                == (LayerModel {
                u: fwd_u(lays, tin_s, j2),
                y: fwd_y(lays, tin_s, j2),
                u_diff: fwd_udiff(lays, tin_s, j2),
                delta: if j2 >= last {
                    bp_delta(lays, tin_s, tout_s, j2)
                } else {
                    lays[j2].delta
                },
                ..lays[j2]
            }) by {
                lemma_post_run_shape(lays, ar, tin_s, j2);
                if j2 == last {
                    assert(self.layers()[j2] =~= (LayerModel {
                        u: fwd_u(lays, tin_s, j2),
                        y: fwd_y(lays, tin_s, j2),
                        u_diff: fwd_udiff(lays, tin_s, j2),
                        delta: bp_delta(lays, tin_s, tout_s, j2),
                        ..lays[j2]
                    }));
                } else {
                    assert(self.layers()[j2] == ar[j2]);
                }
            }
        }
        // hidden-layer errors, from the second-to-last layer down to layer 1
        let mut idx: usize = last;
        while idx > 1
            invariant
                self.wf(),
                count == self.layer@.len(),
                count == lays.len(),
                count >= 2,
                last == count - 1,
                1 <= idx <= last,
                lays == old(self).layers(),
                tin_s == old(self).target_inputs()[t as int],
                tout_s == old(self).target_outputs()[t as int],
                self.target_inputs() == old(self).target_inputs(),
                self.target_outputs() == old(self).target_outputs(),
                self.layers()[0] == (LayerModel { y: tin_s, ..lays[0] }),
                forall|j2: int| 1 <= j2 < count ==> #[trigger] self.layers()[j2] == (LayerModel {
                    u: fwd_u(lays, tin_s, j2),
                    y: fwd_y(lays, tin_s, j2),
                    u_diff: fwd_udiff(lays, tin_s, j2),
                    delta: if j2 >= idx {
                        bp_delta(lays, tin_s, tout_s, j2)
                    } else {
                        lays[j2].delta
                    },
                    ..lays[j2]
                }),
            decreases idx,
        {
            idx = idx - 1;
            let dnext = self.layer[idx + 1].delta.to_vec();
            let n_i = self.layer[idx].neurons;
            let n_next = self.layer[idx + 1].neurons;
            let udv = self.layer[idx].u_diff.to_vec();
            proof {
                assert(layer_wf(self.layer@[idx + 1], self.layer@[idx as int].neurons as int));
                let mi = self.layers()[idx as int];
                let mn = self.layers()[idx + 1];
                assert(mi == self.layer@[idx as int].model());
                assert(mn == self.layer@[idx + 1].model());
                assert(mn.delta == bp_delta(lays, tin_s, tout_s, idx + 1));
                assert(mi.u_diff == fwd_udiff(lays, tin_s, idx as int));
                assert(dnext@ == bp_delta(lays, tin_s, tout_s, idx + 1));
                assert(udv@ == fwd_udiff(lays, tin_s, idx as int));
            }
            let mut dv2: Vec<i64> = Vec::new();
            let mut j3: usize = 0;
            while j3 < n_i
                invariant
                    dv2@.len() == j3,
                    j3 <= n_i,
                    self.wf(),
                    count == self.layer@.len(),
                    1 <= idx < count - 1,
                    n_i == self.layer@[idx as int].neurons,
                    n_next == self.layer@[idx + 1].neurons,
                    layer_wf(self.layer@[idx + 1], n_i as int),
                    self.layers()[idx + 1].weight == lays[idx + 1].weight,
                    self.layers()[idx + 1].prev_neurons == n_i,
                    self.layers()[idx + 1].neurons == n_next,
                    dnext@.len() == n_next,
                    udv@.len() == n_i,
                    dnext@ == bp_delta(lays, tin_s, tout_s, idx + 1),
                    udv@ == fwd_udiff(lays, tin_s, idx as int),
                    forall|jj: int| 0 <= jj < j3 ==> #[trigger] dv2@[jj] == fx_mul_spec(
                        back_dot(
                            lays[idx + 1].weight,
                            n_i as int,
                            dnext@,
                            jj,
                            n_next as int,
                        ),
                        udv@[jj] as int,
                    ) as i64,
                decreases n_i - j3,
            {
                proof {
                    reveal(back_dot);
                }
                let mut sum: i64 = 0;
                let mut k: usize = 0;
                while k < n_next
                    invariant
                        k <= n_next,
                        j3 < n_i,
                        self.wf(),
                        count == self.layer@.len(),
                        1 <= idx < count - 1,
                        n_i == self.layer@[idx as int].neurons,
                        n_next == self.layer@[idx + 1].neurons,
                        layer_wf(self.layer@[idx + 1], n_i as int),
                        self.layers()[idx + 1].weight == lays[idx + 1].weight,
                        dnext@.len() == n_next,
                        sum as int == back_dot(
                            lays[idx + 1].weight,
                            n_i as int,
                            dnext@,
                            j3 as int,
                            k as int,
                        ),
                    decreases n_next - k,
                {
                    proof {
                        reveal(back_dot);
                    }
                    let w = self.layer[idx + 1].weight.get(k, j3);
                    sum = fx_add(sum, fx_mul(dnext[k], w));
                    k = k + 1;
                }
                sum = fx_mul(sum, udv[j3]);
                dv2.push(sum);
                j3 = j3 + 1;
            }
            let dm2 = from_col(n_i, &dv2);
            self.replace_delta(idx, dm2);
            proof {
                reveal(bp_delta);
                assert(lays[idx + 1].prev_neurons == n_i);
                assert(dv2@ =~= bp_delta(lays, tin_s, tout_s, idx as int));
            }
        }
    }

    /// Run one sample forward in training mode, push its error back through
    /// the layers, and add its gradients onto the accumulators.
    #[verifier::rlimit(100)]
    fn backprop_sample(&mut self, t: usize)
        requires
            old(self).wf(),
            old(self).num_layers() >= 2,
            t < old(self).target_inputs().len(),
        ensures
            final(self).wf(),
            final(self).layers().len() == old(self).layers().len(),
            final(self).target_inputs() == old(self).target_inputs(),
            final(self).target_outputs() == old(self).target_outputs(),
            final(self).layers()[0] == (LayerModel {
                y: old(self).target_inputs()[t as int],
                ..old(self).layers()[0]
            }),
            forall|j: int|
                1 <= j < old(self).layers().len() ==> #[trigger] final(self).layers()[j]
                    == (LayerModel {
                    u: fwd_u(old(self).layers(), old(self).target_inputs()[t as int], j),
                    y: fwd_y(old(self).layers(), old(self).target_inputs()[t as int], j),
                    u_diff: fwd_udiff(old(self).layers(), old(self).target_inputs()[t as int], j),
                    delta: bp_delta(
                        old(self).layers(),
                        old(self).target_inputs()[t as int],
                        old(self).target_outputs()[t as int],
                        j,
                    ),
                    weight_diff: acc1_w(
                        old(self).layers()[j].weight_diff,
                        bp_delta(
                            old(self).layers(),
                            old(self).target_inputs()[t as int],
                            old(self).target_outputs()[t as int],
                            j,
                        ),
                        fwd_y(old(self).layers(), old(self).target_inputs()[t as int], j - 1),
                        old(self).layers()[j].prev_neurons as int,
                    ),
                    bias_diff: acc1_b(
                        old(self).layers()[j].bias_diff,
                        bp_delta(
                            old(self).layers(),
                            old(self).target_inputs()[t as int],
                            old(self).target_outputs()[t as int],
                            j,
                        ),
                    ),
                    ..old(self).layers()[j]
                }),
    {
        let ghost lays = old(self).layers();
        let ghost tin_s = old(self).target_inputs()[t as int];
        let ghost tout_s = old(self).target_outputs()[t as int];
        let ghost count = lays.len();
        self.sample_deltas(t);
        let ghost ad = self.layers();
        self.accumulate_diffs();
        proof {
            assert forall|j: int| 1 <= j < count implies #[trigger] self.layers()[j]
                == (LayerModel {
                u: fwd_u(lays, tin_s, j),
                y: fwd_y(lays, tin_s, j),
                u_diff: fwd_udiff(lays, tin_s, j),
                delta: bp_delta(lays, tin_s, tout_s, j),
                weight_diff: acc1_w(
                    lays[j].weight_diff,
                    bp_delta(lays, tin_s, tout_s, j),
                    fwd_y(lays, tin_s, j - 1),
                    lays[j].prev_neurons as int,
                ),
                bias_diff: acc1_b(lays[j].bias_diff, bp_delta(lays, tin_s, tout_s, j)),
                ..lays[j]
            }) by {
                assert(fwd_y(lays, tin_s, 0) == tin_s);
                assert(ad[j - 1].y == fwd_y(lays, tin_s, j - 1));
                assert(self.layers()[j] =~= (LayerModel {
                    u: fwd_u(lays, tin_s, j),
                    y: fwd_y(lays, tin_s, j),
                    u_diff: fwd_udiff(lays, tin_s, j),
                    delta: bp_delta(lays, tin_s, tout_s, j),
                    weight_diff: acc1_w(
                        lays[j].weight_diff,
                        bp_delta(lays, tin_s, tout_s, j),
                        fwd_y(lays, tin_s, j - 1),
                        lays[j].prev_neurons as int,
                    ),
                    bias_diff: acc1_b(lays[j].bias_diff, bp_delta(lays, tin_s, tout_s, j)),
                    ..lays[j]
                }));
            }
            assert(self.layers()[0] =~= (LayerModel { y: tin_s, ..lays[0] }));
        }
    }

    /// Add each layer's current error column onto its gradient accumulators:
    /// the outer product with the previous layer's activation column onto the
    /// weight accumulator, the error column itself onto the bias accumulator.
    #[verifier::rlimit(100)]
    fn accumulate_diffs(&mut self)
        requires
            old(self).wf(),
        ensures
            final(self).wf(),
            final(self).layers().len() == old(self).layers().len(),
            final(self).layers()[0] == old(self).layers()[0],
            forall|j: int|
                1 <= j < old(self).layers().len() ==> #[trigger] final(self).layers()[j]
                    == (LayerModel {
                    weight_diff: acc1_w(
                        old(self).layers()[j].weight_diff,
                        old(self).layers()[j].delta,
                        old(self).layers()[j - 1].y,
                        old(self).layers()[j].prev_neurons as int,
                    ),
                    bias_diff: acc1_b(
                        old(self).layers()[j].bias_diff,
                        old(self).layers()[j].delta,
                    ),
                    ..old(self).layers()[j]
                }),
            final(self).target_inputs() == old(self).target_inputs(),
            final(self).target_outputs() == old(self).target_outputs(),
    {
        let ghost lays = old(self).layers();
        let count = self.layer.len();
        let mut i2: usize = 1;
        while i2 < count
            invariant
                self.wf(),
                count == self.layer@.len(),
                lays == old(self).layers(),
                lays.len() == count,
                1 <= i2 <= count,
                self.target_inputs() == old(self).target_inputs(),
                self.target_outputs() == old(self).target_outputs(),
                self.layers()[0] == lays[0],
                forall|j: int| i2 <= j < count ==> #[trigger] self.layers()[j] == lays[j],
                forall|j: int| 1 <= j < i2 ==> #[trigger] self.layers()[j] == (LayerModel {
                    weight_diff: acc1_w(
                        lays[j].weight_diff,
                        lays[j].delta,
                        lays[j - 1].y,
                        lays[j].prev_neurons as int,
                    ),
                    bias_diff: acc1_b(lays[j].bias_diff, lays[j].delta),
                    ..lays[j]
                }),
            decreases count - i2,
        {
            proof {
                assert(layer_wf(self.layer@[i2 as int], self.layer@[i2 - 1].neurons as int));
            }
            let pyv = self.layer[i2 - 1].y.to_vec();
            let dvv = self.layer[i2].delta.to_vec();
            let wdv = self.layer[i2].weight_diff.to_vec();
            let bdv = self.layer[i2].bias_diff.to_vec();
            let pn = self.layer[i2].weight_diff.width();
            let n = self.layer[i2].neurons;
            proof {
                let mp = self.layers()[i2 - 1];
                let mi = self.layers()[i2 as int];
                assert(mp == self.layer@[i2 - 1].model());
                assert(mi == self.layer@[i2 as int].model());
                assert(pyv@ == lays[i2 - 1].y);
                assert(dvv@ == lays[i2 as int].delta);
                assert(wdv@ == lays[i2 as int].weight_diff);
                assert(bdv@ == lays[i2 as int].bias_diff);
                assert(pyv@.len() == pn);
            }
            let wlen = wdv.len();
            let mut nwd: Vec<i64> = Vec::new();
            let mut p: usize = 0;
            while p < wlen
                invariant
                    nwd@.len() == p,
                    p <= wlen,
                    wlen == wdv@.len(),
                    wlen == pn * n,
                    pyv@.len() == pn,
                    dvv@.len() == n,
                    forall|pp: int| 0 <= pp < p ==> #[trigger] nwd@[pp] == fx_add_spec(
                        wdv@[pp] as int,
                        fx_mul_spec(
                            dvv@[pp / (pn as int)] as int,
                            pyv@[pp % (pn as int)] as int,
                        ),
                    ) as i64,
                decreases wlen - p,
            {
                proof {
                    lemma_flat_decompose(p as int, pn as int, n as int);
                }
                let row = p / pn;
                let col = p % pn;
                nwd.push(fx_add(wdv[p], fx_mul(dvv[row], pyv[col])));
                p = p + 1;
            }
            let mut nbd: Vec<i64> = Vec::new();
            let mut jb: usize = 0;
            while jb < n
                invariant
                    nbd@.len() == jb,
                    jb <= n,
                    bdv@.len() == n,
                    dvv@.len() == n,
                    forall|jj: int| 0 <= jj < jb ==> #[trigger] nbd@[jj] == fx_add_spec(
                        bdv@[jj] as int,
                        dvv@[jj] as int,
                    ) as i64,
                decreases n - jb,
            {
                nbd.push(fx_add(bdv[jb], dvv[jb]));
                jb = jb + 1;
            }
            let wdm = from_mat(pn, n, &nwd);
            let bdm = from_col(n, &nbd);
            self.replace_diffs(i2, wdm, bdm);
            proof {
                reveal(acc1_w);
                reveal(acc1_b);
                assert(nwd@ =~= acc1_w(
                    lays[i2 as int].weight_diff,
                    lays[i2 as int].delta,
                    lays[i2 - 1].y,
                    lays[i2 as int].prev_neurons as int,
                ));
                assert(nbd@ =~= acc1_b(lays[i2 as int].bias_diff, lays[i2 as int].delta));
                assert(self.layers()[i2 as int] =~= (LayerModel {
                    weight_diff: acc1_w(
                        lays[i2 as int].weight_diff,
                        lays[i2 as int].delta,
                        lays[i2 - 1].y,
                        lays[i2 as int].prev_neurons as int,
                    ),
                    bias_diff: acc1_b(lays[i2 as int].bias_diff, lays[i2 as int].delta),
                    ..lays[i2 as int]
                }));
            }
            i2 = i2 + 1;
        }
    }

    /// Apply the batched update: step every parameter against its
    /// accumulated gradient, scaled by the learning rate.
    fn apply_update(&mut self, rate: i64)
        requires
            old(self).wf(),
        ensures
            final(self).wf(),
            final(self).layers().len() == old(self).layers().len(),
            final(self).layers()[0] == old(self).layers()[0],
            forall|j: int|
                1 <= j < old(self).layers().len() ==> #[trigger] final(self).layers()[j]
                    == (LayerModel {
                    weight: upd_seq(
                        old(self).layers()[j].weight,
                        old(self).layers()[j].weight_diff,
                        rate,
                    ),
                    bias: upd_seq(
                        old(self).layers()[j].bias,
                        old(self).layers()[j].bias_diff,
                        rate,
                    ),
                    ..old(self).layers()[j]
                }),
            final(self).target_inputs() == old(self).target_inputs(),
            final(self).target_outputs() == old(self).target_outputs(),
    {
        let ghost lays0 = old(self).layers();
        let count = self.layer.len();
        let mut i: usize = 1;
        while i < count
            invariant
                self.wf(),
                count == self.layer@.len(),
                lays0 == old(self).layers(),
                lays0.len() == count,
                1 <= i <= count,
                self.target_inputs() == old(self).target_inputs(),
                self.target_outputs() == old(self).target_outputs(),
                self.layers()[0] == lays0[0],
                forall|j: int| i <= j < count ==> #[trigger] self.layers()[j] == lays0[j],
                forall|j: int| 1 <= j < i ==> #[trigger] self.layers()[j] == (LayerModel {
                    weight: upd_seq(lays0[j].weight, lays0[j].weight_diff, rate),
                    bias: upd_seq(lays0[j].bias, lays0[j].bias_diff, rate),
                    ..lays0[j]
                }),
            decreases count - i,
        {
            proof {
                assert(layer_wf(self.layer@[i as int], self.layer@[i - 1].neurons as int));
            }
            let wv = self.layer[i].weight.to_vec();
            let wdv = self.layer[i].weight_diff.to_vec();
            let bv = self.layer[i].bias.to_vec();
            let bdv = self.layer[i].bias_diff.to_vec();
            let pn = self.layer[i].weight.width();
            let n = self.layer[i].neurons;
            let wlen = wv.len();
            let mut nw: Vec<i64> = Vec::new();
            let mut p: usize = 0;
            while p < wlen
                invariant
                    nw@.len() == p,
                    p <= wlen,
                    wlen == wv@.len(),
                    wdv@.len() == wlen,
                    forall|pp: int| 0 <= pp < p ==> #[trigger] nw@[pp] == fx_sub_spec(
                        wv@[pp] as int,
                        fx_mul_spec(wdv@[pp] as int, rate as int),
                    ) as i64,
                decreases wlen - p,
            {
                nw.push(fx_sub(wv[p], fx_mul(wdv[p], rate)));
                p = p + 1;
            }
            let mut nb: Vec<i64> = Vec::new();
            let mut jb: usize = 0;
            while jb < n
                invariant
                    nb@.len() == jb,
                    jb <= n,
                    bv@.len() == n,
                    bdv@.len() == n,
                    forall|jj: int| 0 <= jj < jb ==> #[trigger] nb@[jj] == fx_sub_spec(
                        bv@[jj] as int,
                        fx_mul_spec(bdv@[jj] as int, rate as int),
                    ) as i64,
                decreases n - jb,
            {
                nb.push(fx_sub(bv[jb], fx_mul(bdv[jb], rate)));
                jb = jb + 1;
            }
            let wm = from_mat(pn, n, &nw);
            let bm = from_col(n, &nb);
            self.replace_params(i, wm, bm);
            proof {
                reveal(upd_seq);
                assert(nw@ =~= upd_seq(lays0[i as int].weight, lays0[i as int].weight_diff, rate));
                assert(nb@ =~= upd_seq(lays0[i as int].bias, lays0[i as int].bias_diff, rate));
            }
            i = i + 1;
        }
    }

    /// One full-batch epoch: zero the accumulators, run and backpropagate
    /// every sample in insertion order, then apply the single batched update.
    #[verifier::rlimit(100)]
    fn learn_(&mut self, rate: i64)
        requires
            old(self).wf(),
            old(self).num_layers() >= 2,
        ensures
            final(self).wf(),
            final(self).num_layers() == old(self).num_layers(),
            final(self).target_inputs() == old(self).target_inputs(),
            final(self).target_outputs() == old(self).target_outputs(),
            final(self).layers() == epoch(
                old(self).layers(),
                old(self).target_inputs(),
                old(self).target_outputs(),
                rate,
            ),
    {
        let ghost lays0 = old(self).layers();
        let ghost tins = old(self).target_inputs();
        let ghost touts = old(self).target_outputs();
        let count = self.layer.len();
        self.reset_diffs();
        proof {
            reveal(acc_wdiff);
            reveal(acc_bdiff);
            assert forall|j: int| 1 <= j < count implies #[trigger] self.layers()[j] == (LayerModel {
                weight_diff: acc_wdiff(lays0, tins, touts, 0, j),
                bias_diff: acc_bdiff(lays0, tins, touts, 0, j),
                ..lays0[j]
            }) by {
                assert(zero_seq(lays0[j].weight_diff.len()) =~= zero_seq(
                    (lays0[j].prev_neurons * lays0[j].neurons) as nat,
                ));
            }
        }
        let tcount = self.target.len();
        let mut t: usize = 0;
        while t < tcount
            invariant
                self.wf(),
                count == self.layer@.len(),
                lays0 == old(self).layers(),
                lays0.len() == count,
                count >= 2,
                t <= tcount,
                tins == old(self).target_inputs(),
                touts == old(self).target_outputs(),
                tcount == tins.len(),
                touts.len() == tins.len(),
                self.target_inputs() == tins,
                self.target_outputs() == touts,
                self.layers()[0] == (LayerModel {
                    y: if t >= 1 {
                        tins[t - 1]
                    } else {
                        lays0[0].y
                    },
                    ..lays0[0]
                }),
                forall|j: int| 1 <= j < count ==> #[trigger] self.layers()[j] == (LayerModel {
                    weight_diff: acc_wdiff(lays0, tins, touts, t as int, j),
                    bias_diff: acc_bdiff(lays0, tins, touts, t as int, j),
                    u: if t >= 1 {
                        fwd_u(lays0, tins[t - 1], j)
                    } else {
                        lays0[j].u
                    },
                    y: if t >= 1 {
                        fwd_y(lays0, tins[t - 1], j)
                    } else {
                        lays0[j].y
                    },
                    u_diff: if t >= 1 {
                        fwd_udiff(lays0, tins[t - 1], j)
                    } else {
                        lays0[j].u_diff
                    },
                    delta: if t >= 1 {
                        bp_delta(lays0, tins[t - 1], touts[t - 1], j)
                    } else {
                        lays0[j].delta
                    },
                    ..lays0[j]
                }),
            decreases tcount - t,
        {
            let ghost mid = self.layers();
            self.backprop_sample(t);
            proof {
                reveal(acc_wdiff);
                reveal(acc_bdiff);
                assert forall|j: int| 0 <= j < count implies same_params(
                    #[trigger] mid[j],
                    lays0[j],
                ) by {}
                assert forall|j: int| 1 <= j < count implies fwd_u(mid, tins[t as int], j) == fwd_u(
                    lays0,
                    tins[t as int],
                    j,
                ) && fwd_y(mid, tins[t as int], j) == fwd_y(lays0, tins[t as int], j) && fwd_udiff(
                    mid,
                    tins[t as int],
                    j,
                ) == fwd_udiff(lays0, tins[t as int], j) && fwd_y(mid, tins[t as int], j - 1)
                    == fwd_y(lays0, tins[t as int], j - 1) && bp_delta(
                    mid,
                    tins[t as int],
                    touts[t as int],
                    j,
                ) == bp_delta(lays0, tins[t as int], touts[t as int], j) by {
                    lemma_fwd_same_params(mid, lays0, tins[t as int], j);
                    lemma_fwd_same_params(mid, lays0, tins[t as int], j - 1);
                    lemma_bp_same_params(mid, lays0, tins[t as int], touts[t as int], j);
                }
            }
            t = t + 1;
        }
        self.apply_update(rate);
        proof {
            reveal(epoch);
            reveal(epoch_layer);
            assert(self.layers() =~= epoch(lays0, tins, touts, rate));
        }
    }

    /// Full-batch gradient descent for the given number of epochs at the
    /// given learning rate, over the samples in insertion order.
    pub fn learn(&mut self, epoch_count: usize, learning_rate: i64)
        requires
            old(self).wf(),
            old(self).num_layers() >= 2,
        ensures
            final(self).wf(),
            final(self).num_layers() == old(self).num_layers(),
            final(self).target_inputs() == old(self).target_inputs(),
            final(self).target_outputs() == old(self).target_outputs(),
            final(self).layers() == epochs(
                old(self).layers(),
                old(self).target_inputs(),
                old(self).target_outputs(),
                learning_rate,
                epoch_count as nat,
            ),
    {
        proof {
            reveal(epochs);
        }
        let mut e: usize = 0;
        while e < epoch_count
            invariant
                self.wf(),
                self.num_layers() == old(self).num_layers(),
                self.num_layers() >= 2,
                e <= epoch_count,
                self.target_inputs() == old(self).target_inputs(),
                self.target_outputs() == old(self).target_outputs(),
                self.layers() == epochs(
                    old(self).layers(),
                    old(self).target_inputs(),
                    old(self).target_outputs(),
                    learning_rate,
                    e as nat,
                ),
            decreases epoch_count - e,
        {
            self.learn_(learning_rate);
            proof {
                reveal(epochs);
            }
            e = e + 1;
        }
    }

    /// The output layer's activation column, flattened.
    pub fn result(&self) -> (r: Vec<i64>)
        requires
            self.wf(),
        ensures
            r@ == self.layers().last().y,
    {
        self.layer[self.layer.len() - 1].y.to_vec()
    }
}

/// Shape invariant of a non-input layer against its predecessor's width.
pub closed spec fn layer_wf(l: Layer, prev: int) -> bool {
    &&& l.weight.wf() && l.weight.width_spec() == prev && l.weight.height_spec() == l.neurons
    &&& l.weight_diff.wf() && l.weight_diff.width_spec() == prev && l.weight_diff.height_spec()
        == l.neurons
    &&& col_wf(l.u, l.neurons as int)
    &&& col_wf(l.y, l.neurons as int)
    &&& col_wf(l.bias, l.neurons as int)
    &&& col_wf(l.delta, l.neurons as int)
    &&& col_wf(l.u_diff, l.neurons as int)
    &&& col_wf(l.bias_diff, l.neurons as int)
}

} // verus!
