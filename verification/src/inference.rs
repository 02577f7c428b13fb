//! The accuracy circuit: one step evaluates the network on one labelled image
//! and increments the running counter `z` when one of the network's outputs
//! equals the label, so that after `n` steps `z` counts the correct
//! predictions among the `n` images.
use vstd::prelude::*;
use vstd::arithmetic::div_mod::lemma_small_mod;
use crate::field::{modulus, Scalar};
use crate::layers::{
    conv2d, conv_defined, conv_spec, dense, dense_defined, dense_spec, flatten, flatten3, pad,
    pad_defined, pad_spec, pool, pool_defined, pool_spec, Matrix, Tensor3, Tensor4, conv_ok,
    dense_ok, pad_ok, pool_ok,
    lemma_push_deep_view, contains_value,
};

verus! {

// ---------------------------------------------------------------------------
// From integers to field elements
// ---------------------------------------------------------------------------

/// The values of a sequence of integers.
pub open spec fn lift1(s: Seq<u64>) -> Seq<nat> {
    s.map_values(|x: u64| x as nat)
}

/// The values of a matrix of integers.
pub open spec fn lift2(s: Seq<Seq<u64>>) -> Seq<Seq<nat>> {
    s.map_values(|r: Seq<u64>| lift1(r))
}

/// The values of a stack of integer matrices.
pub open spec fn lift3(s: Seq<Seq<Seq<u64>>>) -> Seq<Seq<Seq<nat>>> {
    s.map_values(|p: Seq<Seq<u64>>| lift2(p))
}

/// The values of a bank of integer stacks.
pub open spec fn lift4(s: Seq<Seq<Seq<Seq<u64>>>>) -> Seq<Seq<Seq<Seq<nat>>>> {
    s.map_values(|t: Seq<Seq<Seq<u64>>>| lift3(t))
}

/// The field elements that the integers of `v` stand for.
pub fn scalars_from_u64(v: &Vec<u64>) -> (r: Vec<Scalar>)
    ensures
        r.deep_view() == lift1(v.deep_view()),
{
    let ghost target = lift1(v.deep_view());
    let mut r: Vec<Scalar> = Vec::new();
    let mut i: usize = 0;
    while i < v.len()
        invariant
            target == lift1(v.deep_view()),
            i <= v.len(),
            r.deep_view() == target.take(i as int),
        decreases v.len() - i,
    {
        let e = Scalar::from_u64(v[i]);
        let ghost before = r;
        r.push(e);
        proof { lemma_push_deep_view(before, r, e); }
        assert(r.deep_view() =~= target.take(i + 1));
        i = i + 1;
    }
    assert(r.deep_view() =~= target);
    r
}

/// The field elements that the integers of the matrix `v` stand for.
pub fn matrix_from_u64(v: &Vec<Vec<u64>>) -> (r: Matrix)
    ensures
        r.deep_view() == lift2(v.deep_view()),
{
    let ghost target = lift2(v.deep_view());
    let mut r: Matrix = Vec::new();
    let mut i: usize = 0;
    while i < v.len()
        invariant
            target == lift2(v.deep_view()),
            i <= v.len(),
            r.deep_view() == target.take(i as int),
        decreases v.len() - i,
    {
        let e = scalars_from_u64(&v[i]);
        let ghost before = r;
        let ghost last = e;
        r.push(e);
        proof { lemma_push_deep_view(before, r, last); }
        assert(r.deep_view() =~= target.take(i + 1));
        i = i + 1;
    }
    assert(r.deep_view() =~= target);
    r
}

/// The field elements that the integers of the stack `v` stand for.
pub fn tensor3_from_u64(v: &Vec<Vec<Vec<u64>>>) -> (r: Tensor3)
    ensures
        r.deep_view() == lift3(v.deep_view()),
{
    let ghost target = lift3(v.deep_view());
    let mut r: Tensor3 = Vec::new();
    let mut i: usize = 0;
    while i < v.len()
        invariant
            target == lift3(v.deep_view()),
            i <= v.len(),
            r.deep_view() == target.take(i as int),
        decreases v.len() - i,
    {
        let e = matrix_from_u64(&v[i]);
        let ghost before = r;
        let ghost last = e;
        r.push(e);
        proof { lemma_push_deep_view(before, r, last); }
        assert(r.deep_view() =~= target.take(i + 1));
        i = i + 1;
    }
    assert(r.deep_view() =~= target);
    r
}

/// The field elements that the integers of the bank `v` stand for.
pub fn tensor4_from_u64(v: &Vec<Vec<Vec<Vec<u64>>>>) -> (r: Tensor4)
    ensures
        r.deep_view() == lift4(v.deep_view()),
{
    let ghost target = lift4(v.deep_view());
    let mut r: Tensor4 = Vec::new();
    let mut i: usize = 0;
    while i < v.len()
        invariant
            target == lift4(v.deep_view()),
            i <= v.len(),
            r.deep_view() == target.take(i as int),
        decreases v.len() - i,
    {
        let e = tensor3_from_u64(&v[i]);
        let ghost before = r;
        let ghost last = e;
        r.push(e);
        proof { lemma_push_deep_view(before, r, last); }
        assert(r.deep_view() =~= target.take(i + 1));
        i = i + 1;
    }
    assert(r.deep_view() =~= target);
    r
}

// ---------------------------------------------------------------------------
// The data of one step and the model
// ---------------------------------------------------------------------------

/// One labelled image: planes of pixel values, and the label that a correct
/// prediction of the network reproduces.
#[derive(Clone, Debug)]
pub struct InferenceIteration {
    pub image: Tensor3,
    pub label: Scalar,
}

impl InferenceIteration {
    /// The image whose pixels are the integers `img`, labelled with the field
    /// element `2^64 - 1`.
    pub fn new(img: &Vec<Vec<Vec<u64>>>) -> (r: InferenceIteration)
        ensures
            r.image.deep_view() == lift3(img.deep_view()),
            r.label.value() == u64::MAX as nat,
    {
        let image = tensor3_from_u64(img);
        InferenceIteration { image, label: Scalar::from_u64(u64::MAX) }
    }
}

/// The weights and biases of the network: two convolution layers and two
/// dense layers.
#[derive(Clone, Debug)]
pub struct ModelWeight {
    pub weights_layer1: Tensor4,
    pub bias_layer1: Vec<Scalar>,
    pub weights_layer2: Tensor4,
    pub bias_layer2: Vec<Scalar>,
    pub weights_layer3: Matrix,
    pub bias_layer3: Vec<Scalar>,
    pub weights_layer4: Matrix,
    pub bias_layer4: Vec<Scalar>,
}

impl ModelWeight {
    /// The model whose weights and biases are the given integers.
    pub fn new(
        weights_layer1: &Vec<Vec<Vec<Vec<u64>>>>,
        weights_layer2: &Vec<Vec<Vec<Vec<u64>>>>,
        weights_layer3: &Vec<Vec<u64>>,
        weights_layer4: &Vec<Vec<u64>>,
        bias_layer1: &Vec<u64>,
        bias_layer2: &Vec<u64>,
        bias_layer3: &Vec<u64>,
        bias_layer4: &Vec<u64>,
    ) -> (r: ModelWeight)
        ensures
            r.weights_layer1.deep_view() == lift4(weights_layer1.deep_view()),
            r.weights_layer2.deep_view() == lift4(weights_layer2.deep_view()),
            r.weights_layer3.deep_view() == lift2(weights_layer3.deep_view()),
            r.weights_layer4.deep_view() == lift2(weights_layer4.deep_view()),
            r.bias_layer1.deep_view() == lift1(bias_layer1.deep_view()),
            r.bias_layer2.deep_view() == lift1(bias_layer2.deep_view()),
            r.bias_layer3.deep_view() == lift1(bias_layer3.deep_view()),
            r.bias_layer4.deep_view() == lift1(bias_layer4.deep_view()),
    {
        ModelWeight {
            weights_layer1: tensor4_from_u64(weights_layer1),
            bias_layer1: scalars_from_u64(bias_layer1),
            weights_layer2: tensor4_from_u64(weights_layer2),
            bias_layer2: scalars_from_u64(bias_layer2),
            weights_layer3: matrix_from_u64(weights_layer3),
            bias_layer3: scalars_from_u64(bias_layer3),
            weights_layer4: matrix_from_u64(weights_layer4),
            bias_layer4: scalars_from_u64(bias_layer4),
        }
    }
}

// ---------------------------------------------------------------------------
// The network
// ---------------------------------------------------------------------------

/// A convolution block: zero padding, convolution, max pooling.
pub open spec fn conv_block(x: Seq<Seq<Seq<nat>>>, w: Seq<Seq<Seq<Seq<nat>>>>, b: Seq<nat>) -> Seq<Seq<Seq<nat>>> {
    pool_spec(conv_spec(pad_spec(x), w, b))
}

/// The inputs on which a convolution block reads only elements that exist.
pub open spec fn conv_block_defined(x: Seq<Seq<Seq<nat>>>, w: Seq<Seq<Seq<Seq<nat>>>>, b: Seq<nat>) -> bool {
    &&& pad_defined(x)
    &&& conv_defined(pad_spec(x), w, b)
    &&& pool_defined(conv_spec(pad_spec(x), w, b))
}

/// A step circuit of the accuracy proof: one labelled image and the model.
#[derive(Clone, Debug)]
pub struct InferenceCircuit {
    pub data: InferenceIteration,
    pub weights: ModelWeight,
}

/// What one step does to the running counter.
#[derive(Clone, Copy, Debug, PartialEq, Eq)]
pub enum CounterUpdate {
    /// The prediction was correct: the counter goes up by one.
    Increment,
    /// The prediction was wrong: the state passes through unchanged.
    Keep,
}

impl InferenceCircuit {
    /// The circuit for the labelled image `data` under the model `weights`.
    pub fn new(data: InferenceIteration, weights: ModelWeight) -> (r: InferenceCircuit)
        ensures
            r.data == data,
            r.weights == weights,
    {
        InferenceCircuit { data, weights }
    }

    /// The number of field elements in the state of the step circuit.
    pub fn arity(&self) -> (r: usize)
        ensures
            r == 1,
    {
        1
    }

    /// The output of the first convolution block on the image.
    pub open spec fn hidden1(self) -> Seq<Seq<Seq<nat>>> {
        conv_block(
            self.data.image.deep_view(),
            self.weights.weights_layer1.deep_view(),
            self.weights.bias_layer1.deep_view(),
        )
    }

    /// The output of the second convolution block.
    pub open spec fn hidden2(self) -> Seq<Seq<Seq<nat>>> {
        conv_block(self.hidden1(), self.weights.weights_layer2.deep_view(), self.weights.bias_layer2.deep_view())
    }

    /// The output of the first dense layer, on the flattened second block.
    pub open spec fn hidden3(self) -> Seq<nat> {
        dense_spec(
            flatten3(self.hidden2()),
            self.weights.weights_layer3.deep_view(),
            self.weights.bias_layer3.deep_view(),
        )
    }

    /// The outputs of the network on the image.
    pub open spec fn outputs(self) -> Seq<nat> {
        dense_spec(self.hidden3(), self.weights.weights_layer4.deep_view(), self.weights.bias_layer4.deep_view())
    }

    /// The image and the model have shapes on which the network reads only
    /// elements that exist.
    pub open spec fn well_shaped(self) -> bool {
        &&& conv_block_defined(
            self.data.image.deep_view(),
            self.weights.weights_layer1.deep_view(),
            self.weights.bias_layer1.deep_view(),
        )
        &&& conv_block_defined(
            self.hidden1(),
            self.weights.weights_layer2.deep_view(),
            self.weights.bias_layer2.deep_view(),
        )
        &&& dense_defined(
            flatten3(self.hidden2()),
            self.weights.weights_layer3.deep_view(),
            self.weights.bias_layer3.deep_view(),
        )
        &&& dense_defined(
            self.hidden3(),
            self.weights.weights_layer4.deep_view(),
            self.weights.bias_layer4.deep_view(),
        )
    }

    /// One of the network's outputs equals the label.
    pub open spec fn predicts_label(self) -> bool {
        self.outputs().contains(self.data.label.value())
    }

    /// Evaluates the network on the image and compares its outputs with the
    /// label.
    pub fn correct_prediction(&self) -> (r: bool)
        requires
            self.well_shaped(),
        ensures
            r == self.predicts_label(),
    {
        let padded1 = pad(&self.data.image);
        let conv1 = conv2d(&padded1, &self.weights.weights_layer1, &self.weights.bias_layer1);
        let out1 = pool(&conv1);
        let padded2 = pad(&out1);
        let conv2 = conv2d(&padded2, &self.weights.weights_layer2, &self.weights.bias_layer2);
        let out2 = pool(&conv2);
        let flat = flatten(&out2);
        let dense1 = dense(&flat, &self.weights.weights_layer3, &self.weights.bias_layer3);
        let dense2 = dense(&dense1, &self.weights.weights_layer4, &self.weights.bias_layer4);
        contains_value(&dense2, &self.data.label)
    }

    /// The step's update of the counter, or `None` when the image and the
    /// model have shapes on which the network would read elements that do
    /// not exist.
    pub fn try_synthesize(&self) -> (r: Option<CounterUpdate>)
        ensures
            r is Some <==> self.well_shaped(),
            r matches Some(u) ==> u == (if self.predicts_label() {
                CounterUpdate::Increment
            } else {
                CounterUpdate::Keep
            }),
    {
        let w = &self.weights;
        if !pad_ok(&self.data.image) {
            return None;
        }
        let padded1 = pad(&self.data.image);
        if !conv_ok(&padded1, &w.weights_layer1, &w.bias_layer1) {
            return None;
        }
        let conv1 = conv2d(&padded1, &w.weights_layer1, &w.bias_layer1);
        if !pool_ok(&conv1) {
            return None;
        }
        let out1 = pool(&conv1);
        if !pad_ok(&out1) {
            return None;
        }
        let padded2 = pad(&out1);
        if !conv_ok(&padded2, &w.weights_layer2, &w.bias_layer2) {
            return None;
        }
        let conv2 = conv2d(&padded2, &w.weights_layer2, &w.bias_layer2);
        if !pool_ok(&conv2) {
            return None;
        }
        let out2 = pool(&conv2);
        let flat = flatten(&out2);
        if !dense_ok(&flat, &w.weights_layer3, &w.bias_layer3) {
            return None;
        }
        let dense1 = dense(&flat, &w.weights_layer3, &w.bias_layer3);
        if !dense_ok(&dense1, &w.weights_layer4, &w.bias_layer4) {
            return None;
        }
        let dense2 = dense(&dense1, &w.weights_layer4, &w.bias_layer4);
        if contains_value(&dense2, &self.data.label) {
            Some(CounterUpdate::Increment)
        } else {
            Some(CounterUpdate::Keep)
        }
    }

    /// The update of the counter that this step makes: an increment when the
    /// network predicts the label, else none.
    pub fn synthesize(&self) -> (r: CounterUpdate)
        requires
            self.well_shaped(),
        ensures
            r == (if self.predicts_label() { CounterUpdate::Increment } else { CounterUpdate::Keep }),
    {
        if self.correct_prediction() {
            CounterUpdate::Increment
        } else {
            CounterUpdate::Keep
        }
    }
}

/// `z + 1` in the field.
pub open spec fn incremented(z: nat) -> nat {
    (z + 1) % modulus()
}

/// The state after the update `u` of the state `z`: `[z[0] + 1]` for an
/// increment, `z` itself otherwise.
pub open spec fn updated_state(u: CounterUpdate, z: Seq<nat>) -> Seq<nat> {
    match u {
        CounterUpdate::Increment => seq![incremented(z[0])],
        CounterUpdate::Keep => z,
    }
}

impl CounterUpdate {
    /// The state after the update: `[z[0] + 1]` for an increment, `z` itself
    /// otherwise.
    pub fn apply(&self, z: &Vec<Scalar>) -> (r: Vec<Scalar>)
        requires
            *self == CounterUpdate::Increment ==> z.len() >= 1,
        ensures
            r.deep_view() == updated_state(*self, z.deep_view()),
    {
        match self {
            CounterUpdate::Increment => {
                let next = z[0].add(&Scalar::from_u64(1));
                let mut r: Vec<Scalar> = Vec::new();
                r.push(next);
                assert(r.deep_view() =~= seq![incremented(z.deep_view()[0])]);
                r
            },
            CounterUpdate::Keep => {
                let mut r: Vec<Scalar> = Vec::new();
                let mut i: usize = 0;
                while i < z.len()
                    invariant
                        i <= z.len(),
                        r.deep_view() == z.deep_view().take(i as int),
                    decreases z.len() - i,
                {
                    let e = z[i];
                    let ghost before = r;
                    r.push(e);
                    proof { lemma_push_deep_view(before, r, e); }
                    assert(r.deep_view() =~= z.deep_view().take(i + 1));
                    i = i + 1;
                }
                assert(r.deep_view() =~= z.deep_view());
                r
            },
        }
    }
}

// ---------------------------------------------------------------------------
// The counter over a run of steps
// ---------------------------------------------------------------------------

/// The counter after one step from `z` on the circuit `c`.
pub open spec fn step_counter(c: InferenceCircuit, z: nat) -> nat {
    if c.predicts_label() {
        incremented(z)
    } else {
        z
    }
}

/// The counter after the steps on `cs`, in order, from `z`.
pub open spec fn run_counter(cs: Seq<InferenceCircuit>, z: nat) -> nat
    decreases cs.len(),
{
    if cs.len() == 0 {
        z
    } else {
        step_counter(cs.last(), run_counter(cs.drop_last(), z))
    }
}

/// The number of circuits in `cs` whose network predicts the label.
pub open spec fn count_correct(cs: Seq<InferenceCircuit>) -> nat
    decreases cs.len(),
{
    if cs.len() == 0 {
        0
    } else {
        count_correct(cs.drop_last()) + if cs.last().predicts_label() {
            1nat
        } else {
            0nat
        }
    }
}

/// No more predictions are correct than there are steps.
pub proof fn lemma_count_correct_bounded(cs: Seq<InferenceCircuit>)
    ensures
        count_correct(cs) <= cs.len(),
    decreases cs.len(),
{
    if cs.len() > 0 {
        lemma_count_correct_bounded(cs.drop_last());
    }
}

/// The update that a step makes moves the counter, the first element of the
/// state, as `step_counter` says.
pub proof fn lemma_update_follows_step_counter(c: InferenceCircuit, z: Seq<nat>)
    requires
        z.len() >= 1,
    ensures
        updated_state(
            if c.predicts_label() { CounterUpdate::Increment } else { CounterUpdate::Keep },
            z,
        )[0] == step_counter(c, z[0]),
{
}

/// An update leaves a state of one element, the arity of the circuit, with
/// one element.
pub proof fn lemma_update_keeps_arity(u: CounterUpdate, z: Seq<nat>)
    requires
        z.len() == 1,
    ensures
        updated_state(u, z).len() == 1,
{
}

/// Started from zero, the counter after a run of fewer steps than the field
/// order is the number of steps whose network predicted the label.
pub proof fn lemma_counter_counts_correct_predictions(cs: Seq<InferenceCircuit>)
    requires
        cs.len() < modulus(),
    ensures
        run_counter(cs, 0) == count_correct(cs),
    decreases cs.len(),
{
    if cs.len() > 0 {
        let rest = cs.drop_last();
        lemma_counter_counts_correct_predictions(rest);
        lemma_count_correct_bounded(rest);
        if cs.last().predicts_label() {
            lemma_small_mod(count_correct(rest) + 1, modulus());
        }
    }
}

/// A step counts a hit exactly when some output of the network, at any
/// position, equals the label: every position is compared, and a hit needs
/// a position that matches.
pub proof fn lemma_hit_is_any_output_equal_to_label(c: InferenceCircuit)
    ensures
        forall|k: int|
            0 <= k < c.outputs().len() && #[trigger] c.outputs()[k] == c.data.label.value() ==> c.predicts_label(),
        c.predicts_label() ==> exists|k: int|
            0 <= k < c.outputs().len() && #[trigger] c.outputs()[k] == c.data.label.value(),
{
    assert forall|k: int|
        0 <= k < c.outputs().len() && #[trigger] c.outputs()[k] == c.data.label.value() implies c.predicts_label() by {
        assert(c.outputs().contains(c.outputs()[k]));
    }
}

} // verus!
