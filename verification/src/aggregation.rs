//! The aggregation circuit: each step holds two vectors of field elements
//! (two local models) and constrains, position by position, a third element
//! to be their sum; the running state is set to 1 by every step.
use vstd::prelude::*;
use crate::field::{modulus, Scalar};
use crate::inference::{lift1, scalars_from_u64};

verus! {

/// A random `u64` from the thread-local generator of `rand`
/// (`thread_rng().gen::<u64>()`).
///
/// Trusted, with no contract on the result: any `u64` may come back, and two
/// calls may give different numbers.
#[verifier::external_body]
fn random_u64() -> u64 {
    rand::Rng::gen::<u64>(&mut rand::thread_rng())
}

/// A step circuit of the aggregation proof: the operands of its sums.
#[derive(Clone, Debug)]
pub struct AddCircuit {
    pub a: Vec<Scalar>,
    pub b: Vec<Scalar>,
}

/// One addition constraint with its witness: `c == a + b`.
#[derive(Clone, Copy, Debug, PartialEq, Eq)]
pub struct AddGate {
    pub a: Scalar,
    pub b: Scalar,
    pub c: Scalar,
}

impl AddCircuit {
    /// The circuit whose operands are the integers `a` and `b`.
    pub fn from_values(a: &Vec<u64>, b: &Vec<u64>) -> (r: AddCircuit)
        ensures
            r.a.deep_view() == lift1(a.deep_view()),
            r.b.deep_view() == lift1(b.deep_view()),
    {
        AddCircuit { a: scalars_from_u64(a), b: scalars_from_u64(b) }
    }

    /// A circuit of `len` pairs of operands, each drawn as a random `u64`
    /// (first the `a`, then the `b` of a position).
    pub fn new(len: usize) -> (r: AddCircuit)
        ensures
            r.a.len() == len,
            r.b.len() == len,
            forall|i: int| 0 <= i < len ==> #[trigger] r.a.deep_view()[i] <= u64::MAX,
            forall|i: int| 0 <= i < len ==> #[trigger] r.b.deep_view()[i] <= u64::MAX,
    {
        let mut a_raw: Vec<u64> = Vec::new();
        let mut b_raw: Vec<u64> = Vec::new();
        let mut i: usize = 0;
        while i < len
            invariant
                i <= len,
                a_raw.len() == i,
                b_raw.len() == i,
            decreases len - i,
        {
            let x = random_u64();
            let y = random_u64();
            a_raw.push(x);
            b_raw.push(y);
            i = i + 1;
        }
        let r = AddCircuit::from_values(&a_raw, &b_raw);
        assert(r.a.deep_view().len() == r.a.len());
        assert(r.b.deep_view().len() == r.b.len());
        r
    }

    /// The number of field elements in the state of the step circuit.
    pub fn arity(&self) -> (r: usize)
        ensures
            r == 1,
    {
        1
    }

    /// The constraints of one step, with their witnesses: for each position
    /// `i`, `a[i] + b[i] == c`, the addition of the two local models; and the
    /// next state, the single element 1 that marks the step as performed.
    pub fn synthesize(&self) -> (r: (Vec<AddGate>, Vec<Scalar>))
        requires
            self.a.len() == self.b.len(),
        ensures
            r.0.len() == self.a.len(),
            forall|i: int|
                0 <= i < self.a.len() ==> {
                    &&& (#[trigger] r.0[i]).a == self.a[i]
                    &&& r.0[i].b == self.b[i]
                    &&& r.0[i].c.value() == (self.a[i].value() + self.b[i].value()) % modulus()
                },
            r.1.deep_view() == seq![1nat],
    {
        let mut gates: Vec<AddGate> = Vec::new();
        let mut i: usize = 0;
        while i < self.a.len()
            invariant
                self.a.len() == self.b.len(),
                i <= self.a.len(),
                gates.len() == i,
                forall|k: int|
                    0 <= k < i ==> {
                        &&& (#[trigger] gates[k]).a == self.a[k]
                        &&& gates[k].b == self.b[k]
                        &&& gates[k].c.value() == (self.a[k].value() + self.b[k].value()) % modulus()
                    },
            decreases self.a.len() - i,
        {
            let a = self.a[i];
            let b = self.b[i];
            let c = a.add(&b);
            gates.push(AddGate { a, b, c });
            i = i + 1;
        }
        let mut next: Vec<Scalar> = Vec::new();
        next.push(Scalar::from_u64(1));
        assert(next.deep_view() =~= seq![1nat]);
        (gates, next)
    }
}

} // verus!
