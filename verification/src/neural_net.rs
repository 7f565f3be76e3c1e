//! Shape and parameter layout of a fully-connected feedforward
//! network.
//!
//! The floating-point evaluation and gradient live with the caller;
//! what is verified here is the integer skeleton they index by: which
//! layer chains are valid, how many parameters a net has, and where
//! each layer's weight block starts in the flattened parameter
//! vector (weights row-major, then biases, layer after layer).

use vstd::prelude::*;

verus! {

/// Activation applied elementwise to a layer's pre-activations.
#[derive(Debug, Clone, Copy, PartialEq, Eq, Structural)]
pub enum ActivationFunction {
    /// The identity.
    Linear,
    /// The logistic function.
    Sigmoid,
    /// A scaled, symmetric logistic curve.
    SymmetricSigmoid,
    /// Zero below the origin, the identity above.
    ReLU,
    /// The exponential.
    Exp,
}

/// Shape of one fully-connected layer.
#[derive(Debug, Clone, Copy, PartialEq, Eq, Structural)]
pub struct LayerDesc {
    /// Number of inputs, not counting the bias.
    pub num_inputs: usize,
    /// Number of outputs.
    pub num_outputs: usize,
    /// Activation applied to each output.
    pub activation: ActivationFunction,
}

impl LayerDesc {
    /// Describe a layer with the given fan-in, fan-out and
    /// activation.
    pub fn new(n_in: usize, n_out: usize, f: ActivationFunction) -> (r: LayerDesc)
        ensures
            r.num_inputs == n_in,
            r.num_outputs == n_out,
            r.activation == f,
    {
        LayerDesc { num_inputs: n_in, num_outputs: n_out, activation: f }
    }

    /// Parameters of the layer: one weight per input for each output,
    /// and one bias per output.
    pub open spec fn params_spec(&self) -> int {
        self.num_outputs * (self.num_inputs + 1)
    }

    /// Number of parameters of the layer, or `None` when it cannot be
    /// addressed on this machine.
    pub fn num_parameters(&self) -> (r: Option<usize>)
        ensures
            r is Some <==> self.params_spec() <= usize::MAX,
            r is Some ==> r->Some_0 == self.params_spec(),
    {
        proof {
            assert(self.num_outputs * (self.num_inputs + 1) >= 0) by (nonlinear_arith);
        }
        match self.num_inputs.checked_add(1) {
            Some(cols) => self.num_outputs.checked_mul(cols),
            None => {
                proof {
                    assert(self.num_inputs + 1 > usize::MAX);
                    assert(self.num_outputs * (self.num_inputs + 1) > usize::MAX || self.num_outputs
                        == 0) by (nonlinear_arith)
                        requires
                            self.num_inputs + 1 > usize::MAX,
                    ;
                }
                if self.num_outputs == 0 {
                    Some(0)
                } else {
                    None
                }
            },
        }
    }
}

/// A chain of layers is a valid network: each layer feeds exactly the
/// next layer's inputs.
pub open spec fn shape_valid_spec(s: Seq<LayerDesc>) -> bool {
    forall|i: int| 0 <= i < s.len() - 1 ==> #[trigger] s[i].num_outputs == s[i + 1].num_inputs
}

/// Check that each layer feeds exactly the next layer's inputs.
pub fn shape_valid(descs: &Vec<LayerDesc>) -> (r: bool)
    ensures
        r == shape_valid_spec(descs@),
{
    if descs.len() == 0 {
        return true;
    }
    let mut i: usize = 0;
    while i < descs.len() - 1
        invariant
            descs@.len() > 0,
            i <= descs@.len() - 1,
            forall|j: int| 0 <= j < i ==> #[trigger] descs@[j].num_outputs == descs@[j
                + 1].num_inputs,
        decreases descs@.len() - i,
    {
        if descs[i].num_outputs != descs[i + 1].num_inputs {
            return false;
        }
        i = i + 1;
    }
    true
}

/// Total parameters of the layers, in layer order.
pub open spec fn params_total_spec(s: Seq<LayerDesc>) -> int
    decreases s.len(),
{
    if s.len() == 0 {
        0
    } else {
        params_total_spec(s.drop_last()) + s.last().params_spec()
    }
}

/// Parameter totals are sums of non-negative layer counts, so every
/// prefix total is bounded by the whole.
proof fn lemma_params_total_nonneg(s: Seq<LayerDesc>)
    ensures
        params_total_spec(s) >= 0,
    decreases s.len(),
{
    if s.len() > 0 {
        lemma_params_total_nonneg(s.drop_last());
        assert(s.last().params_spec() >= 0) by (nonlinear_arith);
    }
}

/// Number of parameters of the whole network, or `None` when the
/// total cannot be addressed on this machine.
pub fn net_num_parameters(descs: &Vec<LayerDesc>) -> (r: Option<usize>)
    ensures
        r is Some <==> params_total_spec(descs@) <= usize::MAX,
        r is Some ==> r->Some_0 == params_total_spec(descs@),
{
    let mut total: usize = 0;
    let mut i: usize = 0;
    while i < descs.len()
        invariant
            i <= descs@.len(),
            total == params_total_spec(descs@.take(i as int)),
        decreases descs@.len() - i,
    {
        proof {
            assert(descs@.take(i + 1).drop_last() =~= descs@.take(i as int));
            assert(descs@.take(i + 1).last() == descs@[i as int]);
        }
        let lp = match descs[i].num_parameters() {
            Some(lp) => lp,
            None => {
                proof {
                    lemma_rest_monotone(descs@, i as int);
                }
                return None;
            },
        };
        total = match total.checked_add(lp) {
            Some(t) => t,
            None => {
                proof {
                    lemma_rest_monotone(descs@, i as int);
                }
                return None;
            },
        };
        i = i + 1;
    }
    proof {
        assert(descs@.take(descs@.len() as int) =~= descs@);
    }
    Some(total)
}

/// Once a prefix of the layers already needs more than fits, the
/// whole network needs more than fits.
proof fn lemma_rest_monotone(s: Seq<LayerDesc>, i: int)
    requires
        0 <= i < s.len(),
    ensures
        params_total_spec(s) >= params_total_spec(s.take(i)) + s[i].params_spec(),
    decreases s.len() - i,
{
    assert(s.take(i + 1).drop_last() =~= s.take(i));
    assert(s.take(i + 1).last() == s[i]);
    if i + 1 == s.len() {
        assert(s.take(i + 1) =~= s);
    } else {
        lemma_rest_monotone(s, i + 1);
        assert(params_total_spec(s.take(i + 1)) == params_total_spec(s.take(i)) + s[i].params_spec());
        assert(s[i + 1].params_spec() >= 0) by (nonlinear_arith);
        lemma_params_total_nonneg(s.take(i + 1));
    }
}

/// Start of each layer's parameter block in the flattened parameter
/// vector: layer `i`'s weights and biases occupy the slots from the
/// `i`-th offset on, for as many parameters as the layer has.
pub fn layer_offsets(descs: &Vec<LayerDesc>) -> (r: Option<Vec<usize>>)
    ensures
        r is Some <==> params_total_spec(descs@) <= usize::MAX,
        r is Some ==> {
            &&& r->Some_0@.len() == descs@.len()
            &&& forall|i: int|
                0 <= i < descs@.len() ==> r->Some_0@[i] == params_total_spec(descs@.take(i))
        },
    {
        let total = net_num_parameters(descs);
        if total.is_none() {
            return None;
        }
        let mut offsets: Vec<usize> = Vec::new();
        let mut acc: usize = 0;
        let mut i: usize = 0;
        while i < descs.len()
            invariant
                i <= descs@.len(),
                offsets@.len() == i,
                acc == params_total_spec(descs@.take(i as int)),
                params_total_spec(descs@) <= usize::MAX,
                forall|j: int| 0 <= j < i ==> offsets@[j] == params_total_spec(descs@.take(j)),
            decreases descs@.len() - i,
        {
            offsets.push(acc);
            proof {
                assert(descs@.take(i + 1).drop_last() =~= descs@.take(i as int));
                assert(descs@.take(i + 1).last() == descs@[i as int]);
                lemma_rest_monotone(descs@, i as int);
                assert(descs@[i as int].params_spec() >= 0) by (nonlinear_arith);
                lemma_params_total_nonneg(descs@.take(i as int));
            }
            let lp = match descs[i].num_parameters() {
                Some(lp) => lp,
                None => vstd::pervasive::unreached(),
            };
            acc = acc + lp;
            i = i + 1;
        }
        Some(offsets)
    }

/// Fan-in of the whole network: what its first layer takes.
pub fn num_inputs(descs: &Vec<LayerDesc>) -> (r: usize)
    requires
        descs@.len() > 0,
    ensures
        r == descs@[0].num_inputs,
{
    descs[0].num_inputs
}

/// Fan-out of the whole network: what its last layer yields.
pub fn num_outputs(descs: &Vec<LayerDesc>) -> (r: usize)
    requires
        descs@.len() > 0,
    ensures
        r == descs@[descs@.len() - 1].num_outputs,
{
    descs[descs.len() - 1].num_outputs
}

} // verus!
