//! The mathematical model of a network pass.
//!
//! A layer of activations is a `Seq<int>` of fixed-point scalars, and a
//! connection layer is a flat `Seq<int>` of weights laid out source-major:
//! position `j * nk + k` bridges source `j` to target `k` in a layer pair
//! whose target side has width `nk`. The functions here state, term by term
//! and in evaluation order, the sums that a forward and a backward pass
//! accumulate, and the delta and velocity rules of the backward sweep.

use crate::fp::{fp_add, fp_dsig, fp_mul, fp_sigmoid, fp_sub};
use vstd::prelude::*;

verus! {

/// View a vector of fixed-point scalars as a sequence of integers.
pub open spec fn as_ints(s: Seq<i64>) -> Seq<int> {
    s.map_values(|x: i64| x as int)
}

/// Incoming sum of neuron `k` of a layer of width `nk`, over the first `m`
/// sources: each source value times the bridging weight, accumulated in
/// source order.
pub open spec fn forward_sum(prev: Seq<int>, w: Seq<int>, nk: int, k: int, m: int) -> int
    decreases m,
{
    if m <= 0 {
        0
    } else {
        fp_add(forward_sum(prev, w, nk, k, m - 1), fp_mul(prev[m - 1], w[(m - 1) * nk + k]))
    }
}

/// Values of a layer of width `nk` after a forward step from `prev`.
pub open spec fn layer_forward(prev: Seq<int>, w: Seq<int>, nk: int) -> Seq<int> {
    Seq::new(nk as nat, |k: int| fp_sigmoid(forward_sum(prev, w, nk, k, prev.len() as int)))
}

/// Error signal of an output neuron with expected value `e` and actual
/// value `v`.
pub open spec fn out_delta(e: int, v: int) -> int {
    fp_mul(fp_sub(e, v), fp_dsig(v))
}

/// Error signals of the whole output layer.
pub open spec fn out_deltas(exp: Seq<int>, vals: Seq<int>) -> Seq<int> {
    Seq::new(vals.len(), |i: int| out_delta(exp[i], vals[i]))
}

/// Outgoing sum of neuron `j`, over the first `t` targets: each bridging
/// weight times the already-final delta of its target, accumulated in target
/// order.
pub open spec fn back_sum(w: Seq<int>, dnext: Seq<int>, nk: int, j: int, t: int) -> int
    decreases t,
{
    if t <= 0 {
        0
    } else {
        fp_add(back_sum(w, dnext, nk, j, t - 1), fp_mul(w[j * nk + (t - 1)], dnext[t - 1]))
    }
}

/// Error signals of a hidden (or input) layer, given its activations, its
/// outgoing weights and the final deltas of the next layer.
pub open spec fn hidden_deltas(vals: Seq<int>, w: Seq<int>, dnext: Seq<int>) -> Seq<int> {
    Seq::new(
        vals.len(),
        |j: int| fp_mul(fp_dsig(vals[j]), back_sum(w, dnext, dnext.len() as int, j, dnext.len() as int)),
    )
}

/// The delta sequence of layer `l` in a backward sweep over a net whose
/// activations are `vals` and whose weights are `ws`, with expected output
/// `exp`: output deltas at the last layer, hidden deltas below it.
pub open spec fn deltas_from(vals: Seq<Seq<int>>, ws: Seq<Seq<int>>, exp: Seq<int>, l: int) -> Seq<
    int,
>
    decreases vals.len() - l,
{
    if l == vals.len() - 1 {
        out_deltas(exp, vals[l])
    } else if 0 <= l < vals.len() - 1 {
        hidden_deltas(vals[l], ws[l], deltas_from(vals, ws, exp, l + 1))
    } else {
        Seq::empty()
    }
}

/// The velocity a backward sweep stores and applies: the learning-rate-scaled
/// gradient plus the momentum-scaled previous velocity.
pub open spec fn vel_update(n: int, a: int, grad: int, dw: int) -> int {
    fp_add(fp_mul(n, grad), fp_mul(a, dw))
}

/// Gradient of the connection at flat position `c` of a layer pair whose
/// target side has width `nk`: source value times target delta.
pub open spec fn grad_at(vals: Seq<int>, dnext: Seq<int>, nk: int, c: int) -> int {
    fp_mul(vals[c / nk], dnext[c % nk])
}

} // verus!
