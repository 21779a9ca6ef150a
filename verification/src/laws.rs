//! Proved properties that relate several operations of the engine: when a
//! backward sweep moves a weight, and how a positive momentum coefficient
//! makes a second sweep differ from what a momentum-free sweep would do.

use crate::fp::{fp_add, fp_in_range, fp_mul, lemma_sigmoid_range};
use crate::model::{deltas_from, forward_sum, grad_at, layer_forward, vel_update};
use crate::neu::NeurNet;
use vstd::prelude::*;

verus! {

/// Every value a forward step produces lies strictly inside (0, one): each
/// is a sigmoid of its incoming sum. With `calc`'s contract, this holds of
/// every non-input activation, and in particular of every component of the
/// vector `calc` returns.
pub proof fn lemma_forward_in_unit(prev: Seq<int>, w: Seq<int>, nk: int, k: int)
    requires
        0 <= k < nk,
    ensures
        0 < layer_forward(prev, w, nk)[k] < 16777216,
{
    lemma_sigmoid_range(forward_sum(prev, w, nk, k, prev.len() as int));
}

/// The velocity a backward sweep applies to connection `c` of connection
/// layer `l` of a well-formed net: `tune`'s contract says the connection's
/// stored velocity becomes exactly this, and its weight moves by exactly
/// this.
pub open spec fn tune_velocity(net: NeurNet, exp: Seq<int>, l: int, c: int) -> int {
    vel_update(
        net.n as int,
        net.a as int,
        grad_at(
            net.all_vals()[l],
            deltas_from(net.all_vals(), net.all_ws(), exp, l + 1),
            net.size(l + 1),
            c,
        ),
        net.conn(l, c).dw as int,
    )
}

/// A backward sweep moves a weight exactly when the velocity it applies is
/// nonzero, as long as the updated weight does not saturate. Combined with
/// `tune`'s contract this says: a `tune` call changes the weight of
/// connection `(l, c)` if and only if `tune_velocity` is nonzero there. An
/// error signal alone does not decide it: a delta small enough scales to a
/// zero velocity and leaves the weight in place.
pub proof fn lemma_tune_moves_weight(net: NeurNet, exp: Seq<int>, l: int, c: int)
    requires
        net.wf(),
        0 <= l < net.layers() - 1,
        0 <= c < net.conns(l),
        fp_in_range(net.conn(l, c).w + tune_velocity(net, exp, l, c)),
    ensures
        (fp_add(net.conn(l, c).w as int, tune_velocity(net, exp, l, c)) != net.conn(l, c).w)
            <==> tune_velocity(net, exp, l, c) != 0,
{
}

/// Momentum persistence: wherever a stored velocity's momentum contribution
/// does not itself scale to zero, a sweep with momentum `a` applies a
/// different velocity than a momentum-free sweep on the same gradient would.
/// Since `tune` stores the velocity it applies, a first call with `a > 0`
/// that leaves a velocity with a nonvanishing momentum term makes the second
/// call move the weight differently than it would with `a == 0`.
pub proof fn lemma_momentum_persists(n: int, a: int, grad: int, dw: int)
    requires
        fp_mul(a, dw) != 0,
        fp_in_range(fp_mul(n, grad) + fp_mul(a, dw)),
    ensures
        vel_update(n, a, grad, dw) != vel_update(n, 0, grad, dw),
{
    assert(0 * dw == 0);
}

} // verus!
