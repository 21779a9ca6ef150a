//! The network engine: layered neuron and connection state, construction,
//! input loading, forward propagation, error estimation, and the backward
//! sweep that updates deltas, velocities and weights in place.
//!
//! Scalars are fixed-point values of the [`crate::fp`] algebra. Layer `l`
//! holds `size(l)` neurons; the flat connection list between layers `l` and
//! `l + 1` is the complete bipartite set, laid out source-major, so position
//! `c` bridges source `c / size(l + 1)` to target `c % size(l + 1)`.

use crate::fp::{
    add_fp, dsigm, err, fp_add, fp_dsig, fp_in_range, fp_mul, fp_sigmoid, fp_sq_err, fp_sub,
    mul_fp, sigm, sub_fp,
};
use crate::model::{
    as_ints, back_sum, deltas_from, forward_sum, grad_at, hidden_deltas, layer_forward, out_delta,
    out_deltas, vel_update,
};
use vstd::arithmetic::div_mod::lemma_fundamental_div_mod_converse;
use vstd::arithmetic::mul::{lemma_mul_inequality, lemma_mul_nonnegative};
use vstd::prelude::*;

verus! {

/// The two validated failures: a topology with fewer than two levels or an
/// empty level, and an input or expected vector whose length does not match
/// the layer it is held against.
#[derive(Clone, Copy, Debug, PartialEq, Eq)]
pub enum NetError {
    InvalidTopology,
    DimensionMismatch,
}

/// One neuron: its current activation and its backpropagated error signal.
#[derive(Clone, Copy, Debug)]
pub struct Neur {
    pub val: i64,
    pub delta: i64,
}

/// One weighted link from source neuron `inp` of a layer to target neuron
/// `out` of the next layer, with its momentum velocity `dw`.
#[derive(Clone, Copy, Debug)]
pub struct Connection {
    pub inp: u16,
    pub out: u16,
    pub w: i64,
    pub dw: i64,
}

/// The network: neuron layers, the connection layers between them, the
/// learning rate `n` and the momentum coefficient `a`.
#[derive(Debug)]
pub struct NeurNet {
    pub neur_lyr: Vec<Vec<Neur>>,
    pub con_lyr: Vec<Vec<Connection>>,
    pub n: i64,
    pub a: i64,
}

/// A topology is valid when it has at least two levels, all positive.
pub open spec fn valid_shape(shape: Seq<u16>) -> bool {
    shape.len() >= 2 && forall|i: int| 0 <= i < shape.len() ==> #[trigger] shape[i] > 0
}

/// Number of connections strictly before connection layer `l`, in a net of
/// the given shape.
pub open spec fn conn_off(shape: Seq<u16>, l: int) -> int
    decreases l,
{
    if l <= 0 {
        0
    } else {
        conn_off(shape, l - 1) + shape[l - 1] * shape[l]
    }
}

impl NeurNet {
    /// Number of neuron layers.
    pub open spec fn layers(self) -> int {
        self.neur_lyr@.len() as int
    }

    /// Width of neuron layer `l`.
    pub open spec fn size(self, l: int) -> int {
        self.neur_lyr@[l]@.len() as int
    }

    /// Activation of neuron `i` of layer `l`.
    pub open spec fn val(self, l: int, i: int) -> int {
        self.neur_lyr@[l]@[i].val as int
    }

    /// Error signal of neuron `i` of layer `l`.
    pub open spec fn delta(self, l: int, i: int) -> int {
        self.neur_lyr@[l]@[i].delta as int
    }

    /// Number of connections between layers `l` and `l + 1`.
    pub open spec fn conns(self, l: int) -> int {
        self.con_lyr@[l]@.len() as int
    }

    /// The connection at flat position `c` of connection layer `l`.
    pub open spec fn conn(self, l: int, c: int) -> Connection {
        self.con_lyr@[l]@[c]
    }

    /// Activations of layer `l`, as a sequence of integers.
    pub open spec fn vals_of(self, l: int) -> Seq<int> {
        self.neur_lyr@[l]@.map_values(|u: Neur| u.val as int)
    }

    /// Error signals of layer `l`, as a sequence of integers.
    pub open spec fn deltas_of(self, l: int) -> Seq<int> {
        self.neur_lyr@[l]@.map_values(|u: Neur| u.delta as int)
    }

    /// Weights of connection layer `l`, in flat source-major order.
    pub open spec fn ws_of(self, l: int) -> Seq<int> {
        self.con_lyr@[l]@.map_values(|c: Connection| c.w as int)
    }

    /// Velocities of connection layer `l`, in flat source-major order.
    pub open spec fn dws_of(self, l: int) -> Seq<int> {
        self.con_lyr@[l]@.map_values(|c: Connection| c.dw as int)
    }

    /// All activations, layer by layer.
    pub open spec fn all_vals(self) -> Seq<Seq<int>> {
        Seq::new(self.neur_lyr@.len(), |l: int| self.vals_of(l))
    }

    /// All weights, connection layer by connection layer.
    pub open spec fn all_ws(self) -> Seq<Seq<int>> {
        Seq::new(self.con_lyr@.len(), |l: int| self.ws_of(l))
    }

    /// The topology: the width of each layer.
    pub open spec fn shape(self) -> Seq<int> {
        Seq::new(self.neur_lyr@.len(), |l: int| self.size(l))
    }

    /// Every layer is non-empty and no wider than a `u16` index allows, and
    /// every stored activation and error signal lies in the representable
    /// band.
    pub open spec fn wf_neurons(self) -> bool {
        &&& forall|l: int| 0 <= l < self.layers() ==> 1 <= #[trigger] self.size(l) <= 65535
        &&& forall|l: int, i: int|
            #![trigger self.val(l, i)]
            #![trigger self.delta(l, i)]
            0 <= l < self.layers() && 0 <= i < self.size(l) ==> fp_in_range(self.val(l, i))
                && fp_in_range(self.delta(l, i))
    }

    /// There is a connection layer between each pair of adjacent neuron
    /// layers, holding the complete bipartite set in source-major order:
    /// position `c` bridges source `c / size(l + 1)` to target
    /// `c % size(l + 1)`, so every pair is present exactly once. Weights and
    /// velocities lie in the representable band.
    pub open spec fn wf_conns(self) -> bool {
        &&& self.con_lyr@.len() == self.layers() - 1
        &&& forall|l: int|
            0 <= l < self.layers() - 1 ==> #[trigger] self.conns(l) == self.size(l) * self.size(
                l + 1,
            )
        &&& forall|l: int, c: int|
            #![trigger self.conn(l, c)]
            0 <= l < self.layers() - 1 && 0 <= c < self.conns(l) ==> {
                &&& self.conn(l, c).inp == c / self.size(l + 1)
                &&& self.conn(l, c).out == c % self.size(l + 1)
                &&& fp_in_range(self.conn(l, c).w as int)
                &&& fp_in_range(self.conn(l, c).dw as int)
            }
    }

    /// The learning rate is in (0, 1] and the momentum coefficient in [0, 1),
    /// both in fixed-point steps.
    pub open spec fn wf_hyper(self) -> bool {
        0 < self.n <= 16777216 && 0 <= self.a < 16777216
    }

    /// Structural well-formedness, established at construction and preserved
    /// by every operation.
    pub open spec fn wf(self) -> bool {
        self.layers() >= 2 && self.wf_neurons() && self.wf_conns() && self.wf_hyper()
    }
}

/// A freshly built net over `shape`: well-formed, the given hyper-parameters,
/// and zero activations, error signals and velocities everywhere.
pub open spec fn fresh_net(net: NeurNet, n: i64, a: i64, shape: Seq<u16>) -> bool {
    &&& net.wf()
    &&& net.n == n
    &&& net.a == a
    &&& net.layers() == shape.len()
    &&& forall|l: int| 0 <= l < shape.len() ==> #[trigger] net.size(l) == shape[l]
    &&& forall|l: int, i: int|
        #![trigger net.val(l, i)]
        #![trigger net.delta(l, i)]
        0 <= l < net.layers() && 0 <= i < net.size(l) ==> net.val(l, i) == 0 && net.delta(l, i)
            == 0
    &&& forall|l: int, c: int|
        0 <= l < net.layers() - 1 && 0 <= c < net.conns(l) ==> (#[trigger] net.conn(l, c)).dw == 0
}

/// Position `j * nk + k` of a source-major flat layout decodes back to source
/// `j` and target `k`.
proof fn lemma_flat_index(nj: int, nk: int, j: int, k: int)
    requires
        0 <= j < nj,
        0 <= k < nk,
    ensures
        0 <= j * nk + k < nj * nk,
        (j * nk + k) / nk == j,
        (j * nk + k) % nk == k,
{
    lemma_mul_nonnegative(j, nk);
    lemma_mul_inequality(j + 1, nj, nk);
    assert((j + 1) * nk == j * nk + nk) by (nonlinear_arith);
    lemma_fundamental_div_mod_converse(j * nk + k, nk, j, k);
}

/// Relies on rand::random to produce a value of the asked-for type; nothing
/// is assumed about which value comes back.
pub assume_specification<T>[ rand::random::<T> ]() -> (r: T)
    where
        rand::distributions::Standard: rand::distributions::Distribution<T>,
;

impl NeurNet {
    /// Builds a network over `shape` with the weights supplied in `w`, one
    /// per connection in layer order and source-major order within a layer.
    /// This is the injectable form of construction: `new` draws `w` from the
    /// uniform random source, while a caller that needs determinism supplies
    /// its own.
    pub fn new_from_weights(n: i64, a: i64, shape: Vec<u16>, w: Vec<i64>) -> (r: Result<
        NeurNet,
        NetError,
    >)
        requires
            0 < n <= 16777216,
            0 <= a < 16777216,
            valid_shape(shape@) ==> w@.len() == conn_off(shape@, shape@.len() - 1),
            forall|i: int| 0 <= i < w@.len() ==> fp_in_range(#[trigger] w@[i] as int),
        ensures
            r is Ok <==> valid_shape(shape@),
            r is Err ==> r == Err::<NeurNet, NetError>(NetError::InvalidTopology),
            r is Ok ==> fresh_net(r->Ok_0, n, a, shape@),
            r is Ok ==> forall|l: int, c: int|
                0 <= l < shape@.len() - 1 && 0 <= c < (r->Ok_0).conns(l) ==> (#[trigger] (
                r->Ok_0).conn(l, c)).w == w@[conn_off(shape@, l) + c],
    {
        if shape.len() < 2 {
            return Err(NetError::InvalidTopology);
        }
        for l in 0..shape.len()
            invariant
                forall|i: int| 0 <= i < l ==> #[trigger] shape@[i] > 0,
        {
            if shape[l] == 0 {
                return Err(NetError::InvalidTopology);
            }
        }
        let mut nl: Vec<Vec<Neur>> = Vec::new();
        for l in 0..shape.len()
            invariant
                nl@.len() == l,
                forall|p: int| 0 <= p < l ==> #[trigger] nl@[p]@.len() == shape@[p],
                forall|p: int, i: int|
                    #![trigger nl@[p]@[i]]
                    0 <= p < l && 0 <= i < nl@[p]@.len() ==> nl@[p]@[i].val == 0
                        && nl@[p]@[i].delta == 0,
        {
            let width = shape[l];
            let mut t: Vec<Neur> = Vec::new();
            for i in 0..width
                invariant
                    t@.len() == i,
                    forall|p: int|
                        #![trigger t@[p]]
                        0 <= p < i ==> t@[p].val == 0 && t@[p].delta == 0,
            {
                t.push(Neur { val: 0, delta: 0 });
            }
            nl.push(t);
        }
        let ghost sh = shape@;
        let wlen: usize = w.len();
        let mut cl: Vec<Vec<Connection>> = Vec::new();
        let mut idx: usize = 0;
        proof {
            assert(valid_shape(sh));
        }
        for l in 0..(shape.len() - 1)
            invariant
                valid_shape(sh),
                shape@ == sh,
                w@.len() == conn_off(sh, sh.len() - 1),
                forall|i: int| 0 <= i < w@.len() ==> fp_in_range(#[trigger] w@[i] as int),
                cl@.len() == l,
                idx == conn_off(sh, l as int),
                wlen == w@.len(),
                idx <= wlen,
                forall|p: int|
                    0 <= p < l ==> #[trigger] cl@[p]@.len() == sh[p] * sh[p + 1],
                forall|p: int, c: int|
                    #![trigger cl@[p]@[c]]
                    0 <= p < l && 0 <= c < cl@[p]@.len() ==> {
                        &&& cl@[p]@[c].inp == c / (sh[p + 1] as int)
                        &&& cl@[p]@[c].out == c % (sh[p + 1] as int)
                        &&& cl@[p]@[c].w == w@[conn_off(sh, p) + c]
                        &&& cl@[p]@[c].dw == 0
                    },
        {
            let nj = shape[l];
            let nk = shape[l + 1];
            let ghost off = conn_off(sh, l as int);
            let mut t: Vec<Connection> = Vec::new();
            let mut j: u16 = 0;
            while j < nj
                invariant
                    j <= nj,
                    nj == sh[l as int],
                    nk == sh[l as int + 1],
                    off == conn_off(sh, l as int),
                    t@.len() == j * nk,
                    idx == off + j * nk,
                    wlen == w@.len(),
                idx <= wlen,
                    forall|c: int|
                        #![trigger t@[c]]
                        0 <= c < t@.len() ==> {
                            &&& t@[c].inp == c / (nk as int)
                            &&& t@[c].out == c % (nk as int)
                            &&& t@[c].w == w@[off + c]
                            &&& t@[c].dw == 0
                        },
                decreases nj - j,
            {
                let mut k: u16 = 0;
                while k < nk
                    invariant
                        j < nj,
                        k <= nk,
                        nj == sh[l as int],
                        nk == sh[l as int + 1],
                        off == conn_off(sh, l as int),
                        t@.len() == j * nk + k,
                        idx == off + j * nk + k,
                        wlen == w@.len(),
                idx <= wlen,
                        forall|c: int|
                            #![trigger t@[c]]
                            0 <= c < t@.len() ==> {
                                &&& t@[c].inp == c / (nk as int)
                                &&& t@[c].out == c % (nk as int)
                                &&& t@[c].w == w@[off + c]
                                &&& t@[c].dw == 0
                            },
                    decreases nk - k,
                {
                    proof {
                        lemma_flat_index(nj as int, nk as int, j as int, k as int);
                        lemma_conn_off_step(sh, l as int);
                        assert(idx < w@.len());
                    }
                    let cw: i64 = w[idx];
                    t.push(Connection { inp: j, out: k, w: cw, dw: 0 });
                    idx = idx + 1;
                    k = k + 1;
                }
                proof {
                    assert(j as int * nk as int + nk as int == (j as int + 1) * nk as int)
                        by (nonlinear_arith);
                }
                j = j + 1;
            }
            proof {
                assert(nj as int * nk as int == conn_off(sh, l as int + 1) - conn_off(
                    sh,
                    l as int,
                ));
            }
            cl.push(t);
        }
        let net = NeurNet { neur_lyr: nl, con_lyr: cl, n, a };
        proof {
            assert forall|l: int| 0 <= l < net.layers() implies 1 <= #[trigger] net.size(l)
                <= 65535 by {
                assert(nl@[l]@.len() == sh[l]);
            }
            assert forall|l: int, i: int|
                #![trigger net.val(l, i)]
                #![trigger net.delta(l, i)]
                0 <= l < net.layers() && 0 <= i < net.size(l) implies net.val(l, i) == 0
                && net.delta(l, i) == 0 by {
                assert(nl@[l]@[i].val == 0 && nl@[l]@[i].delta == 0);
            }
            assert forall|l: int| 0 <= l < net.layers() - 1 implies #[trigger] net.conns(l)
                == net.size(l) * net.size(l + 1) by {
                assert(cl@[l]@.len() == sh[l] * sh[l + 1]);
                assert(nl@[l]@.len() == sh[l] && nl@[l + 1]@.len() == sh[l + 1]);
            }
            assert forall|l: int, c: int|
                #![trigger net.conn(l, c)]
                0 <= l < net.layers() - 1 && 0 <= c < net.conns(l) implies {
                &&& net.conn(l, c).inp == c / net.size(l + 1)
                &&& net.conn(l, c).out == c % net.size(l + 1)
                &&& net.conn(l, c).w == w@[conn_off(sh, l) + c]
                &&& net.conn(l, c).dw == 0
                &&& fp_in_range(net.conn(l, c).w as int)
            } by {
                assert(cl@[l]@[c].inp == c / (sh[l + 1] as int));
                assert(net.size(l + 1) == sh[l + 1]);
                lemma_conn_off_nonneg(sh, l);
                lemma_conn_off_step(sh, l);
                assert(0 <= conn_off(sh, l) + c < w@.len());
            }
            assert(net.wf());
        }
        Ok(net)
    }

    /// Builds a network over `shape` with each weight drawn independently
    /// from the uniform random source on [0, 1), and zero activations, error
    /// signals and velocities.
    pub fn new(n: i64, a: i64, shape: Vec<u16>) -> (r: Result<NeurNet, NetError>)
        requires
            0 < n <= 16777216,
            0 <= a < 16777216,
        ensures
            r is Ok <==> valid_shape(shape@),
            r is Err ==> r == Err::<NeurNet, NetError>(NetError::InvalidTopology),
            r is Ok ==> fresh_net(r->Ok_0, n, a, shape@),
            r is Ok ==> forall|l: int, c: int|
                0 <= l < shape@.len() - 1 && 0 <= c < (r->Ok_0).conns(l) ==> 0 <= (#[trigger] (
                r->Ok_0).conn(l, c)).w < 16777216,
    {
        if shape.len() < 2 {
            return Err(NetError::InvalidTopology);
        }
        for l in 0..shape.len()
            invariant
                forall|i: int| 0 <= i < l ==> #[trigger] shape@[i] > 0,
        {
            if shape[l] == 0 {
                return Err(NetError::InvalidTopology);
            }
        }
        let ghost sh = shape@;
        let mut w: Vec<i64> = Vec::new();
        for l in 0..(shape.len() - 1)
            invariant
                valid_shape(sh),
                shape@ == sh,
                w@.len() == conn_off(sh, l as int),
                forall|i: int| 0 <= i < w@.len() ==> 0 <= #[trigger] w@[i] < 16777216,
        {
            let nj = shape[l];
            let nk = shape[l + 1];
            let ghost off = conn_off(sh, l as int);
            let mut j: u16 = 0;
            while j < nj
                invariant
                    j <= nj,
                    nj == sh[l as int],
                    nk == sh[l as int + 1],
                    off == conn_off(sh, l as int),
                    w@.len() == off + j * nk,
                    forall|i: int| 0 <= i < w@.len() ==> 0 <= #[trigger] w@[i] < 16777216,
                decreases nj - j,
            {
                let mut k: u16 = 0;
                while k < nk
                    invariant
                        j < nj,
                        k <= nk,
                        nj == sh[l as int],
                        nk == sh[l as int + 1],
                        off == conn_off(sh, l as int),
                        w@.len() == off + j * nk + k,
                        forall|i: int| 0 <= i < w@.len() ==> 0 <= #[trigger] w@[i] < 16777216,
                    decreases nk - k,
                {
                    let x: u32 = rand::random();
                    w.push((x % 16777216) as i64);
                    k = k + 1;
                }
                proof {
                    assert(j as int * nk as int + nk as int == (j as int + 1) * nk as int)
                        by (nonlinear_arith);
                }
                j = j + 1;
            }
        }
        let r = Self::new_from_weights(n, a, shape, w);
        proof {
            if r is Ok {
                let net = r->Ok_0;
                assert forall|l: int, c: int|
                    0 <= l < sh.len() - 1 && 0 <= c < net.conns(l) implies 0 <= (#[trigger] net.conn(
                    l,
                    c,
                )).w < 16777216 by {
                    lemma_conn_off_nonneg(sh, l);
                    lemma_conn_off_step(sh, l);
                    assert(net.size(l) == sh[l] && net.size(l + 1) == sh[l + 1]);
                    assert(net.conns(l) == net.size(l) * net.size(l + 1));
                    assert(net.conn(l, c).w == w@[conn_off(sh, l) + c]);
                    assert(0 <= conn_off(sh, l) + c < w@.len());
                }
            }
        }
        r
    }
}

impl NeurNet {
    /// Loads an input vector into the first layer, applying the sigmoid to
    /// each component before storing it: this is the only place raw outside
    /// input enters the net, and it arrives pre-activated like every other
    /// stored value. Fails with `DimensionMismatch`, changing nothing, when
    /// the vector's length is not the input layer's width.
    pub fn define(&mut self, input: Vec<i64>) -> (r: Result<(), NetError>)
        requires
            old(self).wf(),
        ensures
            final(self).wf(),
            r is Ok <==> input@.len() == old(self).size(0),
            r is Err ==> *final(self) == *old(self) && r == Err::<(), NetError>(
                NetError::DimensionMismatch,
            ),
            r is Ok ==> {
                &&& final(self).neur_lyr@.len() == old(self).neur_lyr@.len()
                &&& final(self).con_lyr == old(self).con_lyr
                &&& final(self).n == old(self).n
                &&& final(self).a == old(self).a
                &&& forall|l: int|
                    1 <= l < old(self).layers() ==> #[trigger] final(self).neur_lyr@[l] == old(
                        self,
                    ).neur_lyr@[l]
                &&& final(self).size(0) == old(self).size(0)
                &&& forall|i: int|
                    0 <= i < old(self).size(0) ==> #[trigger] final(self).val(0, i) == fp_sigmoid(
                        input@[i] as int,
                    )
                &&& forall|i: int|
                    0 <= i < old(self).size(0) ==> #[trigger] final(self).delta(0, i) == old(
                        self,
                    ).delta(0, i)
            },
    {
        let width = self.neur_lyr[0].len();
        if input.len() != width {
            return Err(NetError::DimensionMismatch);
        }
        let mut t: Vec<Neur> = Vec::new();
        let mut i: usize = 0;
        while i < width
            invariant
                i <= width,
                self == old(self),
                width == old(self).size(0),
                input@.len() == width,
                t@.len() == i,
                forall|p: int|
                    #![trigger t@[p]]
                    0 <= p < i ==> t@[p].val == fp_sigmoid(input@[p] as int) && 0 < t@[p].val
                        < 16777216 && t@[p].delta == old(self).neur_lyr@[0]@[p].delta,
            decreases width - i,
        {
            let d = self.neur_lyr[0][i].delta;
            t.push(Neur { val: sigm(input[i]), delta: d });
            i = i + 1;
        }
        self.neur_lyr[0] = t;
        proof {
            assert forall|l: int| 0 <= l < self.layers() implies 1 <= #[trigger] self.size(l)
                <= 65535 by {
                assert(old(self).size(l) <= 65535);
            }
            assert forall|l: int, i2: int|
                #![trigger self.val(l, i2)]
                #![trigger self.delta(l, i2)]
                0 <= l < self.layers() && 0 <= i2 < self.size(l) implies fp_in_range(
                self.val(l, i2)) && fp_in_range(self.delta(l, i2)) by {
                if l > 0 {
                    assert(self.neur_lyr@[l] == old(self).neur_lyr@[l]);
                    assert(fp_in_range(old(self).val(l, i2)) && fp_in_range(
                        old(self).delta(l, i2),
                    ));
                } else {
                    assert(fp_in_range(old(self).delta(0, i2)));
                }
            }
            assert forall|l: int| 0 <= l < self.layers() - 1 implies #[trigger] self.conns(l)
                == self.size(l) * self.size(l + 1) by {
                assert(self.conns(l) == old(self).conns(l));
                assert(self.size(l) == old(self).size(l));
                assert(self.size(l + 1) == old(self).size(l + 1));
            }
            assert forall|l: int, c: int|
                #![trigger self.conn(l, c)]
                0 <= l < self.layers() - 1 && 0 <= c < self.conns(l) implies {
                &&& self.conn(l, c).inp == c / self.size(l + 1)
                &&& self.conn(l, c).out == c % self.size(l + 1)
                &&& fp_in_range(self.conn(l, c).w as int)
                &&& fp_in_range(self.conn(l, c).dw as int)
            } by {
                assert(self.conn(l, c) == old(self).conn(l, c));
                assert(self.size(l + 1) == old(self).size(l + 1));
            }
            assert(self.wf());
        }
        Ok(())
    }

    /// Per-unit squared errors of the output layer against `expected`,
    /// unaggregated. Read-only: the net is borrowed immutably, so no value,
    /// delta, weight or velocity can change. Fails with `DimensionMismatch`
    /// when the vector's length is not the output layer's width.
    pub fn estimate(&self, expected: Vec<i64>) -> (r: Result<Vec<i64>, NetError>)
        requires
            self.wf(),
        ensures
            r is Ok <==> expected@.len() == self.size(self.layers() - 1),
            r is Err ==> r == Err::<Vec<i64>, NetError>(NetError::DimensionMismatch),
            r is Ok ==> {
                let out = r->Ok_0;
                &&& out@.len() == expected@.len()
                &&& forall|i: int|
                    0 <= i < out@.len() ==> #[trigger] out@[i] == fp_sq_err(
                        expected@[i] as int,
                        self.val(self.layers() - 1, i),
                    )
                &&& forall|i: int| 0 <= i < out@.len() ==> 0 <= #[trigger] out@[i]
            },
    {
        let last = self.neur_lyr.len() - 1;
        if expected.len() != self.neur_lyr[last].len() {
            return Err(NetError::DimensionMismatch);
        }
        let m = expected.len();
        let mut res: Vec<i64> = Vec::new();
        let mut i: usize = 0;
        while i < m
            invariant
                i <= m,
                last == self.layers() - 1,
                m == expected@.len(),
                m == self.size(last as int),
                res@.len() == i,
                forall|p: int|
                    #![trigger res@[p]]
                    0 <= p < i ==> res@[p] == fp_sq_err(
                        expected@[p] as int,
                        self.val(last as int, p),
                    ) && res@[p] >= 0,
            decreases m - i,
        {
            res.push(err(expected[i], self.neur_lyr[last][i].val));
            i = i + 1;
        }
        Ok(res)
    }
}

/// A net stays well-formed when one neuron layer is replaced by an
/// equally-wide layer whose values and deltas are in the representable band.
proof fn lemma_wf_after_layer_swap(pre: NeurNet, post: NeurNet, l0: int)
    requires
        pre.wf(),
        post.con_lyr == pre.con_lyr,
        post.n == pre.n,
        post.a == pre.a,
        0 <= l0 < pre.layers(),
        post.neur_lyr@ == pre.neur_lyr@.update(l0, post.neur_lyr@[l0]),
        post.size(l0) == pre.size(l0),
        forall|i: int|
            #![trigger post.val(l0, i)]
            #![trigger post.delta(l0, i)]
            0 <= i < post.size(l0) ==> fp_in_range(post.val(l0, i)) && fp_in_range(
                post.delta(l0, i),
            ),
    ensures
        post.wf(),
        forall|l: int| 0 <= l < pre.layers() ==> #[trigger] post.size(l) == pre.size(l),
{
    assert forall|l: int| 0 <= l < post.layers() implies 1 <= #[trigger] post.size(l) <= 65535
        && post.size(l) == pre.size(l) by {
        assert(1 <= pre.size(l) <= 65535);
    }
    assert forall|l: int, i: int|
        #![trigger post.val(l, i)]
        #![trigger post.delta(l, i)]
        0 <= l < post.layers() && 0 <= i < post.size(l) implies fp_in_range(post.val(l, i))
        && fp_in_range(post.delta(l, i)) by {
        if l != l0 {
            assert(post.neur_lyr@[l] == pre.neur_lyr@[l]);
            assert(fp_in_range(pre.val(l, i)) && fp_in_range(pre.delta(l, i)));
        }
    }
    assert forall|l: int| 0 <= l < post.layers() - 1 implies #[trigger] post.conns(l)
        == post.size(l) * post.size(l + 1) by {
        assert(post.conns(l) == pre.conns(l));
    }
    assert forall|l: int, c: int|
        #![trigger post.conn(l, c)]
        0 <= l < post.layers() - 1 && 0 <= c < post.conns(l) implies {
        &&& post.conn(l, c).inp == c / post.size(l + 1)
        &&& post.conn(l, c).out == c % post.size(l + 1)
        &&& fp_in_range(post.conn(l, c).w as int)
        &&& fp_in_range(post.conn(l, c).dw as int)
    } by {
        assert(post.conn(l, c) == pre.conn(l, c));
        assert(post.size(l + 1) == pre.size(l + 1));
    }
}

impl NeurNet {
    /// Forward propagation: for each layer after the input, in increasing
    /// order, each neuron's new value is the sigmoid of the sum, over every
    /// source in the preceding layer in source order, of the source's value
    /// times the bridging weight. Returns a copy of the final layer's values,
    /// each strictly inside (0, one). Deltas, weights, velocities and
    /// hyper-parameters are untouched.
    #[verifier::rlimit(100)]
    pub fn calc(&mut self) -> (r: Vec<i64>)
        requires
            old(self).wf(),
        ensures
            final(self).wf(),
            final(self).neur_lyr@.len() == old(self).neur_lyr@.len(),
            final(self).con_lyr == old(self).con_lyr,
            final(self).n == old(self).n,
            final(self).a == old(self).a,
            forall|l: int|
                0 <= l < old(self).layers() ==> #[trigger] final(self).size(l) == old(self).size(
                    l,
                ),
            forall|l: int, i: int|
                #![trigger final(self).delta(l, i)]
                0 <= l < old(self).layers() && 0 <= i < old(self).size(l) ==> final(self).delta(
                    l,
                    i,
                ) == old(self).delta(l, i),
            final(self).vals_of(0) == old(self).vals_of(0),
            forall|l: int|
                1 <= l < old(self).layers() ==> #[trigger] final(self).vals_of(l) == layer_forward(
                    final(self).vals_of(l - 1),
                    old(self).ws_of(l - 1),
                    old(self).size(l),
                ),
            r@.len() == old(self).size(old(self).layers() - 1),
            as_ints(r@) == final(self).vals_of(old(self).layers() - 1),
            forall|i: int| 0 <= i < r@.len() ==> 0 < #[trigger] r@[i] < 16777216,
    {
        let ln = self.neur_lyr.len();
        let mut lyr: usize = 1;
        while lyr < ln
            invariant
                1 <= lyr <= ln,
                ln == old(self).layers(),
                self.wf(),
                self.neur_lyr@.len() == ln,
                self.con_lyr == old(self).con_lyr,
                self.n == old(self).n,
                self.a == old(self).a,
                forall|l: int| 0 <= l < ln ==> #[trigger] self.size(l) == old(self).size(l),
                forall|l: int, i: int|
                    #![trigger self.delta(l, i)]
                    0 <= l < ln && 0 <= i < self.size(l) ==> self.delta(l, i) == old(self).delta(
                        l,
                        i,
                    ),
                forall|l: int|
                    lyr <= l < ln ==> #[trigger] self.neur_lyr@[l] == old(self).neur_lyr@[l],
                self.vals_of(0) == old(self).vals_of(0),
                forall|l: int|
                    1 <= l < lyr ==> #[trigger] self.vals_of(l) == layer_forward(
                        self.vals_of(l - 1),
                        old(self).ws_of(l - 1),
                        old(self).size(l),
                    ),
                forall|l: int, i: int|
                    1 <= l < lyr && 0 <= i < self.size(l) ==> 0 < #[trigger] self.val(l, i)
                        < 16777216,
            decreases ln - lyr,
        {
            let nk = self.neur_lyr[lyr].len();
            let prev_len = self.neur_lyr[lyr - 1].len();
            proof {
                assert(nk == self.size(lyr as int) && 1 <= self.size(lyr as int) <= 65535);
                assert(prev_len == self.size(lyr as int - 1) && 1 <= self.size(lyr as int - 1)
                    <= 65535);
            }
            let ghost prev = self.vals_of(lyr as int - 1);
            let ghost ws = self.ws_of(lyr as int - 1);
            let ghost pre = *self;
            let mut t: Vec<Neur> = Vec::new();
            let mut k: usize = 0;
            while k < nk
                invariant
                    k <= nk,
                    t@.len() == k,
                    forall|p: int|
                        #![trigger t@[p]]
                        0 <= p < k ==> t@[p].val == fp_sigmoid(
                            forward_sum(prev, ws, nk as int, p, prev_len as int),
                        ) && 0 < t@[p].val < 16777216 && t@[p].delta
                            == self.neur_lyr@[lyr as int]@[p].delta,
                decreases nk - k,
            {
                let mut acc: i64 = 0;
                let mut j: usize = 0;
                while j < prev_len
                    invariant
                        j <= prev_len,
                        k < nk,
                        acc == forward_sum(prev, ws, nk as int, k as int, j as int),
                        fp_in_range(acc as int),
                    decreases prev_len - j,
                {
                    proof {
                        lemma_flat_index(prev_len as int, nk as int, j as int, k as int);
                        assert(prev_len as int * nk as int <= 65535 * 65535) by (nonlinear_arith)
                            requires
                                prev_len as int <= 65535,
                                nk as int <= 65535,
                        ;
                        assert(self.conns(lyr as int - 1) == prev_len as int * nk as int);
                    }
                    let c = j * nk + k;
                    let ghost jj = j as int;
                    acc = add_fp(
                        acc,
                        mul_fp(self.neur_lyr[lyr - 1][j].val, self.con_lyr[lyr - 1][c].w),
                    );
                    proof {
                        assert(prev[jj] == pre.neur_lyr@[lyr as int - 1]@[jj].val);
                        assert(ws[jj * nk as int + k as int] == pre.con_lyr@[lyr as int - 1]@[jj
                            * nk as int + k as int].w);
                        assert(acc == forward_sum(prev, ws, nk as int, k as int, jj + 1));
                    }
                    j = j + 1;
                }
                let d = self.neur_lyr[lyr][k].delta;
                t.push(Neur { val: sigm(acc), delta: d });
                k = k + 1;
            }
            let ghost tview = t@;
            self.neur_lyr[lyr] = t;
            proof {
                assert(self.neur_lyr@[lyr as int]@ == tview);
                assert forall|i2: int|
                    #![trigger self.val(lyr as int, i2)]
                    #![trigger self.delta(lyr as int, i2)]
                    0 <= i2 < self.size(lyr as int) implies fp_in_range(self.val(lyr as int, i2))
                    && fp_in_range(self.delta(lyr as int, i2)) by {
                    assert(0 < tview[i2].val < 16777216);
                    assert(fp_in_range(pre.delta(lyr as int, i2)));
                }
                lemma_wf_after_layer_swap(pre, *self, lyr as int);
                assert forall|l: int, i2: int|
                    #![trigger self.delta(l, i2)]
                    0 <= l < ln && 0 <= i2 < self.size(l) implies self.delta(l, i2) == old(
                    self,
                ).delta(l, i2) by {
                    if l == lyr as int {
                        assert(tview[i2].delta == pre.neur_lyr@[lyr as int]@[i2].delta);
                        assert(pre.delta(l, i2) == old(self).delta(l, i2));
                    } else {
                        assert(self.neur_lyr@[l] == pre.neur_lyr@[l]);
                        assert(pre.delta(l, i2) == old(self).delta(l, i2));
                    }
                }
                assert forall|l: int, i2: int|
                    1 <= l < lyr as int + 1 && 0 <= i2 < self.size(l) implies 0
                    < #[trigger] self.val(l, i2) < 16777216 by {
                    if l == lyr as int {
                        assert(0 < tview[i2].val < 16777216);
                    } else {
                        assert(self.neur_lyr@[l] == pre.neur_lyr@[l]);
                        assert(0 < pre.val(l, i2) < 16777216);
                    }
                }
                assert(self.vals_of(lyr as int) =~= layer_forward(prev, ws, nk as int));
                assert(self.vals_of(lyr as int - 1) =~= prev);
                assert forall|l: int|
                    1 <= l < lyr as int + 1 implies #[trigger] self.vals_of(l) == layer_forward(
                    self.vals_of(l - 1),
                    old(self).ws_of(l - 1),
                    old(self).size(l),
                ) by {
                    if l < lyr as int {
                        assert(self.neur_lyr@[l] == pre.neur_lyr@[l]);
                        assert(self.neur_lyr@[l - 1] == pre.neur_lyr@[l - 1]);
                        assert(self.vals_of(l) =~= pre.vals_of(l));
                        assert(self.vals_of(l - 1) =~= pre.vals_of(l - 1));
                    } else {
                        assert(ws =~= old(self).ws_of(lyr as int - 1));
                    }
                }
                assert(self.vals_of(0) =~= pre.vals_of(0));
            }
            lyr = lyr + 1;
        }
        let last = ln - 1;
        let out_n = self.neur_lyr[last].len();
        let mut res: Vec<i64> = Vec::new();
        let mut i: usize = 0;
        while i < out_n
            invariant
                i <= out_n,
                out_n == self.size(last as int),
                res@.len() == i,
                forall|p: int|
                    0 <= p < i ==> #[trigger] res@[p] == self.neur_lyr@[last as int]@[p].val
                        && 0 < res@[p] < 16777216,
            decreases out_n - i,
        {
            proof {
                assert(0 < self.val(last as int, i as int) < 16777216);
            }
            res.push(self.neur_lyr[last][i].val);
            i = i + 1;
        }
        proof {
            assert(as_ints(res@) =~= self.vals_of(ln - 1));
        }
        res
    }
}

/// Everything one backward sweep does, relating the state before (`pre`,
/// whose activations are those of the most recent forward pass) to the state
/// after (`post`): every delta follows the backward recurrence on `pre`,
/// every velocity becomes the momentum update of its gradient, every weight
/// moves by exactly that velocity, and activations, shape, connectivity and
/// hyper-parameters stay as they were.
pub open spec fn tuned(pre: NeurNet, post: NeurNet, exp: Seq<int>) -> bool {
    let vals = pre.all_vals();
    let ws = pre.all_ws();
    &&& post.neur_lyr@.len() == pre.neur_lyr@.len()
    &&& post.con_lyr@.len() == pre.con_lyr@.len()
    &&& post.n == pre.n
    &&& post.a == pre.a
    &&& forall|l: int| 0 <= l < pre.layers() ==> #[trigger] post.size(l) == pre.size(l)
    &&& forall|l: int| 0 <= l < pre.layers() - 1 ==> #[trigger] post.conns(l) == pre.conns(l)
    &&& forall|l: int, i: int|
        #![trigger post.val(l, i)]
        0 <= l < pre.layers() && 0 <= i < pre.size(l) ==> post.val(l, i) == pre.val(l, i)
    &&& forall|l: int, i: int|
        #![trigger post.delta(l, i)]
        0 <= l < pre.layers() && 0 <= i < pre.size(l) ==> post.delta(l, i) == deltas_from(
            vals,
            ws,
            exp,
            l,
        )[i]
    &&& forall|l: int, c: int|
        #![trigger post.conn(l, c)]
        0 <= l < pre.layers() - 1 && 0 <= c < pre.conns(l) ==> {
            let cn0 = pre.conn(l, c);
            let v = vel_update(
                pre.n as int,
                pre.a as int,
                grad_at(vals[l], deltas_from(vals, ws, exp, l + 1), pre.size(l + 1), c),
                cn0.dw as int,
            );
            &&& post.conn(l, c).inp == cn0.inp
            &&& post.conn(l, c).out == cn0.out
            &&& post.conn(l, c).dw == v
            &&& post.conn(l, c).w == fp_add(cn0.w as int, v)
        }
}

/// A net stays well-formed when one connection layer is replaced by an
/// equally-long layer that keeps each connection's endpoints and holds its
/// weight and velocity in the representable band.
proof fn lemma_wf_after_con_swap(pre: NeurNet, post: NeurNet, l0: int)
    requires
        pre.wf(),
        post.neur_lyr == pre.neur_lyr,
        post.n == pre.n,
        post.a == pre.a,
        0 <= l0 < pre.layers() - 1,
        post.con_lyr@ == pre.con_lyr@.update(l0, post.con_lyr@[l0]),
        post.conns(l0) == pre.conns(l0),
        forall|c: int|
            #![trigger post.conn(l0, c)]
            0 <= c < post.conns(l0) ==> post.conn(l0, c).inp == pre.conn(l0, c).inp && post.conn(
                l0,
                c,
            ).out == pre.conn(l0, c).out && fp_in_range(post.conn(l0, c).w as int) && fp_in_range(
                post.conn(l0, c).dw as int,
            ),
    ensures
        post.wf(),
{
    assert(post.layers() == pre.layers());
    assert forall|l: int| 0 <= l < post.layers() implies 1 <= #[trigger] post.size(l)
        <= 65535 by {
        assert(1 <= pre.size(l) <= 65535);
    }
    assert forall|l: int, i: int|
        #![trigger post.val(l, i)]
        #![trigger post.delta(l, i)]
        0 <= l < post.layers() && 0 <= i < post.size(l) implies fp_in_range(post.val(l, i))
        && fp_in_range(post.delta(l, i)) by {
        assert(fp_in_range(pre.val(l, i)) && fp_in_range(pre.delta(l, i)));
    }
    assert forall|l: int, c: int|
        #![trigger post.conn(l, c)]
        0 <= l < post.layers() - 1 && 0 <= c < post.conns(l) implies {
        &&& post.conn(l, c).inp == c / post.size(l + 1)
        &&& post.conn(l, c).out == c % post.size(l + 1)
        &&& fp_in_range(post.conn(l, c).w as int)
        &&& fp_in_range(post.conn(l, c).dw as int)
    } by {
        if l != l0 {
            assert(post.con_lyr@[l] == pre.con_lyr@[l]);
        }
        assert(pre.conn(l, c).inp == c / pre.size(l + 1));
        assert(pre.conn(l, c).out == c % pre.size(l + 1));
        assert(fp_in_range(pre.conn(l, c).w as int) && fp_in_range(pre.conn(l, c).dw as int));
    }
    assert forall|l: int| 0 <= l < post.layers() - 1 implies #[trigger] post.conns(l)
        == post.size(l) * post.size(l + 1) by {
        if l != l0 {
            assert(post.con_lyr@[l] == pre.con_lyr@[l]);
        }
        assert(pre.conns(l) == pre.size(l) * pre.size(l + 1));
    }
}

impl NeurNet {
    /// Backward propagation and weight update against the same expected
    /// vector used for estimation: output deltas first, then, walking the
    /// layers downward to the input layer inclusive, each layer's deltas from
    /// its outgoing weights and the next layer's already-final deltas, and
    /// then each bridging connection's velocity and weight. Momentum
    /// persists: the velocity stored here feeds the next call. Fails with
    /// `DimensionMismatch`, changing nothing, when the vector's length is not
    /// the output layer's width.
    #[verifier::rlimit(100)]
    pub fn tune(&mut self, expected: Vec<i64>) -> (r: Result<(), NetError>)
        requires
            old(self).wf(),
        ensures
            final(self).wf(),
            r is Ok <==> expected@.len() == old(self).size(old(self).layers() - 1),
            r is Err ==> *final(self) == *old(self) && r == Err::<(), NetError>(
                NetError::DimensionMismatch,
            ),
            r is Ok ==> tuned(*old(self), *final(self), as_ints(expected@)),
    {
        let ln = self.neur_lyr.len();
        let last = ln - 1;
        if expected.len() != self.neur_lyr[last].len() {
            return Err(NetError::DimensionMismatch);
        }
        let ghost net0 = *old(self);
        let ghost vals0 = net0.all_vals();
        let ghost ws0 = net0.all_ws();
        let ghost exp = as_ints(expected@);
        let nout = self.neur_lyr[last].len();
        let mut t: Vec<Neur> = Vec::new();
        let mut i: usize = 0;
        while i < nout
            invariant
                i <= nout,
                nout == net0.size(last as int),
                t@.len() == i,
                forall|p: int|
                    #![trigger t@[p]]
                    0 <= p < i ==> t@[p].val == net0.neur_lyr@[last as int]@[p].val && t@[p].delta
                        == out_delta(exp[p], net0.val(last as int, p)) && fp_in_range(
                        t@[p].delta as int,
                    ),
            decreases nout - i,
        {
            proof {
                assert(fp_in_range(net0.val(last as int, i as int)));
                assert(exp[i as int] == expected@[i as int] as int);
            }
            let v = self.neur_lyr[last][i].val;
            let d = mul_fp(sub_fp(expected[i], v), dsigm(v));
            t.push(Neur { val: v, delta: d });
            i = i + 1;
        }
        let ghost tview = t@;
        let ghost pre0 = *self;
        self.neur_lyr[last] = t;
        proof {
            assert(self.neur_lyr@[last as int]@ == tview);
            assert forall|i2: int|
                #![trigger self.val(last as int, i2)]
                #![trigger self.delta(last as int, i2)]
                0 <= i2 < self.size(last as int) implies fp_in_range(self.val(last as int, i2))
                && fp_in_range(self.delta(last as int, i2)) by {
                assert(tview[i2].val == net0.neur_lyr@[last as int]@[i2].val);
                assert(fp_in_range(net0.val(last as int, i2)));
            }
            lemma_wf_after_layer_swap(pre0, *self, last as int);
            assert(self.deltas_of(last as int) =~= out_deltas(exp, vals0[last as int]));
            assert(deltas_from(vals0, ws0, exp, last as int) == out_deltas(
                exp,
                vals0[last as int],
            ));
        }
        let mut lyr: usize = last;
        while lyr > 0
            invariant
                0 <= lyr <= last,
                ln == net0.layers(),
                last == ln - 1,
                self.wf(),
                self.neur_lyr@.len() == ln,
                self.con_lyr@.len() == ln - 1,
                self.n == net0.n,
                self.a == net0.a,
                forall|l: int| 0 <= l < ln ==> #[trigger] self.size(l) == net0.size(l),
                forall|l: int, i2: int|
                    #![trigger self.val(l, i2)]
                    0 <= l < ln && 0 <= i2 < self.size(l) ==> self.val(l, i2) == net0.val(l, i2),
                forall|l: int, i2: int|
                    #![trigger self.delta(l, i2)]
                    lyr <= l < ln && 0 <= i2 < self.size(l) ==> self.delta(l, i2) == deltas_from(
                        vals0,
                        ws0,
                        exp,
                        l,
                    )[i2],
                forall|l: int, i2: int|
                    #![trigger self.delta(l, i2)]
                    0 <= l < lyr && 0 <= i2 < self.size(l) ==> self.delta(l, i2) == net0.delta(
                        l,
                        i2,
                    ),
                forall|l: int|
                    0 <= l < lyr && l < ln - 1 ==> #[trigger] self.con_lyr@[l]
                        == net0.con_lyr@[l],
                forall|l: int, c: int|
                    #![trigger self.conn(l, c)]
                    lyr <= l < ln - 1 && 0 <= c < net0.conns(l) ==> {
                        let cn0 = net0.conn(l, c);
                        let v = vel_update(
                            net0.n as int,
                            net0.a as int,
                            grad_at(
                                vals0[l],
                                deltas_from(vals0, ws0, exp, l + 1),
                                net0.size(l + 1),
                                c,
                            ),
                            cn0.dw as int,
                        );
                        &&& self.conn(l, c).inp == cn0.inp
                        &&& self.conn(l, c).out == cn0.out
                        &&& self.conn(l, c).dw == v
                        &&& self.conn(l, c).w == fp_add(cn0.w as int, v)
                    },
            decreases lyr,
        {
            let s = lyr - 1;
            let nj = self.neur_lyr[s].len();
            let nk = self.neur_lyr[lyr].len();
            proof {
                assert(nj == self.size(s as int) && 1 <= self.size(s as int) <= 65535);
                assert(nk == self.size(lyr as int) && 1 <= self.size(lyr as int) <= 65535);
                assert(self.conns(s as int) == nj as int * nk as int);
            }
            let ghost wsx = self.ws_of(s as int);
            let ghost dnext = self.deltas_of(lyr as int);
            proof {
                assert(self.con_lyr@[s as int] == net0.con_lyr@[s as int]);
                assert(wsx =~= ws0[s as int]);
                lemma_deltas_from_len(vals0, ws0, exp, lyr as int);
                assert(vals0[lyr as int].len() == net0.size(lyr as int));
                assert forall|i2: int| 0 <= i2 < dnext.len() implies #[trigger] dnext[i2]
                    == deltas_from(vals0, ws0, exp, lyr as int)[i2] by {
                    assert(dnext[i2] == self.delta(lyr as int, i2));
                }
                assert(dnext =~= deltas_from(vals0, ws0, exp, lyr as int));
                assert(dnext.len() == nk);
            }
            let mut t2: Vec<Neur> = Vec::new();
            let mut j: usize = 0;
            while j < nj
                invariant
                    j <= nj,
                    t2@.len() == j,
                    forall|p: int|
                        #![trigger t2@[p]]
                        0 <= p < j ==> t2@[p].val == self.neur_lyr@[s as int]@[p].val
                            && t2@[p].delta == fp_mul(
                            fp_dsig(self.val(s as int, p)),
                            back_sum(wsx, dnext, nk as int, p, nk as int),
                        ) && fp_in_range(t2@[p].delta as int),
                decreases nj - j,
            {
                let mut acc: i64 = 0;
                let mut k: usize = 0;
                while k < nk
                    invariant
                        k <= nk,
                        j < nj,
                        acc == back_sum(wsx, dnext, nk as int, j as int, k as int),
                        fp_in_range(acc as int),
                    decreases nk - k,
                {
                    proof {
                        lemma_flat_index(nj as int, nk as int, j as int, k as int);
                        assert(nj as int * nk as int <= 65535 * 65535) by (nonlinear_arith)
                            requires
                                nj as int <= 65535,
                                nk as int <= 65535,
                        ;
                    }
                    let c = j * nk + k;
                    let ghost kk = k as int;
                    acc = add_fp(
                        acc,
                        mul_fp(self.con_lyr[s][c].w, self.neur_lyr[lyr][k].delta),
                    );
                    proof {
                        assert(wsx[j as int * nk as int + kk] == self.con_lyr@[s as int]@[j as int
                            * nk as int + kk].w);
                        assert(dnext[kk] == self.neur_lyr@[lyr as int]@[kk].delta);
                        assert(acc == back_sum(wsx, dnext, nk as int, j as int, kk + 1));
                    }
                    k = k + 1;
                }
                proof {
                    assert(fp_in_range(self.val(s as int, j as int)));
                }
                let v = self.neur_lyr[s][j].val;
                t2.push(Neur { val: v, delta: mul_fp(dsigm(v), acc) });
                j = j + 1;
            }
            let ghost t2view = t2@;
            let ghost pre1 = *self;
            self.neur_lyr[s] = t2;
            proof {
                assert(self.neur_lyr@[s as int]@ == t2view);
                assert forall|i2: int|
                    #![trigger self.val(s as int, i2)]
                    #![trigger self.delta(s as int, i2)]
                    0 <= i2 < self.size(s as int) implies fp_in_range(self.val(s as int, i2))
                    && fp_in_range(self.delta(s as int, i2)) by {
                    assert(t2view[i2].val == pre1.neur_lyr@[s as int]@[i2].val);
                    assert(fp_in_range(pre1.val(s as int, i2)));
                }
                lemma_wf_after_layer_swap(pre1, *self, s as int);
                assert(self.deltas_of(s as int) =~= hidden_deltas(
                    vals0[s as int],
                    ws0[s as int],
                    deltas_from(vals0, ws0, exp, lyr as int),
                ));
                assert(deltas_from(vals0, ws0, exp, s as int) == hidden_deltas(
                    vals0[s as int],
                    ws0[s as int],
                    deltas_from(vals0, ws0, exp, s as int + 1),
                ));
                assert forall|l: int, i2: int|
                    #![trigger self.val(l, i2)]
                    0 <= l < ln && 0 <= i2 < self.size(l) implies self.val(l, i2) == net0.val(
                    l,
                    i2,
                ) by {
                    if l == s as int {
                        assert(t2view[i2].val == pre1.neur_lyr@[s as int]@[i2].val);
                    } else {
                        assert(self.neur_lyr@[l] == pre1.neur_lyr@[l]);
                    }
                    assert(pre1.val(l, i2) == net0.val(l, i2));
                }
                assert forall|l: int, i2: int|
                    #![trigger self.delta(l, i2)]
                    s as int <= l < ln && 0 <= i2 < self.size(l) implies self.delta(l, i2)
                    == deltas_from(vals0, ws0, exp, l)[i2] by {
                    if l != s as int {
                        assert(self.neur_lyr@[l] == pre1.neur_lyr@[l]);
                        assert(pre1.delta(l, i2) == deltas_from(vals0, ws0, exp, l)[i2]);
                    }
                }
            }
            let mut t3: Vec<Connection> = Vec::new();
            let mut j3: usize = 0;
            while j3 < nj
                invariant
                    j3 <= nj,
                    t3@.len() == j3 * nk,
                    forall|c: int|
                        #![trigger t3@[c]]
                        0 <= c < t3@.len() ==> {
                            let cn0 = net0.conn(s as int, c);
                            let v = vel_update(
                                net0.n as int,
                                net0.a as int,
                                grad_at(
                                    vals0[s as int],
                                    deltas_from(vals0, ws0, exp, s as int + 1),
                                    nk as int,
                                    c,
                                ),
                                cn0.dw as int,
                            );
                            &&& t3@[c].inp == cn0.inp
                            &&& t3@[c].out == cn0.out
                            &&& t3@[c].dw == v
                            &&& t3@[c].w == fp_add(cn0.w as int, v)
                            &&& fp_in_range(t3@[c].w as int)
                            &&& fp_in_range(t3@[c].dw as int)
                        },
                decreases nj - j3,
            {
                let mut k3: usize = 0;
                while k3 < nk
                    invariant
                        k3 <= nk,
                        j3 < nj,
                        t3@.len() == j3 * nk + k3,
                        forall|c: int|
                            #![trigger t3@[c]]
                            0 <= c < t3@.len() ==> {
                                let cn0 = net0.conn(s as int, c);
                                let v = vel_update(
                                    net0.n as int,
                                    net0.a as int,
                                    grad_at(
                                        vals0[s as int],
                                        deltas_from(vals0, ws0, exp, s as int + 1),
                                        nk as int,
                                        c,
                                    ),
                                    cn0.dw as int,
                                );
                                &&& t3@[c].inp == cn0.inp
                                &&& t3@[c].out == cn0.out
                                &&& t3@[c].dw == v
                                &&& t3@[c].w == fp_add(cn0.w as int, v)
                                &&& fp_in_range(t3@[c].w as int)
                                &&& fp_in_range(t3@[c].dw as int)
                            },
                    decreases nk - k3,
                {
                    proof {
                        lemma_flat_index(nj as int, nk as int, j3 as int, k3 as int);
                        assert(nj as int * nk as int <= 65535 * 65535) by (nonlinear_arith)
                            requires
                                nj as int <= 65535,
                                nk as int <= 65535,
                        ;
                        assert(self.conns(s as int) == nj as int * nk as int);
                    }
                    let c = j3 * nk + k3;
                    let cn = self.con_lyr[s][c];
                    proof {
                        assert(self.conn(s as int, c as int) == cn);
                        assert(cn == net0.conn(s as int, c as int));
                        assert(fp_in_range(cn.w as int) && fp_in_range(cn.dw as int));
                        assert(self.val(s as int, j3 as int) == net0.val(s as int, j3 as int));
                        assert(vals0[s as int][j3 as int] == net0.val(s as int, j3 as int));
                        assert(self.delta(lyr as int, k3 as int) == deltas_from(
                            vals0,
                            ws0,
                            exp,
                            lyr as int,
                        )[k3 as int]);
                    }
                    let sv = self.neur_lyr[s][j3].val;
                    let td = self.neur_lyr[lyr][k3].delta;
                    let grad = mul_fp(sv, td);
                    let ndw = add_fp(mul_fp(self.n, grad), mul_fp(self.a, cn.dw));
                    let nw = add_fp(cn.w, ndw);
                    t3.push(Connection { inp: cn.inp, out: cn.out, w: nw, dw: ndw });
                    k3 = k3 + 1;
                }
                proof {
                    assert(j3 as int * nk as int + nk as int == (j3 as int + 1) * nk as int)
                        by (nonlinear_arith);
                }
                j3 = j3 + 1;
            }
            let ghost t3view = t3@;
            let ghost pre2 = *self;
            self.con_lyr[s] = t3;
            proof {
                assert(self.con_lyr@[s as int]@ == t3view);
                assert(self.conns(s as int) == pre2.conns(s as int));
                assert forall|c: int|
                    #![trigger self.conn(s as int, c)]
                    0 <= c < self.conns(s as int) implies self.conn(s as int, c).inp == pre2.conn(
                    s as int,
                    c,
                ).inp && self.conn(s as int, c).out == pre2.conn(s as int, c).out && fp_in_range(
                    self.conn(s as int, c).w as int,
                ) && fp_in_range(self.conn(s as int, c).dw as int) by {
                    assert(t3view[c] == self.conn(s as int, c));
                    assert(pre2.conn(s as int, c) == net0.conn(s as int, c));
                }
                lemma_wf_after_con_swap(pre2, *self, s as int);
                assert forall|l: int| 0 <= l < ln implies #[trigger] self.size(l) == net0.size(
                    l,
                ) by {
                    assert(self.neur_lyr@[l] == pre2.neur_lyr@[l]);
                    if l == s as int {
                        assert(pre2.neur_lyr@[s as int]@ == t2view);
                        assert(t2view.len() == nj);
                    } else {
                        assert(pre2.neur_lyr@[l] == pre1.neur_lyr@[l]);
                        assert(pre1.size(l) == net0.size(l));
                    }
                }
                assert forall|l: int, i2: int|
                    #![trigger self.delta(l, i2)]
                    s as int <= l < ln && 0 <= i2 < self.size(l) implies self.delta(l, i2)
                    == deltas_from(vals0, ws0, exp, l)[i2] by {
                    assert(self.neur_lyr@[l] == pre2.neur_lyr@[l]);
                    assert(pre2.delta(l, i2) == deltas_from(vals0, ws0, exp, l)[i2]);
                }
                assert forall|l: int, i2: int|
                    #![trigger self.delta(l, i2)]
                    0 <= l < s as int && 0 <= i2 < self.size(l) implies self.delta(l, i2)
                    == net0.delta(l, i2) by {
                    assert(self.neur_lyr@[l] == pre2.neur_lyr@[l]);
                    assert(pre2.neur_lyr@[l] == pre1.neur_lyr@[l]);
                    assert(pre1.delta(l, i2) == net0.delta(l, i2));
                }
                assert forall|l: int, i2: int|
                    #![trigger self.val(l, i2)]
                    0 <= l < ln && 0 <= i2 < self.size(l) implies self.val(l, i2) == net0.val(
                    l,
                    i2,
                ) by {
                    assert(self.neur_lyr@[l] == pre2.neur_lyr@[l]);
                    assert(pre2.val(l, i2) == net0.val(l, i2));
                }
                assert forall|l: int, c: int|
                    #![trigger self.conn(l, c)]
                    s as int <= l < ln - 1 && 0 <= c < net0.conns(l) implies {
                    let cn0 = net0.conn(l, c);
                    let v = vel_update(
                        net0.n as int,
                        net0.a as int,
                        grad_at(vals0[l], deltas_from(vals0, ws0, exp, l + 1), net0.size(l + 1), c),
                        cn0.dw as int,
                    );
                    &&& self.conn(l, c).inp == cn0.inp
                    &&& self.conn(l, c).out == cn0.out
                    &&& self.conn(l, c).dw == v
                    &&& self.conn(l, c).w == fp_add(cn0.w as int, v)
                } by {
                    if l == s as int {
                        assert(net0.conns(s as int) == net0.size(s as int) * net0.size(
                            s as int + 1,
                        ));
                        assert(net0.conns(s as int) == nj as int * nk as int);
                        assert(self.conn(l, c) == t3view[c]);
                        assert(net0.size(s as int + 1) == nk);
                    } else {
                        assert(self.con_lyr@[l] == pre2.con_lyr@[l]);
                        assert(pre2.con_lyr@[l] == pre1.con_lyr@[l]);
                        assert(self.conn(l, c) == pre1.conn(l, c));
                    }
                }
            }
            lyr = s;
        }
        Ok(())
    }
}

/// A backward sweep's delta sequence for a layer is as wide as the layer.
proof fn lemma_deltas_from_len(vals: Seq<Seq<int>>, ws: Seq<Seq<int>>, exp: Seq<int>, l: int)
    requires
        0 <= l < vals.len(),
    ensures
        deltas_from(vals, ws, exp, l).len() == vals[l].len(),
{
}

/// `conn_off` is never negative.
proof fn lemma_conn_off_nonneg(shape: Seq<u16>, l: int)
    ensures
        0 <= conn_off(shape, l),
    decreases l,
{
    if l > 0 {
        lemma_conn_off_nonneg(shape, l - 1);
        lemma_mul_nonnegative(shape[l - 1] as int, shape[l] as int);
    }
}

/// `conn_off` grows by one full layer pair at each level.
proof fn lemma_conn_off_step(shape: Seq<u16>, l: int)
    requires
        0 <= l < shape.len() - 1,
    ensures
        conn_off(shape, l + 1) == conn_off(shape, l) + shape[l] * shape[l + 1],
        conn_off(shape, l) + shape[l] * shape[l + 1] <= conn_off(shape, shape.len() - 1),
    decreases shape.len() - l,
{
    if l + 1 < shape.len() - 1 {
        lemma_conn_off_step(shape, l + 1);
        lemma_mul_nonnegative(shape[l + 1] as int, shape[l + 2] as int);
    }
}

} // verus!
