//! Laws relating the builder and the execution engine across several
//! functions, stated and proved once for all inputs.

use vstd::prelude::*;

verus! {

use crate::builder::{
    lemma_inputs_upto_none, lemma_layers_upto_none, spec_build_ok, spec_inputs_upto,
    spec_layers_upto,
};
use crate::layer::{spec_layer_backward_params, spec_layer_forward, Layer, LayerOp};
use crate::network::{spec_backward_params_prefix, spec_forward_prefix, NetworkConfig};

/// Registering inputs only ever adds the declared names: after the first `k`
/// inputs, every one of them is in the registry.
proof fn lemma_inputs_registered(config: NetworkConfig, k: int)
    requires
        0 <= k <= config.inputs@.len(),
        spec_inputs_upto(config, k) is Some,
    ensures
        forall|i: int|
            0 <= i < k ==> spec_inputs_upto(config, k).unwrap().dom().contains(
                #[trigger] config.inputs@[i]@,
            ),
    decreases k,
{
    if k > 0 {
        lemma_inputs_registered(config, k - 1);
    }
}

/// Duplicate-input rejection: a configuration declaring two external inputs
/// of the same name never builds.
pub proof fn lemma_duplicate_input_rejected(config: NetworkConfig, i: int, j: int)
    requires
        0 <= i < j < config.inputs@.len(),
        config.inputs@[i]@ == config.inputs@[j]@,
    ensures
        !spec_build_ok(config),
{
    if config.inputs@.len() == config.input_shapes@.len() {
        if spec_inputs_upto(config, j) is Some {
            lemma_inputs_registered(config, j);
            assert(spec_inputs_upto(config, j).unwrap().dom().contains(config.inputs@[i]@));
            assert(spec_inputs_upto(config, j + 1) is None);
            lemma_inputs_upto_none(config, j + 1, config.inputs@.len() as int);
        } else {
            lemma_inputs_upto_none(config, j, config.inputs@.len() as int);
        }
        assert(spec_layers_upto(config, 0) is None);
        lemma_layers_upto_none(config, 0, config.layers@.len() as int);
    } else {
        assert(spec_layers_upto(config, 0) is None);
        lemma_layers_upto_none(config, 0, config.layers@.len() as int);
    }
}

/// Backward-skip correctness: when every layer whose weight lives in storage
/// slot `slot` is flagged to skip backward, a whole parameter-gradient pass
/// leaves that slot's gradient untouched.
pub proof fn lemma_skip_backward_preserves_weight_gradient(
    layers: Seq<Layer>,
    wslot: Seq<usize>,
    datas: Seq<Seq<i64>>,
    grads: Seq<Seq<i64>>,
    wgrads: Seq<Seq<i64>>,
    start: int,
    k: nat,
    slot: int,
)
    requires
        0 <= slot < wgrads.len(),
        k <= start <= layers.len(),
        forall|l: int|
            0 <= l < layers.len() && (#[trigger] layers[l]).op is Linear ==> (layers[l].weights@[0]
                as int) < wslot.len() && (wslot[layers[l].weights@[0] as int] as int)
                < wgrads.len(),
        forall|l: int|
            0 <= l < layers.len() && (#[trigger] layers[l]).op is Linear && (wslot[layers[l].weights@[0] as int] as int)
                == slot ==> layers[l].skip_backward,
    ensures
        spec_backward_params_prefix(layers, wslot, datas, grads, wgrads, start, k).len()
            == wgrads.len(),
        spec_backward_params_prefix(layers, wslot, datas, grads, wgrads, start, k)[slot]
            == wgrads[slot],
    decreases k,
{
    if k == 0 {
        assert(spec_backward_params_prefix(layers, wslot, datas, grads, wgrads, start, 0nat)
            == wgrads);
    } else {
        lemma_skip_backward_preserves_weight_gradient(
            layers,
            wslot,
            datas,
            grads,
            wgrads,
            start,
            (k - 1) as nat,
            slot,
        );
        let prev = spec_backward_params_prefix(layers, wslot, datas, grads, wgrads, start, (k - 1) as nat);
        let l = layers[start - k];
        assert(spec_backward_params_prefix(layers, wslot, datas, grads, wgrads, start, k)
            == spec_layer_backward_params(l, wslot, datas, grads, prev));
        if !l.skip_backward {
            match l.op {
                LayerOp::Linear { batch, in_dim, out_dim } => {
                    assert((wslot[l.weights@[0] as int] as int) != slot);
                    assert(0 <= (wslot[l.weights@[0] as int] as int) < prev.len());
                    assert(spec_layer_backward_params(l, wslot, datas, grads, prev)[slot]
                        == prev[slot]);
                    assert(spec_layer_backward_params(l, wslot, datas, grads, prev).len()
                        == prev.len());
                },
                LayerOp::Relu { count } => {
                    assert(spec_layer_backward_params(l, wslot, datas, grads, prev) == prev);
                },
                LayerOp::AbsSumLoss { target } => {
                    assert(spec_layer_backward_params(l, wslot, datas, grads, prev) == prev);
                },
            }
        } else {
            assert(spec_layer_backward_params(l, wslot, datas, grads, prev) == prev);
        }
    }
}

/// Forward determinism: two forward runs over the same pipeline and the same
/// weights, with the same values standing in the input slots, produce the
/// same value in every input slot and every layer top — in particular the
/// same outputs — and the same scalar loss, whatever the intermediate
/// buffers held beforehand.  The wiring guarantee of construction supplies
/// the hypothesis that every bottom is an input slot or an earlier top.
pub proof fn lemma_forward_deterministic(
    layers: Seq<Layer>,
    wslot: Seq<usize>,
    wdatas: Seq<Seq<i64>>,
    ids: Seq<usize>,
    d1: Seq<Seq<i64>>,
    d2: Seq<Seq<i64>>,
    k: nat,
)
    requires
        d1.len() == d2.len(),
        k <= layers.len(),
        forall|i: int|
            0 <= i < ids.len() ==> (#[trigger] ids[i] as int) < d1.len() && d1[ids[i] as int]
                == d2[ids[i] as int],
        forall|l: int|
            0 <= l < layers.len() ==> (#[trigger] layers[l]).bottoms@.len() == 1
                && layers[l].tops@.len() == 1 && (layers[l].bottoms@[0] as int) < d1.len() && (
            layers[l].tops@[0] as int) < d1.len(),
        forall|l: int|
            0 <= l < layers.len() ==> ((exists|i: int|
                0 <= i < ids.len() && (#[trigger] ids[i] as int) == (#[trigger] layers[l]).bottoms@[0]
                    as int) || (exists|m: int|
                0 <= m < l && ((#[trigger] layers[m]).tops@[0] as int) == layers[l].bottoms@[0]
                    as int)),
    ensures
        spec_forward_prefix(layers, wslot, wdatas, d1, 0, k).1 == spec_forward_prefix(
            layers,
            wslot,
            wdatas,
            d2,
            0,
            k,
        ).1,
        spec_forward_prefix(layers, wslot, wdatas, d1, 0, k).0.len() == d1.len(),
        spec_forward_prefix(layers, wslot, wdatas, d2, 0, k).0.len() == d2.len(),
        forall|i: int|
            0 <= i < ids.len() ==> spec_forward_prefix(layers, wslot, wdatas, d1, 0, k).0[
                #[trigger] ids[i] as int] == spec_forward_prefix(layers, wslot, wdatas, d2, 0, k).0[
                ids[i] as int],
        forall|m: int|
            0 <= m < k ==> spec_forward_prefix(layers, wslot, wdatas, d1, 0, k).0[(
            #[trigger] layers[m]).tops@[0] as int] == spec_forward_prefix(
                layers,
                wslot,
                wdatas,
                d2,
                0,
                k,
            ).0[layers[m].tops@[0] as int],
    decreases k,
{
    if k > 0 {
        lemma_forward_deterministic(layers, wslot, wdatas, ids, d1, d2, (k - 1) as nat);
        let p1 = spec_forward_prefix(layers, wslot, wdatas, d1, 0, (k - 1) as nat);
        let p2 = spec_forward_prefix(layers, wslot, wdatas, d2, 0, (k - 1) as nat);
        let l = layers[k - 1];
        let b = l.bottoms@[0] as int;
        let t = l.tops@[0] as int;
        // the bottom values agree: the bottom is an input slot or the top of
        // an earlier layer, both covered by the induction hypothesis
        assert(p1.0[b] == p2.0[b]) by {
            if exists|i: int|
                0 <= i < ids.len() && (#[trigger] ids[i] as int) == (layers[k - 1]).bottoms@[0]
                    as int {
                let i = choose|i: int|
                    0 <= i < ids.len() && (#[trigger] ids[i] as int) == (layers[k - 1]).bottoms@[0]
                        as int;
                assert(p1.0[ids[i] as int] == p2.0[ids[i] as int]);
            } else {
                let m = choose|m: int|
                    0 <= m < k - 1 && ((#[trigger] layers[m]).tops@[0] as int) == layers[k
                        - 1].bottoms@[0] as int;
                assert(p1.0[layers[m].tops@[0] as int] == p2.0[layers[m].tops@[0] as int]);
            }
        }
        let s1 = spec_layer_forward(l, wslot, wdatas, p1.0);
        let s2 = spec_layer_forward(l, wslot, wdatas, p2.0);
        assert(s1.1 == s2.1 && s1.0 == p1.0.update(t, s1.0[t]) && s1.0[t] == s2.0[t]) by {
            match l.op {
                LayerOp::Linear { batch, in_dim, out_dim } => {},
                LayerOp::Relu { count } => {},
                LayerOp::AbsSumLoss { target } => {},
            }
        }
        assert forall|i: int|
            0 <= i < ids.len() implies s1.0[#[trigger] ids[i] as int] == s2.0[ids[i] as int] by {
            assert(p1.0[ids[i] as int] == p2.0[ids[i] as int]);
        }
        assert forall|m: int|
            0 <= m < k implies s1.0[(#[trigger] layers[m]).tops@[0] as int] == s2.0[layers[m].tops@[0]
            as int] by {
            if m < k - 1 {
                assert(p1.0[layers[m].tops@[0] as int] == p2.0[layers[m].tops@[0] as int]);
            }
        }
    }
}

} // verus!
