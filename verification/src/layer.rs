//! Layers: their configuration, their wired form, and the mathematics of
//! their forward and backward steps.
//!
//! A layer is a named computation unit with declared input buffer names
//! (bottoms), output buffer names (tops) and owned weights.  The set of layer
//! types is a closed enum; each type declares its structural requirements,
//! how its top shapes derive from its bottom shapes, and its forward and
//! backward arithmetic, all of which is stated here as spec functions that
//! the execution code is proved against.

use vstd::prelude::*;

verus! {

use crate::error::NetworkError;
use crate::network::{NetworkMode, NetworkState};
use crate::tensor::{wrap_add, wrap_mul, wrap_sub};
use crate::weight::WeightConfig;

/// What a layer computes, at the configuration level.
pub enum LayerKind {
    /// A fully-connected transform: from a bottom of shape `[batch, in]` and
    /// an owned weight of shape `[output_size, in]`, produces a top of shape
    /// `[batch, output_size]` whose entries are wrapping dot products.
    Linear {
        /// The size of the produced feature dimension.
        output_size: usize,
    },
    /// An elementwise rectifier: each element becomes `max(element, 0)`.
    /// The top shape equals the bottom shape, and the top may name the
    /// bottom for in-place computation.
    Relu,
    /// A loss layer: the wrapping sum of absolute differences between the
    /// bottom and a fixed target, produced as a one-element top and
    /// contributed to the scalar loss.
    AbsSumLoss {
        /// The fixed comparison target; its length must equal the bottom's
        /// element count.
        target: Vec<i64>,
    },
}

/// A rule keyed on the network state.  A rule matches when every constraint
/// it sets is met by the state.
pub struct LayerRule {
    /// When set, the state's mode must equal this mode.
    pub mode: Option<NetworkMode>,
    /// When set, the state's level must be at least this.
    pub min_level: Option<isize>,
    /// When set, the state's level must be at most this.
    pub max_level: Option<isize>,
    /// Every listed stage must be present among the state's stage tags.
    pub stages: Vec<String>,
}

/// The configuration of one layer.
pub struct LayerConfig {
    /// The layer's name.
    pub name: String,
    /// What the layer computes.
    pub kind: LayerKind,
    /// The names of the buffers the layer reads, in slot order.
    pub bottoms: Vec<String>,
    /// The names of the buffers the layer produces, in slot order.
    pub tops: Vec<String>,
    /// Configuration of the layer's weights.  May be left empty to accept
    /// the defaults; a layer type introduces its weights regardless.
    pub weights: Vec<WeightConfig>,
    /// Per-bottom switch cutting gradient propagation into that bottom.
    /// Empty means gradients propagate into every bottom.
    pub propagate_down: Vec<bool>,
    /// When non-empty, the layer is included only if some rule here matches
    /// the network state.
    pub include_rules: Vec<LayerRule>,
    /// When `include` is empty, the layer is excluded if some rule here
    /// matches the network state.
    pub exclude_rules: Vec<LayerRule>,
}

/// Whether the state carries a stage of the given name.
pub open spec fn spec_has_stage(s: NetworkState, stage_name: Seq<char>) -> bool {
    exists|j: int| 0 <= j < s.stage@.len() && s.stage@[j]@ == stage_name
}

/// Whether a rule matches a state.
pub open spec fn spec_rule_matches(r: LayerRule, s: NetworkState) -> bool {
    &&& match r.mode {
        Some(m) => m == s.mode,
        None => true,
    }
    &&& match r.min_level {
        Some(l) => s.level >= l,
        None => true,
    }
    &&& match r.max_level {
        Some(l) => s.level <= l,
        None => true,
    }
    &&& forall|i: int| 0 <= i < r.stages@.len() ==> spec_has_stage(s, #[trigger] r.stages@[i]@)
}

/// Whether a layer with these include/exclude rules is part of the graph
/// under the given state: included when some `include` rule matches, or, if
/// no `include` rules are declared, when no `exclude` rule matches.
pub open spec fn spec_layer_included(lc: LayerConfig, s: NetworkState) -> bool {
    if lc.include_rules@.len() == 0 {
        !(exists|i: int| 0 <= i < lc.exclude_rules@.len() && spec_rule_matches(#[trigger] lc.exclude_rules@[i], s))
    } else {
        exists|i: int| 0 <= i < lc.include_rules@.len() && spec_rule_matches(#[trigger] lc.include_rules@[i], s)
    }
}

/// Whether `name` occurs among `names`.
pub fn contains_name(names: &Vec<String>, name: &String) -> (r: bool)
    ensures
        r == exists|j: int| 0 <= j < names@.len() && names@[j]@ == name@,
{
    let mut i: usize = 0;
    while i < names.len()
        invariant
            i <= names.len(),
            forall|j: int| 0 <= j < i ==> names@[j]@ != name@,
        decreases names.len() - i,
    {
        if names[i].eq(name) {
            return true;
        }
        i = i + 1;
    }
    false
}

/// Whether a rule matches a state.
pub fn rule_matches(r: &LayerRule, s: &NetworkState) -> (m: bool)
    ensures
        m == spec_rule_matches(*r, *s),
{
    let mode_ok: bool = match r.mode {
        Some(mode) => mode == s.mode,
        None => true,
    };
    let min_ok: bool = match r.min_level {
        Some(l) => s.level >= l,
        None => true,
    };
    let max_ok: bool = match r.max_level {
        Some(l) => s.level <= l,
        None => true,
    };
    if !(mode_ok && min_ok && max_ok) {
        return false;
    }
    let mut i: usize = 0;
    while i < r.stages.len()
        invariant
            i <= r.stages@.len(),
            forall|k: int| 0 <= k < i ==> spec_has_stage(*s, #[trigger] r.stages@[k]@),
        decreases r.stages@.len() - i,
    {
        let present = contains_name(&s.stage, &r.stages[i]);
        proof {
            assert(present == spec_has_stage(*s, r.stages@[i as int]@));
        }
        if !present {
            proof {
                assert(!spec_rule_matches(*r, *s));
            }
            return false;
        }
        i = i + 1;
    }
    proof {
        assert(forall|k: int| 0 <= k < r.stages@.len() ==> spec_has_stage(
            *s,
            #[trigger] r.stages@[k]@,
        ));
        assert(spec_rule_matches(*r, *s));
    }
    true
}

/// Whether a layer with these include/exclude rules is part of the graph
/// under the given state.
pub fn layer_included(lc: &LayerConfig, s: &NetworkState) -> (r: bool)
    ensures
        r == spec_layer_included(*lc, *s),
{
    if lc.include_rules.len() == 0 {
        let mut i: usize = 0;
        while i < lc.exclude_rules.len()
            invariant
                lc.include_rules@.len() == 0,
                i <= lc.exclude_rules@.len(),
                forall|j: int| 0 <= j < i ==> !spec_rule_matches(#[trigger] lc.exclude_rules@[j], *s),
            decreases lc.exclude_rules@.len() - i,
        {
            if rule_matches(&lc.exclude_rules[i], s) {
                proof {
                    assert(spec_rule_matches(lc.exclude_rules@[i as int], *s));
                    assert(exists|k: int|
                        0 <= k < lc.exclude_rules@.len() && spec_rule_matches(
                            #[trigger] lc.exclude_rules@[k],
                            *s,
                        ));
                }
                return false;
            }
            i = i + 1;
        }
        true
    } else {
        let mut i: usize = 0;
        while i < lc.include_rules.len()
            invariant
                lc.include_rules@.len() > 0,
                i <= lc.include_rules@.len(),
                forall|j: int| 0 <= j < i ==> !spec_rule_matches(#[trigger] lc.include_rules@[j], *s),
            decreases lc.include_rules@.len() - i,
        {
            if rule_matches(&lc.include_rules[i], s) {
                proof {
                    assert(spec_rule_matches(lc.include_rules@[i as int], *s));
                    assert(exists|k: int|
                        0 <= k < lc.include_rules@.len() && spec_rule_matches(
                            #[trigger] lc.include_rules@[k],
                            *s,
                        ));
                }
                return true;
            }
            i = i + 1;
        }
        false
    }
}

/// The gradient-propagation switch for bottom `j`: an empty declaration
/// means every bottom propagates.
pub open spec fn spec_propagate_down(lc: LayerConfig, j: int) -> bool {
    if lc.propagate_down@.len() == 0 {
        true
    } else {
        lc.propagate_down@[j]
    }
}

/// The layer-type-independent and layer-type-specific structural checks a
/// configuration must pass before wiring: slot counts, weight counts, and a
/// positive feature dimension for the fully-connected type.
pub open spec fn spec_config_valid(lc: LayerConfig) -> bool {
    &&& lc.bottoms@.len() == 1
    &&& lc.tops@.len() == 1
    &&& (lc.propagate_down@.len() == 0 || lc.propagate_down@.len() == lc.bottoms@.len())
    &&& match lc.kind {
        LayerKind::Linear { output_size } => output_size >= 1 && lc.weights@.len() <= 1,
        LayerKind::Relu => lc.weights@.len() == 0,
        LayerKind::AbsSumLoss { target } => lc.weights@.len() == 0,
    }
}

impl LayerConfig {
    /// Validates the structural parts of this configuration that do not
    /// depend on wiring: succeeds exactly when the declared slot and weight
    /// counts fit the layer type.
    pub fn validate(&self) -> (r: Result<(), NetworkError>)
        ensures
            r is Ok <==> spec_config_valid(*self),
            r matches Err(e) ==> (e matches NetworkError::InvalidLayer { layer } && layer@
                == self.name@),
    {
        let counts_ok: bool = self.bottoms.len() == 1 && self.tops.len() == 1 && (
        self.propagate_down.len() == 0 || self.propagate_down.len() == self.bottoms.len());
        let kind_ok: bool = match &self.kind {
            LayerKind::Linear { output_size } => *output_size >= 1 && self.weights.len() <= 1,
            LayerKind::Relu => self.weights.len() == 0,
            LayerKind::AbsSumLoss { target } => self.weights.len() == 0,
        };
        if counts_ok && kind_ok {
            Ok(())
        } else {
            Err(NetworkError::InvalidLayer { layer: self.name.clone() })
        }
    }
}

/// What a wired layer computes, with every dimension resolved against the
/// shapes it was connected to.
pub enum LayerOp {
    /// A fully-connected transform over a `[batch, in_dim]` bottom with a
    /// `[out_dim, in_dim]` weight, producing a `[batch, out_dim]` top.
    Linear {
        /// The bottom's leading extent.
        batch: usize,
        /// The bottom's feature extent.
        in_dim: usize,
        /// The top's feature extent.
        out_dim: usize,
    },
    /// An elementwise rectifier over `count` elements.
    Relu {
        /// The element count of both the bottom and the top.
        count: usize,
    },
    /// A loss comparing the bottom against a fixed target.
    AbsSumLoss {
        /// The fixed comparison target, one element per bottom element.
        target: Vec<i64>,
    },
}

/// A wired layer: its buffer slots are indices into the network's buffer
/// arena, its weights are indices into the network's weight tables.
pub struct Layer {
    /// The layer's name.
    pub name: String,
    /// What the layer computes, with resolved dimensions.
    pub op: LayerOp,
    /// The buffer slot each bottom was bound to.
    pub bottoms: Vec<usize>,
    /// The declared name of each bottom.
    pub bottom_names: Vec<String>,
    /// The buffer slot each top was bound to.
    pub tops: Vec<usize>,
    /// The declared name of each top.
    pub top_names: Vec<String>,
    /// Per top, whether it aliases a bottom slot (in-place computation) —
    /// an explicit record of the aliasing decision made while wiring.
    pub in_place: Vec<bool>,
    /// The network-level weight id of each weight this layer owns.
    pub weights: Vec<usize>,
    /// Per bottom, the configured gradient-propagation switch, as declared
    /// (the backward walk combines it with loss reachability).
    pub propagate: Vec<bool>,
    /// Per bottom, whether gradients must be propagated into it.
    pub bottom_need_backward: Vec<bool>,
    /// When set, the whole backward computation of this layer is skipped:
    /// no input of the layer needs a gradient.
    pub skip_backward: bool,
}

use crate::math::{dot_strided, dot_wrap, lemma_flat_decode, lemma_flat_index};

/// The forward result of a fully-connected transform: entry `b * out_dim + o`
/// is the wrapping dot product of weight row `o` with bottom row `b`.
pub open spec fn spec_linear_forward(
    w: Seq<i64>,
    x: Seq<i64>,
    batch: nat,
    in_dim: nat,
    out_dim: nat,
) -> Seq<i64> {
    Seq::new(
        batch * out_dim,
        |i: int|
            dot_wrap(
                w,
                (i % (out_dim as int)) * (in_dim as int),
                1,
                x,
                (i / (out_dim as int)) * (in_dim as int),
                1,
                in_dim,
            ),
    )
}

/// The forward result of the rectifier: each element clamped below at zero.
pub open spec fn spec_relu_forward(x: Seq<i64>) -> Seq<i64> {
    Seq::new(x.len(), |i: int| if x[i] > 0 { x[i] } else { 0i64 })
}

/// The wrapping absolute difference of two scalars.
pub open spec fn spec_abs_diff(x: i64, t: i64) -> i64 {
    if x >= t {
        wrap_sub(x, t)
    } else {
        wrap_sub(t, x)
    }
}

/// The wrapping sum of the first `n` absolute differences between `x` and
/// `t`, accumulated in order of increasing index.
pub open spec fn spec_abs_sum(x: Seq<i64>, t: Seq<i64>, n: nat) -> i64
    decreases n,
{
    if n == 0 {
        0i64
    } else {
        wrap_add(spec_abs_sum(x, t, (n - 1) as nat), spec_abs_diff(x[n - 1], t[n - 1]))
    }
}

/// The sign of `x - t`, computed by comparison and hence exact.
pub open spec fn spec_sign_diff(x: i64, t: i64) -> i64 {
    if x > t {
        1i64
    } else if x < t {
        -1i64
    } else {
        0i64
    }
}

/// The bottom gradient of a fully-connected transform: entry `b * in_dim + k`
/// is the wrapping dot product of weight column `k` with the top-gradient
/// row `b`.
pub open spec fn spec_linear_backward_input(
    w: Seq<i64>,
    gy: Seq<i64>,
    batch: nat,
    in_dim: nat,
    out_dim: nat,
) -> Seq<i64> {
    Seq::new(
        batch * in_dim,
        |i: int|
            dot_wrap(
                w,
                i % (in_dim as int),
                in_dim as int,
                gy,
                (i / (in_dim as int)) * (out_dim as int),
                1,
                out_dim,
            ),
    )
}

/// The bottom gradient of the rectifier: the top gradient where the top data
/// is positive, zero elsewhere.
pub open spec fn spec_relu_backward(y: Seq<i64>, gy: Seq<i64>) -> Seq<i64> {
    Seq::new(gy.len(), |i: int| if y[i] > 0 { gy[i] } else { 0i64 })
}

/// The bottom gradient the loss layer seeds: the sign of each difference
/// between the bottom and the target.
pub open spec fn spec_abs_loss_backward(x: Seq<i64>, t: Seq<i64>) -> Seq<i64> {
    Seq::new(t.len(), |i: int| spec_sign_diff(x[i], t[i]))
}

/// The accumulated weight gradient of a fully-connected transform: entry
/// `o * in_dim + k` of the old gradient, plus the wrapping dot product over
/// the batch of top-gradient column `o` with bottom column `k`.
pub open spec fn spec_linear_weight_gradient(
    gw: Seq<i64>,
    gy: Seq<i64>,
    x: Seq<i64>,
    batch: nat,
    in_dim: nat,
    out_dim: nat,
) -> Seq<i64> {
    Seq::new(
        out_dim * in_dim,
        |j: int|
            wrap_add(
                gw[j],
                dot_wrap(
                    gy,
                    j / (in_dim as int),
                    out_dim as int,
                    x,
                    j % (in_dim as int),
                    in_dim as int,
                    batch,
                ),
            ),
    )
}

/// Computes [`spec_linear_forward`].
pub fn linear_forward(w: &Vec<i64>, x: &Vec<i64>, batch: usize, in_dim: usize, out_dim: usize) -> (y:
    Vec<i64>)
    requires
        batch >= 1,
        in_dim >= 1,
        out_dim >= 1,
        w@.len() == out_dim * in_dim,
        x@.len() == batch * in_dim,
        batch * out_dim <= usize::MAX,
    ensures
        y@ == spec_linear_forward(w@, x@, batch as nat, in_dim as nat, out_dim as nat),
{
    let ghost result = spec_linear_forward(w@, x@, batch as nat, in_dim as nat, out_dim as nat);
    let w_len: usize = w.len();
    let x_len: usize = x.len();
    let mut y: Vec<i64> = Vec::new();
    let mut b: usize = 0;
    while b < batch
        invariant
            b <= batch,
            batch >= 1 && in_dim >= 1 && out_dim >= 1,
            w@.len() == out_dim * in_dim,
            x@.len() == batch * in_dim,
            batch * out_dim <= usize::MAX,
            out_dim * in_dim <= usize::MAX,
            batch * in_dim <= usize::MAX,
            result == spec_linear_forward(w@, x@, batch as nat, in_dim as nat, out_dim as nat),
            y@.len() == b * out_dim,
            forall|i: int| 0 <= i < y@.len() ==> y@[i] == result[i],
        decreases batch - b,
    {
        let mut o: usize = 0;
        proof {
            lemma_flat_index(b as int, 0, batch as int, out_dim as int);
        }
        while o < out_dim
            invariant
                b < batch,
                o <= out_dim,
                batch >= 1 && in_dim >= 1 && out_dim >= 1,
                w@.len() == out_dim * in_dim,
                x@.len() == batch * in_dim,
                batch * out_dim <= usize::MAX,
                out_dim * in_dim <= usize::MAX,
                batch * in_dim <= usize::MAX,
                result == spec_linear_forward(w@, x@, batch as nat, in_dim as nat, out_dim as nat),
                y@.len() == b * out_dim + o,
                forall|i: int| 0 <= i < y@.len() ==> y@[i] == result[i],
            decreases out_dim - o,
        {
            proof {
                lemma_flat_index(o as int, in_dim - 1, out_dim as int, in_dim as int);
                lemma_flat_index(b as int, in_dim - 1, batch as int, in_dim as int);
                crate::math::lemma_dot_bounds(
                    (o * in_dim) as int,
                    1,
                    in_dim as int,
                    w@.len() as int,
                );
                crate::math::lemma_dot_bounds(
                    (b * in_dim) as int,
                    1,
                    in_dim as int,
                    x@.len() as int,
                );
            }
            let v: i64 = dot_strided(w, o * in_dim, 1, x, b * in_dim, 1, in_dim);
            proof {
                lemma_flat_index(b as int, o as int, batch as int, out_dim as int);
                lemma_flat_decode(b as int, o as int, out_dim as int);
                assert(result[b * out_dim + o] == v);
            }
            y.push(v);
            o = o + 1;
        }
        b = b + 1;
        proof {
            assert((b - 1) * out_dim + out_dim == b as int * out_dim as int) by (nonlinear_arith);
        }
    }
    proof {
        assert(y@ =~= result);
    }
    y
}

/// Computes [`spec_relu_forward`].
pub fn relu_forward(x: &Vec<i64>) -> (y: Vec<i64>)
    ensures
        y@ == spec_relu_forward(x@),
{
    let mut y: Vec<i64> = Vec::new();
    let mut i: usize = 0;
    while i < x.len()
        invariant
            i <= x@.len(),
            y@.len() == i,
            forall|k: int| 0 <= k < i ==> y@[k] == spec_relu_forward(x@)[k],
        decreases x@.len() - i,
    {
        let v: i64 = x[i];
        if v > 0 {
            y.push(v);
        } else {
            y.push(0);
        }
        i = i + 1;
    }
    proof {
        assert(y@ =~= spec_relu_forward(x@));
    }
    y
}

/// Computes [`spec_abs_sum`] over the whole extent of `x` and `t`.
pub fn abs_sum_loss(x: &Vec<i64>, t: &Vec<i64>) -> (loss: i64)
    requires
        x@.len() == t@.len(),
    ensures
        loss == spec_abs_sum(x@, t@, t@.len()),
{
    let mut acc: i64 = 0;
    let mut i: usize = 0;
    while i < t.len()
        invariant
            i <= t@.len(),
            x@.len() == t@.len(),
            acc == spec_abs_sum(x@, t@, i as nat),
        decreases t@.len() - i,
    {
        let xi: i64 = x[i];
        let ti: i64 = t[i];
        let d: i64 = if xi >= ti {
            xi.wrapping_sub(ti)
        } else {
            ti.wrapping_sub(xi)
        };
        acc = acc.wrapping_add(d);
        i = i + 1;
    }
    acc
}

/// Computes [`spec_linear_backward_input`].
pub fn linear_backward_input(
    w: &Vec<i64>,
    gy: &Vec<i64>,
    batch: usize,
    in_dim: usize,
    out_dim: usize,
) -> (gx: Vec<i64>)
    requires
        batch >= 1,
        in_dim >= 1,
        out_dim >= 1,
        w@.len() == out_dim * in_dim,
        gy@.len() == batch * out_dim,
        batch * in_dim <= usize::MAX,
    ensures
        gx@ == spec_linear_backward_input(w@, gy@, batch as nat, in_dim as nat, out_dim as nat),
{
    let ghost result = spec_linear_backward_input(
        w@,
        gy@,
        batch as nat,
        in_dim as nat,
        out_dim as nat,
    );
    let w_len: usize = w.len();
    let gy_len: usize = gy.len();
    let mut gx: Vec<i64> = Vec::new();
    let mut b: usize = 0;
    while b < batch
        invariant
            b <= batch,
            batch >= 1 && in_dim >= 1 && out_dim >= 1,
            w@.len() == out_dim * in_dim,
            gy@.len() == batch * out_dim,
            batch * in_dim <= usize::MAX,
            out_dim * in_dim <= usize::MAX,
            batch * out_dim <= usize::MAX,
            result == spec_linear_backward_input(
                w@,
                gy@,
                batch as nat,
                in_dim as nat,
                out_dim as nat,
            ),
            gx@.len() == b * in_dim,
            forall|i: int| 0 <= i < gx@.len() ==> gx@[i] == result[i],
        decreases batch - b,
    {
        let mut k: usize = 0;
        while k < in_dim
            invariant
                b < batch,
                k <= in_dim,
                batch >= 1 && in_dim >= 1 && out_dim >= 1,
                w@.len() == out_dim * in_dim,
                gy@.len() == batch * out_dim,
                batch * in_dim <= usize::MAX,
                out_dim * in_dim <= usize::MAX,
                batch * out_dim <= usize::MAX,
                result == spec_linear_backward_input(
                    w@,
                    gy@,
                    batch as nat,
                    in_dim as nat,
                    out_dim as nat,
                ),
                gx@.len() == b * in_dim + k,
                forall|i: int| 0 <= i < gx@.len() ==> gx@[i] == result[i],
            decreases in_dim - k,
        {
            proof {
                lemma_flat_index(out_dim - 1, k as int, out_dim as int, in_dim as int);
                lemma_flat_index(b as int, out_dim - 1, batch as int, out_dim as int);
                crate::math::lemma_dot_bounds(
                    k as int,
                    in_dim as int,
                    out_dim as int,
                    w@.len() as int,
                );
                crate::math::lemma_dot_bounds(
                    (b * out_dim) as int,
                    1,
                    out_dim as int,
                    gy@.len() as int,
                );
            }
            let v: i64 = dot_strided(w, k, in_dim, gy, b * out_dim, 1, out_dim);
            proof {
                lemma_flat_index(b as int, k as int, batch as int, in_dim as int);
                lemma_flat_decode(b as int, k as int, in_dim as int);
                assert(result[b * in_dim + k] == v);
            }
            gx.push(v);
            k = k + 1;
        }
        b = b + 1;
        proof {
            assert((b - 1) * in_dim + in_dim == b as int * in_dim as int) by (nonlinear_arith);
        }
    }
    proof {
        assert(gx@ =~= result);
    }
    gx
}

/// Computes [`spec_relu_backward`].
pub fn relu_backward(y: &Vec<i64>, gy: &Vec<i64>) -> (gx: Vec<i64>)
    requires
        y@.len() == gy@.len(),
    ensures
        gx@ == spec_relu_backward(y@, gy@),
{
    let mut gx: Vec<i64> = Vec::new();
    let mut i: usize = 0;
    while i < gy.len()
        invariant
            i <= gy@.len(),
            y@.len() == gy@.len(),
            gx@.len() == i,
            forall|k: int| 0 <= k < i ==> gx@[k] == spec_relu_backward(y@, gy@)[k],
        decreases gy@.len() - i,
    {
        if y[i] > 0 {
            gx.push(gy[i]);
        } else {
            gx.push(0);
        }
        i = i + 1;
    }
    proof {
        assert(gx@ =~= spec_relu_backward(y@, gy@));
    }
    gx
}

/// Computes [`spec_abs_loss_backward`].
pub fn abs_loss_backward(x: &Vec<i64>, t: &Vec<i64>) -> (gx: Vec<i64>)
    requires
        x@.len() == t@.len(),
    ensures
        gx@ == spec_abs_loss_backward(x@, t@),
{
    let mut gx: Vec<i64> = Vec::new();
    let mut i: usize = 0;
    while i < t.len()
        invariant
            i <= t@.len(),
            x@.len() == t@.len(),
            gx@.len() == i,
            forall|k: int| 0 <= k < i ==> gx@[k] == spec_abs_loss_backward(x@, t@)[k],
        decreases t@.len() - i,
    {
        let xi: i64 = x[i];
        let ti: i64 = t[i];
        if xi > ti {
            gx.push(1);
        } else if xi < ti {
            gx.push(-1);
        } else {
            gx.push(0);
        }
        i = i + 1;
    }
    proof {
        assert(gx@ =~= spec_abs_loss_backward(x@, t@));
    }
    gx
}

/// Computes [`spec_linear_weight_gradient`].
pub fn linear_weight_gradient(
    gw: &Vec<i64>,
    gy: &Vec<i64>,
    x: &Vec<i64>,
    batch: usize,
    in_dim: usize,
    out_dim: usize,
) -> (r: Vec<i64>)
    requires
        batch >= 1,
        in_dim >= 1,
        out_dim >= 1,
        gw@.len() == out_dim * in_dim,
        gy@.len() == batch * out_dim,
        x@.len() == batch * in_dim,
    ensures
        r@ == spec_linear_weight_gradient(
            gw@,
            gy@,
            x@,
            batch as nat,
            in_dim as nat,
            out_dim as nat,
        ),
{
    let ghost result = spec_linear_weight_gradient(
        gw@,
        gy@,
        x@,
        batch as nat,
        in_dim as nat,
        out_dim as nat,
    );
    let gw_len: usize = gw.len();
    let gy_len: usize = gy.len();
    let x_len: usize = x.len();
    let mut r: Vec<i64> = Vec::new();
    let mut o: usize = 0;
    while o < out_dim
        invariant
            o <= out_dim,
            batch >= 1 && in_dim >= 1 && out_dim >= 1,
            gw@.len() == out_dim * in_dim,
            gy@.len() == batch * out_dim,
            x@.len() == batch * in_dim,
            out_dim * in_dim <= usize::MAX,
            batch * out_dim <= usize::MAX,
            batch * in_dim <= usize::MAX,
            result == spec_linear_weight_gradient(
                gw@,
                gy@,
                x@,
                batch as nat,
                in_dim as nat,
                out_dim as nat,
            ),
            r@.len() == o * in_dim,
            forall|i: int| 0 <= i < r@.len() ==> r@[i] == result[i],
        decreases out_dim - o,
    {
        let mut k: usize = 0;
        while k < in_dim
            invariant
                o < out_dim,
                k <= in_dim,
                batch >= 1 && in_dim >= 1 && out_dim >= 1,
                gw@.len() == out_dim * in_dim,
                gy@.len() == batch * out_dim,
                x@.len() == batch * in_dim,
                out_dim * in_dim <= usize::MAX,
                batch * out_dim <= usize::MAX,
                batch * in_dim <= usize::MAX,
                result == spec_linear_weight_gradient(
                    gw@,
                    gy@,
                    x@,
                    batch as nat,
                    in_dim as nat,
                    out_dim as nat,
                ),
                r@.len() == o * in_dim + k,
                forall|i: int| 0 <= i < r@.len() ==> r@[i] == result[i],
            decreases in_dim - k,
        {
            proof {
                lemma_flat_index(batch - 1, o as int, batch as int, out_dim as int);
                lemma_flat_index(batch - 1, k as int, batch as int, in_dim as int);
                crate::math::lemma_dot_bounds(
                    o as int,
                    out_dim as int,
                    batch as int,
                    gy@.len() as int,
                );
                crate::math::lemma_dot_bounds(
                    k as int,
                    in_dim as int,
                    batch as int,
                    x@.len() as int,
                );
            }
            let v: i64 = dot_strided(gy, o, out_dim, x, k, in_dim, batch);
            proof {
                lemma_flat_index(o as int, k as int, out_dim as int, in_dim as int);
                lemma_flat_decode(o as int, k as int, in_dim as int);
                assert(result[o * in_dim + k] == gw@[o * in_dim + k].wrapping_add(v));
            }
            let j: usize = o * in_dim + k;
            r.push(gw[j].wrapping_add(v));
            k = k + 1;
        }
        o = o + 1;
        proof {
            assert((o - 1) * in_dim + in_dim == o as int * in_dim as int) by (nonlinear_arith);
        }
    }
    proof {
        assert(r@ =~= result);
    }
    r
}

/// Well-formedness of a wired layer against the buffer arena (`datas`, one
/// entry of values per slot) and the weight tables (`wslot` maps weight ids
/// to storage slots, `wdatas` holds each storage slot's values): every index
/// is in range and every dimension matches the values it describes.
pub open spec fn layer_wf(
    l: Layer,
    datas: Seq<Seq<i64>>,
    wslot: Seq<usize>,
    wdatas: Seq<Seq<i64>>,
) -> bool {
    &&& l.bottoms@.len() == 1
    &&& l.tops@.len() == 1
    &&& l.bottom_names@.len() == 1
    &&& l.top_names@.len() == 1
    &&& l.in_place@.len() == 1
    &&& l.propagate@.len() == 1
    &&& l.bottom_need_backward@.len() == 1
    &&& (l.bottoms@[0] as int) < datas.len()
    &&& (l.tops@[0] as int) < datas.len()
    &&& match l.op {
        LayerOp::Linear { batch, in_dim, out_dim } => {
            &&& l.weights@.len() == 1
            &&& (l.weights@[0] as int) < wslot.len()
            &&& (wslot[l.weights@[0] as int] as int) < wdatas.len()
            &&& batch >= 1
            &&& in_dim >= 1
            &&& out_dim >= 1
            &&& datas[l.bottoms@[0] as int].len() == batch * in_dim
            &&& datas[l.tops@[0] as int].len() == batch * out_dim
            &&& wdatas[wslot[l.weights@[0] as int] as int].len() == out_dim * in_dim
            &&& l.tops@[0] != l.bottoms@[0]
        },
        LayerOp::Relu { count } => {
            &&& l.weights@.len() == 0
            &&& datas[l.bottoms@[0] as int].len() == count
            &&& datas[l.tops@[0] as int].len() == count
        },
        LayerOp::AbsSumLoss { target } => {
            &&& l.weights@.len() == 0
            &&& datas[l.bottoms@[0] as int].len() == target@.len()
            &&& datas[l.tops@[0] as int].len() == 1
            &&& l.tops@[0] != l.bottoms@[0]
        },
    }
}

/// Whether a layer is a loss layer: its forward step contributes to the
/// scalar loss.
pub open spec fn spec_is_loss(l: Layer) -> bool {
    l.op is AbsSumLoss
}

/// One layer's forward step at the spec level: the buffer values after the
/// step, and the layer's contribution to the scalar loss.
pub open spec fn spec_layer_forward(
    l: Layer,
    wslot: Seq<usize>,
    wdatas: Seq<Seq<i64>>,
    datas: Seq<Seq<i64>>,
) -> (Seq<Seq<i64>>, i64) {
    match l.op {
        LayerOp::Linear { batch, in_dim, out_dim } => {
            let x = datas[l.bottoms@[0] as int];
            let w = wdatas[wslot[l.weights@[0] as int] as int];
            (
                datas.update(
                    l.tops@[0] as int,
                    spec_linear_forward(w, x, batch as nat, in_dim as nat, out_dim as nat),
                ),
                0i64,
            )
        },
        LayerOp::Relu { count } => {
            let x = datas[l.bottoms@[0] as int];
            (datas.update(l.tops@[0] as int, spec_relu_forward(x)), 0i64)
        },
        LayerOp::AbsSumLoss { target } => {
            let x = datas[l.bottoms@[0] as int];
            let v = spec_abs_sum(x, target@, target@.len());
            (datas.update(l.tops@[0] as int, seq![v]), v)
        },
    }
}

/// One layer's input-gradient step at the spec level: the gradient values
/// after the step.  A layer flagged to skip backward, or whose bottom does
/// not need a gradient, changes nothing.
pub open spec fn spec_layer_backward_input(
    l: Layer,
    wslot: Seq<usize>,
    wdatas: Seq<Seq<i64>>,
    datas: Seq<Seq<i64>>,
    grads: Seq<Seq<i64>>,
) -> Seq<Seq<i64>> {
    if l.skip_backward || !l.bottom_need_backward@[0] {
        grads
    } else {
        match l.op {
            LayerOp::Linear { batch, in_dim, out_dim } => {
                let w = wdatas[wslot[l.weights@[0] as int] as int];
                let gy = grads[l.tops@[0] as int];
                grads.update(
                    l.bottoms@[0] as int,
                    spec_linear_backward_input(w, gy, batch as nat, in_dim as nat, out_dim as nat),
                )
            },
            LayerOp::Relu { count } => {
                let y = datas[l.tops@[0] as int];
                let gy = grads[l.tops@[0] as int];
                grads.update(l.bottoms@[0] as int, spec_relu_backward(y, gy))
            },
            LayerOp::AbsSumLoss { target } => {
                let x = datas[l.bottoms@[0] as int];
                grads.update(l.bottoms@[0] as int, spec_abs_loss_backward(x, target@))
            },
        }
    }
}

/// One layer's parameter-gradient step at the spec level: the weight-storage
/// gradient values after the step.  Gradients accumulate into the weight's
/// storage slot; a layer flagged to skip backward, or without weights,
/// changes nothing.
pub open spec fn spec_layer_backward_params(
    l: Layer,
    wslot: Seq<usize>,
    datas: Seq<Seq<i64>>,
    grads: Seq<Seq<i64>>,
    wgrads: Seq<Seq<i64>>,
) -> Seq<Seq<i64>> {
    if l.skip_backward {
        wgrads
    } else {
        match l.op {
            LayerOp::Linear { batch, in_dim, out_dim } => {
                let slot = wslot[l.weights@[0] as int] as int;
                let x = datas[l.bottoms@[0] as int];
                let gy = grads[l.tops@[0] as int];
                wgrads.update(
                    slot,
                    spec_linear_weight_gradient(
                        wgrads[slot],
                        gy,
                        x,
                        batch as nat,
                        in_dim as nat,
                        out_dim as nat,
                    ),
                )
            },
            LayerOp::Relu { count } => wgrads,
            LayerOp::AbsSumLoss { target } => wgrads,
        }
    }
}

} // verus!
