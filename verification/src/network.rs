//! The network: its configuration surface, its state, and the container
//! owning the wired layer pipeline, the buffer arena and the weight tables.

use vstd::prelude::*;

verus! {

use vstd::string::StringExecFns;

use crate::layer::LayerConfig;

/// The possible modes a network can be in.  Some layers may be included or
/// excluded depending on the mode.
#[derive(Clone, Copy, Debug, PartialEq, Eq, Structural)]
pub enum NetworkMode {
    /// The network is being trained.
    Train,
    /// The network is being evaluated.
    Test,
}

/// The state of a network: mode, level and stage tags.  It is consulted once,
/// at construction, to decide which layers are included in the graph.
pub struct NetworkState {
    /// The current mode of the network.
    pub mode: NetworkMode,
    /// A free-form level; layer rules may bound it from below or above.
    pub level: isize,
    /// Free-form stage tags; a layer rule may demand some of them.
    pub stage: Vec<String>,
}

impl Default for NetworkState {
    /// Test mode, level 0, no stages.
    fn default() -> (s: NetworkState)
        ensures
            s.mode == NetworkMode::Test,
            s.level == 0isize,
            s.stage@ == Seq::<String>::empty(),
    {
        NetworkState { mode: NetworkMode::Test, level: 0, stage: Vec::new() }
    }
}

/// The configuration of a network: named external inputs with their shapes,
/// an ordered list of layer configurations, and build-time switches.
pub struct NetworkConfig {
    /// The name of the network.
    pub name: String,
    /// The names of the external input buffers, in order.
    pub inputs: Vec<String>,
    /// The shapes of the external input buffers, positionally paired with
    /// `inputs`.
    pub input_shapes: Vec<Vec<usize>>,
    /// When set, every layer computes backward regardless of whether its
    /// inputs contribute to the loss.
    pub force_backward: bool,
    /// The state deciding which layers are included, resolved once at build
    /// time.
    pub state: NetworkState,
    /// Whether to report debugging information about results.
    pub debug_info: bool,
    /// The layers of the network, in order.
    pub layers: Vec<LayerConfig>,
}

impl Default for NetworkConfig {
    /// An empty network: no inputs, no layers, nothing forced.
    fn default() -> (c: NetworkConfig)
        ensures
            c.name@ == Seq::<char>::empty(),
            c.inputs@ == Seq::<String>::empty(),
            c.input_shapes@ == Seq::<Vec<usize>>::empty(),
            !c.force_backward,
            c.state.mode == NetworkMode::Test,
            c.state.level == 0isize,
            c.state.stage@ == Seq::<String>::empty(),
            !c.debug_info,
            c.layers@ == Seq::<LayerConfig>::empty(),
    {
        NetworkConfig {
            name: String::new(),
            inputs: Vec::new(),
            input_shapes: Vec::new(),
            force_backward: false,
            state: NetworkState::default(),
            debug_info: false,
            layers: Vec::new(),
        }
    }
}

impl NetworkConfig {
    /// The layer configuration at `layer_id`, if there is one.
    pub fn layer(&self, layer_id: usize) -> (r: Option<&LayerConfig>)
        ensures
            match r {
                Some(lc) => layer_id < self.layers@.len() && *lc == self.layers@[layer_id as int],
                None => layer_id >= self.layers@.len(),
            },
    {
        if layer_id < self.layers.len() {
            Some(&self.layers[layer_id])
        } else {
            None
        }
    }

    /// Appends a layer at the end of the network.
    pub fn add_layer(&mut self, layer: LayerConfig)
        ensures
            final(self).layers@ == old(self).layers@.push(layer),
            final(self).name == old(self).name,
            final(self).inputs == old(self).inputs,
            final(self).input_shapes == old(self).input_shapes,
            final(self).force_backward == old(self).force_backward,
            final(self).state == old(self).state,
            final(self).debug_info == old(self).debug_info,
    {
        self.layers.push(layer);
    }

    /// The input name at `input_id`, if there is one.
    pub fn input(&self, input_id: usize) -> (r: Option<&String>)
        ensures
            match r {
                Some(n) => input_id < self.inputs@.len() && *n == self.inputs@[input_id as int],
                None => input_id >= self.inputs@.len(),
            },
    {
        if input_id < self.inputs.len() {
            Some(&self.inputs[input_id])
        } else {
            None
        }
    }

    /// The input shape at `input_id`, if there is one.
    pub fn input_shape(&self, input_id: usize) -> (r: Option<&Vec<usize>>)
        ensures
            match r {
                Some(s) => input_id < self.input_shapes@.len() && *s == self.input_shapes@[input_id as int],
                None => input_id >= self.input_shapes@.len(),
            },
    {
        if input_id < self.input_shapes.len() {
            Some(&self.input_shapes[input_id])
        } else {
            None
        }
    }

    /// Appends an external input with its shape.
    pub fn add_input(&mut self, input_name: &str, shape: &Vec<usize>)
        ensures
            final(self).inputs@.len() == old(self).inputs@.len() + 1,
            final(self).inputs@.last()@ == input_name@,
            final(self).inputs@.take(old(self).inputs@.len() as int) == old(self).inputs@,
            final(self).input_shapes@.len() == old(self).input_shapes@.len() + 1,
            final(self).input_shapes@.last()@ == shape@,
            final(self).input_shapes@.take(old(self).input_shapes@.len() as int) == old(self).input_shapes@,
            final(self).name == old(self).name,
            final(self).force_backward == old(self).force_backward,
            final(self).state == old(self).state,
            final(self).debug_info == old(self).debug_info,
            final(self).layers == old(self).layers,
    {
        self.inputs.push(String::from_str(input_name));
        self.input_shapes.push(crate::tensor::copy_usize_vec(shape));
        proof {
            assert(self.inputs@.take(old(self).inputs@.len() as int) =~= old(self).inputs@);
            assert(self.input_shapes@.take(old(self).input_shapes@.len() as int) =~= old(self).input_shapes@);
        }
    }
}


use crate::layer::{Layer, layer_wf};
use crate::tensor::Tensor;

/// A wired network: the ordered layer pipeline, the buffer arena (one
/// data tensor and one gradient tensor per slot, registered under a unique
/// name), and the weight tables.
///
/// Weight id `i` stores its values in storage slot `weights[i]`; after
/// weight sharing is resolved, a weight declared to alias owner `j` has
/// `weights[i] == weights[j]`, so both read and write one underlying buffer.
/// The learnable list holds the ids that own their storage, in graph order,
/// so an update touches each underlying buffer exactly once.
pub struct Network {
    /// Identifies the network.
    pub name: String,
    /// The wired layers, in execution order.
    pub layers: Vec<Layer>,
    /// Per buffer slot, the data tensor.
    pub blobs_data: Vec<Tensor>,
    /// Per buffer slot, the gradient tensor; always shaped like the data.
    pub blobs_gradient: Vec<Tensor>,
    /// Per buffer slot, the unique name it was registered under.
    pub blob_names: Vec<String>,
    /// The slots holding the declared external inputs, in declaration order.
    pub input_blob_ids: Vec<usize>,
    /// The names of the external inputs, in declaration order.
    pub input_blob_names: Vec<String>,
    /// The slots inferred to be network outputs: produced but never
    /// consumed, in slot order.
    pub output_blob_ids: Vec<usize>,
    /// Per weight storage slot, the weight values.
    pub weight_store_data: Vec<Tensor>,
    /// Per weight storage slot, the accumulated gradient; shaped like the
    /// values.
    pub weight_store_grad: Vec<Tensor>,
    /// Per weight id, the storage slot it references (its own id, or its
    /// owner's after sharing).
    pub weights: Vec<usize>,
    /// Per weight id, the id of the weight whose storage it was declared to
    /// share, or `None` when it owns its storage.
    pub weight_owners: Vec<Option<usize>>,
    /// Per weight id, its display name: the sharing name when one was
    /// declared, the owning layer's name otherwise.
    pub weight_display_names: Vec<String>,
    /// Per weight id, the owning layer's index and the weight's index within
    /// that layer.
    pub weight_layer_indices: Vec<(usize, usize)>,
    /// The sharing-name registry: each explicitly declared sharing name,
    /// paired with the first weight id declared under it (the owner).
    pub weight_names_index: Vec<(String, usize)>,
    /// The weight ids that own their storage, in graph order: the learnable
    /// weights a solver iterates over.
    pub learnable_weight_ids: Vec<usize>,
    /// Per weight id, the declared learning-rate multiplier.
    pub weights_lr: Vec<Option<i64>>,
    /// Per weight id, the declared weight-decay multiplier.
    pub weights_weight_decay: Vec<Option<i64>>,
}

impl Network {
    /// The values of each buffer slot's data tensor.
    pub open spec fn datas(self) -> Seq<Seq<i64>> {
        self.blobs_data@.map_values(|t: Tensor| t.data@)
    }

    /// The values of each buffer slot's gradient tensor.
    pub open spec fn grads(self) -> Seq<Seq<i64>> {
        self.blobs_gradient@.map_values(|t: Tensor| t.data@)
    }

    /// The values of each weight storage slot.
    pub open spec fn wdatas(self) -> Seq<Seq<i64>> {
        self.weight_store_data@.map_values(|t: Tensor| t.data@)
    }

    /// The gradient values of each weight storage slot.
    pub open spec fn wgrads(self) -> Seq<Seq<i64>> {
        self.weight_store_grad@.map_values(|t: Tensor| t.data@)
    }

    /// The buffer arena is consistent: every tensor is well-formed, each
    /// gradient is shaped like its data, and every registered name is
    /// unique.
    pub open spec fn buffers_wf(self) -> bool {
        &&& self.blobs_gradient@.len() == self.blobs_data@.len()
        &&& self.blob_names@.len() == self.blobs_data@.len()
        &&& forall|s: int|
            0 <= s < self.blobs_data@.len() ==> (#[trigger] self.blobs_data@[s]).wf()
        &&& forall|s: int|
            0 <= s < self.blobs_data@.len() ==> crate::tensor::shape_fits(
                (#[trigger] self.blobs_data@[s]).shape@,
            )
        &&& forall|s: int|
            0 <= s < self.blobs_data@.len() ==> (#[trigger] self.blobs_gradient@[s]).wf()
        &&& forall|s: int|
            0 <= s < self.blobs_data@.len() ==> (#[trigger] self.blobs_gradient@[s]).shape@
                == self.blobs_data@[s].shape@
        &&& forall|i: int, j: int|
            0 <= i < j < self.blob_names@.len() ==> (#[trigger] self.blob_names@[i]@)
                != (#[trigger] self.blob_names@[j]@)
    }

    /// The input and output records point at real slots, and the input names
    /// are the registered names of their slots.
    pub open spec fn io_wf(self) -> bool {
        &&& self.input_blob_ids@.len() == self.input_blob_names@.len()
        &&& forall|i: int|
            0 <= i < self.input_blob_ids@.len() ==> (#[trigger] self.input_blob_ids@[i] as int)
                < self.blobs_data@.len()
        &&& forall|i: int|
            0 <= i < self.input_blob_ids@.len() ==> self.blob_names@[self.input_blob_ids@[i] as int]@
                == (#[trigger] self.input_blob_names@[i]@)
        &&& forall|i: int|
            0 <= i < self.output_blob_ids@.len() ==> (#[trigger] self.output_blob_ids@[i] as int)
                < self.blobs_data@.len()
    }

    /// The weight tables are aligned and consistent: every id references a
    /// real storage slot, every gradient is shaped like its values, and the
    /// learnable list holds exactly ids that own their storage, in
    /// increasing order.
    pub open spec fn weights_wf(self) -> bool {
        &&& self.weight_owners@.len() == self.weights@.len()
        &&& self.weight_display_names@.len() == self.weights@.len()
        &&& self.weight_layer_indices@.len() == self.weights@.len()
        &&& self.weights_lr@.len() == self.weights@.len()
        &&& self.weights_weight_decay@.len() == self.weights@.len()
        &&& forall|w: int|
            0 <= w < self.weights@.len() ==> (#[trigger] self.weight_layer_indices@[w]).0
                < self.layers@.len()
        &&& self.weight_store_grad@.len() == self.weight_store_data@.len()
        &&& forall|w: int|
            0 <= w < self.weights@.len() ==> (#[trigger] self.weights@[w] as int)
                < self.weight_store_data@.len()
        &&& forall|s: int|
            0 <= s < self.weight_store_data@.len() ==> (#[trigger] self.weight_store_data@[s]).wf()
        &&& forall|s: int|
            0 <= s < self.weight_store_data@.len() ==> crate::tensor::shape_fits(
                (#[trigger] self.weight_store_data@[s]).shape@,
            )
        &&& forall|s: int|
            0 <= s < self.weight_store_data@.len() ==> (#[trigger] self.weight_store_grad@[s]).wf()
        &&& forall|s: int|
            0 <= s < self.weight_store_data@.len() ==> (#[trigger] self.weight_store_grad@[s]).shape@
                == self.weight_store_data@[s].shape@
        &&& forall|k: int|
            0 <= k < self.learnable_weight_ids@.len() ==> (#[trigger] self.learnable_weight_ids@[k]
                as int) < self.weights@.len()
        &&& forall|k: int|
            0 <= k < self.learnable_weight_ids@.len()
                ==> self.weight_owners@[#[trigger] self.learnable_weight_ids@[k] as int] is None
        &&& forall|k: int|
            0 <= k < self.learnable_weight_ids@.len() ==> self.weights@[#[trigger] self
                .learnable_weight_ids@[k] as int] == self.learnable_weight_ids@[k]
        &&& forall|k: int, m: int|
            0 <= k < m < self.learnable_weight_ids@.len() ==> (#[trigger] self
                .learnable_weight_ids@[k]) < (#[trigger] self.learnable_weight_ids@[m])
    }

    /// Every layer is well-formed against the arena and the weight tables.
    pub open spec fn layers_wf(self) -> bool {
        forall|l: int|
            0 <= l < self.layers@.len() ==> layer_wf(
                #[trigger] self.layers@[l],
                self.datas(),
                self.weights@,
                self.wdatas(),
            )
    }

    /// The network's well-formedness: established by construction and
    /// preserved by every operation.
    pub open spec fn wf(self) -> bool {
        &&& self.buffers_wf()
        &&& self.io_wf()
        &&& self.weights_wf()
        &&& self.layers_wf()
    }

    /// Two networks have the same graph: same topology, names, tables and
    /// shapes — everything but the numeric contents of the buffers.
    pub open spec fn same_graph(self, other: Network) -> bool {
        &&& self.name == other.name
        &&& self.layers@ == other.layers@
        &&& self.blob_names@ == other.blob_names@
        &&& self.input_blob_ids@ == other.input_blob_ids@
        &&& self.input_blob_names@ == other.input_blob_names@
        &&& self.output_blob_ids@ == other.output_blob_ids@
        &&& self.weights@ == other.weights@
        &&& self.weight_owners@ == other.weight_owners@
        &&& self.weight_display_names@ == other.weight_display_names@
        &&& self.weight_layer_indices@ == other.weight_layer_indices@
        &&& self.weight_names_index@ == other.weight_names_index@
        &&& self.learnable_weight_ids@ == other.learnable_weight_ids@
        &&& self.weights_lr@ == other.weights_lr@
        &&& self.weights_weight_decay@ == other.weights_weight_decay@
        &&& self.blobs_data@.len() == other.blobs_data@.len()
        &&& self.blobs_gradient@.len() == other.blobs_gradient@.len()
        &&& self.weight_store_data@.len() == other.weight_store_data@.len()
        &&& self.weight_store_grad@.len() == other.weight_store_grad@.len()
        &&& forall|s: int|
            0 <= s < self.blobs_data@.len() ==> (#[trigger] self.blobs_data@[s]).shape@
                == other.blobs_data@[s].shape@
        &&& forall|s: int|
            0 <= s < self.blobs_gradient@.len() ==> (#[trigger] self.blobs_gradient@[s]).shape@
                == other.blobs_gradient@[s].shape@
        &&& forall|s: int|
            0 <= s < self.weight_store_data@.len() ==> (#[trigger] self.weight_store_data@[s]).shape@
                == other.weight_store_data@[s].shape@
        &&& forall|s: int|
            0 <= s < self.weight_store_grad@.len() ==> (#[trigger] self.weight_store_grad@[s]).shape@
                == other.weight_store_grad@[s].shape@
    }
}

impl Default for Network {
    /// A network with no layers, no buffers and no weights.
    fn default() -> (n: Network)
        ensures
            n.wf(),
            n.name@ == Seq::<char>::empty(),
            n.layers@.len() == 0,
            n.blobs_data@.len() == 0,
            n.weights@.len() == 0,
            n.learnable_weight_ids@.len() == 0,
            n.input_blob_ids@.len() == 0,
            n.output_blob_ids@.len() == 0,
            n.weight_names_index@.len() == 0,
            n.weight_store_data@.len() == 0,
            n.input_blob_names@.len() == 0,
    {
        Network {
            name: String::new(),
            layers: Vec::new(),
            blobs_data: Vec::new(),
            blobs_gradient: Vec::new(),
            blob_names: Vec::new(),
            input_blob_ids: Vec::new(),
            input_blob_names: Vec::new(),
            output_blob_ids: Vec::new(),
            weight_store_data: Vec::new(),
            weight_store_grad: Vec::new(),
            weights: Vec::new(),
            weight_owners: Vec::new(),
            weight_display_names: Vec::new(),
            weight_layer_indices: Vec::new(),
            weight_names_index: Vec::new(),
            learnable_weight_ids: Vec::new(),
            weights_lr: Vec::new(),
            weights_weight_decay: Vec::new(),
        }
    }
}


use crate::layer::{
    spec_layer_forward, spec_layer_backward_input, spec_layer_backward_params, LayerOp,
};
use crate::tensor::copy_i64_vec;

/// The buffer values and accumulated loss after running the forward steps of
/// `layers[start .. start + k]`, in order, on `datas`.
pub open spec fn spec_forward_prefix(
    layers: Seq<Layer>,
    wslot: Seq<usize>,
    wdatas: Seq<Seq<i64>>,
    datas: Seq<Seq<i64>>,
    start: int,
    k: nat,
) -> (Seq<Seq<i64>>, i64)
    decreases k,
{
    if k == 0 {
        (datas, 0i64)
    } else {
        let prev = spec_forward_prefix(layers, wslot, wdatas, datas, start, (k - 1) as nat);
        let step = spec_layer_forward(layers[start + k - 1], wslot, wdatas, prev.0);
        (step.0, crate::tensor::wrap_add(prev.1, step.1))
    }
}

/// The gradient values after running the input-gradient steps of
/// `layers[start - 1]` down to `layers[start - k]`, in that order, on
/// `grads`.
pub open spec fn spec_backward_input_prefix(
    layers: Seq<Layer>,
    wslot: Seq<usize>,
    wdatas: Seq<Seq<i64>>,
    datas: Seq<Seq<i64>>,
    grads: Seq<Seq<i64>>,
    start: int,
    k: nat,
) -> Seq<Seq<i64>>
    decreases k,
{
    if k == 0 {
        grads
    } else {
        let prev = spec_backward_input_prefix(layers, wslot, wdatas, datas, grads, start, (k - 1) as nat);
        spec_layer_backward_input(layers[start - k], wslot, wdatas, datas, prev)
    }
}

/// The weight-gradient values after running the parameter-gradient steps of
/// `layers[start - 1]` down to `layers[start - k]`, in that order, on
/// `wgrads`.
pub open spec fn spec_backward_params_prefix(
    layers: Seq<Layer>,
    wslot: Seq<usize>,
    datas: Seq<Seq<i64>>,
    grads: Seq<Seq<i64>>,
    wgrads: Seq<Seq<i64>>,
    start: int,
    k: nat,
) -> Seq<Seq<i64>>
    decreases k,
{
    if k == 0 {
        wgrads
    } else {
        let prev = spec_backward_params_prefix(layers, wslot, datas, grads, wgrads, start, (k - 1) as nat);
        spec_layer_backward_params(layers[start - k], wslot, datas, grads, prev)
    }
}

impl Network {
    /// Replaces the values of buffer slot `s`; the new values must have the
    /// slot's element count, so every shape stays as wired.
    fn set_blob_data(&mut self, s: usize, y: Vec<i64>)
        requires
            old(self).wf(),
            s < old(self).blobs_data@.len(),
            y@.len() == old(self).datas()[s as int].len(),
        ensures
            final(self).wf(),
            final(self).same_graph(*old(self)),
            final(self).grads() == old(self).grads(),
            final(self).wdatas() == old(self).wdatas(),
            final(self).wgrads() == old(self).wgrads(),
            final(self).datas() == old(self).datas().update(s as int, y@),
    {
        proof {
            assert(old(self).datas()[s as int] == old(self).blobs_data@[s as int].data@);
        }
        self.blobs_data[s].data = y;
        proof {
            assert(self.datas() =~= old(self).datas().update(s as int, y@));
            assert(self.grads() =~= old(self).grads());
            assert(self.wdatas() =~= old(self).wdatas());
            assert(self.wgrads() =~= old(self).wgrads());
            assert forall|t: int| 0 <= t < self.blobs_data@.len() implies (
            #[trigger] self.blobs_data@[t]).wf() by {
                assert(old(self).blobs_data@[t].wf());
            }
            assert forall|l: int| 0 <= l < self.layers@.len() implies layer_wf(
                #[trigger] self.layers@[l],
                self.datas(),
                self.weights@,
                self.wdatas(),
            ) by {
                assert(layer_wf(
                    self.layers@[l],
                    old(self).datas(),
                    old(self).weights@,
                    old(self).wdatas(),
                ));
                assert(self.datas()[s as int].len() == old(self).datas()[s as int].len());
                assert(forall|t: int|
                    0 <= t < self.datas().len() ==> (#[trigger] self.datas()[t]).len() == old(self).datas()[t].len());
            }
        }
    }

    /// Replaces the gradient values of buffer slot `s`; the new values must
    /// have the slot's element count.
    fn set_blob_grad(&mut self, s: usize, y: Vec<i64>)
        requires
            old(self).wf(),
            s < old(self).blobs_gradient@.len(),
            y@.len() == old(self).grads()[s as int].len(),
        ensures
            final(self).wf(),
            final(self).same_graph(*old(self)),
            final(self).datas() == old(self).datas(),
            final(self).wdatas() == old(self).wdatas(),
            final(self).wgrads() == old(self).wgrads(),
            final(self).grads() == old(self).grads().update(s as int, y@),
    {
        proof {
            assert(old(self).grads()[s as int] == old(self).blobs_gradient@[s as int].data@);
        }
        self.blobs_gradient[s].data = y;
        proof {
            assert(self.grads() =~= old(self).grads().update(s as int, y@));
            assert(self.datas() =~= old(self).datas());
            assert(self.wdatas() =~= old(self).wdatas());
            assert(self.wgrads() =~= old(self).wgrads());
            assert forall|t: int| 0 <= t < self.blobs_gradient@.len() implies (
            #[trigger] self.blobs_gradient@[t]).wf() by {
                assert(old(self).blobs_gradient@[t].wf());
            }
            assert forall|l: int| 0 <= l < self.layers@.len() implies layer_wf(
                #[trigger] self.layers@[l],
                self.datas(),
                self.weights@,
                self.wdatas(),
            ) by {
                assert(layer_wf(
                    self.layers@[l],
                    old(self).datas(),
                    old(self).weights@,
                    old(self).wdatas(),
                ));
            }
        }
    }

    /// Replaces the gradient values of weight storage slot `s`; the new
    /// values must have the slot's element count.
    fn set_weight_grad(&mut self, s: usize, y: Vec<i64>)
        requires
            old(self).wf(),
            s < old(self).weight_store_grad@.len(),
            y@.len() == old(self).wgrads()[s as int].len(),
        ensures
            final(self).wf(),
            final(self).same_graph(*old(self)),
            final(self).datas() == old(self).datas(),
            final(self).grads() == old(self).grads(),
            final(self).wdatas() == old(self).wdatas(),
            final(self).wgrads() == old(self).wgrads().update(s as int, y@),
    {
        proof {
            assert(old(self).wgrads()[s as int] == old(self).weight_store_grad@[s as int].data@);
        }
        self.weight_store_grad[s].data = y;
        proof {
            assert(self.wgrads() =~= old(self).wgrads().update(s as int, y@));
            assert(self.datas() =~= old(self).datas());
            assert(self.grads() =~= old(self).grads());
            assert(self.wdatas() =~= old(self).wdatas());
            assert forall|t: int| 0 <= t < self.weight_store_grad@.len() implies (
            #[trigger] self.weight_store_grad@[t]).wf() by {
                assert(old(self).weight_store_grad@[t].wf());
            }
            assert forall|l: int| 0 <= l < self.layers@.len() implies layer_wf(
                #[trigger] self.layers@[l],
                self.datas(),
                self.weights@,
                self.wdatas(),
            ) by {
                assert(layer_wf(
                    self.layers@[l],
                    old(self).datas(),
                    old(self).weights@,
                    old(self).wdatas(),
                ));
            }
        }
    }

    /// Replaces the values of weight storage slot `s`; the new values must
    /// have the slot's element count.
    fn set_weight_data(&mut self, s: usize, y: Vec<i64>)
        requires
            old(self).wf(),
            s < old(self).weight_store_data@.len(),
            y@.len() == old(self).wdatas()[s as int].len(),
        ensures
            final(self).wf(),
            final(self).same_graph(*old(self)),
            final(self).datas() == old(self).datas(),
            final(self).grads() == old(self).grads(),
            final(self).wgrads() == old(self).wgrads(),
            final(self).wdatas() == old(self).wdatas().update(s as int, y@),
    {
        proof {
            assert(old(self).wdatas()[s as int] == old(self).weight_store_data@[s as int].data@);
        }
        self.weight_store_data[s].data = y;
        proof {
            assert(self.wdatas() =~= old(self).wdatas().update(s as int, y@));
            assert(self.datas() =~= old(self).datas());
            assert(self.grads() =~= old(self).grads());
            assert(self.wgrads() =~= old(self).wgrads());
            assert forall|t: int| 0 <= t < self.weight_store_data@.len() implies (
            #[trigger] self.weight_store_data@[t]).wf() by {
                assert(old(self).weight_store_data@[t].wf());
            }
            assert forall|l: int| 0 <= l < self.layers@.len() implies layer_wf(
                #[trigger] self.layers@[l],
                self.datas(),
                self.weights@,
                self.wdatas(),
            ) by {
                assert(layer_wf(
                    self.layers@[l],
                    old(self).datas(),
                    old(self).weights@,
                    old(self).wdatas(),
                ));
                assert(self.wdatas()[s as int].len() == old(self).wdatas()[s as int].len());
                assert(forall|t: int|
                    0 <= t < self.wdatas().len() ==> (#[trigger] self.wdatas()[t]).len() == old(self).wdatas()[t].len());
            }
        }
    }

    /// Runs one layer's forward step and returns its loss contribution.
    fn run_layer_forward(&mut self, li: usize) -> (loss: i64)
        requires
            old(self).wf(),
            li < old(self).layers@.len(),
        ensures
            final(self).wf(),
            final(self).same_graph(*old(self)),
            final(self).grads() == old(self).grads(),
            final(self).wdatas() == old(self).wdatas(),
            final(self).wgrads() == old(self).wgrads(),
            final(self).datas() == spec_layer_forward(
                old(self).layers@[li as int],
                old(self).weights@,
                old(self).wdatas(),
                old(self).datas(),
            ).0,
            loss == spec_layer_forward(
                old(self).layers@[li as int],
                old(self).weights@,
                old(self).wdatas(),
                old(self).datas(),
            ).1,
    {
        let bottom: usize = self.layers[li].bottoms[0];
        let top: usize = self.layers[li].tops[0];
        proof {
            assert(layer_wf(
                self.layers@[li as int],
                self.datas(),
                self.weights@,
                self.wdatas(),
            ));
            assert(self.datas()[bottom as int] == self.blobs_data@[bottom as int].data@);
            assert(self.datas()[top as int] == self.blobs_data@[top as int].data@);
        }
        let (y, loss): (Vec<i64>, i64) = match &self.layers[li].op {
            LayerOp::Linear { batch, in_dim, out_dim } => {
                let wid: usize = self.layers[li].weights[0];
                let slot: usize = self.weights[wid];
                proof {
                    assert(self.wdatas()[slot as int] == self.weight_store_data@[slot as int].data@);
                }
                let cap: usize = self.blobs_data[top].data.len();
                let y = crate::layer::linear_forward(
                    &self.weight_store_data[slot].data,
                    &self.blobs_data[bottom].data,
                    *batch,
                    *in_dim,
                    *out_dim,
                );
                (y, 0i64)
            },
            LayerOp::Relu { count } => {
                let y = crate::layer::relu_forward(&self.blobs_data[bottom].data);
                (y, 0i64)
            },
            LayerOp::AbsSumLoss { target } => {
                let v: i64 = crate::layer::abs_sum_loss(&self.blobs_data[bottom].data, target);
                let mut y: Vec<i64> = Vec::new();
                y.push(v);
                proof {
                    assert(y@ =~= seq![v]);
                }
                (y, v)
            },
        };
        self.set_blob_data(top, y);
        loss
    }

    /// Computes the forward step for the layers `[start, end)`, in order,
    /// and returns the total scalar loss over all loss layers in the range.
    pub fn forward_from_to(&mut self, start: usize, end: usize) -> (loss: i64)
        requires
            old(self).wf(),
            start <= end <= old(self).layers@.len(),
        ensures
            final(self).wf(),
            final(self).same_graph(*old(self)),
            final(self).grads() == old(self).grads(),
            final(self).wdatas() == old(self).wdatas(),
            final(self).wgrads() == old(self).wgrads(),
            final(self).datas() == spec_forward_prefix(
                old(self).layers@,
                old(self).weights@,
                old(self).wdatas(),
                old(self).datas(),
                start as int,
                (end - start) as nat,
            ).0,
            loss == spec_forward_prefix(
                old(self).layers@,
                old(self).weights@,
                old(self).wdatas(),
                old(self).datas(),
                start as int,
                (end - start) as nat,
            ).1,
    {
        let mut loss: i64 = 0;
        let mut i: usize = start;
        while i < end
            invariant
                start <= i <= end <= self.layers@.len(),
                self.wf(),
                self.same_graph(*old(self)),
                self.grads() == old(self).grads(),
                self.wdatas() == old(self).wdatas(),
                self.wgrads() == old(self).wgrads(),
                self.datas() == spec_forward_prefix(
                    old(self).layers@,
                    old(self).weights@,
                    old(self).wdatas(),
                    old(self).datas(),
                    start as int,
                    (i - start) as nat,
                ).0,
                loss == spec_forward_prefix(
                    old(self).layers@,
                    old(self).weights@,
                    old(self).wdatas(),
                    old(self).datas(),
                    start as int,
                    (i - start) as nat,
                ).1,
            decreases end - i,
        {
            let step_loss: i64 = self.run_layer_forward(i);
            loss = loss.wrapping_add(step_loss);
            i = i + 1;
        }
        loss
    }
}


/// The buffer values after binding the first `k` supplied input tensors
/// into their declared slots, by position.
pub open spec fn spec_bind_inputs(
    datas: Seq<Seq<i64>>,
    ids: Seq<usize>,
    inputs: Seq<Tensor>,
    k: nat,
) -> Seq<Seq<i64>>
    decreases k,
{
    if k == 0 {
        datas
    } else {
        spec_bind_inputs(datas, ids, inputs, (k - 1) as nat).update(
            ids[k - 1] as int,
            inputs[k - 1].data@,
        )
    }
}

impl Network {
    /// Whether `s` is the storage slot of some learnable weight.
    pub open spec fn is_learnable_slot(self, s: int) -> bool {
        exists|k: int|
            0 <= k < self.learnable_weight_ids@.len() && self.weights@[#[trigger] self
                .learnable_weight_ids@[k] as int] == s
    }

    /// Runs one layer's input-gradient step: propagates the gradient from
    /// the layer's top into its bottom, unless the layer skips backward or
    /// the bottom needs no gradient.
    fn run_layer_backward_input(&mut self, li: usize)
        requires
            old(self).wf(),
            li < old(self).layers@.len(),
        ensures
            final(self).wf(),
            final(self).same_graph(*old(self)),
            final(self).datas() == old(self).datas(),
            final(self).wdatas() == old(self).wdatas(),
            final(self).wgrads() == old(self).wgrads(),
            final(self).grads() == spec_layer_backward_input(
                old(self).layers@[li as int],
                old(self).weights@,
                old(self).wdatas(),
                old(self).datas(),
                old(self).grads(),
            ),
    {
        proof {
            assert(layer_wf(
                self.layers@[li as int],
                self.datas(),
                self.weights@,
                self.wdatas(),
            ));
        }
        if self.layers[li].skip_backward {
            return ;
        }
        if !self.layers[li].bottom_need_backward[0] {
            return ;
        }
        let bottom: usize = self.layers[li].bottoms[0];
        let top: usize = self.layers[li].tops[0];
        proof {
            assert(self.datas()[bottom as int] == self.blobs_data@[bottom as int].data@);
            assert(self.datas()[top as int] == self.blobs_data@[top as int].data@);
            assert(self.grads()[bottom as int] == self.blobs_gradient@[bottom as int].data@);
            assert(self.grads()[top as int] == self.blobs_gradient@[top as int].data@);
            assert(self.blobs_gradient@[bottom as int].data@.len() == self.blobs_data@[
                bottom as int].data@.len());
            assert(self.blobs_gradient@[top as int].data@.len() == self.blobs_data@[top as int].data@.len());
        }
        let gx: Vec<i64> = match &self.layers[li].op {
            LayerOp::Linear { batch, in_dim, out_dim } => {
                let wid: usize = self.layers[li].weights[0];
                let slot: usize = self.weights[wid];
                proof {
                    assert(self.wdatas()[slot as int] == self.weight_store_data@[slot as int].data@);
                }
                let cap: usize = self.blobs_gradient[bottom].data.len();
                crate::layer::linear_backward_input(
                    &self.weight_store_data[slot].data,
                    &self.blobs_gradient[top].data,
                    *batch,
                    *in_dim,
                    *out_dim,
                )
            },
            LayerOp::Relu { count } => {
                crate::layer::relu_backward(
                    &self.blobs_data[top].data,
                    &self.blobs_gradient[top].data,
                )
            },
            LayerOp::AbsSumLoss { target } => {
                crate::layer::abs_loss_backward(&self.blobs_data[bottom].data, target)
            },
        };
        self.set_blob_grad(bottom, gx);
    }

    /// Runs one layer's parameter-gradient step: accumulates into the
    /// gradient of the layer's weight storage, unless the layer skips
    /// backward or owns no weights.
    fn run_layer_backward_params(&mut self, li: usize)
        requires
            old(self).wf(),
            li < old(self).layers@.len(),
        ensures
            final(self).wf(),
            final(self).same_graph(*old(self)),
            final(self).datas() == old(self).datas(),
            final(self).grads() == old(self).grads(),
            final(self).wdatas() == old(self).wdatas(),
            final(self).wgrads() == spec_layer_backward_params(
                old(self).layers@[li as int],
                old(self).weights@,
                old(self).datas(),
                old(self).grads(),
                old(self).wgrads(),
            ),
    {
        proof {
            assert(layer_wf(
                self.layers@[li as int],
                self.datas(),
                self.weights@,
                self.wdatas(),
            ));
        }
        if self.layers[li].skip_backward {
            return ;
        }
        let bottom: usize = self.layers[li].bottoms[0];
        let top: usize = self.layers[li].tops[0];
        let step: Option<(usize, Vec<i64>)> = match &self.layers[li].op {
            LayerOp::Linear { batch, in_dim, out_dim } => {
                let wid: usize = self.layers[li].weights[0];
                let slot: usize = self.weights[wid];
                proof {
                    assert(self.wdatas()[slot as int] == self.weight_store_data@[slot as int].data@);
                    assert(self.wgrads()[slot as int] == self.weight_store_grad@[slot as int].data@);
                    assert(self.weight_store_grad@[slot as int].data@.len()
                        == self.weight_store_data@[slot as int].data@.len());
                    assert(self.datas()[bottom as int] == self.blobs_data@[bottom as int].data@);
                    assert(self.grads()[top as int] == self.blobs_gradient@[top as int].data@);
                    assert(self.blobs_gradient@[top as int].data@.len() == self.blobs_data@[
                        top as int].data@.len());
                    assert(self.datas()[top as int] == self.blobs_data@[top as int].data@);
                }
                let r = crate::layer::linear_weight_gradient(
                    &self.weight_store_grad[slot].data,
                    &self.blobs_gradient[top].data,
                    &self.blobs_data[bottom].data,
                    *batch,
                    *in_dim,
                    *out_dim,
                );
                Some((slot, r))
            },
            LayerOp::Relu { count } => None,
            LayerOp::AbsSumLoss { target } => None,
        };
        match step {
            Some((slot, r)) => {
                self.set_weight_grad(slot, r);
            },
            None => {},
        }
    }

    /// Computes the input-gradient half of backpropagation for the layers
    /// `[end, start)`, from the highest index down.
    pub fn backward_input_from_to(&mut self, start: usize, end: usize)
        requires
            old(self).wf(),
            end <= start <= old(self).layers@.len(),
        ensures
            final(self).wf(),
            final(self).same_graph(*old(self)),
            final(self).datas() == old(self).datas(),
            final(self).wdatas() == old(self).wdatas(),
            final(self).wgrads() == old(self).wgrads(),
            final(self).grads() == spec_backward_input_prefix(
                old(self).layers@,
                old(self).weights@,
                old(self).wdatas(),
                old(self).datas(),
                old(self).grads(),
                start as int,
                (start - end) as nat,
            ),
    {
        let mut i: usize = start;
        while i > end
            invariant
                end <= i <= start <= self.layers@.len(),
                self.wf(),
                self.same_graph(*old(self)),
                self.datas() == old(self).datas(),
                self.wdatas() == old(self).wdatas(),
                self.wgrads() == old(self).wgrads(),
                self.grads() == spec_backward_input_prefix(
                    old(self).layers@,
                    old(self).weights@,
                    old(self).wdatas(),
                    old(self).datas(),
                    old(self).grads(),
                    start as int,
                    (start - i) as nat,
                ),
            decreases i,
        {
            i = i - 1;
            self.run_layer_backward_input(i);
        }
    }

    /// Computes the parameter-gradient half of backpropagation for the
    /// layers `[end, start)`, from the highest index down.
    pub fn backward_parameters_from_to(&mut self, start: usize, end: usize)
        requires
            old(self).wf(),
            end <= start <= old(self).layers@.len(),
        ensures
            final(self).wf(),
            final(self).same_graph(*old(self)),
            final(self).datas() == old(self).datas(),
            final(self).grads() == old(self).grads(),
            final(self).wdatas() == old(self).wdatas(),
            final(self).wgrads() == spec_backward_params_prefix(
                old(self).layers@,
                old(self).weights@,
                old(self).datas(),
                old(self).grads(),
                old(self).wgrads(),
                start as int,
                (start - end) as nat,
            ),
    {
        let mut i: usize = start;
        while i > end
            invariant
                end <= i <= start <= self.layers@.len(),
                self.wf(),
                self.same_graph(*old(self)),
                self.datas() == old(self).datas(),
                self.grads() == old(self).grads(),
                self.wdatas() == old(self).wdatas(),
                self.wgrads() == spec_backward_params_prefix(
                    old(self).layers@,
                    old(self).weights@,
                    old(self).datas(),
                    old(self).grads(),
                    old(self).wgrads(),
                    start as int,
                    (start - i) as nat,
                ),
            decreases i,
        {
            i = i - 1;
            self.run_layer_backward_params(i);
        }
    }

    /// Runs the input-gradient half of backpropagation over the whole
    /// network, in reverse layer order.
    pub fn backward_input(&mut self)
        requires
            old(self).wf(),
        ensures
            final(self).wf(),
            final(self).same_graph(*old(self)),
            final(self).datas() == old(self).datas(),
            final(self).wdatas() == old(self).wdatas(),
            final(self).wgrads() == old(self).wgrads(),
            final(self).grads() == spec_backward_input_prefix(
                old(self).layers@,
                old(self).weights@,
                old(self).wdatas(),
                old(self).datas(),
                old(self).grads(),
                old(self).layers@.len() as int,
                old(self).layers@.len(),
            ),
    {
        let start: usize = self.layers.len();
        self.backward_input_from_to(start, 0);
    }

    /// Runs the parameter-gradient half of backpropagation over the whole
    /// network, in reverse layer order.
    pub fn backward_parameters(&mut self)
        requires
            old(self).wf(),
        ensures
            final(self).wf(),
            final(self).same_graph(*old(self)),
            final(self).datas() == old(self).datas(),
            final(self).grads() == old(self).grads(),
            final(self).wdatas() == old(self).wdatas(),
            final(self).wgrads() == spec_backward_params_prefix(
                old(self).layers@,
                old(self).weights@,
                old(self).datas(),
                old(self).grads(),
                old(self).wgrads(),
                old(self).layers@.len() as int,
                old(self).layers@.len(),
            ),
    {
        let start: usize = self.layers.len();
        self.backward_parameters_from_to(start, 0);
    }

    /// Computes a whole backpropagation step: first the input gradients for
    /// every layer in reverse order, then the parameter gradients, both
    /// honoring each layer's skip flag.
    pub fn backward(&mut self)
        requires
            old(self).wf(),
        ensures
            final(self).wf(),
            final(self).same_graph(*old(self)),
            final(self).datas() == old(self).datas(),
            final(self).wdatas() == old(self).wdatas(),
            final(self).grads() == spec_backward_input_prefix(
                old(self).layers@,
                old(self).weights@,
                old(self).wdatas(),
                old(self).datas(),
                old(self).grads(),
                old(self).layers@.len() as int,
                old(self).layers@.len(),
            ),
            final(self).wgrads() == spec_backward_params_prefix(
                old(self).layers@,
                old(self).weights@,
                old(self).datas(),
                spec_backward_input_prefix(
                    old(self).layers@,
                    old(self).weights@,
                    old(self).wdatas(),
                    old(self).datas(),
                    old(self).grads(),
                    old(self).layers@.len() as int,
                    old(self).layers@.len(),
                ),
                old(self).wgrads(),
                old(self).layers@.len() as int,
                old(self).layers@.len(),
            ),
    {
        let start: usize = self.layers.len();
        self.backward_input_from_to(start, 0);
        self.backward_parameters_from_to(start, 0);
    }
}


impl Network {
    /// The storage slot of learnable weight `k`, by the tables of `self`.
    pub open spec fn learnable_slot(self, k: int) -> int {
        self.weights@[self.learnable_weight_ids@[k] as int] as int
    }

    /// Zero-fills every learnable weight's gradient buffer.  Backward
    /// accumulates rather than overwrites, so this is called between
    /// minibatches to start from a clean slate.
    pub fn clear_weight_diffs(&mut self)
        requires
            old(self).wf(),
        ensures
            final(self).wf(),
            final(self).same_graph(*old(self)),
            final(self).datas() == old(self).datas(),
            final(self).grads() == old(self).grads(),
            final(self).wdatas() == old(self).wdatas(),
            forall|k: int|
                0 <= k < old(self).learnable_weight_ids@.len() ==> final(self).wgrads()[#[trigger] old(self).learnable_slot(k)] == Seq::new(
                    old(self).wgrads()[old(self).learnable_slot(k)].len(),
                    |i: int| 0i64,
                ),
            forall|s: int|
                0 <= s < old(self).wgrads().len() && !old(self).is_learnable_slot(s) ==> final(self).wgrads()[s] == old(self).wgrads()[s],
    {
        let mut k: usize = 0;
        while k < self.learnable_weight_ids.len()
            invariant
                k <= self.learnable_weight_ids@.len(),
                self.wf(),
                self.same_graph(*old(self)),
                self.datas() == old(self).datas(),
                self.grads() == old(self).grads(),
                self.wdatas() == old(self).wdatas(),
                forall|m: int|
                    0 <= m < k ==> self.wgrads()[#[trigger] old(self).learnable_slot(m)]
                        == Seq::new(
                        old(self).wgrads()[old(self).learnable_slot(m)].len(),
                        |i: int| 0i64,
                    ),
                forall|m: int|
                    k <= m < old(self).learnable_weight_ids@.len() ==> self.wgrads()[#[trigger] old(self).learnable_slot(m)] == old(self).wgrads()[old(self).learnable_slot(m)],
                forall|s: int|
                    0 <= s < old(self).wgrads().len() && !old(self).is_learnable_slot(s)
                        ==> self.wgrads()[s] == old(self).wgrads()[s],
            decreases self.learnable_weight_ids@.len() - k,
        {
            let lid: usize = self.learnable_weight_ids[k];
            let slot: usize = self.weights[lid];
            let n: usize = self.weight_store_grad[slot].data.len();
            let z: Vec<i64> = vec![0i64; n];
            proof {
                assert(slot as int == old(self).learnable_slot(k as int));
                assert(old(self).is_learnable_slot(slot as int));
                assert(self.wgrads()[slot as int] == self.weight_store_grad@[slot as int].data@);
                assert(self.wgrads()[slot as int] == old(self).wgrads()[slot as int]);
                assert forall|i: int| 0 <= i < n implies z@[i] == 0i64 by {}
                assert(z@ =~= Seq::new(
                    old(self).wgrads()[old(self).learnable_slot(k as int)].len(),
                    |i: int| 0i64,
                ));
            }
            self.set_weight_grad(slot, z);
            k = k + 1;
            proof {
                assert forall|m: int| 0 <= m < k implies self.wgrads()[#[trigger] old(self).learnable_slot(m)] == Seq::new(
                    old(self).wgrads()[old(self).learnable_slot(m)].len(),
                    |i: int| 0i64,
                ) by {
                    if m < k - 1 {
                        assert(old(self).weights@[old(self).learnable_weight_ids@[m] as int] == old(
                            self,
                        ).learnable_weight_ids@[m]);
                        assert(old(self).weights@[old(self).learnable_weight_ids@[k - 1] as int]
                            == old(self).learnable_weight_ids@[k - 1]);
                        assert(old(self).learnable_weight_ids@[m] < old(self).learnable_weight_ids@[k
                            - 1]);
                        assert(old(self).learnable_slot(m) != slot as int);
                    }
                }
            }
        }
    }

    /// Applies the fixed, solver-independent update `data := data + (-1) *
    /// gradient` to every learnable weight, elementwise with wrapping
    /// arithmetic.  Each underlying storage slot is touched exactly once.
    pub fn update_weights(&mut self)
        requires
            old(self).wf(),
        ensures
            final(self).wf(),
            final(self).same_graph(*old(self)),
            final(self).datas() == old(self).datas(),
            final(self).grads() == old(self).grads(),
            final(self).wgrads() == old(self).wgrads(),
            forall|k: int|
                0 <= k < old(self).learnable_weight_ids@.len() ==> final(self).wdatas()[#[trigger] old(self).learnable_slot(k)] == Seq::new(
                    old(self).wdatas()[old(self).learnable_slot(k)].len(),
                    |i: int|
                        crate::tensor::wrap_sub(
                            old(self).wdatas()[old(self).learnable_slot(k)][i],
                            old(self).wgrads()[old(self).learnable_slot(k)][i],
                        ),
                ),
            forall|s: int|
                0 <= s < old(self).wdatas().len() && !old(self).is_learnable_slot(s) ==> final(self).wdatas()[s] == old(self).wdatas()[s],
    {
        let mut k: usize = 0;
        while k < self.learnable_weight_ids.len()
            invariant
                k <= self.learnable_weight_ids@.len(),
                self.wf(),
                self.same_graph(*old(self)),
                self.datas() == old(self).datas(),
                self.grads() == old(self).grads(),
                self.wgrads() == old(self).wgrads(),
                forall|m: int|
                    0 <= m < k ==> self.wdatas()[#[trigger] old(self).learnable_slot(m)]
                        == Seq::new(
                        old(self).wdatas()[old(self).learnable_slot(m)].len(),
                        |i: int|
                            crate::tensor::wrap_sub(
                                old(self).wdatas()[old(self).learnable_slot(m)][i],
                                old(self).wgrads()[old(self).learnable_slot(m)][i],
                            ),
                    ),
                forall|m: int|
                    k <= m < old(self).learnable_weight_ids@.len() ==> self.wdatas()[#[trigger] old(self).learnable_slot(m)] == old(self).wdatas()[old(self).learnable_slot(m)],
                forall|s: int|
                    0 <= s < old(self).wdatas().len() && !old(self).is_learnable_slot(s)
                        ==> self.wdatas()[s] == old(self).wdatas()[s],
            decreases self.learnable_weight_ids@.len() - k,
        {
            let lid: usize = self.learnable_weight_ids[k];
            let slot: usize = self.weights[lid];
            proof {
                assert(slot as int == old(self).learnable_slot(k as int));
                assert(old(self).is_learnable_slot(slot as int));
                assert(self.wdatas()[slot as int] == self.weight_store_data@[slot as int].data@);
                assert(self.wgrads()[slot as int] == self.weight_store_grad@[slot as int].data@);
                assert(self.weight_store_grad@[slot as int].data@.len() == self.weight_store_data@[
                    slot as int].data@.len());
                assert(self.wdatas()[slot as int] == old(self).wdatas()[slot as int]);
                assert(self.wgrads()[slot as int] == old(self).wgrads()[slot as int]);
            }
            let d: Vec<i64> = crate::math::sub_pairwise(
                &self.weight_store_data[slot].data,
                &self.weight_store_grad[slot].data,
            );
            proof {
                assert(d@ =~= Seq::new(
                    old(self).wdatas()[old(self).learnable_slot(k as int)].len(),
                    |i: int|
                        crate::tensor::wrap_sub(
                            old(self).wdatas()[old(self).learnable_slot(k as int)][i],
                            old(self).wgrads()[old(self).learnable_slot(k as int)][i],
                        ),
                ));
            }
            self.set_weight_data(slot, d);
            k = k + 1;
            proof {
                // the learnable slots are pairwise distinct, so nothing
                // earlier or later was touched by this write
                assert forall|m: int|
                    0 <= m < old(self).learnable_weight_ids@.len() && m != k - 1 implies #[trigger] old(self).learnable_slot(m) != slot as int by {
                    assert(old(self).weights@[old(self).learnable_weight_ids@[m] as int] == old(self).learnable_weight_ids@[m]);
                    assert(old(self).weights@[old(self).learnable_weight_ids@[k - 1] as int] == old(self).learnable_weight_ids@[k - 1]);
                    if m < k - 1 {
                        assert(old(self).learnable_weight_ids@[m] < old(self).learnable_weight_ids@[k
                            - 1]);
                    } else {
                        assert(old(self).learnable_weight_ids@[k - 1] < old(self).learnable_weight_ids@[m]);
                    }
                }
            }
        }
    }
}


impl Network {
    /// Binds the supplied external input tensors into the network's input
    /// slots, by position: slot `input_blob_ids[i]` receives the values of
    /// `input[i]`.  Each supplied tensor must have the declared shape.
    fn bind_inputs(&mut self, input: &Vec<Tensor>)
        requires
            old(self).wf(),
            input@.len() == old(self).input_blob_ids@.len(),
            forall|i: int|
                0 <= i < input@.len() ==> (#[trigger] input@[i]).wf() && input@[i].shape@ == old(
                    self,
                ).blobs_data@[old(self).input_blob_ids@[i] as int].shape@,
        ensures
            final(self).wf(),
            final(self).same_graph(*old(self)),
            final(self).grads() == old(self).grads(),
            final(self).wdatas() == old(self).wdatas(),
            final(self).wgrads() == old(self).wgrads(),
            final(self).datas() == spec_bind_inputs(
                old(self).datas(),
                old(self).input_blob_ids@,
                input@,
                input@.len(),
            ),
    {
        let mut i: usize = 0;
        while i < input.len()
            invariant
                i <= input@.len(),
                input@.len() == old(self).input_blob_ids@.len(),
                forall|j: int|
                    0 <= j < input@.len() ==> (#[trigger] input@[j]).wf() && input@[j].shape@ == old(
                        self,
                    ).blobs_data@[old(self).input_blob_ids@[j] as int].shape@,
                self.wf(),
                self.same_graph(*old(self)),
                self.grads() == old(self).grads(),
                self.wdatas() == old(self).wdatas(),
                self.wgrads() == old(self).wgrads(),
                self.datas() == spec_bind_inputs(
                    old(self).datas(),
                    old(self).input_blob_ids@,
                    input@,
                    i as nat,
                ),
            decreases input@.len() - i,
        {
            let s: usize = self.input_blob_ids[i];
            let y: Vec<i64> = copy_i64_vec(&input[i].data);
            proof {
                assert(self.input_blob_ids@ == old(self).input_blob_ids@);
                assert(s as int == old(self).input_blob_ids@[i as int] as int);
                assert(self.datas()[s as int] == self.blobs_data@[s as int].data@);
                assert(self.blobs_data@[s as int].shape@ == old(self).blobs_data@[s as int].shape@);
                assert(input@[i as int].wf());
                assert(input@[i as int].data@.len() == crate::tensor::shape_count(
                    input@[i as int].shape@,
                ));
                assert(self.blobs_data@[s as int].wf());
                assert(y@.len() == self.datas()[s as int].len());
            }
            self.set_blob_data(s, y);
            i = i + 1;
        }
    }

    /// The data tensors of the inferred network outputs, in slot order.
    pub fn output_data(&self) -> (out: Vec<Tensor>)
        requires
            self.wf(),
        ensures
            out@.len() == self.output_blob_ids@.len(),
            forall|k: int|
                0 <= k < out@.len() ==> (#[trigger] out@[k]).data@ == self.datas()[self
                    .output_blob_ids@[k] as int] && out@[k].shape@ == self.blobs_data@[self
                    .output_blob_ids@[k] as int].shape@,
    {
        let mut out: Vec<Tensor> = Vec::new();
        let mut k: usize = 0;
        while k < self.output_blob_ids.len()
            invariant
                self.wf(),
                k <= self.output_blob_ids@.len(),
                out@.len() == k,
                forall|m: int|
                    0 <= m < k ==> (#[trigger] out@[m]).data@ == self.datas()[self.output_blob_ids@[m] as int]
                        && out@[m].shape@ == self.blobs_data@[self.output_blob_ids@[m] as int].shape@,
            decreases self.output_blob_ids@.len() - k,
        {
            let s: usize = self.output_blob_ids[k];
            let t: Tensor = self.blobs_data[s].duplicate();
            proof {
                assert(self.datas()[s as int] == self.blobs_data@[s as int].data@);
            }
            out.push(t);
            k = k + 1;
        }
        out
    }

    /// Computes the forward step for the whole network, whose input slot
    /// contents have already been set, and returns the total scalar loss.
    pub fn forward_prefilled(&mut self) -> (loss: i64)
        requires
            old(self).wf(),
        ensures
            final(self).wf(),
            final(self).same_graph(*old(self)),
            final(self).grads() == old(self).grads(),
            final(self).wdatas() == old(self).wdatas(),
            final(self).wgrads() == old(self).wgrads(),
            final(self).datas() == spec_forward_prefix(
                old(self).layers@,
                old(self).weights@,
                old(self).wdatas(),
                old(self).datas(),
                0,
                old(self).layers@.len(),
            ).0,
            loss == spec_forward_prefix(
                old(self).layers@,
                old(self).weights@,
                old(self).wdatas(),
                old(self).datas(),
                0,
                old(self).layers@.len(),
            ).1,
    {
        let end: usize = self.layers.len();
        self.forward_from_to(0, end)
    }

    /// Binds the supplied input tensors into the network by position,
    /// computes the forward step for the whole network, stores the total
    /// scalar loss in `loss`, and returns the output data tensors.
    pub fn forward(&mut self, input: &Vec<Tensor>, loss: &mut i64) -> (out: Vec<Tensor>)
        requires
            old(self).wf(),
            input@.len() == old(self).input_blob_ids@.len(),
            forall|i: int|
                0 <= i < input@.len() ==> (#[trigger] input@[i]).wf() && input@[i].shape@ == old(
                    self,
                ).blobs_data@[old(self).input_blob_ids@[i] as int].shape@,
        ensures
            final(self).wf(),
            final(self).same_graph(*old(self)),
            final(self).grads() == old(self).grads(),
            final(self).wdatas() == old(self).wdatas(),
            final(self).wgrads() == old(self).wgrads(),
            final(self).datas() == spec_forward_prefix(
                old(self).layers@,
                old(self).weights@,
                old(self).wdatas(),
                spec_bind_inputs(
                    old(self).datas(),
                    old(self).input_blob_ids@,
                    input@,
                    input@.len(),
                ),
                0,
                old(self).layers@.len(),
            ).0,
            *final(loss) == spec_forward_prefix(
                old(self).layers@,
                old(self).weights@,
                old(self).wdatas(),
                spec_bind_inputs(
                    old(self).datas(),
                    old(self).input_blob_ids@,
                    input@,
                    input@.len(),
                ),
                0,
                old(self).layers@.len(),
            ).1,
            out@.len() == old(self).output_blob_ids@.len(),
            forall|k: int|
                0 <= k < out@.len() ==> (#[trigger] out@[k]).data@ == final(self).datas()[old(
                    self,
                ).output_blob_ids@[k] as int],
    {
        self.bind_inputs(input);
        let l: i64 = self.forward_prefilled();
        *loss = l;
        self.output_data()
    }

    /// Computes one forward and one backward step together and returns the
    /// total scalar loss: the unit of work of one training iteration.
    pub fn forward_backward(&mut self, bottom: &Vec<Tensor>) -> (loss: i64)
        requires
            old(self).wf(),
            bottom@.len() == old(self).input_blob_ids@.len(),
            forall|i: int|
                0 <= i < bottom@.len() ==> (#[trigger] bottom@[i]).wf() && bottom@[i].shape@ == old(
                    self,
                ).blobs_data@[old(self).input_blob_ids@[i] as int].shape@,
        ensures
            final(self).wf(),
            final(self).same_graph(*old(self)),
            final(self).wdatas() == old(self).wdatas(),
            ({
                let bound = spec_bind_inputs(
                    old(self).datas(),
                    old(self).input_blob_ids@,
                    bottom@,
                    bottom@.len(),
                );
                let fwd = spec_forward_prefix(
                    old(self).layers@,
                    old(self).weights@,
                    old(self).wdatas(),
                    bound,
                    0,
                    old(self).layers@.len(),
                );
                let g1 = spec_backward_input_prefix(
                    old(self).layers@,
                    old(self).weights@,
                    old(self).wdatas(),
                    fwd.0,
                    old(self).grads(),
                    old(self).layers@.len() as int,
                    old(self).layers@.len(),
                );
                &&& final(self).datas() == fwd.0
                &&& loss == fwd.1
                &&& final(self).grads() == g1
                &&& final(self).wgrads() == spec_backward_params_prefix(
                    old(self).layers@,
                    old(self).weights@,
                    fwd.0,
                    g1,
                    old(self).wgrads(),
                    old(self).layers@.len() as int,
                    old(self).layers@.len(),
                )
            }),
    {
        let mut loss: i64 = 0;
        self.forward(bottom, &mut loss);
        self.backward();
        loss
    }

    /// The data tensors of the learnable weights, in graph order,
    /// index-aligned with `weights_lr` and `weights_weight_decay` through
    /// the learnable weight ids.
    pub fn learnable_weight_data(&self) -> (out: Vec<Tensor>)
        requires
            self.wf(),
        ensures
            out@.len() == self.learnable_weight_ids@.len(),
            forall|k: int|
                0 <= k < out@.len() ==> (#[trigger] out@[k]).data@ == self.wdatas()[self.learnable_slot(
                    k,
                )] && out@[k].shape@ == self.weight_store_data@[self.learnable_slot(k)].shape@,
    {
        let mut out: Vec<Tensor> = Vec::new();
        let mut k: usize = 0;
        while k < self.learnable_weight_ids.len()
            invariant
                self.wf(),
                k <= self.learnable_weight_ids@.len(),
                out@.len() == k,
                forall|m: int|
                    0 <= m < k ==> (#[trigger] out@[m]).data@ == self.wdatas()[self.learnable_slot(m)]
                        && out@[m].shape@ == self.weight_store_data@[self.learnable_slot(m)].shape@,
            decreases self.learnable_weight_ids@.len() - k,
        {
            let lid: usize = self.learnable_weight_ids[k];
            let slot: usize = self.weights[lid];
            let t: Tensor = self.weight_store_data[slot].duplicate();
            proof {
                assert(self.wdatas()[slot as int] == self.weight_store_data@[slot as int].data@);
                assert(slot as int == self.learnable_slot(k as int));
            }
            out.push(t);
            k = k + 1;
        }
        out
    }

    /// The gradient tensors of the learnable weights, in graph order.
    pub fn learnable_weight_gradients(&self) -> (out: Vec<Tensor>)
        requires
            self.wf(),
        ensures
            out@.len() == self.learnable_weight_ids@.len(),
            forall|k: int|
                0 <= k < out@.len() ==> (#[trigger] out@[k]).data@ == self.wgrads()[self.learnable_slot(
                    k,
                )] && out@[k].shape@ == self.weight_store_grad@[self.learnable_slot(k)].shape@,
    {
        let mut out: Vec<Tensor> = Vec::new();
        let mut k: usize = 0;
        while k < self.learnable_weight_ids.len()
            invariant
                self.wf(),
                k <= self.learnable_weight_ids@.len(),
                out@.len() == k,
                forall|m: int|
                    0 <= m < k ==> (#[trigger] out@[m]).data@ == self.wgrads()[self.learnable_slot(m)]
                        && out@[m].shape@ == self.weight_store_grad@[self.learnable_slot(m)].shape@,
            decreases self.learnable_weight_ids@.len() - k,
        {
            let lid: usize = self.learnable_weight_ids[k];
            let slot: usize = self.weights[lid];
            let t: Tensor = self.weight_store_grad[slot].duplicate();
            proof {
                assert(self.wgrads()[slot as int] == self.weight_store_grad@[slot as int].data@);
                assert(slot as int == self.learnable_slot(k as int));
            }
            out.push(t);
            k = k + 1;
        }
        out
    }

    /// The data tensor registered under `name`, or `None` when no buffer of
    /// that name exists.
    pub fn get_data(&self, name: &str) -> (r: Option<Tensor>)
        requires
            self.wf(),
        ensures
            match r {
                Some(t) => exists|s: int|
                    0 <= s < self.blob_names@.len() && (#[trigger] self.blob_names@[s])@ == name@
                        && t.data@ == self.datas()[s] && t.shape@ == self.blobs_data@[s].shape@,
                None => forall|s: int|
                    0 <= s < self.blob_names@.len() ==> (#[trigger] self.blob_names@[s])@ != name@,
            },
    {
        let key: String = String::from_str(name);
        let mut s: usize = 0;
        while s < self.blob_names.len()
            invariant
                self.wf(),
                key@ == name@,
                s <= self.blob_names@.len(),
                forall|j: int| 0 <= j < s ==> (#[trigger] self.blob_names@[j])@ != name@,
            decreases self.blob_names@.len() - s,
        {
            if self.blob_names[s].eq(&key) {
                let t: Tensor = self.blobs_data[s].duplicate();
                proof {
                    assert(self.datas()[s as int] == self.blobs_data@[s as int].data@);
                }
                return Some(t);
            }
            s = s + 1;
        }
        None
    }

    /// The declared weight-decay multiplier of each weight, by weight id.
    pub fn weights_weight_decay(&self) -> (r: &Vec<Option<i64>>)
        ensures
            r@ == self.weights_weight_decay@,
    {
        &self.weights_weight_decay
    }

    /// The declared learning-rate multiplier of each weight, by weight id.
    pub fn weights_lr(&self) -> (r: &Vec<Option<i64>>)
        ensures
            r@ == self.weights_lr@,
    {
        &self.weights_lr
    }
}

} // verus!
