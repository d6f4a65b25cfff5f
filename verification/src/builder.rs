//! The graph builder: wires an ordered layer-configuration list plus named
//! external inputs into a fully connected [`Network`], or fails with a
//! configuration error.
//!
//! The wiring rules are mirrored by spec functions over a registry mapping
//! buffer names to shapes and a weight registry mapping sharing names to
//! shapes: [`spec_build_ok`] says exactly on which configurations
//! construction succeeds, and `Network::from_config` is proved to return
//! `Ok` precisely on those.

use vstd::prelude::*;

verus! {

use vstd::string::StringExecFns;

use crate::error::NetworkError;
use crate::layer::{
    layer_included, spec_config_valid, spec_layer_included, spec_propagate_down, Layer,
    LayerConfig, LayerKind, LayerOp,
};
use crate::network::{Network, NetworkConfig};
use crate::tensor::{shape_count, shape_fits, Tensor};
use crate::weight::DimCheckMode;

/// The sharing name a layer configuration declares for its weight: the first
/// weight configuration's name, or the empty name (which never shares).
pub open spec fn spec_weight_name(lc: LayerConfig) -> Seq<char> {
    if lc.weights@.len() > 0 {
        lc.weights@[0].name@
    } else {
        Seq::<char>::empty()
    }
}

/// The dimension-check mode a layer configuration declares for its weight.
pub open spec fn spec_weight_mode(lc: LayerConfig) -> DimCheckMode {
    if lc.weights@.len() > 0 {
        lc.weights@[0].share_mode
    } else {
        DimCheckMode::Strict
    }
}

/// The constant the layer configuration's filler writes into its weight,
/// with no filler declared the weight stays zero.
pub open spec fn spec_weight_fill(lc: LayerConfig) -> i64 {
    if lc.weights@.len() > 0 {
        match lc.weights@[0].filler {
            Some(f) => f.fill_value(),
            None => 0i64,
        }
    } else {
        0i64
    }
}

/// Registering one external input: fails on a duplicate name or a shape too
/// large to measure, and otherwise binds the name to the shape.
pub open spec fn spec_input_step(
    reg: Map<Seq<char>, Seq<usize>>,
    name: Seq<char>,
    shape: Seq<usize>,
) -> Option<Map<Seq<char>, Seq<usize>>> {
    if reg.dom().contains(name) {
        None
    } else if !shape_fits(shape) {
        None
    } else {
        Some(reg.insert(name, shape))
    }
}

/// The registry after the first `k` external inputs, or `None` if one of
/// them is rejected.
pub open spec fn spec_inputs_upto(config: NetworkConfig, k: int) -> Option<
    Map<Seq<char>, Seq<usize>>,
>
    decreases k,
{
    if k <= 0 {
        Some(Map::<Seq<char>, Seq<usize>>::empty())
    } else {
        match spec_inputs_upto(config, k - 1) {
            None => None,
            Some(reg) => spec_input_step(reg, config.inputs@[k - 1]@, config.input_shapes@[k - 1]@),
        }
    }
}

/// Wiring one included layer against the registry and the weight registry:
/// every rule of the builder in one place.  The bottom must be registered;
/// the shapes must fit the layer type; a top naming its own bottom is
/// in-place computation, allowed only for the rectifier; any other top name
/// must be new; a weight declaring an already-registered sharing name must
/// pass the dimension check of its declared mode.
pub open spec fn spec_layer_step(
    reg: Map<Seq<char>, Seq<usize>>,
    wreg: Map<Seq<char>, Seq<usize>>,
    lc: LayerConfig,
) -> Option<(Map<Seq<char>, Seq<usize>>, Map<Seq<char>, Seq<usize>>)> {
    if !spec_config_valid(lc) {
        None
    } else {
        let bname = lc.bottoms@[0]@;
        let tname = lc.tops@[0]@;
        if !reg.dom().contains(bname) {
            None
        } else {
            let bshape = reg[bname];
            match lc.kind {
                LayerKind::Linear { output_size } => {
                    if bshape.len() != 2 {
                        None
                    } else if bshape[0] < 1 || bshape[1] < 1 {
                        None
                    } else if tname == bname {
                        None
                    } else if reg.dom().contains(tname) {
                        None
                    } else {
                        let tshape = seq![bshape[0], output_size];
                        let wshape = seq![output_size, bshape[1]];
                        if !shape_fits(tshape) || !shape_fits(wshape) {
                            None
                        } else {
                            let wname = spec_weight_name(lc);
                            if wname.len() > 0 && wreg.dom().contains(wname) {
                                let compatible = match spec_weight_mode(lc) {
                                    DimCheckMode::Strict => wreg[wname] == wshape,
                                    DimCheckMode::Permissive => shape_count(wreg[wname])
                                        == shape_count(wshape),
                                };
                                if compatible {
                                    Some((reg.insert(tname, tshape), wreg))
                                } else {
                                    None
                                }
                            } else if wname.len() > 0 {
                                Some((reg.insert(tname, tshape), wreg.insert(wname, wshape)))
                            } else {
                                Some((reg.insert(tname, tshape), wreg))
                            }
                        }
                    }
                },
                LayerKind::Relu => {
                    if tname == bname {
                        Some((reg, wreg))
                    } else if reg.dom().contains(tname) {
                        None
                    } else {
                        Some((reg.insert(tname, bshape), wreg))
                    }
                },
                LayerKind::AbsSumLoss { target } => {
                    if target@.len() != shape_count(bshape) {
                        None
                    } else if tname == bname {
                        None
                    } else if reg.dom().contains(tname) {
                        None
                    } else {
                        Some((reg.insert(tname, seq![1usize]), wreg))
                    }
                },
            }
        }
    }
}

/// The registries after the external inputs and the first `k` layer
/// configurations (excluded layers are skipped), or `None` if anything is
/// rejected.
pub open spec fn spec_layers_upto(config: NetworkConfig, k: int) -> Option<
    (Map<Seq<char>, Seq<usize>>, Map<Seq<char>, Seq<usize>>),
>
    decreases k,
{
    if k <= 0 {
        if config.inputs@.len() != config.input_shapes@.len() {
            None
        } else {
            match spec_inputs_upto(config, config.inputs@.len() as int) {
                None => None,
                Some(reg) => Some((reg, Map::<Seq<char>, Seq<usize>>::empty())),
            }
        }
    } else {
        match spec_layers_upto(config, k - 1) {
            None => None,
            Some((reg, wreg)) => {
                if !spec_layer_included(config.layers@[k - 1], config.state) {
                    Some((reg, wreg))
                } else {
                    spec_layer_step(reg, wreg, config.layers@[k - 1])
                }
            },
        }
    }
}

/// Whether a configuration wires without error: exactly when
/// `Network::from_config` succeeds on it.
pub open spec fn spec_build_ok(config: NetworkConfig) -> bool {
    spec_layers_upto(config, config.layers@.len() as int) is Some
}

/// Finds the first index holding `name`, scanning forward.
pub fn find_name(names: &Vec<String>, name: &String) -> (r: Option<usize>)
    ensures
        match r {
            Some(i) => i < names@.len() && names@[i as int]@ == name@ && forall|j: int|
                0 <= j < i ==> names@[j]@ != name@,
            None => forall|j: int| 0 <= j < names@.len() ==> names@[j]@ != name@,
        },
{
    let mut i: usize = 0;
    while i < names.len()
        invariant
            i <= names@.len(),
            forall|j: int| 0 <= j < i ==> names@[j]@ != name@,
        decreases names@.len() - i,
    {
        if names[i].eq(name) {
            return Some(i);
        }
        i = i + 1;
    }
    None
}

/// The exec registry (the network's slot names and shapes) realizes the
/// spec-level registry map.
#[verifier::opaque]
pub open spec fn reg_matches(net: Network, reg: Map<Seq<char>, Seq<usize>>) -> bool {
    &&& forall|s: int|
        0 <= s < net.blob_names@.len() ==> reg.dom().contains(#[trigger] net.blob_names@[s]@)
            && reg[net.blob_names@[s]@] == net.blobs_data@[s].shape@
    &&& forall|n: Seq<char>|
        reg.dom().contains(n) ==> exists|s: int|
            0 <= s < net.blob_names@.len() && (#[trigger] net.blob_names@[s])@ == n
}


/// Finds the owner weight id registered under a sharing name, if any.
fn find_share_name(wni: &Vec<(String, usize)>, name: &String) -> (r: Option<usize>)
    ensures
        match r {
            Some(w) => exists|j: int|
                0 <= j < wni@.len() && (#[trigger] wni@[j].0)@ == name@ && wni@[j].1 == w,
            None => forall|j: int| 0 <= j < wni@.len() ==> (#[trigger] wni@[j].0)@ != name@,
        },
{
    let mut k: usize = 0;
    while k < wni.len()
        invariant
            k <= wni@.len(),
            forall|j: int| 0 <= j < k ==> (#[trigger] wni@[j].0)@ != name@,
        decreases wni@.len() - k,
    {
        if wni[k].0.eq(name) {
            return Some(wni[k].1);
        }
        k = k + 1;
    }
    None
}

/// The exec sharing-name registry (the network's `weight_names_index`)
/// realizes the spec-level weight registry map: each entry is a registered
/// sharing name bound to its owner weight id, whose storage still is its own
/// id during construction, and whose tensor has the registered shape.
#[verifier::opaque]
pub open spec fn wreg_matches(net: Network, wreg: Map<Seq<char>, Seq<usize>>) -> bool {
    &&& forall|k: int|
        0 <= k < net.weight_names_index@.len() ==> wreg.dom().contains(
            #[trigger] net.weight_names_index@[k].0@,
        ) && wreg[net.weight_names_index@[k].0@] == net.weight_store_data@[net.weight_names_index@[k].1 as int].shape@
    &&& forall|k: int|
        0 <= k < net.weight_names_index@.len() ==> (#[trigger] net.weight_names_index@[k].1 as int)
            < net.weights@.len() && net.weight_owners@[net.weight_names_index@[k].1 as int] is None
            && net.weights@[net.weight_names_index@[k].1 as int] == net.weight_names_index@[k].1
            && net.weight_names_index@[k].0@.len() > 0
            && net.weight_display_names@[net.weight_names_index@[k].1 as int]@
                == net.weight_names_index@[k].0@
    &&& forall|n: Seq<char>|
        wreg.dom().contains(n) ==> exists|k: int|
            0 <= k < net.weight_names_index@.len() && (#[trigger] net.weight_names_index@[k].0)@
                == n
    &&& forall|k: int, m: int|
        0 <= k < m < net.weight_names_index@.len() ==> (#[trigger] net.weight_names_index@[k].0@)
            != (#[trigger] net.weight_names_index@[m].0@)
}

/// Every buffer slot has a producer: it holds an external input, or it is
/// the top of some layer.
#[verifier::opaque]
pub open spec fn all_slots_produced(net: Network) -> bool {
    forall|s: int|
        0 <= s < net.blobs_data@.len() ==> #[trigger] spec_slot_produced(net, s)
}

/// Whether slot `s` holds an external input or is produced as some layer's
/// top.
#[verifier::opaque]
pub open spec fn spec_slot_produced(net: Network, s: int) -> bool {
    (exists|i: int|
        0 <= i < net.input_blob_ids@.len() && (#[trigger] net.input_blob_ids@[i] as int) == s)
        || (exists|m: int|
        0 <= m < net.layers@.len() && ((#[trigger] net.layers@[m]).tops@[0] as int) == s)
}

/// Every layer's declared bottom resolves to a buffer produced by an
/// external input or by an earlier layer's top: the wiring-completeness
/// guarantee of construction.
#[verifier::opaque]
pub open spec fn fully_wired(net: Network) -> bool {
    forall|l: int|
        0 <= l < net.layers@.len() ==> ((exists|i: int|
            0 <= i < net.input_blob_ids@.len() && (#[trigger] net.input_blob_ids@[i] as int) == (
            #[trigger] net.layers@[l]).bottoms@[0] as int) || (exists|m: int|
            0 <= m < l && ((#[trigger] net.layers@[m]).tops@[0] as int) == net.layers@[l].bottoms@[0] as int))
}

impl Network {
    /// Registers one external input: allocates a fresh zero-filled
    /// data+gradient buffer pair of the declared shape under the declared
    /// name, and records it as an input slot.  A duplicate name or an
    /// unmeasurable shape is a fatal configuration error.
    fn init_input_blob(
        &mut self,
        avail: &mut Vec<bool>,
        blob_name: &String,
        input_shape: &Vec<usize>,
        Ghost(reg): Ghost<Map<Seq<char>, Seq<usize>>>,
    ) -> (r: Result<(), NetworkError>)
        requires
            old(self).wf(),
            reg_matches(*old(self), reg),
            old(avail)@.len() == old(self).blobs_data@.len(),
            old(self).layers@.len() == 0,
            old(self).input_blob_ids@ == Seq::new(
                old(self).blobs_data@.len(),
                |i: int| i as usize,
            ),
        ensures
            match r {
                Ok(()) => {
                    &&& spec_input_step(reg, blob_name@, input_shape@) is Some
                    &&& final(self).wf()
                    &&& reg_matches(
                        *final(self),
                        spec_input_step(reg, blob_name@, input_shape@).unwrap(),
                    )
                    &&& final(avail)@ == old(avail)@.push(true)
                    &&& final(self).blobs_data@.len() == old(self).blobs_data@.len() + 1
                    &&& final(self).blob_names@ == old(self).blob_names@.push(
                        final(self).blob_names@.last(),
                    )
                    &&& final(self).blob_names@.last()@ == blob_name@
                    &&& final(self).blobs_data@.last().shape@ == input_shape@
                    &&& final(self).blobs_data@.last().data@ == Seq::new(
                        shape_count(input_shape@),
                        |i: int| 0i64,
                    )
                    &&& final(self).blobs_gradient@.last().shape@ == input_shape@
                    &&& final(self).blobs_gradient@.last().data@ == Seq::new(
                        shape_count(input_shape@),
                        |i: int| 0i64,
                    )
                    &&& final(self).blobs_data@.take(old(self).blobs_data@.len() as int) == old(self).blobs_data@
                    &&& final(self).blobs_gradient@.take(old(self).blobs_data@.len() as int) == old(self).blobs_gradient@
                    &&& final(self).input_blob_ids@ == Seq::new(
                        final(self).blobs_data@.len(),
                        |i: int| i as usize,
                    )
                    &&& final(self).input_blob_names@.len() == old(self).input_blob_names@.len() + 1
                    &&& final(self).input_blob_names@.last()@ == blob_name@
                    &&& final(self).input_blob_names@.take(old(self).input_blob_names@.len() as int)
                        == old(self).input_blob_names@
                    &&& final(self).layers@ == old(self).layers@
                    &&& final(self).output_blob_ids@ == old(self).output_blob_ids@
                    &&& final(self).weights@ == old(self).weights@
                    &&& final(self).weight_owners@ == old(self).weight_owners@
                    &&& final(self).weight_display_names@ == old(self).weight_display_names@
                    &&& final(self).weight_layer_indices@ == old(self).weight_layer_indices@
                    &&& final(self).weight_names_index@ == old(self).weight_names_index@
                    &&& final(self).learnable_weight_ids@ == old(self).learnable_weight_ids@
                    &&& final(self).weights_lr@ == old(self).weights_lr@
                    &&& final(self).weights_weight_decay@ == old(self).weights_weight_decay@
                    &&& final(self).weight_store_data@ == old(self).weight_store_data@
                    &&& final(self).weight_store_grad@ == old(self).weight_store_grad@
                    &&& final(self).name == old(self).name
                },
                Err(e) => {
                    &&& spec_input_step(reg, blob_name@, input_shape@) is None
                    &&& *final(self) == *old(self)
                    &&& final(avail)@ == old(avail)@
                    &&& (e matches NetworkError::DuplicateInput { name } ==> name@ == blob_name@
                        && reg.dom().contains(blob_name@))
                    &&& (e matches NetworkError::ShapeTooLarge { name } ==> name@ == blob_name@)
                    &&& (e is DuplicateInput || e is ShapeTooLarge)
                },
            },
    {
        proof {
            reveal(reg_matches);
        }
        match find_name(&self.blob_names, blob_name) {
            Some(_) => {
                proof {
                    assert(reg.dom().contains(blob_name@));
                }
                return Err(NetworkError::DuplicateInput { name: blob_name.clone() });
            },
            None => {},
        }
        proof {
            assert forall|n: Seq<char>| reg.dom().contains(n) implies n != blob_name@ by {
                assert(exists|s: int|
                    0 <= s < self.blob_names@.len() && (#[trigger] self.blob_names@[s])@ == n);
            }
            assert(!reg.dom().contains(blob_name@));
        }
        let data: Tensor = match Tensor::new(input_shape) {
            Some(t) => t,
            None => {
                return Err(NetworkError::ShapeTooLarge { name: blob_name.clone() });
            },
        };
        let grad: Tensor = data.duplicate();
        let slot: usize = self.blobs_data.len();
        self.blobs_data.push(data);
        self.blobs_gradient.push(grad);
        self.blob_names.push(blob_name.clone());
        self.input_blob_ids.push(slot);
        self.input_blob_names.push(blob_name.clone());
        avail.push(true);
        proof {
            let regp = spec_input_step(reg, blob_name@, input_shape@).unwrap();
            assert(self.blob_names@ =~= old(self).blob_names@.push(self.blob_names@.last()));
            assert(self.blobs_data@.take(old(self).blobs_data@.len() as int) =~= old(self).blobs_data@);
            assert(self.blobs_gradient@.take(old(self).blobs_data@.len() as int) =~= old(self).blobs_gradient@);
            assert(self.input_blob_names@.take(old(self).input_blob_names@.len() as int) =~= old(self).input_blob_names@);
            assert(self.input_blob_ids@ =~= Seq::new(self.blobs_data@.len(), |i: int| i as usize));
            assert forall|s: int| 0 <= s < self.blob_names@.len() implies regp.dom().contains(
                #[trigger] self.blob_names@[s]@,
            ) && regp[self.blob_names@[s]@] == self.blobs_data@[s].shape@ by {
                if s < old(self).blob_names@.len() {
                    assert(self.blob_names@[s] == old(self).blob_names@[s]);
                    assert(self.blobs_data@[s] == old(self).blobs_data@[s]);
                    assert(reg.dom().contains(old(self).blob_names@[s]@));
                }
            }
            assert forall|n: Seq<char>| regp.dom().contains(n) implies exists|s: int|
                0 <= s < self.blob_names@.len() && (#[trigger] self.blob_names@[s])@ == n by {
                if n == blob_name@ {
                    assert(self.blob_names@[self.blob_names@.len() - 1]@ == n);
                } else {
                    assert(reg.dom().contains(n));
                    let s = choose|s: int|
                        0 <= s < old(self).blob_names@.len() && (#[trigger] old(self).blob_names@[s])@ == n;
                    assert(self.blob_names@[s]@ == n);
                }
            }
            assert(reg_matches(*self, regp));
            // well-formedness: the new slot is a fresh, well-formed pair
            // under a fresh name, and nothing else moved
            assert forall|i: int, j: int|
                0 <= i < j < self.blob_names@.len() implies (#[trigger] self.blob_names@[i]@) != (
            #[trigger] self.blob_names@[j]@) by {
                if j < old(self).blob_names@.len() {
                    assert(old(self).blob_names@[i]@ != old(self).blob_names@[j]@);
                } else {
                    assert(j == self.blob_names@.len() - 1);
                    assert(reg.dom().contains(self.blob_names@[i]@));
                }
            }
            assert(self.buffers_wf());
            assert forall|i: int|
                0 <= i < self.input_blob_ids@.len() implies self.blob_names@[#[trigger] self
                .input_blob_ids@[i] as int]@ == self.input_blob_names@[i]@ by {
                if i < old(self).input_blob_ids@.len() {
                    assert(old(self).input_blob_ids@[i] == i as usize);
                    assert(old(self).blob_names@[i]@ == old(self).input_blob_names@[i]@);
                }
            }
            assert(self.io_wf());
            assert(self.weights_wf());
            assert forall|l: int| 0 <= l < self.layers@.len() implies crate::layer::layer_wf(
                #[trigger] self.layers@[l],
                self.datas(),
                self.weights@,
                self.wdatas(),
            ) by {}
            assert(self.wf());
        }
        Ok(())
    }
}


impl Network {
    /// Allocates a fresh zero-filled buffer pair of the given shape under a
    /// fresh name and registers it; returns its slot.
    fn push_slot(
        &mut self,
        avail: &mut Vec<bool>,
        name: &String,
        shape: Vec<usize>,
        count: usize,
        Ghost(reg): Ghost<Map<Seq<char>, Seq<usize>>>,
    ) -> (slot: usize)
        requires
            old(self).wf(),
            reg_matches(*old(self), reg),
            old(avail)@.len() == old(self).blobs_data@.len(),
            forall|s: int| 0 <= s < old(self).blob_names@.len() ==> (#[trigger] old(self).blob_names@[s])@ != name@,
            crate::tensor::shape_fits(shape@),
            count == shape_count(shape@),
        ensures
            final(self).wf(),
            reg_matches(*final(self), reg.insert(name@, shape@)),
            slot == old(self).blobs_data@.len(),
            final(avail)@ == old(avail)@.push(true),
            final(self).blobs_data@.len() == old(self).blobs_data@.len() + 1,
            final(self).blob_names@ == old(self).blob_names@.push(final(self).blob_names@.last()),
            final(self).blob_names@.last()@ == name@,
            final(self).blobs_data@.last().shape@ == shape@,
            final(self).blobs_data@.last().data@ == Seq::new(shape_count(shape@), |i: int| 0i64),
            final(self).blobs_gradient@.last().shape@ == shape@,
            final(self).blobs_gradient@.last().data@ == Seq::new(
                shape_count(shape@),
                |i: int| 0i64,
            ),
            final(self).blobs_data@.take(old(self).blobs_data@.len() as int) == old(self).blobs_data@,
            final(self).blobs_gradient@.take(old(self).blobs_data@.len() as int) == old(self).blobs_gradient@,
            final(self).layers@ == old(self).layers@,
            final(self).input_blob_ids@ == old(self).input_blob_ids@,
            final(self).input_blob_names@ == old(self).input_blob_names@,
            final(self).output_blob_ids@ == old(self).output_blob_ids@,
            final(self).weights@ == old(self).weights@,
            final(self).weight_owners@ == old(self).weight_owners@,
            final(self).weight_display_names@ == old(self).weight_display_names@,
            final(self).weight_layer_indices@ == old(self).weight_layer_indices@,
            final(self).weight_names_index@ == old(self).weight_names_index@,
            final(self).learnable_weight_ids@ == old(self).learnable_weight_ids@,
            final(self).weights_lr@ == old(self).weights_lr@,
            final(self).weights_weight_decay@ == old(self).weights_weight_decay@,
            final(self).weight_store_data@ == old(self).weight_store_data@,
            final(self).weight_store_grad@ == old(self).weight_store_grad@,
            final(self).name == old(self).name,
    {
        proof {
            reveal(reg_matches);
        }
        let data = Tensor { shape, data: vec![0i64; count] };
        let grad = data.duplicate();
        let slot: usize = self.blobs_data.len();
        self.blobs_data.push(data);
        self.blobs_gradient.push(grad);
        self.blob_names.push(name.clone());
        avail.push(true);
        proof {
            let shp = self.blobs_data@.last().shape@;
            assert forall|i: int| 0 <= i < count implies self.blobs_data@.last().data@[i] == 0i64 by {}
            assert(self.blobs_data@.last().data@ =~= Seq::new(shape_count(shp), |i: int| 0i64));
            let regp = reg.insert(name@, shp);
            assert(self.blob_names@ =~= old(self).blob_names@.push(self.blob_names@.last()));
            assert(self.blobs_data@.take(old(self).blobs_data@.len() as int) =~= old(self).blobs_data@);
            assert(self.blobs_gradient@.take(old(self).blobs_data@.len() as int) =~= old(self).blobs_gradient@);
            assert forall|s: int| 0 <= s < self.blob_names@.len() implies regp.dom().contains(
                #[trigger] self.blob_names@[s]@,
            ) && regp[self.blob_names@[s]@] == self.blobs_data@[s].shape@ by {
                if s < old(self).blob_names@.len() {
                    assert(self.blob_names@[s] == old(self).blob_names@[s]);
                    assert(self.blobs_data@[s] == old(self).blobs_data@[s]);
                    assert(reg.dom().contains(old(self).blob_names@[s]@));
                }
            }
            assert forall|n: Seq<char>| regp.dom().contains(n) implies exists|s: int|
                0 <= s < self.blob_names@.len() && (#[trigger] self.blob_names@[s])@ == n by {
                if n == name@ {
                    assert(self.blob_names@[self.blob_names@.len() - 1]@ == n);
                } else {
                    assert(reg.dom().contains(n));
                    let s = choose|s: int|
                        0 <= s < old(self).blob_names@.len() && (#[trigger] old(self).blob_names@[s])@ == n;
                    assert(self.blob_names@[s]@ == n);
                }
            }
            assert(reg_matches(*self, regp));
            assert forall|i: int, j: int|
                0 <= i < j < self.blob_names@.len() implies (#[trigger] self.blob_names@[i]@) != (
            #[trigger] self.blob_names@[j]@) by {
                if j < old(self).blob_names@.len() {
                    assert(old(self).blob_names@[i]@ != old(self).blob_names@[j]@);
                } else {
                    assert(j == self.blob_names@.len() - 1);
                    assert(old(self).blob_names@[i]@ != name@);
                }
            }
            assert(self.buffers_wf());
            assert forall|i: int|
                0 <= i < self.input_blob_ids@.len() implies self.blob_names@[#[trigger] self
                .input_blob_ids@[i] as int]@ == self.input_blob_names@[i]@ by {
                assert(old(self).blob_names@[old(self).input_blob_ids@[i] as int]@ == old(self).input_blob_names@[i]@);
            }
            assert(self.io_wf());
            assert(self.weights_wf());
            assert forall|l: int| 0 <= l < self.layers@.len() implies crate::layer::layer_wf(
                #[trigger] self.layers@[l],
                self.datas(),
                self.weights@,
                self.wdatas(),
            ) by {
                assert(crate::layer::layer_wf(
                    self.layers@[l],
                    old(self).datas(),
                    old(self).weights@,
                    old(self).wdatas(),
                ));
                assert(forall|t: int|
                    0 <= t < old(self).datas().len() ==> #[trigger] self.datas()[t] == old(self).datas()[t]);
            }
            assert(self.wf());
        }
        slot
    }
}


/// The declared learning-rate multiplier of a layer's weight.
pub open spec fn spec_weight_lr(lc: LayerConfig) -> Option<i64> {
    if lc.weights@.len() > 0 {
        lc.weights@[0].lr_mult
    } else {
        None
    }
}

/// The declared weight-decay multiplier of a layer's weight.
pub open spec fn spec_weight_decay(lc: LayerConfig) -> Option<i64> {
    if lc.weights@.len() > 0 {
        lc.weights@[0].decay_mult
    } else {
        None
    }
}

/// A wired layer realizes its configuration against the network it stands
/// in: the declared names, the slots they resolved to, the in-place record,
/// the propagation switch, and the resolved dimensions all match.
#[verifier::opaque]
pub open spec fn layer_matches(l: Layer, lc: LayerConfig, net: Network) -> bool {
    &&& l.name@ == lc.name@
    &&& l.bottom_names@.len() == 1 && l.bottom_names@[0]@ == lc.bottoms@[0]@
    &&& l.top_names@.len() == 1 && l.top_names@[0]@ == lc.tops@[0]@
    &&& l.bottoms@.len() == 1 && (l.bottoms@[0] as int) < net.blob_names@.len()
    &&& net.blob_names@[l.bottoms@[0] as int]@ == lc.bottoms@[0]@
    &&& l.tops@.len() == 1 && (l.tops@[0] as int) < net.blob_names@.len()
    &&& net.blob_names@[l.tops@[0] as int]@ == lc.tops@[0]@
    &&& l.in_place@.len() == 1 && (l.in_place@[0] == (lc.tops@[0]@ == lc.bottoms@[0]@))
    &&& (l.in_place@[0] ==> l.tops@[0] == l.bottoms@[0])
    &&& l.propagate@.len() == 1 && l.propagate@[0] == spec_propagate_down(lc, 0)
    &&& match lc.kind {
        LayerKind::Linear { output_size } => (l.op matches LayerOp::Linear { batch, in_dim, out_dim }
            && out_dim == output_size && net.blobs_data@[l.bottoms@[0] as int].shape@ == seq![
            batch,
            in_dim,
        ] && net.blobs_data@[l.tops@[0] as int].shape@ == seq![batch, out_dim]),
        LayerKind::Relu => (l.op matches LayerOp::Relu { count } && count == shape_count(
            net.blobs_data@[l.bottoms@[0] as int].shape@,
        )),
        LayerKind::AbsSumLoss { target } => (l.op matches LayerOp::AbsSumLoss { target: t }
            && t@ == target@),
    }
    &&& l.weights@.len() == (if lc.kind is Linear {
        1int
    } else {
        0int
    })
    &&& (lc.kind is Linear ==> (l.weights@[0] as int) < net.weight_display_names@.len()
        && net.weight_display_names@[l.weights@[0] as int]@ == (if spec_weight_name(lc).len() > 0 {
        spec_weight_name(lc)
    } else {
        lc.name@ + "_w"@
    }) && net.weights_lr@[l.weights@[0] as int] == spec_weight_lr(lc)
        && net.weights_weight_decay@[l.weights@[0] as int] == spec_weight_decay(lc))
}

/// The ownership records are coherent: a weight declared to share points at
/// an earlier weight that owns its storage and carries the same display
/// name, and both describe the same element count.
pub open spec fn owners_wf(net: Network) -> bool {
    forall|w: int|
        0 <= w < net.weight_owners@.len() ==> ((#[trigger] net.weight_owners@[w]) matches Some(j)
            ==> 0 <= j < w && net.weight_owners@[j as int] is None
            && net.weight_display_names@[w]@ == net.weight_display_names@[j as int]@
            && net.weight_store_data@[w].data@.len() == net.weight_store_data@[j as int].data@.len())
}

/// Before sharing is resolved, every weight references its own storage slot.
pub open spec fn slots_own(net: Network) -> bool {
    &&& net.weight_store_data@.len() == net.weights@.len()
    &&& forall|w: int| 0 <= w < net.weights@.len() ==> (#[trigger] net.weights@[w]) == w
}

impl Network {
    /// Wires one layer: resolves its bottom in the registry, allocates or
    /// aliases its top, creates and registers its weight, and appends it to
    /// the pipeline.  Any violation of the wiring rules is a fatal
    /// configuration error, reported before anything is changed.
    #[verifier::rlimit(100)]
    fn init_relu_layer(
        &mut self,
        avail: &mut Vec<bool>,
        lc: &LayerConfig,
        bslot: usize,
        Ghost(reg): Ghost<Map<Seq<char>, Seq<usize>>>,
        Ghost(wreg): Ghost<Map<Seq<char>, Seq<usize>>>,
    ) -> (r: Result<(), NetworkError>)
        requires
            lc.kind is Relu,
            spec_config_valid(*lc),
            bslot < old(self).blobs_data@.len(),
            old(self).blob_names@[bslot as int]@ == lc.bottoms@[0]@,
            reg.dom().contains(lc.bottoms@[0]@),
            reg[lc.bottoms@[0]@] == old(self).blobs_data@[bslot as int].shape@,
            old(self).wf(),
            reg_matches(*old(self), reg),
            wreg_matches(*old(self), wreg),
            old(avail)@.len() == old(self).blobs_data@.len(),
            all_slots_produced(*old(self)),
            fully_wired(*old(self)),
            owners_wf(*old(self)),
            slots_own(*old(self)),
        ensures
            match r {
                Ok(()) => {
                    &&& spec_layer_step(reg, wreg, *lc) is Some
                    &&& final(self).wf()
                    &&& reg_matches(*final(self), spec_layer_step(reg, wreg, *lc).unwrap().0)
                    &&& wreg_matches(*final(self), spec_layer_step(reg, wreg, *lc).unwrap().1)
                    &&& all_slots_produced(*final(self))
                    &&& fully_wired(*final(self))
                    &&& owners_wf(*final(self))
                    &&& slots_own(*final(self))
                    &&& final(avail)@.len() == final(self).blobs_data@.len()
                    &&& final(self).layers@.len() == old(self).layers@.len() + 1
                    &&& final(self).layers@.take(old(self).layers@.len() as int) == old(self).layers@
                    &&& layer_matches(final(self).layers@.last(), *lc, *final(self))
                    &&& final(self).blob_names@.take(old(self).blob_names@.len() as int) == old(self).blob_names@
                    &&& final(self).blobs_data@.len() >= old(self).blobs_data@.len()
                    &&& (forall|s: int|
                        0 <= s < old(self).blobs_data@.len() ==> (#[trigger] final(self).blobs_data@[s]).shape@ == old(self).blobs_data@[s].shape@)
                    &&& (final(self).layers@.last().bottoms@[0] as int) < old(self).blobs_data@.len()
                    &&& ({
                        let b = final(self).layers@.last().bottoms@[0] as int;
                        let t = final(self).layers@.last().tops@[0] as int;
                        if final(self).layers@.last().in_place@[0] {
                            final(avail)@ == old(avail)@.update(b, true) && final(self).blobs_data@.len() == old(self).blobs_data@.len()
                        } else {
                            final(avail)@ == old(avail)@.update(b, false).push(true) && t == old(self).blobs_data@.len() && final(self).blobs_data@.len() == old(self).blobs_data@.len() + 1
                        }
                    })
                    &&& final(self).input_blob_ids@ == old(self).input_blob_ids@
                    &&& final(self).input_blob_names@ == old(self).input_blob_names@
                    &&& final(self).output_blob_ids@ == old(self).output_blob_ids@
                    &&& final(self).name == old(self).name
                    &&& final(self).weights@.take(old(self).weights@.len() as int) == old(self).weights@
                    &&& final(self).weight_display_names@.take(
                        old(self).weight_display_names@.len() as int,
                    ) == old(self).weight_display_names@
                    &&& final(self).weight_owners@.take(old(self).weight_owners@.len() as int)
                        == old(self).weight_owners@
                    &&& final(self).learnable_weight_ids@.take(
                        old(self).learnable_weight_ids@.len() as int,
                    ) == old(self).learnable_weight_ids@
                    &&& final(self).weights_lr@.take(old(self).weights_lr@.len() as int) == old(self).weights_lr@
                    &&& final(self).weights_weight_decay@.take(
                        old(self).weights_weight_decay@.len() as int,
                    ) == old(self).weights_weight_decay@
                    &&& final(self).weight_store_data@.take(
                        old(self).weight_store_data@.len() as int,
                    ) == old(self).weight_store_data@
                    &&& final(self).weights@.len() >= old(self).weights@.len()
                },
                Err(e) => {
                    &&& spec_layer_step(reg, wreg, *lc) is None
                    &&& *final(self) == *old(self)
                    &&& final(avail)@ == old(avail)@
                },
            },
    {
        proof {
            reveal(reg_matches);
            reveal(wreg_matches);
            reveal(all_slots_produced);
            reveal(spec_slot_produced);
            reveal(fully_wired);
        }
        let in_place: bool = lc.tops[0].eq(&lc.bottoms[0]);
        let ghost bshape = self.blobs_data@[bslot as int].shape@;
                let count: usize = self.blobs_data[bslot].data.len();
                let top_slot: usize;
                if in_place {
                    avail[bslot] = false;
                    avail[bslot] = true;
                    top_slot = bslot;
                    proof {
                        assert(final(avail)@ =~= old(avail)@.update(bslot as int, true));
                    }
                } else {
                    match find_name(&self.blob_names, &lc.tops[0]) {
                        Some(_) => {
                            proof {
                                assert(reg.dom().contains(lc.tops@[0]@));
                            }
                            return Err(NetworkError::DuplicateTop {
                                layer: lc.name.clone(),
                                name: lc.tops[0].clone(),
                            });
                        },
                        None => {},
                    }
                    proof {
                        assert forall|n: Seq<char>| reg.dom().contains(n) implies n
                            != lc.tops@[0]@ by {
                            assert(exists|s: int|
                                0 <= s < self.blob_names@.len() && (#[trigger] self.blob_names@[s])@
                                    == n);
                        }
                        assert(!reg.dom().contains(lc.tops@[0]@));
                    }
                    avail[bslot] = false;
                    let tshape: Vec<usize> = crate::tensor::copy_usize_vec(
                        &self.blobs_data[bslot].shape,
                    );
                    top_slot = self.push_slot(
                        avail,
                        &lc.tops[0],
                        tshape,
                        count,
                        Ghost(reg),
                    );
                }
                let mut bottoms: Vec<usize> = Vec::new();
                bottoms.push(bslot);
                let mut bottom_names: Vec<String> = Vec::new();
                bottom_names.push(lc.bottoms[0].clone());
                let mut tops: Vec<usize> = Vec::new();
                tops.push(top_slot);
                let mut top_names: Vec<String> = Vec::new();
                top_names.push(lc.tops[0].clone());
                let mut in_place_v: Vec<bool> = Vec::new();
                in_place_v.push(in_place);
                let mut propagate: Vec<bool> = Vec::new();
                if lc.propagate_down.len() > 0 {
                    propagate.push(lc.propagate_down[0]);
                } else {
                    propagate.push(true);
                }
                let mut need: Vec<bool> = Vec::new();
                need.push(true);
                let layer = Layer {
                    name: lc.name.clone(),
                    op: LayerOp::Relu { count },
                    bottoms,
                    bottom_names,
                    tops,
                    top_names,
                    in_place: in_place_v,
                    weights: Vec::new(),
                    propagate,
                    bottom_need_backward: need,
                    skip_backward: false,
                };
                self.layers.push(layer);
                proof {
                    assert(self.layers@.take(old(self).layers@.len() as int) =~= old(self).layers@);
                    assert(self.weights_lr@.take(old(self).weights_lr@.len() as int)
                        =~= old(self).weights_lr@);
                    assert(self.weights_weight_decay@.take(
                        old(self).weights_weight_decay@.len() as int,
                    ) =~= old(self).weights_weight_decay@);
                    assert(self.weight_store_data@.take(old(self).weight_store_data@.len() as int)
                        =~= old(self).weight_store_data@);
                    assert(self.layers@.last().bottoms@ =~= seq![bslot]);
                    assert(self.layers@.last().tops@ =~= seq![top_slot]);
                    assert(self.datas()[bslot as int] == self.blobs_data@[bslot as int].data@);
                    assert(self.datas()[top_slot as int] == self.blobs_data@[top_slot as int].data@);
                    assert(crate::layer::layer_wf(
                        self.layers@.last(),
                        self.datas(),
                        self.weights@,
                        self.wdatas(),
                    ));
                    assert forall|l: int| 0 <= l < self.layers@.len() implies crate::layer::layer_wf(
                        #[trigger] self.layers@[l],
                        self.datas(),
                        self.weights@,
                        self.wdatas(),
                    ) by {
                        if l < old(self).layers@.len() {
                            assert(self.layers@[l] == old(self).layers@[l]);
                            assert(crate::layer::layer_wf(
                                old(self).layers@[l],
                                old(self).datas(),
                                old(self).weights@,
                                old(self).wdatas(),
                            ));
                            assert(forall|t: int|
                                0 <= t < old(self).datas().len() ==> #[trigger] self.datas()[t]
                                    == old(self).datas()[t]);
                        }
                    }
                    assert(self.wf());
                    assert forall|s: int| 0 <= s < self.blobs_data@.len() implies #[trigger] spec_slot_produced(
                        *self,
                        s,
                    ) by {
                        if s < old(self).blobs_data@.len() {
                            assert(spec_slot_produced(*old(self), s));
                            if exists|m: int|
                                0 <= m < old(self).layers@.len() && ((#[trigger] old(self).layers@[m]).tops@[0] as int) == s {
                                let m = choose|m: int|
                                    0 <= m < old(self).layers@.len() && ((#[trigger] old(self).layers@[m]).tops@[0] as int) == s;
                                assert(self.layers@[m] == old(self).layers@[m]);
                            }
                        } else {
                            assert(s == top_slot as int);
                            assert((self.layers@[self.layers@.len() - 1].tops@[0] as int) == s);
                        }
                    }
                    assert forall|l: int|
                        0 <= l < self.layers@.len() implies ((exists|i: int|
                        0 <= i < self.input_blob_ids@.len() && (#[trigger] self.input_blob_ids@[i]
                            as int) == (#[trigger] self.layers@[l]).bottoms@[0] as int) || (
                    exists|m: int|
                        0 <= m < l && ((#[trigger] self.layers@[m]).tops@[0] as int)
                            == self.layers@[l].bottoms@[0] as int)) by {
                        if l < old(self).layers@.len() {
                            assert(self.layers@[l] == old(self).layers@[l]);
                            if exists|m: int|
                                0 <= m < l && ((#[trigger] old(self).layers@[m]).tops@[0] as int)
                                    == old(self).layers@[l].bottoms@[0] as int {
                                let m = choose|m: int|
                                    0 <= m < l && ((#[trigger] old(self).layers@[m]).tops@[0]
                                        as int) == old(self).layers@[l].bottoms@[0] as int;
                                assert(self.layers@[m] == old(self).layers@[m]);
                            }
                        } else {
                            assert(spec_slot_produced(*old(self), bslot as int));
                            if exists|m: int|
                                0 <= m < old(self).layers@.len() && ((#[trigger] old(self).layers@[m]).tops@[0] as int) == bslot as int {
                                let m = choose|m: int|
                                    0 <= m < old(self).layers@.len() && ((#[trigger] old(self).layers@[m]).tops@[0] as int) == bslot as int;
                                assert(self.layers@[m] == old(self).layers@[m]);
                                assert(m < l);
                            }
                        }
                    }
                    assert(fully_wired(*self));
                    reveal(layer_matches);
                    assert(layer_matches(self.layers@.last(), *lc, *self));
                }
                Ok(())
    }

    #[verifier::rlimit(100)]
    fn init_loss_layer(
        &mut self,
        avail: &mut Vec<bool>,
        lc: &LayerConfig,
        bslot: usize,
        Ghost(reg): Ghost<Map<Seq<char>, Seq<usize>>>,
        Ghost(wreg): Ghost<Map<Seq<char>, Seq<usize>>>,
    ) -> (r: Result<(), NetworkError>)
        requires
            lc.kind is AbsSumLoss,
            spec_config_valid(*lc),
            bslot < old(self).blobs_data@.len(),
            old(self).blob_names@[bslot as int]@ == lc.bottoms@[0]@,
            reg.dom().contains(lc.bottoms@[0]@),
            reg[lc.bottoms@[0]@] == old(self).blobs_data@[bslot as int].shape@,
            old(self).wf(),
            reg_matches(*old(self), reg),
            wreg_matches(*old(self), wreg),
            old(avail)@.len() == old(self).blobs_data@.len(),
            all_slots_produced(*old(self)),
            fully_wired(*old(self)),
            owners_wf(*old(self)),
            slots_own(*old(self)),
        ensures
            match r {
                Ok(()) => {
                    &&& spec_layer_step(reg, wreg, *lc) is Some
                    &&& final(self).wf()
                    &&& reg_matches(*final(self), spec_layer_step(reg, wreg, *lc).unwrap().0)
                    &&& wreg_matches(*final(self), spec_layer_step(reg, wreg, *lc).unwrap().1)
                    &&& all_slots_produced(*final(self))
                    &&& fully_wired(*final(self))
                    &&& owners_wf(*final(self))
                    &&& slots_own(*final(self))
                    &&& final(avail)@.len() == final(self).blobs_data@.len()
                    &&& final(self).layers@.len() == old(self).layers@.len() + 1
                    &&& final(self).layers@.take(old(self).layers@.len() as int) == old(self).layers@
                    &&& layer_matches(final(self).layers@.last(), *lc, *final(self))
                    &&& final(self).blob_names@.take(old(self).blob_names@.len() as int) == old(self).blob_names@
                    &&& final(self).blobs_data@.len() >= old(self).blobs_data@.len()
                    &&& (forall|s: int|
                        0 <= s < old(self).blobs_data@.len() ==> (#[trigger] final(self).blobs_data@[s]).shape@ == old(self).blobs_data@[s].shape@)
                    &&& (final(self).layers@.last().bottoms@[0] as int) < old(self).blobs_data@.len()
                    &&& ({
                        let b = final(self).layers@.last().bottoms@[0] as int;
                        let t = final(self).layers@.last().tops@[0] as int;
                        if final(self).layers@.last().in_place@[0] {
                            final(avail)@ == old(avail)@.update(b, true) && final(self).blobs_data@.len() == old(self).blobs_data@.len()
                        } else {
                            final(avail)@ == old(avail)@.update(b, false).push(true) && t == old(self).blobs_data@.len() && final(self).blobs_data@.len() == old(self).blobs_data@.len() + 1
                        }
                    })
                    &&& final(self).input_blob_ids@ == old(self).input_blob_ids@
                    &&& final(self).input_blob_names@ == old(self).input_blob_names@
                    &&& final(self).output_blob_ids@ == old(self).output_blob_ids@
                    &&& final(self).name == old(self).name
                    &&& final(self).weights@.take(old(self).weights@.len() as int) == old(self).weights@
                    &&& final(self).weight_display_names@.take(
                        old(self).weight_display_names@.len() as int,
                    ) == old(self).weight_display_names@
                    &&& final(self).weight_owners@.take(old(self).weight_owners@.len() as int)
                        == old(self).weight_owners@
                    &&& final(self).learnable_weight_ids@.take(
                        old(self).learnable_weight_ids@.len() as int,
                    ) == old(self).learnable_weight_ids@
                    &&& final(self).weights_lr@.take(old(self).weights_lr@.len() as int) == old(self).weights_lr@
                    &&& final(self).weights_weight_decay@.take(
                        old(self).weights_weight_decay@.len() as int,
                    ) == old(self).weights_weight_decay@
                    &&& final(self).weight_store_data@.take(
                        old(self).weight_store_data@.len() as int,
                    ) == old(self).weight_store_data@
                    &&& final(self).weights@.len() >= old(self).weights@.len()
                },
                Err(e) => {
                    &&& spec_layer_step(reg, wreg, *lc) is None
                    &&& *final(self) == *old(self)
                    &&& final(avail)@ == old(avail)@
                },
            },
    {
        proof {
            reveal(reg_matches);
            reveal(wreg_matches);
            reveal(all_slots_produced);
            reveal(spec_slot_produced);
            reveal(fully_wired);
        }
        let in_place: bool = lc.tops[0].eq(&lc.bottoms[0]);
        let ghost bshape = self.blobs_data@[bslot as int].shape@;
        let target: &Vec<i64> = match &lc.kind {
            LayerKind::AbsSumLoss { target } => target,
            LayerKind::Relu => { return Err(NetworkError::InvalidLayer { layer: lc.name.clone() }); },
            LayerKind::Linear { output_size } => { return Err(NetworkError::InvalidLayer { layer: lc.name.clone() }); },
        };
                if target.len() != self.blobs_data[bslot].data.len() {
                    return Err(NetworkError::InvalidLayer { layer: lc.name.clone() });
                }
                if in_place {
                    return Err(NetworkError::InvalidLayer { layer: lc.name.clone() });
                }
                match find_name(&self.blob_names, &lc.tops[0]) {
                    Some(_) => {
                        proof {
                            assert(reg.dom().contains(lc.tops@[0]@));
                        }
                        return Err(NetworkError::DuplicateTop {
                            layer: lc.name.clone(),
                            name: lc.tops[0].clone(),
                        });
                    },
                    None => {},
                }
                proof {
                    assert forall|n: Seq<char>| reg.dom().contains(n) implies n != lc.tops@[0]@ by {
                        assert(exists|s: int|
                            0 <= s < self.blob_names@.len() && (#[trigger] self.blob_names@[s])@
                                == n);
                    }
                    assert(!reg.dom().contains(lc.tops@[0]@));
                }
                avail[bslot] = false;
                let mut tshape: Vec<usize> = Vec::new();
                tshape.push(1);
                proof {
                    crate::tensor::lemma_shape_count_one(1);
                    assert(tshape@ =~= seq![1usize]);
                    assert forall|i: int| 0 <= i <= seq![1usize].len() implies shape_count(
                        #[trigger] seq![1usize].take(i),
                    ) <= usize::MAX by {
                        if i == 0 {
                            assert(seq![1usize].take(0) =~= Seq::<usize>::empty());
                        } else {
                            assert(seq![1usize].take(i) =~= seq![1usize]);
                        }
                    }
                    assert(crate::tensor::shape_fits(seq![1usize]));
                }
                let top_slot: usize = self.push_slot(avail, &lc.tops[0], tshape, 1, Ghost(reg));
                let mut bottoms: Vec<usize> = Vec::new();
                bottoms.push(bslot);
                let mut bottom_names: Vec<String> = Vec::new();
                bottom_names.push(lc.bottoms[0].clone());
                let mut tops: Vec<usize> = Vec::new();
                tops.push(top_slot);
                let mut top_names: Vec<String> = Vec::new();
                top_names.push(lc.tops[0].clone());
                let mut in_place_v: Vec<bool> = Vec::new();
                in_place_v.push(false);
                let mut propagate: Vec<bool> = Vec::new();
                if lc.propagate_down.len() > 0 {
                    propagate.push(lc.propagate_down[0]);
                } else {
                    propagate.push(true);
                }
                let mut need: Vec<bool> = Vec::new();
                need.push(true);
                let layer = Layer {
                    name: lc.name.clone(),
                    op: LayerOp::AbsSumLoss { target: crate::tensor::copy_i64_vec(target) },
                    bottoms,
                    bottom_names,
                    tops,
                    top_names,
                    in_place: in_place_v,
                    weights: Vec::new(),
                    propagate,
                    bottom_need_backward: need,
                    skip_backward: false,
                };
                self.layers.push(layer);
                proof {
                    assert(self.layers@.take(old(self).layers@.len() as int) =~= old(self).layers@);
                    assert(self.weights_lr@.take(old(self).weights_lr@.len() as int)
                        =~= old(self).weights_lr@);
                    assert(self.weights_weight_decay@.take(
                        old(self).weights_weight_decay@.len() as int,
                    ) =~= old(self).weights_weight_decay@);
                    assert(self.weight_store_data@.take(old(self).weight_store_data@.len() as int)
                        =~= old(self).weight_store_data@);
                    assert(self.layers@.last().bottoms@ =~= seq![bslot]);
                    assert(self.layers@.last().tops@ =~= seq![top_slot]);
                    assert(self.datas()[bslot as int] == self.blobs_data@[bslot as int].data@);
                    assert(self.datas()[top_slot as int] == self.blobs_data@[top_slot as int].data@);
                    assert(self.blobs_data@[bslot as int] == old(self).blobs_data@[bslot as int]);
                    assert(crate::layer::layer_wf(
                        self.layers@.last(),
                        self.datas(),
                        self.weights@,
                        self.wdatas(),
                    ));
                    assert forall|l: int| 0 <= l < self.layers@.len() implies crate::layer::layer_wf(
                        #[trigger] self.layers@[l],
                        self.datas(),
                        self.weights@,
                        self.wdatas(),
                    ) by {
                        if l < old(self).layers@.len() {
                            assert(self.layers@[l] == old(self).layers@[l]);
                            assert(crate::layer::layer_wf(
                                old(self).layers@[l],
                                old(self).datas(),
                                old(self).weights@,
                                old(self).wdatas(),
                            ));
                            assert(forall|t: int|
                                0 <= t < old(self).datas().len() ==> #[trigger] self.datas()[t]
                                    == old(self).datas()[t]);
                        }
                    }
                    assert(self.wf());
                    assert forall|s: int| 0 <= s < self.blobs_data@.len() implies #[trigger] spec_slot_produced(
                        *self,
                        s,
                    ) by {
                        if s < old(self).blobs_data@.len() {
                            assert(spec_slot_produced(*old(self), s));
                            if exists|m: int|
                                0 <= m < old(self).layers@.len() && ((#[trigger] old(self).layers@[m]).tops@[0] as int) == s {
                                let m = choose|m: int|
                                    0 <= m < old(self).layers@.len() && ((#[trigger] old(self).layers@[m]).tops@[0] as int) == s;
                                assert(self.layers@[m] == old(self).layers@[m]);
                            }
                        } else {
                            assert(s == top_slot as int);
                            assert((self.layers@[self.layers@.len() - 1].tops@[0] as int) == s);
                        }
                    }
                    assert forall|l: int|
                        0 <= l < self.layers@.len() implies ((exists|i: int|
                        0 <= i < self.input_blob_ids@.len() && (#[trigger] self.input_blob_ids@[i]
                            as int) == (#[trigger] self.layers@[l]).bottoms@[0] as int) || (
                    exists|m: int|
                        0 <= m < l && ((#[trigger] self.layers@[m]).tops@[0] as int)
                            == self.layers@[l].bottoms@[0] as int)) by {
                        if l < old(self).layers@.len() {
                            assert(self.layers@[l] == old(self).layers@[l]);
                            if exists|m: int|
                                0 <= m < l && ((#[trigger] old(self).layers@[m]).tops@[0] as int)
                                    == old(self).layers@[l].bottoms@[0] as int {
                                let m = choose|m: int|
                                    0 <= m < l && ((#[trigger] old(self).layers@[m]).tops@[0]
                                        as int) == old(self).layers@[l].bottoms@[0] as int;
                                assert(self.layers@[m] == old(self).layers@[m]);
                            }
                        } else {
                            assert(spec_slot_produced(*old(self), bslot as int));
                            if exists|m: int|
                                0 <= m < old(self).layers@.len() && ((#[trigger] old(self).layers@[m]).tops@[0] as int) == bslot as int {
                                let m = choose|m: int|
                                    0 <= m < old(self).layers@.len() && ((#[trigger] old(self).layers@[m]).tops@[0] as int) == bslot as int;
                                assert(self.layers@[m] == old(self).layers@[m]);
                                assert(m < l);
                            }
                        }
                    }
                    assert(fully_wired(*self));
                    reveal(layer_matches);
                    assert(layer_matches(self.layers@.last(), *lc, *self));
                }
                Ok(())
    }

    #[verifier::rlimit(100)]
    fn init_linear_layer(
        &mut self,
        avail: &mut Vec<bool>,
        lc: &LayerConfig,
        bslot: usize,
        Ghost(reg): Ghost<Map<Seq<char>, Seq<usize>>>,
        Ghost(wreg): Ghost<Map<Seq<char>, Seq<usize>>>,
    ) -> (r: Result<(), NetworkError>)
        requires
            lc.kind is Linear,
            spec_config_valid(*lc),
            bslot < old(self).blobs_data@.len(),
            old(self).blob_names@[bslot as int]@ == lc.bottoms@[0]@,
            reg.dom().contains(lc.bottoms@[0]@),
            reg[lc.bottoms@[0]@] == old(self).blobs_data@[bslot as int].shape@,
            old(self).wf(),
            reg_matches(*old(self), reg),
            wreg_matches(*old(self), wreg),
            old(avail)@.len() == old(self).blobs_data@.len(),
            all_slots_produced(*old(self)),
            fully_wired(*old(self)),
            owners_wf(*old(self)),
            slots_own(*old(self)),
        ensures
            match r {
                Ok(()) => {
                    &&& spec_layer_step(reg, wreg, *lc) is Some
                    &&& final(self).wf()
                    &&& reg_matches(*final(self), spec_layer_step(reg, wreg, *lc).unwrap().0)
                    &&& wreg_matches(*final(self), spec_layer_step(reg, wreg, *lc).unwrap().1)
                    &&& all_slots_produced(*final(self))
                    &&& fully_wired(*final(self))
                    &&& owners_wf(*final(self))
                    &&& slots_own(*final(self))
                    &&& final(avail)@.len() == final(self).blobs_data@.len()
                    &&& final(self).layers@.len() == old(self).layers@.len() + 1
                    &&& final(self).layers@.take(old(self).layers@.len() as int) == old(self).layers@
                    &&& layer_matches(final(self).layers@.last(), *lc, *final(self))
                    &&& final(self).blob_names@.take(old(self).blob_names@.len() as int) == old(self).blob_names@
                    &&& final(self).blobs_data@.len() >= old(self).blobs_data@.len()
                    &&& (forall|s: int|
                        0 <= s < old(self).blobs_data@.len() ==> (#[trigger] final(self).blobs_data@[s]).shape@ == old(self).blobs_data@[s].shape@)
                    &&& (final(self).layers@.last().bottoms@[0] as int) < old(self).blobs_data@.len()
                    &&& ({
                        let b = final(self).layers@.last().bottoms@[0] as int;
                        let t = final(self).layers@.last().tops@[0] as int;
                        if final(self).layers@.last().in_place@[0] {
                            final(avail)@ == old(avail)@.update(b, true) && final(self).blobs_data@.len() == old(self).blobs_data@.len()
                        } else {
                            final(avail)@ == old(avail)@.update(b, false).push(true) && t == old(self).blobs_data@.len() && final(self).blobs_data@.len() == old(self).blobs_data@.len() + 1
                        }
                    })
                    &&& final(self).input_blob_ids@ == old(self).input_blob_ids@
                    &&& final(self).input_blob_names@ == old(self).input_blob_names@
                    &&& final(self).output_blob_ids@ == old(self).output_blob_ids@
                    &&& final(self).name == old(self).name
                    &&& final(self).weights@.take(old(self).weights@.len() as int) == old(self).weights@
                    &&& final(self).weight_display_names@.take(
                        old(self).weight_display_names@.len() as int,
                    ) == old(self).weight_display_names@
                    &&& final(self).weight_owners@.take(old(self).weight_owners@.len() as int)
                        == old(self).weight_owners@
                    &&& final(self).learnable_weight_ids@.take(
                        old(self).learnable_weight_ids@.len() as int,
                    ) == old(self).learnable_weight_ids@
                    &&& final(self).weights_lr@.take(old(self).weights_lr@.len() as int) == old(self).weights_lr@
                    &&& final(self).weights_weight_decay@.take(
                        old(self).weights_weight_decay@.len() as int,
                    ) == old(self).weights_weight_decay@
                    &&& final(self).weight_store_data@.take(
                        old(self).weight_store_data@.len() as int,
                    ) == old(self).weight_store_data@
                    &&& final(self).weights@.len() >= old(self).weights@.len()
                },
                Err(e) => {
                    &&& spec_layer_step(reg, wreg, *lc) is None
                    &&& *final(self) == *old(self)
                    &&& final(avail)@ == old(avail)@
                },
            },
    {
        proof {
            reveal(reg_matches);
            reveal(wreg_matches);
            reveal(all_slots_produced);
            reveal(spec_slot_produced);
            reveal(fully_wired);
        }
        let in_place: bool = lc.tops[0].eq(&lc.bottoms[0]);
        let ghost bshape = self.blobs_data@[bslot as int].shape@;
        let output_size: &usize = match &lc.kind {
            LayerKind::Linear { output_size } => output_size,
            LayerKind::Relu => { return Err(NetworkError::InvalidLayer { layer: lc.name.clone() }); },
            LayerKind::AbsSumLoss { target } => { return Err(NetworkError::InvalidLayer { layer: lc.name.clone() }); },
        };
                let out_dim: usize = *output_size;
                if self.blobs_data[bslot].shape.len() != 2 {
                    return Err(NetworkError::InvalidLayer { layer: lc.name.clone() });
                }
                let batch: usize = self.blobs_data[bslot].shape[0];
                let in_dim: usize = self.blobs_data[bslot].shape[1];
                if batch < 1 || in_dim < 1 {
                    return Err(NetworkError::InvalidLayer { layer: lc.name.clone() });
                }
                if in_place {
                    return Err(NetworkError::InvalidLayer { layer: lc.name.clone() });
                }
                match find_name(&self.blob_names, &lc.tops[0]) {
                    Some(_) => {
                        proof {
                            assert(reg.dom().contains(lc.tops@[0]@));
                        }
                        return Err(NetworkError::DuplicateTop {
                            layer: lc.name.clone(),
                            name: lc.tops[0].clone(),
                        });
                    },
                    None => {},
                }
                proof {
                    assert forall|n: Seq<char>| reg.dom().contains(n) implies n != lc.tops@[0]@ by {
                        assert(exists|s: int|
                            0 <= s < self.blob_names@.len() && (#[trigger] self.blob_names@[s])@
                                == n);
                    }
                    assert(!reg.dom().contains(lc.tops@[0]@));
                    assert(bshape =~= seq![batch, in_dim]);
                }
                let mut tshape: Vec<usize> = Vec::new();
                tshape.push(batch);
                tshape.push(out_dim);
                let tcount: usize = match crate::tensor::count_of_shape(&tshape) {
                    Some(n) => n,
                    None => {
                        proof {
                            assert(tshape@ =~= seq![batch, out_dim]);
                        }
                        return Err(NetworkError::ShapeTooLarge { name: lc.tops[0].clone() });
                    },
                };
                let mut wshape: Vec<usize> = Vec::new();
                wshape.push(out_dim);
                wshape.push(in_dim);
                let wcount: usize = match crate::tensor::count_of_shape(&wshape) {
                    Some(n) => n,
                    None => {
                        proof {
                            assert(tshape@ =~= seq![batch, out_dim]);
                            assert(wshape@ =~= seq![out_dim, in_dim]);
                        }
                        return Err(NetworkError::ShapeTooLarge { name: lc.name.clone() });
                    },
                };
                proof {
                    assert(tshape@ =~= seq![batch, out_dim]);
                    assert(wshape@ =~= seq![out_dim, in_dim]);
                    crate::tensor::lemma_shape_count_two(batch, out_dim);
                    crate::tensor::lemma_shape_count_two(out_dim, in_dim);
                    crate::tensor::lemma_shape_count_two(batch, in_dim);
                }
                // the weight tensor, with its configured filler applied
                let default_wc = crate::weight::WeightConfig::default();
                let has_wc: bool = lc.weights.len() > 0;
                let mut wdata = Tensor { shape: wshape, data: vec![0i64; wcount] };
                let wgrad = wdata.duplicate();
                proof {
                    assert forall|i: int| 0 <= i < wcount implies wdata.data@[i] == 0i64 by {}
                    assert(wdata.data@ =~= Seq::new(
                        shape_count(seq![out_dim, in_dim]),
                        |i: int| 0i64,
                    ));
                }
                if has_wc {
                    match lc.weights[0].filler {
                        Some(f) => {
                            f.fill(&mut wdata);
                            proof {
                                assert(wdata.data@ =~= Seq::new(
                                    shape_count(seq![out_dim, in_dim]),
                                    |i: int| spec_weight_fill(*lc),
                                ));
                            }
                        },
                        None => {},
                    }
                }
                proof {
                    assert(wdata.data@ =~= Seq::new(
                        shape_count(seq![out_dim, in_dim]),
                        |i: int| spec_weight_fill(*lc),
                    ));
                }
                // sharing: a non-empty weight name may alias an owner
                let wname_empty: bool = if has_wc {
                    lc.weights[0].name.as_str().is_empty()
                } else {
                    true
                };
                proof {
                    assert(wname_empty == (spec_weight_name(*lc).len() == 0));
                }
                let mut owner: Option<usize> = None;
                if !wname_empty {
                    let found: Option<usize> = find_share_name(
                        &self.weight_names_index,
                        &lc.weights[0].name,
                    );
                    match found {
                        Some(owner_wid) => {
                            proof {
                                assert(wreg.dom().contains(spec_weight_name(*lc)));
                                assert(wreg[spec_weight_name(*lc)] == self.weight_store_data@[
                                    owner_wid as int].shape@);
                            }
                            let owner_layer: usize = self.weight_layer_indices[owner_wid].0;
                            let check = lc.weights[0].check_dimensions(
                                &wdata,
                                &self.weight_store_data[owner_wid],
                                &lc.weights[0].name,
                                &self.layers[owner_layer].name,
                                &lc.name,
                            );
                            match check {
                                Err(e) => {
                                    return Err(e);
                                },
                                Ok(()) => {},
                            }
                            owner = Some(owner_wid);
                            proof {
                                assert((owner_wid as int) < self.weights@.len());
                                assert(self.weight_owners@[owner_wid as int] is None);
                                assert(self.weight_display_names@[owner_wid as int]@
                                    == spec_weight_name(*lc));
                                assert(self.weight_store_data@[owner_wid as int].wf());
                                assert(crate::weight::dimensions_compatible(
                                    lc.weights@[0].share_mode,
                                    wdata,
                                    self.weight_store_data@[owner_wid as int],
                                ));
                                assert(wdata.data@.len() == self.weight_store_data@[
                                    owner_wid as int].data@.len());
                            }
                        },
                        None => {
                            proof {
                                assert forall|n: Seq<char>| wreg.dom().contains(n) implies n
                                    != spec_weight_name(*lc) by {
                                    assert(exists|j: int|
                                        0 <= j < self.weight_names_index@.len() && (
                                        #[trigger] self.weight_names_index@[j].0)@ == n);
                                }
                                assert(!wreg.dom().contains(spec_weight_name(*lc)));
                            }
                        },
                    }
                }
                // everything can only succeed from here on: mutate
                avail[bslot] = false;
                let top_slot: usize = self.push_slot(avail, &lc.tops[0], tshape, tcount, Ghost(reg));
                let wid: usize = self.weights.len();
                let display: String = if !wname_empty {
                    lc.weights[0].name.clone()
                } else {
                    lc.name.clone().concat("_w")
                };
                self.weight_store_data.push(wdata);
                self.weight_store_grad.push(wgrad);
                self.weights.push(wid);
                self.weight_owners.push(owner);
                self.weight_display_names.push(display);
                self.weight_layer_indices.push((self.layers.len(), 0));
                if has_wc {
                    self.weights_lr.push(lc.weights[0].lr_mult);
                    self.weights_weight_decay.push(lc.weights[0].decay_mult);
                } else {
                    self.weights_lr.push(None);
                    self.weights_weight_decay.push(None);
                }
                let is_owner: bool = match owner {
                    Some(_) => false,
                    None => true,
                };
                if is_owner {
                    self.learnable_weight_ids.push(wid);
                }
                if is_owner && !wname_empty {
                    self.weight_names_index.push((lc.weights[0].name.clone(), wid));
                }
                let mut bottoms: Vec<usize> = Vec::new();
                bottoms.push(bslot);
                let mut bottom_names: Vec<String> = Vec::new();
                bottom_names.push(lc.bottoms[0].clone());
                let mut tops: Vec<usize> = Vec::new();
                tops.push(top_slot);
                let mut top_names: Vec<String> = Vec::new();
                top_names.push(lc.tops[0].clone());
                let mut in_place_v: Vec<bool> = Vec::new();
                in_place_v.push(false);
                let mut propagate: Vec<bool> = Vec::new();
                if lc.propagate_down.len() > 0 {
                    propagate.push(lc.propagate_down[0]);
                } else {
                    propagate.push(true);
                }
                let mut need: Vec<bool> = Vec::new();
                need.push(true);
                let mut weights_v: Vec<usize> = Vec::new();
                weights_v.push(wid);
                let layer = Layer {
                    name: lc.name.clone(),
                    op: LayerOp::Linear { batch, in_dim, out_dim },
                    bottoms,
                    bottom_names,
                    tops,
                    top_names,
                    in_place: in_place_v,
                    weights: weights_v,
                    propagate,
                    bottom_need_backward: need,
                    skip_backward: false,
                };
                self.layers.push(layer);
                proof {
                    let pre = *old(self);
                    assert(self.layers@.take(pre.layers@.len() as int) =~= pre.layers@);
                    assert(self.weights_lr@.take(pre.weights_lr@.len() as int) =~= pre.weights_lr@);
                    assert(self.weights_weight_decay@.take(pre.weights_weight_decay@.len() as int)
                        =~= pre.weights_weight_decay@);
                    assert(self.weight_store_data@.take(pre.weight_store_data@.len() as int)
                        =~= pre.weight_store_data@);
                    assert(self.weights@.take(pre.weights@.len() as int) =~= pre.weights@);
                    assert(self.weight_owners@.take(pre.weight_owners@.len() as int)
                        =~= pre.weight_owners@);
                    assert(self.weight_display_names@.take(pre.weight_display_names@.len() as int)
                        =~= pre.weight_display_names@);
                    assert(self.learnable_weight_ids@.take(pre.learnable_weight_ids@.len() as int)
                        =~= pre.learnable_weight_ids@);
                    assert(self.layers@.last().bottoms@ =~= seq![bslot]);
                    assert(self.layers@.last().tops@ =~= seq![top_slot]);
                    assert(self.layers@.last().weights@ =~= seq![wid]);
                    assert(self.datas()[bslot as int] == self.blobs_data@[bslot as int].data@);
                    assert(self.datas()[top_slot as int] == self.blobs_data@[top_slot as int].data@);
                    assert(self.wdatas()[wid as int] == self.weight_store_data@[wid as int].data@);
                    assert(self.blobs_data@[bslot as int] == pre.blobs_data@[bslot as int]);
                    assert(crate::layer::layer_wf(
                        self.layers@.last(),
                        self.datas(),
                        self.weights@,
                        self.wdatas(),
                    ));
                    assert forall|l: int| 0 <= l < self.layers@.len() implies crate::layer::layer_wf(
                        #[trigger] self.layers@[l],
                        self.datas(),
                        self.weights@,
                        self.wdatas(),
                    ) by {
                        if l < pre.layers@.len() {
                            assert(self.layers@[l] == pre.layers@[l]);
                            assert(crate::layer::layer_wf(
                                pre.layers@[l],
                                pre.datas(),
                                pre.weights@,
                                pre.wdatas(),
                            ));
                            assert(forall|t: int|
                                0 <= t < pre.datas().len() ==> #[trigger] self.datas()[t]
                                    == pre.datas()[t]);
                            assert(forall|t: int|
                                0 <= t < pre.wdatas().len() ==> #[trigger] self.wdatas()[t]
                                    == pre.wdatas()[t]);
                            assert(forall|w: int|
                                0 <= w < pre.weights@.len() ==> #[trigger] self.weights@[w]
                                    == pre.weights@[w]);
                        }
                    }
                    assert forall|w: int|
                        0 <= w < self.weights@.len() implies (#[trigger] self.weights@[w] as int)
                        < self.weight_store_data@.len() by {
                        if w < pre.weights@.len() {
                            assert(self.weights@[w] == pre.weights@[w]);
                        }
                    }
                    assert forall|m: int, n: int|
                        0 <= m < n < self.learnable_weight_ids@.len() implies (#[trigger] self
                        .learnable_weight_ids@[m]) < (#[trigger] self.learnable_weight_ids@[n]) by {
                        if n < pre.learnable_weight_ids@.len() {
                            assert(self.learnable_weight_ids@[m] == pre.learnable_weight_ids@[m]);
                            assert(self.learnable_weight_ids@[n] == pre.learnable_weight_ids@[n]);
                        } else {
                            assert(self.learnable_weight_ids@[m] == pre.learnable_weight_ids@[m]);
                            assert((pre.learnable_weight_ids@[m] as int) < pre.weights@.len());
                        }
                    }
                    assert(self.weights_wf());
                    assert(self.buffers_wf());
                    assert(self.io_wf());
                    assert(self.wf());
                    assert(slots_own(*self));
                    assert forall|w: int|
                        0 <= w < self.weight_owners@.len() implies ((#[trigger] self
                        .weight_owners@[w]) matches Some(j) ==> 0 <= j < w && self.weight_owners@[
                        j as int] is None && self.weight_display_names@[w]@
                        == self.weight_display_names@[j as int]@ && self.weight_store_data@[w].data@.len()
                        == self.weight_store_data@[j as int].data@.len()) by {
                        if w < pre.weight_owners@.len() {
                            assert(self.weight_owners@[w] == pre.weight_owners@[w]);
                            assert(self.weight_owners@[w] matches Some(j) ==> 0 <= j < w);
                            assert(owners_wf(pre));
                            if pre.weight_owners@[w] is Some {
                                let j = pre.weight_owners@[w].unwrap();
                                assert(self.weight_owners@[j as int] == pre.weight_owners@[
                                    j as int]);
                                assert(self.weight_display_names@[w] == pre.weight_display_names@[w]);
                                assert(self.weight_display_names@[j as int]
                                    == pre.weight_display_names@[j as int]);
                                assert(self.weight_store_data@[w] == pre.weight_store_data@[w]);
                                assert(self.weight_store_data@[j as int] == pre.weight_store_data@[
                                    j as int]);
                            }
                        } else {
                            assert(w == wid as int);
                            assert(self.weight_owners@[w] == owner);
                            if owner is Some {
                                let j = owner.unwrap();
                                assert(self.weight_owners@[j as int] == pre.weight_owners@[
                                    j as int]);
                                assert(self.weight_display_names@[j as int]
                                    == pre.weight_display_names@[j as int]);
                                assert(self.weight_display_names@[w]@ == spec_weight_name(*lc));
                                assert(self.weight_store_data@[j as int] == pre.weight_store_data@[
                                    j as int]);
                            }
                        }
                    }
                    assert(owners_wf(*self));
                    assert forall|s: int| 0 <= s < self.blobs_data@.len() implies #[trigger] spec_slot_produced(
                        *self,
                        s,
                    ) by {
                        if s < pre.blobs_data@.len() {
                            assert(spec_slot_produced(pre, s));
                            if exists|m: int|
                                0 <= m < pre.layers@.len() && ((#[trigger] pre.layers@[m]).tops@[0]
                                    as int) == s {
                                let m = choose|m: int|
                                    0 <= m < pre.layers@.len() && ((#[trigger] pre.layers@[m]).tops@[0]
                                        as int) == s;
                                assert(self.layers@[m] == pre.layers@[m]);
                            }
                        } else {
                            assert(s == top_slot as int);
                            assert((self.layers@[self.layers@.len() - 1].tops@[0] as int) == s);
                        }
                    }
                    assert forall|l: int|
                        0 <= l < self.layers@.len() implies ((exists|i: int|
                        0 <= i < self.input_blob_ids@.len() && (#[trigger] self.input_blob_ids@[i]
                            as int) == (#[trigger] self.layers@[l]).bottoms@[0] as int) || (
                    exists|m: int|
                        0 <= m < l && ((#[trigger] self.layers@[m]).tops@[0] as int)
                            == self.layers@[l].bottoms@[0] as int)) by {
                        if l < pre.layers@.len() {
                            assert(self.layers@[l] == pre.layers@[l]);
                            if exists|m: int|
                                0 <= m < l && ((#[trigger] pre.layers@[m]).tops@[0] as int)
                                    == pre.layers@[l].bottoms@[0] as int {
                                let m = choose|m: int|
                                    0 <= m < l && ((#[trigger] pre.layers@[m]).tops@[0] as int)
                                        == pre.layers@[l].bottoms@[0] as int;
                                assert(self.layers@[m] == pre.layers@[m]);
                            }
                        } else {
                            assert(spec_slot_produced(pre, bslot as int));
                            if exists|m: int|
                                0 <= m < pre.layers@.len() && ((#[trigger] pre.layers@[m]).tops@[0]
                                    as int) == bslot as int {
                                let m = choose|m: int|
                                    0 <= m < pre.layers@.len() && ((#[trigger] pre.layers@[m]).tops@[0]
                                        as int) == bslot as int;
                                assert(self.layers@[m] == pre.layers@[m]);
                                assert(m < l);
                            }
                        }
                    }
                    assert(fully_wired(*self));
                    // the weight registry still corresponds
                    let wregp = spec_layer_step(reg, wreg, *lc).unwrap().1;
                    assert forall|k2: int|
                        0 <= k2 < self.weight_names_index@.len() implies wregp.dom().contains(
                        #[trigger] self.weight_names_index@[k2].0@,
                    ) && wregp[self.weight_names_index@[k2].0@] == self.weight_store_data@[self
                        .weight_names_index@[k2].1 as int].shape@ by {
                        if k2 < pre.weight_names_index@.len() {
                            assert(self.weight_names_index@[k2] == pre.weight_names_index@[k2]);
                            assert(wreg.dom().contains(pre.weight_names_index@[k2].0@));
                            assert(self.weight_store_data@[pre.weight_names_index@[k2].1 as int]
                                == pre.weight_store_data@[pre.weight_names_index@[k2].1 as int]);
                        }
                    }
                    assert forall|k2: int|
                        0 <= k2 < self.weight_names_index@.len() implies (#[trigger] self
                        .weight_names_index@[k2].1 as int) < self.weights@.len() && self
                        .weight_owners@[self.weight_names_index@[k2].1 as int] is None && self
                        .weights@[self.weight_names_index@[k2].1 as int]
                        == self.weight_names_index@[k2].1 && self.weight_names_index@[k2].0@.len()
                        > 0 by {
                        if k2 < pre.weight_names_index@.len() {
                            assert(self.weight_names_index@[k2] == pre.weight_names_index@[k2]);
                            assert((pre.weight_names_index@[k2].1 as int) < pre.weights@.len());
                            assert(self.weights@[pre.weight_names_index@[k2].1 as int]
                                == pre.weights@[pre.weight_names_index@[k2].1 as int]);
                            assert(self.weight_owners@[pre.weight_names_index@[k2].1 as int]
                                == pre.weight_owners@[pre.weight_names_index@[k2].1 as int]);
                        }
                    }
                    assert forall|n: Seq<char>| wregp.dom().contains(n) implies exists|k2: int|
                        0 <= k2 < self.weight_names_index@.len() && (#[trigger] self
                        .weight_names_index@[k2].0)@ == n by {
                        if wreg.dom().contains(n) {
                            let k2 = choose|k2: int|
                                0 <= k2 < pre.weight_names_index@.len() && (#[trigger] pre
                                    .weight_names_index@[k2].0)@ == n;
                            assert(self.weight_names_index@[k2] == pre.weight_names_index@[k2]);
                            assert(self.weight_names_index@[k2].0@ == n);
                        } else {
                            assert(n == spec_weight_name(*lc));
                            assert(self.weight_names_index@.last().0@ == n);
                        }
                    }
                    assert forall|k2: int, m2: int|
                        0 <= k2 < m2 < self.weight_names_index@.len() implies (#[trigger] self
                        .weight_names_index@[k2].0@) != (#[trigger] self.weight_names_index@[m2].0@) by {
                        if m2 < pre.weight_names_index@.len() {
                            assert(self.weight_names_index@[k2] == pre.weight_names_index@[k2]);
                            assert(self.weight_names_index@[m2] == pre.weight_names_index@[m2]);
                        } else {
                            assert(self.weight_names_index@[k2] == pre.weight_names_index@[k2]);
                            assert(wreg.dom().contains(pre.weight_names_index@[k2].0@));
                        }
                    }
                    assert(wreg_matches(*self, wregp));
                    reveal(layer_matches);
                    assert(layer_matches(self.layers@.last(), *lc, *self));
                    assert(spec_layer_step(reg, wreg, *lc) is Some);
                    assert(reg_matches(*self, spec_layer_step(reg, wreg, *lc).unwrap().0));
                }
                Ok(())
    }

    fn init_layer(
        &mut self,
        avail: &mut Vec<bool>,
        lc: &LayerConfig,
        Ghost(reg): Ghost<Map<Seq<char>, Seq<usize>>>,
        Ghost(wreg): Ghost<Map<Seq<char>, Seq<usize>>>,
    ) -> (r: Result<(), NetworkError>)
        requires
            old(self).wf(),
            reg_matches(*old(self), reg),
            wreg_matches(*old(self), wreg),
            old(avail)@.len() == old(self).blobs_data@.len(),
            all_slots_produced(*old(self)),
            fully_wired(*old(self)),
            owners_wf(*old(self)),
            slots_own(*old(self)),
        ensures
            match r {
                Ok(()) => {
                    &&& spec_layer_step(reg, wreg, *lc) is Some
                    &&& final(self).wf()
                    &&& reg_matches(*final(self), spec_layer_step(reg, wreg, *lc).unwrap().0)
                    &&& wreg_matches(*final(self), spec_layer_step(reg, wreg, *lc).unwrap().1)
                    &&& all_slots_produced(*final(self))
                    &&& fully_wired(*final(self))
                    &&& owners_wf(*final(self))
                    &&& slots_own(*final(self))
                    &&& final(avail)@.len() == final(self).blobs_data@.len()
                    &&& final(self).layers@.len() == old(self).layers@.len() + 1
                    &&& final(self).layers@.take(old(self).layers@.len() as int) == old(self).layers@
                    &&& layer_matches(final(self).layers@.last(), *lc, *final(self))
                    &&& final(self).blob_names@.take(old(self).blob_names@.len() as int) == old(self).blob_names@
                    &&& final(self).blobs_data@.len() >= old(self).blobs_data@.len()
                    &&& (forall|s: int|
                        0 <= s < old(self).blobs_data@.len() ==> (#[trigger] final(self).blobs_data@[s]).shape@ == old(self).blobs_data@[s].shape@)
                    &&& (final(self).layers@.last().bottoms@[0] as int) < old(self).blobs_data@.len()
                    &&& ({
                        let b = final(self).layers@.last().bottoms@[0] as int;
                        let t = final(self).layers@.last().tops@[0] as int;
                        if final(self).layers@.last().in_place@[0] {
                            final(avail)@ == old(avail)@.update(b, true) && final(self).blobs_data@.len() == old(self).blobs_data@.len()
                        } else {
                            final(avail)@ == old(avail)@.update(b, false).push(true) && t == old(self).blobs_data@.len() && final(self).blobs_data@.len() == old(self).blobs_data@.len() + 1
                        }
                    })
                    &&& final(self).input_blob_ids@ == old(self).input_blob_ids@
                    &&& final(self).input_blob_names@ == old(self).input_blob_names@
                    &&& final(self).output_blob_ids@ == old(self).output_blob_ids@
                    &&& final(self).name == old(self).name
                    &&& final(self).weights@.take(old(self).weights@.len() as int) == old(self).weights@
                    &&& final(self).weight_display_names@.take(
                        old(self).weight_display_names@.len() as int,
                    ) == old(self).weight_display_names@
                    &&& final(self).weight_owners@.take(old(self).weight_owners@.len() as int)
                        == old(self).weight_owners@
                    &&& final(self).learnable_weight_ids@.take(
                        old(self).learnable_weight_ids@.len() as int,
                    ) == old(self).learnable_weight_ids@
                    &&& final(self).weights_lr@.take(old(self).weights_lr@.len() as int) == old(self).weights_lr@
                    &&& final(self).weights_weight_decay@.take(
                        old(self).weights_weight_decay@.len() as int,
                    ) == old(self).weights_weight_decay@
                    &&& final(self).weight_store_data@.take(
                        old(self).weight_store_data@.len() as int,
                    ) == old(self).weight_store_data@
                    &&& final(self).weights@.len() >= old(self).weights@.len()
                },
                Err(e) => {
                    &&& spec_layer_step(reg, wreg, *lc) is None
                    &&& *final(self) == *old(self)
                    &&& final(avail)@ == old(avail)@
                },
            },
    {
        proof {
            reveal(reg_matches);
        }
        match lc.validate() {
            Err(e) => {
                return Err(e);
            },
            Ok(()) => {},
        }
        let bslot: usize = match find_name(&self.blob_names, &lc.bottoms[0]) {
            Some(s) => s,
            None => {
                proof {
                    assert forall|n: Seq<char>| reg.dom().contains(n) implies n != lc.bottoms@[0]@ by {
                        assert(exists|s: int|
                            0 <= s < self.blob_names@.len() && (#[trigger] self.blob_names@[s])@
                                == n);
                    }
                    assert(!reg.dom().contains(lc.bottoms@[0]@));
                }
                return Err(NetworkError::MissingBottom {
                    layer: lc.name.clone(),
                    name: lc.bottoms[0].clone(),
                });
            },
        };
        proof {
            assert(reg.dom().contains(lc.bottoms@[0]@));
            assert(reg[lc.bottoms@[0]@] == self.blobs_data@[bslot as int].shape@);
        }
        let is_relu: bool = match &lc.kind {
            LayerKind::Relu => true,
            LayerKind::Linear { output_size } => false,
            LayerKind::AbsSumLoss { target } => false,
        };
        let is_linear: bool = match &lc.kind {
            LayerKind::Linear { output_size } => true,
            LayerKind::Relu => false,
            LayerKind::AbsSumLoss { target } => false,
        };
        if is_relu {
            self.init_relu_layer(avail, lc, bslot, Ghost(reg), Ghost(wreg))
        } else if is_linear {
            self.init_linear_layer(avail, lc, bslot, Ghost(reg), Ghost(wreg))
        } else {
            self.init_loss_layer(avail, lc, bslot, Ghost(reg), Ghost(wreg))
        }
    }
}


/// The under-loss flags per buffer slot after the reverse walk has processed
/// the layers `l .. layers.len()`: a slot is flagged when some processed
/// layer consumes it on a gradient-carrying path to a loss layer.
pub open spec fn spec_under(layers: Seq<Layer>, nslots: nat, l: int) -> Seq<bool>
    decreases layers.len() - l,
{
    if l < 0 || l >= layers.len() {
        Seq::new(nslots, |s: int| false)
    } else {
        let rest = spec_under(layers, nslots, l + 1);
        let contributes = crate::layer::spec_is_loss(layers[l]) || (0 <= (layers[l].tops@[0] as int)
            < rest.len() && rest[layers[l].tops@[0] as int]);
        if contributes && layers[l].propagate@[0] {
            rest.update(layers[l].bottoms@[0] as int, true)
        } else {
            rest
        }
    }
}

/// Whether layer `l` contributes to the loss: it is a loss layer, or its top
/// is consumed (directly or transitively) on a loss-contributing path.
pub open spec fn spec_contributes(layers: Seq<Layer>, nslots: nat, l: int) -> bool {
    crate::layer::spec_is_loss(layers[l]) || (0 <= (layers[l].tops@[0] as int) < nslots
        && spec_under(layers, nslots, l + 1)[layers[l].tops@[0] as int])
}

/// Whether layer `l`'s bottom needs a gradient: the layer contributes to the
/// loss and propagation into the bottom is not cut by configuration.
pub open spec fn spec_need_backward(layers: Seq<Layer>, nslots: nat, l: int) -> bool {
    spec_contributes(layers, nslots, l) && layers[l].propagate@[0]
}

/// The fields of two layers that the backward walk never touches agree.
pub open spec fn stable_fields_eq(a: Layer, b: Layer) -> bool {
    &&& a.name == b.name
    &&& a.op == b.op
    &&& a.bottoms@ == b.bottoms@
    &&& a.bottom_names@ == b.bottom_names@
    &&& a.tops@ == b.tops@
    &&& a.top_names@ == b.top_names@
    &&& a.in_place@ == b.in_place@
    &&& a.weights@ == b.weights@
    &&& a.propagate@ == b.propagate@
}

/// The under-loss flags depend only on the stable fields of the layers.
pub proof fn lemma_under_stable(a: Seq<Layer>, b: Seq<Layer>, nslots: nat, l: int)
    requires
        a.len() == b.len(),
        forall|m: int| 0 <= m < a.len() ==> stable_fields_eq(#[trigger] a[m], #[trigger] b[m]),
    ensures
        spec_under(a, nslots, l) == spec_under(b, nslots, l),
    decreases a.len() - l,
{
    if l < 0 || l >= a.len() {
    } else {
        lemma_under_stable(a, b, nslots, l + 1);
        assert(crate::layer::spec_is_loss(a[l]) == crate::layer::spec_is_loss(b[l]));
    }
}

/// Whether slot `s` is a network output of the wired pipeline: every layer
/// consuming it is followed (at or after its own position) by a layer
/// producing it again, so it is left available at the end.
#[verifier::opaque]
pub open spec fn spec_slot_is_output(layers: Seq<Layer>, s: int) -> bool {
    forall|l: int|
        0 <= l < layers.len() && ((#[trigger] layers[l]).bottoms@[0] as int) == s ==> exists|m: int|
            l <= m < layers.len() && ((#[trigger] layers[m]).tops@[0] as int) == s
}

impl Network {
    /// Walks the layer list in reverse to compute the backward-skip flags:
    /// a layer whose input needs no gradient skips its entire backward
    /// computation.
    fn init_backprop(&mut self)
        requires
            old(self).wf(),
        ensures
            final(self).wf(),
            final(self).layers@.len() == old(self).layers@.len(),
            forall|m: int|
                0 <= m < old(self).layers@.len() ==> stable_fields_eq(
                    #[trigger] final(self).layers@[m],
                    old(self).layers@[m],
                ),
            forall|m: int|
                0 <= m < old(self).layers@.len() ==> (#[trigger] final(self).layers@[m]).bottom_need_backward@
                    == seq![
                    spec_need_backward(
                        old(self).layers@,
                        old(self).blobs_data@.len(),
                        m,
                    ),
                ] && final(self).layers@[m].skip_backward == !spec_need_backward(
                    old(self).layers@,
                    old(self).blobs_data@.len(),
                    m,
                ),
            final(self).blobs_data@ == old(self).blobs_data@,
            final(self).blobs_gradient@ == old(self).blobs_gradient@,
            final(self).blob_names@ == old(self).blob_names@,
            final(self).input_blob_ids@ == old(self).input_blob_ids@,
            final(self).input_blob_names@ == old(self).input_blob_names@,
            final(self).output_blob_ids@ == old(self).output_blob_ids@,
            final(self).weights@ == old(self).weights@,
            final(self).weight_owners@ == old(self).weight_owners@,
            final(self).weight_display_names@ == old(self).weight_display_names@,
            final(self).weight_layer_indices@ == old(self).weight_layer_indices@,
            final(self).weight_names_index@ == old(self).weight_names_index@,
            final(self).learnable_weight_ids@ == old(self).learnable_weight_ids@,
            final(self).weights_lr@ == old(self).weights_lr@,
            final(self).weights_weight_decay@ == old(self).weights_weight_decay@,
            final(self).weight_store_data@ == old(self).weight_store_data@,
            final(self).weight_store_grad@ == old(self).weight_store_grad@,
            final(self).name == old(self).name,
    {
        let nslots: usize = self.blobs_data.len();
        let mut under: Vec<bool> = vec![false; nslots];
        proof {
            assert forall|i: int| 0 <= i < nslots implies under@[i] == false by {}
            assert(under@ =~= Seq::new(nslots as nat, |s: int| false));
            assert(under@ == spec_under(
                old(self).layers@,
                old(self).blobs_data@.len(),
                old(self).layers@.len() as int,
            ));
        }
        let mut l: usize = self.layers.len();
        while l > 0
            invariant
                l <= old(self).layers@.len(),
                self.wf(),
                nslots == old(self).blobs_data@.len(),
                under@.len() == nslots,
                self.layers@.len() == old(self).layers@.len(),
                under@ == spec_under(old(self).layers@, old(self).blobs_data@.len(), l as int),
                forall|m: int| 0 <= m < l ==> #[trigger] self.layers@[m] == old(self).layers@[m],
                forall|m: int|
                    0 <= m < old(self).layers@.len() ==> stable_fields_eq(
                        #[trigger] self.layers@[m],
                        old(self).layers@[m],
                    ),
                forall|m: int|
                    l <= m < old(self).layers@.len() ==> (#[trigger] self.layers@[m]).bottom_need_backward@
                        == seq![
                        spec_need_backward(
                            old(self).layers@,
                            old(self).blobs_data@.len(),
                            m,
                        ),
                    ] && self.layers@[m].skip_backward == !spec_need_backward(
                        old(self).layers@,
                        old(self).blobs_data@.len(),
                        m,
                    ),
                self.blobs_data@ == old(self).blobs_data@,
                self.blobs_gradient@ == old(self).blobs_gradient@,
                self.blob_names@ == old(self).blob_names@,
                self.input_blob_ids@ == old(self).input_blob_ids@,
                self.input_blob_names@ == old(self).input_blob_names@,
                self.output_blob_ids@ == old(self).output_blob_ids@,
                self.weights@ == old(self).weights@,
                self.weight_owners@ == old(self).weight_owners@,
                self.weight_display_names@ == old(self).weight_display_names@,
                self.weight_layer_indices@ == old(self).weight_layer_indices@,
                self.weight_names_index@ == old(self).weight_names_index@,
                self.learnable_weight_ids@ == old(self).learnable_weight_ids@,
                self.weights_lr@ == old(self).weights_lr@,
                self.weights_weight_decay@ == old(self).weights_weight_decay@,
                self.weight_store_data@ == old(self).weight_store_data@,
                self.weight_store_grad@ == old(self).weight_store_grad@,
                self.name == old(self).name,
            decreases l,
        {
            let ghost pre = *self;
            l = l - 1;
            proof {
                assert(self.layers@[l as int] == old(self).layers@[l as int]);
                assert(crate::layer::layer_wf(
                    self.layers@[l as int],
                    self.datas(),
                    self.weights@,
                    self.wdatas(),
                ));
            }
            let top: usize = self.layers[l].tops[0];
            let bottom: usize = self.layers[l].bottoms[0];
            let is_loss: bool = match &self.layers[l].op {
                LayerOp::AbsSumLoss { target } => true,
                LayerOp::Linear { batch, in_dim, out_dim } => false,
                LayerOp::Relu { count } => false,
            };
            let contributes: bool = is_loss || under[top];
            let need: bool = contributes && self.layers[l].propagate[0];
            let mut nb: Vec<bool> = Vec::new();
            nb.push(need);
            proof {
                assert(nb@ =~= seq![need]);
                assert(contributes == spec_contributes(
                    old(self).layers@,
                    old(self).blobs_data@.len(),
                    l as int,
                ));
                assert(need == spec_need_backward(
                    old(self).layers@,
                    old(self).blobs_data@.len(),
                    l as int,
                ));
            }
            self.layers[l].bottom_need_backward = nb;
            self.layers[l].skip_backward = !need;
            if need {
                under[bottom] = true;
                proof {
                    assert(under@ =~= spec_under(
                        old(self).layers@,
                        old(self).blobs_data@.len(),
                        l as int,
                    ));
                }
            } else {
                proof {
                    assert(under@ =~= spec_under(
                        old(self).layers@,
                        old(self).blobs_data@.len(),
                        l as int,
                    ));
                }
            }
            proof {
                assert forall|m: int|
                    0 <= m < self.layers@.len() implies crate::layer::layer_wf(
                    #[trigger] self.layers@[m],
                    self.datas(),
                    self.weights@,
                    self.wdatas(),
                ) by {
                    assert(crate::layer::layer_wf(
                        pre.layers@[m],
                        pre.datas(),
                        pre.weights@,
                        pre.wdatas(),
                    ));
                    assert(self.datas() == pre.datas() && self.wdatas() == pre.wdatas());
                    assert(stable_fields_eq(self.layers@[m], pre.layers@[m]));
                    assert(self.layers@[m].bottom_need_backward@.len() == 1);
                }
                assert(self.wf());
            }
        }
    }

    /// Forces backward for every layer, bypassing the loss-reachability
    /// analysis: each layer computes backward, with only the configured
    /// propagation switches still honored.
    fn init_force_backward(&mut self)
        requires
            old(self).wf(),
        ensures
            final(self).wf(),
            final(self).layers@.len() == old(self).layers@.len(),
            forall|m: int|
                0 <= m < old(self).layers@.len() ==> stable_fields_eq(
                    #[trigger] final(self).layers@[m],
                    old(self).layers@[m],
                ),
            forall|m: int|
                0 <= m < old(self).layers@.len() ==> (#[trigger] final(self).layers@[m]).bottom_need_backward@
                    == seq![old(self).layers@[m].propagate@[0]] && final(self).layers@[m].skip_backward
                    == false,
            final(self).blobs_data@ == old(self).blobs_data@,
            final(self).blobs_gradient@ == old(self).blobs_gradient@,
            final(self).blob_names@ == old(self).blob_names@,
            final(self).input_blob_ids@ == old(self).input_blob_ids@,
            final(self).input_blob_names@ == old(self).input_blob_names@,
            final(self).output_blob_ids@ == old(self).output_blob_ids@,
            final(self).weights@ == old(self).weights@,
            final(self).weight_owners@ == old(self).weight_owners@,
            final(self).weight_display_names@ == old(self).weight_display_names@,
            final(self).weight_layer_indices@ == old(self).weight_layer_indices@,
            final(self).weight_names_index@ == old(self).weight_names_index@,
            final(self).learnable_weight_ids@ == old(self).learnable_weight_ids@,
            final(self).weights_lr@ == old(self).weights_lr@,
            final(self).weights_weight_decay@ == old(self).weights_weight_decay@,
            final(self).weight_store_data@ == old(self).weight_store_data@,
            final(self).weight_store_grad@ == old(self).weight_store_grad@,
            final(self).name == old(self).name,
    {
        let mut l: usize = 0;
        while l < self.layers.len()
            invariant
                l <= old(self).layers@.len(),
                self.wf(),
                self.layers@.len() == old(self).layers@.len(),
                forall|m: int|
                    (l as int) <= m < old(self).layers@.len() ==> #[trigger] self.layers@[m] == old(self).layers@[m],
                forall|m: int|
                    0 <= m < old(self).layers@.len() ==> stable_fields_eq(
                        #[trigger] self.layers@[m],
                        old(self).layers@[m],
                    ),
                forall|m: int|
                    0 <= m < l ==> (#[trigger] self.layers@[m]).bottom_need_backward@ == seq![
                        old(self).layers@[m].propagate@[0],
                    ] && self.layers@[m].skip_backward == false,
                self.blobs_data@ == old(self).blobs_data@,
                self.blobs_gradient@ == old(self).blobs_gradient@,
                self.blob_names@ == old(self).blob_names@,
                self.input_blob_ids@ == old(self).input_blob_ids@,
                self.input_blob_names@ == old(self).input_blob_names@,
                self.output_blob_ids@ == old(self).output_blob_ids@,
                self.weights@ == old(self).weights@,
                self.weight_owners@ == old(self).weight_owners@,
                self.weight_display_names@ == old(self).weight_display_names@,
                self.weight_layer_indices@ == old(self).weight_layer_indices@,
                self.weight_names_index@ == old(self).weight_names_index@,
                self.learnable_weight_ids@ == old(self).learnable_weight_ids@,
                self.weights_lr@ == old(self).weights_lr@,
                self.weights_weight_decay@ == old(self).weights_weight_decay@,
                self.weight_store_data@ == old(self).weight_store_data@,
                self.weight_store_grad@ == old(self).weight_store_grad@,
                self.name == old(self).name,
            decreases old(self).layers@.len() - l,
        {
            let ghost pre = *self;
            proof {
                assert(self.layers@[l as int] == old(self).layers@[l as int]);
                assert(crate::layer::layer_wf(
                    self.layers@[l as int],
                    self.datas(),
                    self.weights@,
                    self.wdatas(),
                ));
            }
            let p: bool = self.layers[l].propagate[0];
            let mut nb: Vec<bool> = Vec::new();
            nb.push(p);
            proof {
                assert(nb@ =~= seq![old(self).layers@[l as int].propagate@[0]]);
            }
            self.layers[l].bottom_need_backward = nb;
            self.layers[l].skip_backward = false;
            l = l + 1;
            proof {
                assert forall|m: int|
                    0 <= m < self.layers@.len() implies crate::layer::layer_wf(
                    #[trigger] self.layers@[m],
                    self.datas(),
                    self.weights@,
                    self.wdatas(),
                ) by {
                    assert(crate::layer::layer_wf(
                        pre.layers@[m],
                        pre.datas(),
                        pre.weights@,
                        pre.wdatas(),
                    ));
                    assert(self.datas() == pre.datas() && self.wdatas() == pre.wdatas());
                    assert(stable_fields_eq(self.layers@[m], pre.layers@[m]));
                    assert(self.layers@[m].bottom_need_backward@.len() == 1);
                }
                assert(self.wf());
            }
        }
    }

    /// Collects the network outputs: every slot still available after the
    /// wiring walk, in slot order.
    fn infer_outputs(&mut self, avail: &Vec<bool>)
        requires
            old(self).wf(),
            avail@.len() == old(self).blobs_data@.len(),
            old(self).output_blob_ids@.len() == 0,
        ensures
            final(self).wf(),
            *final(self) == (Network { output_blob_ids: final(self).output_blob_ids, ..*old(self) }),
            forall|k: int|
                0 <= k < final(self).output_blob_ids@.len() ==> (#[trigger] final(self).output_blob_ids@[k] as int) < avail@.len() && avail@[final(self).output_blob_ids@[k] as int],
            forall|s: int|
                0 <= s < avail@.len() && avail@[s] ==> exists|k: int|
                    0 <= k < final(self).output_blob_ids@.len() && (#[trigger] final(self).output_blob_ids@[k] as int) == s,
            forall|k: int, m: int|
                0 <= k < m < final(self).output_blob_ids@.len() ==> (#[trigger] final(self).output_blob_ids@[k]) < (#[trigger] final(self).output_blob_ids@[m]),
    {
        let mut s: usize = 0;
        while s < avail.len()
            invariant
                s <= avail@.len(),
                avail@.len() == old(self).blobs_data@.len(),
                self.wf(),
                *self == (Network { output_blob_ids: self.output_blob_ids, ..*old(self) }),
                forall|k: int|
                    0 <= k < self.output_blob_ids@.len() ==> (#[trigger] self.output_blob_ids@[k]
                        as int) < s && avail@[self.output_blob_ids@[k] as int],
                forall|t: int|
                    0 <= t < s && avail@[t] ==> exists|k: int|
                        0 <= k < self.output_blob_ids@.len() && (#[trigger] self.output_blob_ids@[k]
                            as int) == t,
                forall|k: int, m: int|
                    0 <= k < m < self.output_blob_ids@.len() ==> (#[trigger] self.output_blob_ids@[k])
                        < (#[trigger] self.output_blob_ids@[m]),
            decreases avail@.len() - s,
        {
            let ghost pre = *self;
            if avail[s] {
                self.output_blob_ids.push(s);
            }
            s = s + 1;
            proof {
                assert forall|t: int| 0 <= t < s && avail@[t] implies exists|k: int|
                    0 <= k < self.output_blob_ids@.len() && (#[trigger] self.output_blob_ids@[k]
                        as int) == t by {
                    if t < s - 1 {
                        let k0 = choose|k: int|
                            0 <= k < pre.output_blob_ids@.len() && (#[trigger] pre
                                .output_blob_ids@[k] as int) == t;
                        assert(self.output_blob_ids@[k0] == pre.output_blob_ids@[k0]);
                    } else {
                        assert(avail@[s - 1]);
                        assert((self.output_blob_ids@.last() as int) == s - 1);
                        assert((self.output_blob_ids@[self.output_blob_ids@.len() - 1] as int) == t);
                    }
                }
            }
        }
    }

    /// Resolves weight sharing: every weight declared to alias an owner has
    /// its storage reference replaced by the owner's, after a final check
    /// that the two storages hold the same element count.
    fn share_weights(&mut self) -> (r: Result<(), NetworkError>)
        requires
            old(self).wf(),
            owners_wf(*old(self)),
            slots_own(*old(self)),
        ensures
            r is Ok,
            final(self).wf(),
            owners_wf(*final(self)),
            final(self).weights@.len() == old(self).weights@.len(),
            forall|w: int|
                0 <= w < old(self).weights@.len() ==> (#[trigger] final(self).weights@[w] as int)
                    == (match old(self).weight_owners@[w] {
                    Some(j) => j as int,
                    None => w,
                }),
            *final(self) == (Network { weights: final(self).weights, ..*old(self) }),
    {
        let mut i: usize = 0;
        while i < self.weights.len()
            invariant
                i <= old(self).weights@.len(),
                self.wf(),
                owners_wf(*self),
                self.weights@.len() == old(self).weights@.len(),
                self.weight_store_data@.len() == self.weights@.len(),
                *self == (Network { weights: self.weights, ..*old(self) }),
                forall|w: int|
                    0 <= w < i ==> (#[trigger] self.weights@[w] as int) == (match old(self).weight_owners@[w] {
                        Some(j) => j as int,
                        None => w,
                    }),
                forall|w: int|
                    (i as int) <= w < old(self).weights@.len() ==> (#[trigger] self.weights@[w]
                        as int) == w,
            decreases old(self).weights@.len() - i,
        {
            let ghost pre = *self;
            let owner: Option<usize> = self.weight_owners[i];
            match owner {
                Some(j) => {
                    proof {
                        assert(old(self).weight_owners@[i as int] == Some(j));
                        assert(0 <= (j as int) < i as int);
                        assert(self.weight_store_data@[i as int].data@.len()
                            == self.weight_store_data@[j as int].data@.len());
                    }
                    if self.weight_store_data[i].size() != self.weight_store_data[j].size() {
                        return Err(NetworkError::ShareMismatch {
                            weight: self.weight_display_names[i].clone(),
                            owner_layer: self.weight_display_names[j].clone(),
                            layer: self.weight_display_names[i].clone(),
                            expected: crate::tensor::copy_usize_vec(
                                &self.weight_store_data[j].shape,
                            ),
                            actual: crate::tensor::copy_usize_vec(&self.weight_store_data[i].shape),
                        });
                    }
                    let js: usize = self.weights[j];
                    proof {
                        assert((js as int) == (match old(self).weight_owners@[j as int] {
                            Some(k) => k as int,
                            None => j as int,
                        }));
                        assert(old(self).weight_owners@[j as int] is None);
                        assert(js == j);
                    }
                    self.weights[i] = js;
                },
                None => {},
            }
            i = i + 1;
            proof {
                assert forall|l: int|
                    0 <= l < self.layers@.len() implies crate::layer::layer_wf(
                    #[trigger] self.layers@[l],
                    self.datas(),
                    self.weights@,
                    self.wdatas(),
                ) by {
                    assert(crate::layer::layer_wf(
                        self.layers@[l],
                        pre.datas(),
                        pre.weights@,
                        pre.wdatas(),
                    ));
                    assert(self.datas() == pre.datas());
                    assert(self.wdatas() == pre.wdatas());
                    match self.layers@[l].op {
                        LayerOp::Linear { batch, in_dim, out_dim } => {
                            let wid = self.layers@[l].weights@[0] as int;
                            assert((pre.weights@[wid] as int) < pre.weight_store_data@.len());
                            if wid == i - 1 && pre.weight_owners@[wid] is Some {
                                let j0 = pre.weight_owners@[wid].unwrap() as int;
                                assert(self.weights@[wid] == pre.weights@[j0]);
                                assert(pre.weight_store_data@[j0].data@.len()
                                    == pre.weight_store_data@[wid].data@.len());
                            } else {
                                assert(self.weights@[wid] == pre.weights@[wid]);
                            }
                            assert((self.weights@[wid] as int) < self.weight_store_data@.len());
                            assert(self.wdatas()[self.weights@[wid] as int].len() == pre.wdatas()[
                                pre.weights@[wid] as int].len());
                        },
                        LayerOp::Relu { count } => {},
                        LayerOp::AbsSumLoss { target } => {},
                    }
                }
                assert(self.weights_wf());
                assert(self.wf());
            }
        }
        Ok(())
    }
}


/// Including more configurations never shrinks the included count.
pub proof fn lemma_included_count_mono(config: NetworkConfig, a: int, b: int)
    requires
        0 <= a <= b,
    ensures
        0 <= spec_included_count(config, a) <= spec_included_count(config, b),
    decreases b,
{
    if b > 0 {
        if a == b {
            if a > 0 {
                lemma_included_count_mono(config, a - 1, b - 1);
            }
        } else {
            lemma_included_count_mono(config, a, b - 1);
        }
    }
}

/// After wiring one more layer, the availability flags still say exactly
/// which slots are outputs of the pipeline wired so far.
pub proof fn lemma_avail_step(
    net0: Network,
    net: Network,
    avail0: Seq<bool>,
    avail: Seq<bool>,
)
    requires
        net.layers@.len() == net0.layers@.len() + 1,
        forall|m: int| 0 <= m < net0.layers@.len() ==> #[trigger] net.layers@[m] == net0.layers@[m],
        net.layers@.last().bottoms@.len() == 1,
        net.layers@.last().tops@.len() == 1,
        net.layers@.last().in_place@.len() == 1,
        (net.layers@.last().in_place@[0] ==> (net.layers@.last().tops@[0]
            == net.layers@.last().bottoms@[0]) && avail == avail0.update(
            net.layers@.last().bottoms@[0] as int,
            true,
        )),
        (!net.layers@.last().in_place@[0] ==> (net.layers@.last().tops@[0] as int)
            == net0.blobs_data@.len() && avail == avail0.update(
            net.layers@.last().bottoms@[0] as int,
            false,
        ).push(true)),
        avail0.len() == net0.blobs_data@.len(),
        0 <= (net.layers@.last().bottoms@[0] as int) < net0.blobs_data@.len(),
        forall|s: int|
            0 <= s < avail0.len() ==> #[trigger] avail0[s] == spec_slot_is_output(net0.layers@, s),
        forall|l: int|
            0 <= l < net0.layers@.len() ==> ((#[trigger] net0.layers@[l]).bottoms@[0] as int)
                < net0.blobs_data@.len(),
    ensures
        forall|s: int|
            0 <= s < avail.len() ==> #[trigger] avail[s] == spec_slot_is_output(net.layers@, s),
{
    reveal(spec_slot_is_output);
    let newl = net.layers@.last();
    let b = newl.bottoms@[0] as int;
    let t = newl.tops@[0] as int;
    let lcount = net.layers@.len() as int;
    assert forall|s: int| 0 <= s < avail.len() implies #[trigger] avail[s] == spec_slot_is_output(
        net.layers@,
        s,
    ) by {
        if s == t && newl.in_place@[0] {
            assert(avail[s] == true);
            assert forall|l2: int|
                0 <= l2 < lcount && ((#[trigger] net.layers@[l2]).bottoms@[0] as int)
                    == s implies exists|m: int|
                l2 <= m < lcount && ((#[trigger] net.layers@[m]).tops@[0] as int) == s by {
                assert((net.layers@[lcount - 1].tops@[0] as int) == s);
            }
        } else if s == b {
            assert(avail[s] == false);
            assert(((net.layers@[lcount - 1]).bottoms@[0] as int) == s);
            assert(!(exists|m: int|
                lcount - 1 <= m < lcount && ((#[trigger] net.layers@[m]).tops@[0] as int) == s));
            assert(!spec_slot_is_output(net.layers@, s));
        } else if s == t {
            assert(avail[s] == true);
            assert(s >= net0.blobs_data@.len());
            assert forall|l2: int|
                0 <= l2 < lcount implies ((#[trigger] net.layers@[l2]).bottoms@[0] as int) != s by {
                if l2 < lcount - 1 {
                    assert(net.layers@[l2] == net0.layers@[l2]);
                    assert((net0.layers@[l2].bottoms@[0] as int) < net0.blobs_data@.len());
                }
            }
            assert(spec_slot_is_output(net.layers@, s));
        } else {
            assert(avail[s] == avail0[s]);
            if avail0[s] {
                assert(spec_slot_is_output(net0.layers@, s));
                assert forall|l2: int|
                    0 <= l2 < lcount && ((#[trigger] net.layers@[l2]).bottoms@[0] as int)
                        == s implies exists|m: int|
                    l2 <= m < lcount && ((#[trigger] net.layers@[m]).tops@[0] as int) == s by {
                    assert(l2 < lcount - 1);
                    assert(net0.layers@[l2].bottoms@[0] as int == s);
                    let m = choose|m: int|
                        l2 <= m < net0.layers@.len() && ((#[trigger] net0.layers@[m]).tops@[0]
                            as int) == s;
                    assert(net.layers@[m] == net0.layers@[m]);
                    assert(l2 <= m < lcount && ((net.layers@[m]).tops@[0] as int) == s);
                }
                assert(spec_slot_is_output(net.layers@, s));
            } else {
                assert(!spec_slot_is_output(net0.layers@, s));
                let l2 = choose|l2: int|
                    0 <= l2 < net0.layers@.len() && ((#[trigger] net0.layers@[l2]).bottoms@[0]
                        as int) == s && !(exists|m: int|
                        l2 <= m < net0.layers@.len() && ((#[trigger] net0.layers@[m]).tops@[0]
                            as int) == s);
                assert(net.layers@[l2] == net0.layers@[l2]);
                assert forall|m: int|
                    l2 <= m < lcount implies ((#[trigger] net.layers@[m]).tops@[0] as int) != s by {
                    if m < lcount - 1 {
                        assert(net.layers@[m] == net0.layers@[m]);
                    }
                }
                assert(((net.layers@[l2]).bottoms@[0] as int) == s);
                assert(!spec_slot_is_output(net.layers@, s));
            }
        }
    }
}

/// A wired layer keeps matching its configuration when the network around it
/// only grows or only changes fields the match does not read.
pub proof fn lemma_layer_matches_stable(l1: Layer, l2: Layer, lc: LayerConfig, a: Network, b: Network)
    requires
        layer_matches(l2, lc, a),
        stable_fields_eq(l1, l2),
        a.blobs_data@.len() == a.blob_names@.len(),
        a.weights_lr@.len() == a.weight_display_names@.len(),
        a.weights_weight_decay@.len() == a.weight_display_names@.len(),
        b.blob_names@.len() >= a.blob_names@.len(),
        b.blobs_data@.len() >= a.blobs_data@.len(),
        b.weight_display_names@.len() >= a.weight_display_names@.len(),
        b.weights_lr@.len() >= a.weights_lr@.len(),
        b.weights_weight_decay@.len() >= a.weights_weight_decay@.len(),
        forall|s: int|
            0 <= s < a.blob_names@.len() ==> (#[trigger] b.blob_names@[s])@ == a.blob_names@[s]@,
        forall|s: int|
            0 <= s < a.blobs_data@.len() ==> (#[trigger] b.blobs_data@[s]).shape@
                == a.blobs_data@[s].shape@,
        forall|w: int|
            0 <= w < a.weight_display_names@.len() ==> (#[trigger] b.weight_display_names@[w])@
                == a.weight_display_names@[w]@,
        forall|w: int|
            0 <= w < a.weights_lr@.len() ==> #[trigger] b.weights_lr@[w] == a.weights_lr@[w],
        forall|w: int|
            0 <= w < a.weights_weight_decay@.len() ==> #[trigger] b.weights_weight_decay@[w]
                == a.weights_weight_decay@[w],
    ensures
        layer_matches(l1, lc, b),
{
    reveal(layer_matches);
}

/// Everything `build_graph` guarantees about the wired pipeline, before the
/// backward walk, the output inference and the sharing resolution run.
#[verifier::opaque]
pub open spec fn graph_built(config: NetworkConfig, net: Network, avail: Seq<bool>) -> bool {
    &&& net.wf()
    &&& fully_wired(net)
    &&& all_slots_produced(net)
    &&& owners_wf(net)
    &&& slots_own(net)
    &&& avail.len() == net.blobs_data@.len()
    &&& net.output_blob_ids@.len() == 0
    &&& net.name@ == config.name@
    &&& net.input_blob_ids@.len() == config.inputs@.len()
    &&& net.input_blob_names@.len() == config.inputs@.len()
    &&& (forall|i: int|
        0 <= i < config.inputs@.len() ==> (#[trigger] net.input_blob_ids@[i] as int) == i
            && net.input_blob_names@[i]@ == config.inputs@[i]@ && net.blob_names@[i]@
            == config.inputs@[i]@ && net.blobs_data@[i].shape@ == config.input_shapes@[i]@)
    &&& net.layers@.len() == spec_included_count(config, config.layers@.len() as int)
    &&& (forall|k: int|
        0 <= k < config.layers@.len() && spec_layer_included(
            #[trigger] config.layers@[k],
            config.state,
        ) ==> layer_matches(
            net.layers@[spec_included_count(config, k)],
            config.layers@[k],
            net,
        ))
    &&& (forall|s: int|
        0 <= s < avail.len() ==> #[trigger] avail[s] == spec_slot_is_output(net.layers@, s))
}

/// After wiring one more included layer, every earlier included
/// configuration still matches its wired layer, and the new one matches too.
pub proof fn lemma_matches_prefix_step(
    config: NetworkConfig,
    li: int,
    net0: Network,
    net: Network,
)
    requires
        0 <= li < config.layers@.len(),
        spec_layer_included(config.layers@[li], config.state),
        net0.wf(),
        net.layers@.len() == net0.layers@.len() + 1,
        forall|m: int| 0 <= m < net0.layers@.len() ==> #[trigger] net.layers@[m] == net0.layers@[m],
        net0.layers@.len() == spec_included_count(config, li),
        layer_matches(net.layers@[net.layers@.len() - 1], config.layers@[li], net),
        forall|k: int|
            0 <= k < li && spec_layer_included(#[trigger] config.layers@[k], config.state)
                ==> layer_matches(
                net0.layers@[spec_included_count(config, k)],
                config.layers@[k],
                net0,
            ),
        net.blob_names@.len() >= net0.blob_names@.len(),
        net.blobs_data@.len() >= net0.blobs_data@.len(),
        net.weight_display_names@.len() >= net0.weight_display_names@.len(),
        net.weights_lr@.len() >= net0.weights_lr@.len(),
        net.weights_weight_decay@.len() >= net0.weights_weight_decay@.len(),
        net.blob_names@.take(net0.blob_names@.len() as int) == net0.blob_names@,
        forall|s: int|
            0 <= s < net0.blobs_data@.len() ==> (#[trigger] net.blobs_data@[s]).shape@
                == net0.blobs_data@[s].shape@,
        net.weight_display_names@.take(net0.weight_display_names@.len() as int)
            == net0.weight_display_names@,
        net.weights_lr@.take(net0.weights_lr@.len() as int) == net0.weights_lr@,
        net.weights_weight_decay@.take(net0.weights_weight_decay@.len() as int)
            == net0.weights_weight_decay@,
    ensures
        forall|k: int|
            0 <= k < li + 1 && spec_layer_included(#[trigger] config.layers@[k], config.state)
                ==> layer_matches(
                net.layers@[spec_included_count(config, k)],
                config.layers@[k],
                net,
            ),
{
    let lcount = net.layers@.len() as int;
    assert forall|k: int|
        0 <= k < li + 1 && spec_layer_included(
            #[trigger] config.layers@[k],
            config.state,
        ) implies layer_matches(
        net.layers@[spec_included_count(config, k)],
        config.layers@[k],
        net,
    ) by {
        if k < li {
            let idx = spec_included_count(config, k);
            lemma_included_count_mono(config, k, li);
            lemma_included_count_mono(config, 0, k);
            assert(spec_included_count(config, k + 1) == idx + 1);
            lemma_included_count_mono(config, k + 1, li);
            assert(0 <= idx < net0.layers@.len());
            assert(net.layers@[idx] == net0.layers@[idx]);
            assert(layer_matches(net0.layers@[idx], config.layers@[k], net0));
            assert forall|s2: int|
                0 <= s2 < net0.blob_names@.len() implies (#[trigger] net.blob_names@[s2])@
                == net0.blob_names@[s2]@ by {
                assert(net.blob_names@[s2] == net.blob_names@.take(net0.blob_names@.len() as int)[s2]);
            }
            assert forall|w2: int|
                0 <= w2 < net0.weight_display_names@.len() implies (#[trigger] net
                .weight_display_names@[w2])@ == net0.weight_display_names@[w2]@ by {
                assert(net.weight_display_names@[w2] == net.weight_display_names@.take(
                    net0.weight_display_names@.len() as int,
                )[w2]);
            }
            assert forall|w2: int|
                0 <= w2 < net0.weights_lr@.len() implies #[trigger] net.weights_lr@[w2]
                == net0.weights_lr@[w2] by {
                assert(net.weights_lr@[w2] == net.weights_lr@.take(net0.weights_lr@.len() as int)[w2]);
            }
            assert forall|w2: int|
                0 <= w2 < net0.weights_weight_decay@.len() implies #[trigger] net
                .weights_weight_decay@[w2] == net0.weights_weight_decay@[w2] by {
                assert(net.weights_weight_decay@[w2] == net.weights_weight_decay@.take(
                    net0.weights_weight_decay@.len() as int,
                )[w2]);
            }
            lemma_layer_matches_stable(
                net.layers@[idx],
                net0.layers@[idx],
                config.layers@[k],
                net0,
                net,
            );
        } else {
            assert(spec_included_count(config, k) == lcount - 1);
        }
    }
}

/// How many of the first `k` layer configurations the state includes.
pub open spec fn spec_included_count(config: NetworkConfig, k: int) -> int
    decreases k,
{
    if k <= 0 {
        0
    } else {
        spec_included_count(config, k - 1) + (if spec_layer_included(
            config.layers@[k - 1],
            config.state,
        ) {
            1int
        } else {
            0int
        })
    }
}

/// Once input registration has failed, it stays failed.
pub proof fn lemma_inputs_upto_none(config: NetworkConfig, i: int, j: int)
    requires
        0 <= i <= j,
        spec_inputs_upto(config, i) is None,
    ensures
        spec_inputs_upto(config, j) is None,
    decreases j - i,
{
    if j > i {
        lemma_inputs_upto_none(config, i, j - 1);
    }
}

/// Once wiring has failed, it stays failed.
pub proof fn lemma_layers_upto_none(config: NetworkConfig, i: int, j: int)
    requires
        0 <= i <= j,
        spec_layers_upto(config, i) is None,
    ensures
        spec_layers_upto(config, j) is None,
    decreases j - i,
{
    if j > i {
        lemma_layers_upto_none(config, i, j - 1);
    }
}

impl Network {
    /// Registers the external inputs and wires every included layer, in
    /// declaration order: the first half of construction, producing the
    /// pipeline and the availability flags the output inference reads.
    #[verifier::rlimit(100)]
    #[verifier::spinoff_prover]
    fn build_graph(config: &NetworkConfig) -> (r: Result<(Network, Vec<bool>), NetworkError>)
        ensures
            r is Ok <==> spec_build_ok(*config),
            r matches Ok(p) ==> graph_built(*config, p.0, p.1@),
    {
        let mut net = Network::default();
        net.name = config.name.clone();
        let mut avail: Vec<bool> = Vec::new();
        if config.inputs.len() != config.input_shapes.len() {
            proof {
                assert(spec_layers_upto(*config, 0) is None);
                lemma_layers_upto_none(*config, 0, config.layers@.len() as int);
            }
            return Err(NetworkError::InputCountMismatch);
        }
        let ghost mut reg: Map<Seq<char>, Seq<usize>> = Map::empty();
        proof {
            reveal(reg_matches);
            assert(reg_matches(net, reg));
            assert(net.input_blob_ids@ =~= Seq::new(net.blobs_data@.len(), |t: int| t as usize));
        }
        let mut i: usize = 0;
        while i < config.inputs.len()
            invariant
                i <= config.inputs@.len(),
                config.inputs@.len() == config.input_shapes@.len(),
                spec_inputs_upto(*config, i as int) == Some(reg),
                net.wf(),
                reg_matches(net, reg),
                avail@.len() == net.blobs_data@.len(),
                net.layers@.len() == 0,
                net.weights@.len() == 0,
                net.weight_names_index@.len() == 0,
                net.learnable_weight_ids@.len() == 0,
                net.output_blob_ids@.len() == 0,
                net.weight_store_data@.len() == 0,
                net.blobs_data@.len() == i,
                net.input_blob_ids@ == Seq::new(net.blobs_data@.len(), |t: int| t as usize),
                net.input_blob_names@.len() == i,
                net.name@ == config.name@,
                forall|t: int|
                    0 <= t < i ==> (#[trigger] net.input_blob_names@[t])@ == config.inputs@[t]@
                        && net.blob_names@[t]@ == config.inputs@[t]@ && net.blobs_data@[t].shape@
                        == config.input_shapes@[t]@,
                forall|t: int| 0 <= t < i ==> #[trigger] avail@[t] == true,
            decreases config.inputs@.len() - i,
        {
            let r = net.init_input_blob(
                &mut avail,
                &config.inputs[i],
                &config.input_shapes[i],
                Ghost(reg),
            );
            match r {
                Err(e) => {
                    proof {
                        assert(spec_inputs_upto(*config, i + 1) is None);
                        lemma_inputs_upto_none(*config, i + 1, config.inputs@.len() as int);
                        assert(spec_layers_upto(*config, 0) is None);
                        lemma_layers_upto_none(*config, 0, config.layers@.len() as int);
                    }
                    return Err(e);
                },
                Ok(()) => {
                    proof {
                        reg = spec_input_step(
                            reg,
                            config.inputs@[i as int]@,
                            config.input_shapes@[i as int]@,
                        ).unwrap();
                        assert forall|t: int| 0 <= t < i + 1 implies (#[trigger] net
                            .input_blob_names@[t])@ == config.inputs@[t]@ && net.blob_names@[t]@
                            == config.inputs@[t]@ && net.blobs_data@[t].shape@
                            == config.input_shapes@[t]@ by {
                            if t < i {
                                assert(net.input_blob_names@[t] == net.input_blob_names@.take(
                                    i as int,
                                )[t]);
                                assert(net.blob_names@[t] == net.blob_names@.take(i as int)[t]);
                                assert(net.blobs_data@[t] == net.blobs_data@.take(i as int)[t]);
                            } else {
                                assert(net.input_blob_names@[t] == net.input_blob_names@.last());
                                assert(net.blob_names@[t] == net.blob_names@.last());
                                assert(net.blobs_data@[t] == net.blobs_data@.last());
                            }
                        }
                        assert forall|t: int| 0 <= t < i + 1 implies #[trigger] avail@[t]
                            == true by {
                            if t < i {
                                assert(avail@[t] == avail@.take(i as int)[t]);
                            }
                        }
                    }
                },
            }
            i = i + 1;
        }
        let ghost mut wreg: Map<Seq<char>, Seq<usize>> = Map::empty();
        proof {
            reveal(reg_matches);
            reveal(wreg_matches);
            reveal(all_slots_produced);
            reveal(spec_slot_produced);
            reveal(fully_wired);
            reveal(spec_slot_is_output);
            assert(spec_layers_upto(*config, 0) == Some((reg, wreg)));
            assert(wreg_matches(net, wreg));
            assert(all_slots_produced(net)) by {
                assert forall|s: int|
                    0 <= s < net.blobs_data@.len() implies #[trigger] spec_slot_produced(net, s) by {
                    assert((net.input_blob_ids@[s] as int) == s);
                }
            }
            assert(fully_wired(net));
            assert(owners_wf(net));
            assert(slots_own(net));
            assert forall|s: int| 0 <= s < avail@.len() implies avail@[s]
                == spec_slot_is_output(net.layers@, s) by {}
            assert forall|t: int|
                0 <= t < config.inputs@.len() implies (#[trigger] net.input_blob_ids@[t] as int)
                == t by {}
        }
        let mut li: usize = 0;
        while li < config.layers.len()
            invariant
                li <= config.layers@.len(),
                spec_layers_upto(*config, li as int) == Some((reg, wreg)),
                net.wf(),
                reg_matches(net, reg),
                wreg_matches(net, wreg),
                avail@.len() == net.blobs_data@.len(),
                all_slots_produced(net),
                fully_wired(net),
                owners_wf(net),
                slots_own(net),
                net.name@ == config.name@,
                net.output_blob_ids@.len() == 0,
                net.blobs_data@.len() >= config.inputs@.len(),
                net.input_blob_ids@.len() == config.inputs@.len(),
                net.input_blob_names@.len() == config.inputs@.len(),
                forall|t: int|
                    0 <= t < config.inputs@.len() ==> (#[trigger] net.input_blob_ids@[t] as int)
                        == t && net.input_blob_names@[t]@ == config.inputs@[t]@
                        && net.blob_names@[t]@ == config.inputs@[t]@ && net.blobs_data@[t].shape@
                        == config.input_shapes@[t]@,
                net.layers@.len() == spec_included_count(*config, li as int),
                forall|k: int|
                    0 <= k < li && spec_layer_included(
                        #[trigger] config.layers@[k],
                        config.state,
                    ) ==> layer_matches(
                        net.layers@[spec_included_count(*config, k)],
                        config.layers@[k],
                        net,
                    ),
                forall|s: int|
                    0 <= s < avail@.len() ==> #[trigger] avail@[s] == spec_slot_is_output(
                        net.layers@,
                        s,
                    ),
            decreases config.layers@.len() - li,
        {
            let lc = &config.layers[li];
            let ghost net0 = net;
            let ghost avail0 = avail@;
            if layer_included(lc, &config.state) {
                let r = net.init_layer(&mut avail, lc, Ghost(reg), Ghost(wreg));
                match r {
                    Err(e) => {
                        proof {
                            assert(spec_layers_upto(*config, li + 1) is None);
                            lemma_layers_upto_none(*config, li + 1, config.layers@.len() as int);
                        }
                        return Err(e);
                    },
                    Ok(()) => {
                        proof {
                            let step = spec_layer_step(reg, wreg, *lc).unwrap();
                            reg = step.0;
                            wreg = step.1;
                            assert(spec_layers_upto(*config, li + 1) == Some((reg, wreg)));
                            let newl = net.layers@.last();
                            let b = newl.bottoms@[0] as int;
                            let t = newl.tops@[0] as int;
                            let lcount = net.layers@.len() as int;
                            assert(net.layers@[lcount - 1] == newl);
                            assert(spec_included_count(*config, li + 1) == lcount);
                            // earlier layers still match their configurations
                            lemma_matches_prefix_step(*config, li as int, net0, net);
                            // the availability flags still mirror output-ness
                            reveal(layer_matches);
                            assert forall|l2: int|
                                0 <= l2 < net0.layers@.len() implies ((#[trigger] net0.layers@[l2]).bottoms@[0]
                                    as int) < net0.blobs_data@.len() by {
                                assert(crate::layer::layer_wf(
                                    net0.layers@[l2],
                                    net0.datas(),
                                    net0.weights@,
                                    net0.wdatas(),
                                ));
                            }
                            assert(forall|m: int|
                                0 <= m < net0.layers@.len() ==> #[trigger] net.layers@[m]
                                    == net0.layers@[m]);
                            lemma_avail_step(net0, net, avail0, avail@);
                        }
                    },
                }
            } else {
                proof {
                    assert(spec_layers_upto(*config, li + 1) == Some((reg, wreg)));
                    assert(spec_included_count(*config, li + 1) == spec_included_count(
                        *config,
                        li as int,
                    ));
                }
            }
            li = li + 1;
        }
        proof {
            assert(spec_build_ok(*config));
            reveal(graph_built);
            assert(graph_built(*config, net, avail@));
        }
        Ok((net, avail))
    }

    /// The second half of construction: computes the backward-skip flags (or
    /// forces backward for every layer), infers the output buffers from the
    /// availability flags, and resolves weight sharing.
    #[verifier::rlimit(100)]
    #[verifier::spinoff_prover]
    fn resolve_network(
        &mut self,
        avail: &Vec<bool>,
        force_backward: bool,
        Ghost(config): Ghost<NetworkConfig>,
    )
        requires
            graph_built(config, *old(self), avail@),
            force_backward == config.force_backward,
        ensures
            ({
                &&& final(self).wf()
                &&& fully_wired(*final(self))
                &&& all_slots_produced(*final(self))
                &&& owners_wf(*final(self))
                &&& final(self).name@ == config.name@
                &&& final(self).input_blob_ids@.len() == config.inputs@.len()
                &&& final(self).input_blob_names@.len() == config.inputs@.len()
                &&& (forall|i: int|
                    0 <= i < config.inputs@.len() ==> (#[trigger] final(self).input_blob_ids@[i] as int)
                        == i && final(self).input_blob_names@[i]@ == config.inputs@[i]@
                        && final(self).blob_names@[i]@ == config.inputs@[i]@ && final(self).blobs_data@[i].shape@
                        == config.input_shapes@[i]@)
                &&& final(self).layers@.len() == spec_included_count(config, config.layers@.len() as int)
                &&& (forall|k: int|
                    0 <= k < config.layers@.len() && spec_layer_included(
                        #[trigger] config.layers@[k],
                        config.state,
                    ) ==> layer_matches(
                        final(self).layers@[spec_included_count(config, k)],
                        config.layers@[k],
                        *final(self),
                    ))
                &&& (config.force_backward ==> forall|l: int|
                    0 <= l < final(self).layers@.len() ==> (#[trigger] final(self).layers@[l]).bottom_need_backward@
                        == seq![final(self).layers@[l].propagate@[0]] && !final(self).layers@[l].skip_backward)
                &&& (!config.force_backward ==> forall|l: int|
                    0 <= l < final(self).layers@.len() ==> (#[trigger] final(self).layers@[l]).bottom_need_backward@
                        == seq![
                        spec_need_backward(final(self).layers@, final(self).blobs_data@.len(), l),
                    ] && final(self).layers@[l].skip_backward == !spec_need_backward(
                        final(self).layers@,
                        final(self).blobs_data@.len(),
                        l,
                    ))
                &&& (forall|k: int|
                    0 <= k < final(self).output_blob_ids@.len() ==> (#[trigger] final(self).output_blob_ids@[k]
                        as int) < final(self).blobs_data@.len() && spec_slot_is_output(
                        final(self).layers@,
                        final(self).output_blob_ids@[k] as int,
                    ))
                &&& (forall|s: int|
                    0 <= s < final(self).blobs_data@.len() && spec_slot_is_output(final(self).layers@, s)
                        ==> exists|k: int|
                        0 <= k < final(self).output_blob_ids@.len() && (#[trigger] final(self).output_blob_ids@[k]
                            as int) == s)
                &&& (forall|k: int, m: int|
                    0 <= k < m < final(self).output_blob_ids@.len() ==> (#[trigger] final(self).output_blob_ids@[k])
                        < (#[trigger] final(self).output_blob_ids@[m]))
                &&& (forall|w: int|
                    0 <= w < final(self).weights@.len() ==> (#[trigger] final(self).weights@[w] as int) == (
                    match final(self).weight_owners@[w] {
                        Some(j) => j as int,
                        None => w,
                    }))
            }),
    {
        proof {
            reveal(graph_built);
        }
        let ghost netl0 = *self;
        let ghost netl = *self;
        proof {
            assert(netl == netl0);
        }
        if force_backward {
            self.init_force_backward();
        } else {
            self.init_backprop();
        }
        let ghost net1 = *self;
        self.infer_outputs(avail);
        let ghost net2 = *self;
        let share_result = self.share_weights();
        match share_result {
            Err(e) => {},
            Ok(()) => {},
        }
        proof {
            // the walk and the later passes change only the backward flags,
            // the output list and the sharing references
            reveal(graph_built);
            assert(self.blob_names@ == netl.blob_names@);
            assert(self.blobs_data@ == netl.blobs_data@);
            assert(self.weight_display_names@ == netl.weight_display_names@);
            assert(self.weights_lr@ == netl.weights_lr@);
            assert(self.weights_weight_decay@ == netl.weights_weight_decay@);
            assert(self.input_blob_ids@ == netl.input_blob_ids@);
            assert(self.layers@.len() == netl.layers@.len());
            assert(forall|m: int|
                0 <= m < netl.layers@.len() ==> stable_fields_eq(
                    #[trigger] self.layers@[m],
                    netl.layers@[m],
                ));
            lemma_resolve_correspondence(config, netl, *self);
            assert forall|s2: int| 0 <= s2 < avail@.len() implies #[trigger] spec_slot_is_output(
                self.layers@,
                s2,
            ) == spec_slot_is_output(netl.layers@, s2) by {
                lemma_output_stable(self.layers@, netl.layers@, s2);
            }
            assert forall|k: int|
                0 <= k < self.output_blob_ids@.len() implies (#[trigger] self.output_blob_ids@[k]
                as int) < self.blobs_data@.len() && spec_slot_is_output(
                self.layers@,
                self.output_blob_ids@[k] as int,
            ) by {
                assert(avail@[self.output_blob_ids@[k] as int]);
                assert(spec_slot_is_output(netl.layers@, self.output_blob_ids@[k] as int));
            }
            assert forall|s2: int|
                0 <= s2 < self.blobs_data@.len() && spec_slot_is_output(
                    self.layers@,
                    s2,
                ) implies exists|k: int|
                0 <= k < self.output_blob_ids@.len() && (#[trigger] self.output_blob_ids@[k]
                    as int) == s2 by {
                assert(spec_slot_is_output(netl.layers@, s2));
                assert(avail@[s2]);
            }
            if !force_backward {
                assert forall|l: int|
                    0 <= l < self.layers@.len() implies (#[trigger] self.layers@[l]).bottom_need_backward@
                    == seq![
                    spec_need_backward(self.layers@, self.blobs_data@.len(), l),
                ] && self.layers@[l].skip_backward == !spec_need_backward(
                    self.layers@,
                    self.blobs_data@.len(),
                    l,
                ) by {
                    lemma_under_stable(self.layers@, netl.layers@, self.blobs_data@.len(), l + 1);
                    assert(stable_fields_eq(self.layers@[l], netl.layers@[l]));
                    assert(spec_contributes(self.layers@, self.blobs_data@.len(), l)
                        == spec_contributes(netl.layers@, self.blobs_data@.len(), l));
                }
            }
        }
    }

    #[verifier::rlimit(100)]
    #[verifier::spinoff_prover]
    pub fn from_config(config: &NetworkConfig) -> (r: Result<Network, NetworkError>)
        ensures
            r is Ok <==> spec_build_ok(*config),
            r matches Ok(net) ==> {
                &&& net.wf()
                &&& fully_wired(net)
                &&& all_slots_produced(net)
                &&& owners_wf(net)
                &&& net.name@ == config.name@
                &&& net.input_blob_ids@.len() == config.inputs@.len()
                &&& net.input_blob_names@.len() == config.inputs@.len()
                &&& (forall|i: int|
                    0 <= i < config.inputs@.len() ==> (#[trigger] net.input_blob_ids@[i] as int)
                        == i && net.input_blob_names@[i]@ == config.inputs@[i]@
                        && net.blob_names@[i]@ == config.inputs@[i]@ && net.blobs_data@[i].shape@
                        == config.input_shapes@[i]@)
                &&& net.layers@.len() == spec_included_count(*config, config.layers@.len() as int)
                &&& (forall|k: int|
                    0 <= k < config.layers@.len() && spec_layer_included(
                        #[trigger] config.layers@[k],
                        config.state,
                    ) ==> layer_matches(
                        net.layers@[spec_included_count(*config, k)],
                        config.layers@[k],
                        net,
                    ))
                &&& (config.force_backward ==> forall|l: int|
                    0 <= l < net.layers@.len() ==> (#[trigger] net.layers@[l]).bottom_need_backward@
                        == seq![net.layers@[l].propagate@[0]] && !net.layers@[l].skip_backward)
                &&& (!config.force_backward ==> forall|l: int|
                    0 <= l < net.layers@.len() ==> (#[trigger] net.layers@[l]).bottom_need_backward@
                        == seq![
                        spec_need_backward(net.layers@, net.blobs_data@.len(), l),
                    ] && net.layers@[l].skip_backward == !spec_need_backward(
                        net.layers@,
                        net.blobs_data@.len(),
                        l,
                    ))
                &&& (forall|k: int|
                    0 <= k < net.output_blob_ids@.len() ==> (#[trigger] net.output_blob_ids@[k]
                        as int) < net.blobs_data@.len() && spec_slot_is_output(
                        net.layers@,
                        net.output_blob_ids@[k] as int,
                    ))
                &&& (forall|s: int|
                    0 <= s < net.blobs_data@.len() && spec_slot_is_output(net.layers@, s)
                        ==> exists|k: int|
                        0 <= k < net.output_blob_ids@.len() && (#[trigger] net.output_blob_ids@[k]
                            as int) == s)
                &&& (forall|k: int, m: int|
                    0 <= k < m < net.output_blob_ids@.len() ==> (#[trigger] net.output_blob_ids@[k])
                        < (#[trigger] net.output_blob_ids@[m]))
                &&& (forall|w: int|
                    0 <= w < net.weights@.len() ==> (#[trigger] net.weights@[w] as int) == (
                    match net.weight_owners@[w] {
                        Some(j) => j as int,
                        None => w,
                    }))
            },
    {
        let built = Self::build_graph(config);
        match built {
            Ok((mut net, avail)) => {
                net.resolve_network(&avail, config.force_backward, Ghost(*config));
                Ok(net)
            },
            Err(e) => Err(e),
        }
    }
}

/// After the backward walk, the output inference and the sharing resolution,
/// every correspondence established while wiring still holds: those passes
/// change only the backward flags, the output list and the sharing
/// references.
#[verifier::rlimit(100)]
#[verifier::spinoff_prover]
pub proof fn lemma_resolve_correspondence(config: NetworkConfig, netl: Network, net: Network)
    requires
        net.blob_names@ == netl.blob_names@,
        net.blobs_data@ == netl.blobs_data@,
        net.weight_display_names@ == netl.weight_display_names@,
        net.weights_lr@ == netl.weights_lr@,
        net.weights_weight_decay@ == netl.weights_weight_decay@,
        net.input_blob_ids@ == netl.input_blob_ids@,
        net.layers@.len() == netl.layers@.len(),
        forall|m: int|
            0 <= m < netl.layers@.len() ==> stable_fields_eq(
                #[trigger] net.layers@[m],
                netl.layers@[m],
            ),
        netl.wf(),
        fully_wired(netl),
        all_slots_produced(netl),
        netl.layers@.len() == spec_included_count(config, config.layers@.len() as int),
        forall|k: int|
            0 <= k < config.layers@.len() && spec_layer_included(
                #[trigger] config.layers@[k],
                config.state,
            ) ==> layer_matches(
                netl.layers@[spec_included_count(config, k)],
                config.layers@[k],
                netl,
            ),
    ensures
        forall|k: int|
            0 <= k < config.layers@.len() && spec_layer_included(
                #[trigger] config.layers@[k],
                config.state,
            ) ==> layer_matches(
                net.layers@[spec_included_count(config, k)],
                config.layers@[k],
                net,
            ),
        all_slots_produced(net),
        fully_wired(net),
{
    reveal(all_slots_produced);
    reveal(spec_slot_produced);
    reveal(fully_wired);
    assert forall|k: int|
        0 <= k < config.layers@.len() && spec_layer_included(
            #[trigger] config.layers@[k],
            config.state,
        ) implies layer_matches(
        net.layers@[spec_included_count(config, k)],
        config.layers@[k],
        net,
    ) by {
        let idx = spec_included_count(config, k);
        lemma_included_count_mono(config, 0, k);
        assert(spec_included_count(config, k + 1) == idx + 1);
        lemma_included_count_mono(config, k + 1, config.layers@.len() as int);
        assert(0 <= idx < netl.layers@.len());
        assert(layer_matches(netl.layers@[idx], config.layers@[k], netl));
        assert(stable_fields_eq(net.layers@[idx], netl.layers@[idx]));
        lemma_layer_matches_stable(
            net.layers@[idx],
            netl.layers@[idx],
            config.layers@[k],
            netl,
            net,
        );
    }
    assert forall|s: int|
        0 <= s < net.blobs_data@.len() implies #[trigger] spec_slot_produced(net, s) by {
        assert(spec_slot_produced(netl, s));
        if exists|m: int|
            0 <= m < netl.layers@.len() && ((#[trigger] netl.layers@[m]).tops@[0] as int) == s {
            let m = choose|m: int|
                0 <= m < netl.layers@.len() && ((#[trigger] netl.layers@[m]).tops@[0] as int) == s;
            assert(stable_fields_eq(net.layers@[m], netl.layers@[m]));
            assert((net.layers@[m].tops@[0] as int) == s);
        }
    }
    assert forall|l: int|
        0 <= l < net.layers@.len() implies ((exists|i2: int|
        0 <= i2 < net.input_blob_ids@.len() && (#[trigger] net.input_blob_ids@[i2] as int) == (
        #[trigger] net.layers@[l]).bottoms@[0] as int) || (exists|m: int|
        0 <= m < l && ((#[trigger] net.layers@[m]).tops@[0] as int) == net.layers@[l].bottoms@[0]
            as int)) by {
        assert(stable_fields_eq(net.layers@[l], netl.layers@[l]));
        if exists|m: int|
            0 <= m < l && ((#[trigger] netl.layers@[m]).tops@[0] as int) == netl.layers@[l].bottoms@[0]
                as int {
            let m = choose|m: int|
                0 <= m < l && ((#[trigger] netl.layers@[m]).tops@[0] as int)
                    == netl.layers@[l].bottoms@[0] as int;
            assert(stable_fields_eq(net.layers@[m], netl.layers@[m]));
            assert((net.layers@[m].tops@[0] as int) == net.layers@[l].bottoms@[0] as int);
        }
    }
}

/// Which slots are outputs depends only on the stable fields of the layers.
pub proof fn lemma_output_stable(a: Seq<Layer>, b: Seq<Layer>, s: int)
    requires
        a.len() == b.len(),
        forall|m: int| 0 <= m < a.len() ==> stable_fields_eq(#[trigger] a[m], #[trigger] b[m]),
    ensures
        spec_slot_is_output(a, s) == spec_slot_is_output(b, s),
{
    reveal(spec_slot_is_output);
    if spec_slot_is_output(a, s) {
        assert forall|l: int|
            0 <= l < b.len() && ((#[trigger] b[l]).bottoms@[0] as int) == s implies exists|m: int|
            l <= m < b.len() && ((#[trigger] b[m]).tops@[0] as int) == s by {
            assert((a[l].bottoms@[0] as int) == s);
            let m = choose|m: int| l <= m < a.len() && ((#[trigger] a[m]).tops@[0] as int) == s;
            assert((b[m].tops@[0] as int) == s);
        }
    }
    if spec_slot_is_output(b, s) {
        assert forall|l: int|
            0 <= l < a.len() && ((#[trigger] a[l]).bottoms@[0] as int) == s implies exists|m: int|
            l <= m < a.len() && ((#[trigger] a[m]).tops@[0] as int) == s by {
            assert((b[l].bottoms@[0] as int) == s);
            let m = choose|m: int| l <= m < b.len() && ((#[trigger] b[m]).tops@[0] as int) == s;
            assert((a[m].tops@[0] as int) == s);
        }
    }
}

} // verus!
