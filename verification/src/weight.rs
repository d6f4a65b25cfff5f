//! Configuration of weights and their initialization.
//!
//! A weight is a learnable parameter owned by a layer.  Its configuration
//! carries an optional sharing name (two weights declaring the same non-empty
//! name alias one underlying buffer), the mode deciding how strictly shared
//! dimensions are checked, learning-rate and weight-decay multipliers, and an
//! initializer policy.

use vstd::prelude::*;

verus! {

use crate::error::NetworkError;
use crate::tensor::Tensor;

/// How the dimensions of two weights sharing a name must relate.
#[derive(Clone, Copy, Debug, PartialEq, Eq, Structural)]
pub enum DimCheckMode {
    /// Shapes must match exactly.
    Strict,
    /// Only the element counts must match; the shapes may differ.
    Permissive,
}

/// Initializer policy applied to a weight buffer when it is created.
#[derive(Clone, Copy, Debug, PartialEq, Eq, Structural)]
pub enum FillerType {
    /// Fills the weight buffer with one constant value.
    Constant {
        /// The value written to every element.
        value: i64,
    },
}

impl FillerType {
    /// The value this policy writes to every element.
    pub open spec fn fill_value(self) -> i64 {
        match self {
            FillerType::Constant { value } => value,
        }
    }

    /// Fills every element of `weight` as this policy prescribes; the shape
    /// is unchanged.
    pub fn fill(&self, weight: &mut Tensor)
        ensures
            final(weight).shape@ == old(weight).shape@,
            final(weight).data@ == Seq::new(old(weight).data@.len(), |i: int| self.fill_value()),
    {
        match *self {
            FillerType::Constant { value } => self.fill_constant(weight, value),
        }
    }

    fn fill_constant(&self, weight: &mut Tensor, value: i64)
        ensures
            final(weight).shape@ == old(weight).shape@,
            final(weight).data@ == Seq::new(old(weight).data@.len(), |i: int| value),
    {
        weight.fill(value);
    }
}

/// Training configuration for one weight buffer.
pub struct WeightConfig {
    /// The name of the weight buffer.  Giving two weights the same non-empty
    /// name shares one underlying buffer between them; an empty name never
    /// shares.
    pub name: String,
    /// Whether shared weights must have the same shape, or just the same
    /// element count.
    pub share_mode: DimCheckMode,
    /// The multiplier on the global learning rate for this weight.
    /// Unset means 1.
    pub lr_mult: Option<i64>,
    /// The multiplier on the global weight decay for this weight.
    /// Unset means 1.
    pub decay_mult: Option<i64>,
    /// The initializer applied to the weight buffer at creation.
    pub filler: Option<FillerType>,
}

impl Default for WeightConfig {
    /// An unnamed, strictly-checked weight with unset multipliers and no
    /// filler.
    fn default() -> (c: WeightConfig)
        ensures
            c.name@ == Seq::<char>::empty(),
            c.share_mode == DimCheckMode::Strict,
            c.lr_mult.is_none(),
            c.decay_mult.is_none(),
            c.filler.is_none(),
    {
        WeightConfig {
            name: String::new(),
            share_mode: DimCheckMode::Strict,
            lr_mult: None,
            decay_mult: None,
            filler: None,
        }
    }
}

/// Whether two tensors are compatible for sharing under `mode`: equal shapes
/// in strict mode, equal element counts in permissive mode.
pub open spec fn dimensions_compatible(mode: DimCheckMode, one: Tensor, two: Tensor) -> bool {
    match mode {
        DimCheckMode::Strict => one.shape@ == two.shape@,
        DimCheckMode::Permissive => one.data@.len() == two.data@.len(),
    }
}

impl WeightConfig {
    /// Checks the dimensions of two weight buffers according to this
    /// configuration's `share_mode`: succeeds exactly when they are
    /// compatible, and otherwise reports the weight, both layers, and the
    /// expected and actual shapes.
    pub fn check_dimensions(
        &self,
        blob_one: &Tensor,
        blob_two: &Tensor,
        param_name: &String,
        owner_name: &String,
        layer_name: &String,
    ) -> (r: Result<(), NetworkError>)
        ensures
            r is Ok <==> dimensions_compatible(self.share_mode, *blob_one, *blob_two),
            r matches Err(e) ==> (e matches NetworkError::ShareMismatch {
                weight,
                owner_layer,
                layer,
                expected,
                actual,
            } && weight@ == param_name@ && owner_layer@ == owner_name@ && layer@ == layer_name@
                && expected@ == blob_two.shape@ && actual@ == blob_one.shape@),
    {
        let compatible = match self.share_mode {
            DimCheckMode::Permissive => blob_one.data.len() == blob_two.data.len(),
            DimCheckMode::Strict => shapes_equal(&blob_one.shape, &blob_two.shape),
        };
        if compatible {
            Ok(())
        } else {
            Err(NetworkError::ShareMismatch {
                weight: param_name.clone(),
                owner_layer: owner_name.clone(),
                layer: layer_name.clone(),
                expected: crate::tensor::copy_usize_vec(&blob_two.shape),
                actual: crate::tensor::copy_usize_vec(&blob_one.shape),
            })
        }
    }

    /// The multiplier on the global learning rate for this weight buffer.
    pub fn lr_mult(&self) -> (m: i64)
        ensures
            m == spec_multiplier(self.lr_mult),
    {
        match self.lr_mult {
            Some(val) => val,
            None => 1,
        }
    }

    /// The multiplier on the global weight decay for this weight buffer.
    pub fn decay_mult(&self) -> (m: i64)
        ensures
            m == spec_multiplier(self.decay_mult),
    {
        match self.decay_mult {
            Some(val) => val,
            None => 1,
        }
    }
}

/// An unset multiplier defaults to 1.
pub open spec fn spec_multiplier(m: Option<i64>) -> i64 {
    match m {
        Some(val) => val,
        None => 1,
    }
}

/// Whether two shapes are equal, extent for extent.
pub fn shapes_equal(a: &Vec<usize>, b: &Vec<usize>) -> (r: bool)
    ensures
        r == (a@ == b@),
{
    if a.len() != b.len() {
        proof {
            assert(a@ !~= b@);
        }
        return false;
    }
    let mut i: usize = 0;
    while i < a.len()
        invariant
            i <= a.len(),
            a@.len() == b@.len(),
            forall|j: int| 0 <= j < i ==> a@[j] == b@[j],
        decreases a.len() - i,
    {
        if a[i] != b[i] {
            proof {
                assert(a@ !~= b@);
            }
            return false;
        }
        i = i + 1;
    }
    proof {
        assert(a@ =~= b@);
    }
    true
}

} // verus!
