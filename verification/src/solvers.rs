//! Stochastic gradient descent with momentum.
//!
//! Keeping a part of the previous gradient update makes solving faster and
//! more stable when successive updates point the same way.  The solver keeps
//! one history buffer per learnable weight; each step blends the new
//! gradient into the history and hands the blend back as the update.

use vstd::prelude::*;

verus! {

use crate::math::scale_combine;
use crate::tensor::{copy_i64_vec, wrap_add, wrap_mul, Tensor};

/// Stochastic gradient descent with momentum: the gradient update from the
/// previous iteration is kept per weight and blended into each new one.
pub struct Momentum {
    /// The previous update for each learnable weight, index-aligned with the
    /// network's learnable-weight list.
    pub history: Vec<Tensor>,
}

impl Momentum {
    /// A new solver with no history.
    pub fn new() -> (s: Momentum)
        ensures
            s.history@.len() == 0,
    {
        Momentum { history: Vec::new() }
    }

    /// Registers the history buffer for one more learnable weight, in the
    /// order of the network's learnable-weight list.
    pub fn push_history(&mut self, t: Tensor)
        ensures
            final(self).history@ == old(self).history@.push(t),
    {
        self.history.push(t);
    }

    /// Computes the update value for one weight: the history becomes
    /// `local_lr * gradient + momentum * history` with `local_lr` the
    /// wrapping product of the global and the per-weight learning rate, and
    /// the gradient buffer is overwritten with the new history, ready for
    /// the network's fixed update step.
    pub fn compute_update_value(
        &mut self,
        momentum: i64,
        weight_gradient: &mut Tensor,
        history_blob_id: usize,
        global_lr: i64,
        blob_lr: i64,
    )
        requires
            history_blob_id < old(self).history@.len(),
            old(self).history@[history_blob_id as int].data@.len() == old(
                weight_gradient,
            ).data@.len(),
        ensures
            final(self).history@.len() == old(self).history@.len(),
            final(self).history@[history_blob_id as int].data@ == Seq::new(
                old(weight_gradient).data@.len(),
                |i: int|
                    wrap_add(
                        wrap_mul(wrap_mul(global_lr, blob_lr), old(weight_gradient).data@[i]),
                        wrap_mul(momentum, old(self).history@[history_blob_id as int].data@[i]),
                    ),
            ),
            final(self).history@[history_blob_id as int].shape@ == old(self).history@[
                history_blob_id as int].shape@,
            forall|j: int|
                0 <= j < old(self).history@.len() && j != history_blob_id ==> final(self).history@[j]
                    == old(self).history@[j],
            final(weight_gradient).data@ == final(self).history@[history_blob_id as int].data@,
            final(weight_gradient).shape@ == old(weight_gradient).shape@,
    {
        let local_lr: i64 = global_lr.wrapping_mul(blob_lr);
        let blended: Vec<i64> = scale_combine(
            local_lr,
            &weight_gradient.data,
            momentum,
            &self.history[history_blob_id].data,
        );
        self.history[history_blob_id].data = copy_i64_vec(&blended);
        weight_gradient.data = blended;
    }
}

} // verus!
