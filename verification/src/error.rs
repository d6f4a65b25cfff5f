//! Configuration errors surfaced while building a network.
//!
//! Every variant is detected at graph-build time and is fatal to
//! construction: no partial network is ever returned beside one of these.

use vstd::prelude::*;

verus! {

/// A defect in a network configuration, reported with enough context to
/// diagnose it.
#[derive(Debug)]
pub enum NetworkError {
    /// Two external inputs were declared under the same name.
    DuplicateInput {
        /// The name declared twice.
        name: String,
    },
    /// The list of input names and the list of input shapes differ in length.
    InputCountMismatch,
    /// An input or top shape describes more elements than `usize` can count.
    ShapeTooLarge {
        /// The buffer name whose shape overflows.
        name: String,
    },
    /// A layer declared a bottom name that no input and no earlier layer
    /// produced.
    MissingBottom {
        /// The layer whose dependency is unmet.
        layer: String,
        /// The bottom name that could not be resolved.
        name: String,
    },
    /// A layer declared a top name that is already registered and is not one
    /// of its own bottoms (so this is not in-place computation).
    DuplicateTop {
        /// The layer producing the duplicate.
        layer: String,
        /// The top name already taken.
        name: String,
    },
    /// A layer configuration failed its layer-type-specific structural
    /// checks (wrong slot counts, wrong bottom rank, a target of the wrong
    /// length, or in-place computation where the layer type forbids it).
    InvalidLayer {
        /// The offending layer.
        layer: String,
    },
    /// Two weights share a name but their dimensions are incompatible under
    /// the declared sharing mode.
    ShareMismatch {
        /// The shared weight's display name.
        weight: String,
        /// The layer owning the original weight.
        owner_layer: String,
        /// The layer trying to share it.
        layer: String,
        /// The owner's weight shape.
        expected: Vec<usize>,
        /// The sharing layer's weight shape.
        actual: Vec<usize>,
    },
}

} // verus!
