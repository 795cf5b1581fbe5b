//! What the Mixer Brush reads its neighbourhood from.

use vstd::prelude::*;

use crate::buffer::Pixmap;

verus! {

/// A composite of the layers beneath the one being painted — what Sample All
/// Layers reads.
///
/// `origin` is where the buffer's top-left sits in the *layer's* coordinates, so
/// only the neighbourhood of a dab need be composited rather than the whole
/// document.
pub struct Sampled<'a> {
    pub pixels: &'a Pixmap,
    pub origin: (i32, i32),
}

} // verus!
