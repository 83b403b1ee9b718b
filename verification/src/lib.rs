//! Core of a 2D game runtime: a texture atlas packer with page growth, a
//! generation-tagged arena for renderable records with a depth-sorted draw
//! order, and a compositor that merges two depth-sorted draw streams into one.

pub mod asset;
pub mod atlas;
pub mod compositor;
pub mod gml;
pub mod instance;
pub mod pack;
pub mod sound;
pub mod store;
pub mod tile;
pub mod wave;

use vstd::prelude::*;

verus! {

/// Whether `n` is a power of two.
pub open spec fn is_pow2(n: int) -> bool
    decreases n,
{
    if n <= 0 {
        false
    } else if n == 1 {
        true
    } else {
        n % 2 == 0 && is_pow2(n / 2)
    }
}

} // verus!
