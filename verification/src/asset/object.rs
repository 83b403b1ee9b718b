//! The object asset: the template an instance is spawned from.

use vstd::prelude::*;

verus! {

/// An object definition: its name, behaviour flags, draw depth and the
/// sprite and collision mask it references by index.
pub struct Object {
    pub name: String,
    pub solid: bool,
    pub visible: bool,
    pub persistent: bool,
    pub depth: i32,
    pub sprite_index: i32,
    pub mask_index: i32,
    pub parent_index: i32,
}

} // verus!
