//! The dynamic sprite instance record a store holds. Its draw depth lives
//! beside it in the store's slot; transform fields the renderer consumes as
//! floating point (scale, rotation, alpha) are carried by the host around
//! the library.

use vstd::prelude::*;

use crate::store::Store;

verus! {

/// One live instance: identity, room position and the assets it references
/// by index.
#[derive(Clone, Copy, Debug, PartialEq, Eq, Structural)]
pub struct Instance {
    pub id: i32,
    pub x: i32,
    pub y: i32,
    pub object_index: i32,
    pub sprite_index: i32,
    pub image_blend: i32,
    pub visible: bool,
}

/// The arena of live instances.
pub type InstanceStore = Store<Instance>;

} // verus!
