//! The static background tile record a store holds. Its draw depth lives
//! beside it in the store's slot; scale and alpha, which the renderer
//! consumes as floating point, are carried by the host around the library.

use vstd::prelude::*;

use crate::store::Store;

verus! {

/// One background tile: its room position, the sub-rectangle of the
/// background asset it shows, and the asset's index.
#[derive(Clone, Copy, Debug, PartialEq, Eq, Structural)]
pub struct Tile {
    pub x: i32,
    pub y: i32,
    pub background_index: i32,
    pub tile_x: i32,
    pub tile_y: i32,
    pub width: i32,
    pub height: i32,
    pub blend: i32,
}

/// The arena of background tiles.
pub type TileStore = Store<Tile>;

} // verus!
