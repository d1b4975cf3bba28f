//! Terrain of a single map tile.
use vstd::prelude::*;

verus! {

#[derive(Clone, Copy, PartialEq, Eq, Structural, Debug)]
pub enum TileType {
    Ground,
    Road,
    Floor,
    Wall,
    Window,
    Doorway,
    Fence,
}

} // verus!
