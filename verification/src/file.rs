//! The declarative map descriptor: the record a map file deserializes
//! into, before it is bound against a tileset to become a `Tilemap`.

use vstd::prelude::*;
use crate::units::MapPosition;

verus! {

/// One tile kind of a map descriptor: the image it is drawn with and
/// the flag bits every cell of this kind starts with.
#[derive(Debug, Clone, PartialEq, Eq)]
pub struct TileDescriptor {
    pub image: String,
    pub flags: u32,
}

/// The start cell and the exit links of a map descriptor.
#[derive(Debug, PartialEq, Eq)]
pub struct TilemapDataDescriptor {
    pub start: (u32, u32),
    pub exits: Vec<(u32, u32, String, u32, u32)>,
}

/// A whole map descriptor: name, recommended tileset, a human-readable
/// flag legend (not consulted by runtime logic), the tile-kind
/// catalogue, the row-major cell grid of tile-kind indices, and the
/// start/exit data.
#[derive(Debug, PartialEq, Eq)]
pub struct TilemapFile {
    pub name: String,
    pub tileset: String,
    pub flags: Vec<(u32, String)>,
    pub tiles: Vec<TileDescriptor>,
    pub map: Vec<Vec<u16>>,
    pub data: TilemapDataDescriptor,
}

impl TilemapFile {
    /// The legend names each flag word at most once — the shape the
    /// original map format keeps by construction (its legend is a map
    /// keyed by the flag word).
    pub open spec fn spec_legend_unique(&self) -> bool {
        forall|p: int, q: int|
            0 <= p < q < self.flags@.len() ==> (#[trigger] self.flags@[p]).0 != (
            #[trigger] self.flags@[q]).0
    }

    /// Checks that no flag word appears twice in the legend.
    pub fn legend_unique(&self) -> (r: bool)
        ensures
            r == self.spec_legend_unique(),
    {
        let mut i: usize = 0;
        while i < self.flags.len()
            invariant
                i <= self.flags@.len(),
                forall|p: int, q: int|
                    0 <= p < q < self.flags@.len() && p < i ==> (#[trigger] self.flags@[p]).0 != (
                    #[trigger] self.flags@[q]).0,
            decreases self.flags@.len() - i,
        {
            let mut j = i + 1;
            while j < self.flags.len()
                invariant
                    i < self.flags@.len(),
                    i < j <= self.flags@.len(),
                    forall|q: int|
                        i < q < j ==> (#[trigger] self.flags@[q]).0 != self.flags@[i as int].0,
                decreases self.flags@.len() - j,
            {
                if self.flags[j].0 == self.flags[i].0 {
                    return false;
                }
                j = j + 1;
            }
            i = i + 1;
        }
        true
    }
}

/// A link from a cell of this map to a cell of another map.
#[derive(Debug, Clone, PartialEq, Eq)]
pub struct MapExit {
    pub position: MapPosition,
    pub target_map: String,
    pub target_pos: MapPosition,
}

impl MapExit {
    /// Builds an exit from the 5-tuple form used in map descriptors.
    pub fn from_file(data: (u32, u32, String, u32, u32)) -> (r: MapExit)
        ensures
            r.position == (MapPosition { x: data.0, y: data.1 }),
            r.target_map@ == data.2@,
            r.target_pos == (MapPosition { x: data.3, y: data.4 }),
    {
        MapExit {
            position: MapPosition::new(data.0, data.1),
            target_map: data.2,
            target_pos: MapPosition::new(data.3, data.4),
        }
    }
}

} // verus!
