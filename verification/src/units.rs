//! Cell coordinates and grid dimensions, with the row-major index
//! conversions used by the tilemap grid.

use vstd::prelude::*;
use vstd::arithmetic::div_mod::{
    lemma_fundamental_div_mod, lemma_fundamental_div_mod_converse, lemma_multiply_divide_lt,
};

verus! {

/// Grid dimensions, in cells.
#[derive(Debug, Clone, Copy, PartialEq, Eq, Structural)]
pub struct MapSize {
    pub w: u32,
    pub h: u32,
}

/// A cell coordinate; validity relative to a `MapSize` is the caller's
/// concern, checked with `Tilemap::is_inside`.
#[derive(Debug, Clone, Copy, PartialEq, Eq, Hash, Structural)]
pub struct MapPosition {
    pub x: u32,
    pub y: u32,
}

/// Row-major index of a position: `x + y * size.w`.
pub open spec fn spec_to_idx(pos: MapPosition, using: MapSize) -> int {
    pos.x + pos.y * using.w
}

/// Position of a row-major index: `(i % size.w, i / size.w)`.
pub open spec fn spec_from_idx(i: int, using: MapSize) -> MapPosition {
    MapPosition { x: (i % (using.w as int)) as u32, y: (i / (using.w as int)) as u32 }
}

impl MapSize {
    pub fn new(w: u32, h: u32) -> (r: Self)
        ensures
            r == (MapSize { w, h }),
    {
        Self { w, h }
    }

    /// Number of cells in a grid of these dimensions.
    pub fn count(&self) -> (r: u32)
        requires
            self.w * self.h <= u32::MAX,
        ensures
            r == self.w * self.h,
    {
        self.w * self.h
    }
}

impl MapPosition {
    pub fn new(x: u32, y: u32) -> (r: Self)
        ensures
            r == (MapPosition { x, y }),
    {
        Self { x, y }
    }

    /// Converts a row-major cell index back into a coordinate.
    pub fn from_idx(i: usize, using: MapSize) -> (r: MapPosition)
        requires
            using.w > 0,
            i <= u32::MAX,
        ensures
            r == spec_from_idx(i as int, using),
    {
        MapPosition { x: i as u32 % using.w, y: i as u32 / using.w }
    }

    /// Row-major cell index of this coordinate.
    pub fn to_idx(&self, using: MapSize) -> (r: usize)
        requires
            self.x + self.y * using.w <= u32::MAX,
        ensures
            r == spec_to_idx(*self, using),
    {
        (self.x + self.y * using.w) as usize
    }
}

/// Converting an in-range index to a position and back yields the index.
pub proof fn lemma_idx_roundtrip(i: int, using: MapSize)
    requires
        using.w > 0,
        0 <= i < using.w * using.h,
    ensures
        spec_to_idx(spec_from_idx(i, using), using) == i,
{
    let w = using.w as int;
    lemma_fundamental_div_mod(i, w);
    assert(i / w < using.h) by {
        lemma_multiply_divide_lt(i, w, using.h as int);
    }
    assert(w * (i / w) == (i / w) * w) by (nonlinear_arith);
}

/// Converting an in-bounds position to its index and back yields the
/// same position.
pub proof fn lemma_pos_roundtrip(pos: MapPosition, using: MapSize)
    requires
        using.w > 0,
        pos.x < using.w,
        pos.y < using.h,
    ensures
        spec_from_idx(spec_to_idx(pos, using), using) == pos,
{
    let w = using.w as int;
    let x = pos.x as int;
    let y = pos.y as int;
    lemma_fundamental_div_mod_converse(x + y * w, w, y, x);
}


impl From<(u64, u64)> for MapSize {
    fn from(value: (u64, u64)) -> (r: Self) {
        MapSize {
            w: #[verifier::truncate] (value.0 as u32),
            h: #[verifier::truncate] (value.1 as u32),
        }
    }
}

impl vstd::std_specs::convert::FromSpecImpl<(u64, u64)> for MapSize {
    open spec fn obeys_from_spec() -> bool {
        true
    }

    open spec fn from_spec(v: (u64, u64)) -> Self {
        MapSize { w: v.0 as u32, h: v.1 as u32 }
    }
}

impl From<(u64, u64)> for MapPosition {
    fn from(value: (u64, u64)) -> (r: Self) {
        MapPosition {
            x: #[verifier::truncate] (value.0 as u32),
            y: #[verifier::truncate] (value.1 as u32),
        }
    }
}

impl vstd::std_specs::convert::FromSpecImpl<(u64, u64)> for MapPosition {
    open spec fn obeys_from_spec() -> bool {
        true
    }

    open spec fn from_spec(v: (u64, u64)) -> Self {
        MapPosition { x: v.0 as u32, y: v.1 as u32 }
    }
}

impl From<(u32, u32)> for MapSize {
    fn from(value: (u32, u32)) -> (r: Self) {
        MapSize { w: value.0, h: value.1 }
    }
}

impl vstd::std_specs::convert::FromSpecImpl<(u32, u32)> for MapSize {
    open spec fn obeys_from_spec() -> bool {
        true
    }

    open spec fn from_spec(v: (u32, u32)) -> Self {
        MapSize { w: v.0, h: v.1 }
    }
}

impl From<(u32, u32)> for MapPosition {
    fn from(value: (u32, u32)) -> (r: Self) {
        MapPosition { x: value.0, y: value.1 }
    }
}

impl vstd::std_specs::convert::FromSpecImpl<(u32, u32)> for MapPosition {
    open spec fn obeys_from_spec() -> bool {
        true
    }

    open spec fn from_spec(v: (u32, u32)) -> Self {
        MapPosition { x: v.0, y: v.1 }
    }
}


impl From<(u16, u16)> for MapSize {
    fn from(value: (u16, u16)) -> (r: Self) {
        MapSize { w: value.0 as u32, h: value.1 as u32 }
    }
}

impl vstd::std_specs::convert::FromSpecImpl<(u16, u16)> for MapSize {
    open spec fn obeys_from_spec() -> bool {
        true
    }

    open spec fn from_spec(v: (u16, u16)) -> Self {
        MapSize { w: v.0 as u32, h: v.1 as u32 }
    }
}

impl From<(u16, u16)> for MapPosition {
    fn from(value: (u16, u16)) -> (r: Self) {
        MapPosition { x: value.0 as u32, y: value.1 as u32 }
    }
}

impl vstd::std_specs::convert::FromSpecImpl<(u16, u16)> for MapPosition {
    open spec fn obeys_from_spec() -> bool {
        true
    }

    open spec fn from_spec(v: (u16, u16)) -> Self {
        MapPosition { x: v.0 as u32, y: v.1 as u32 }
    }
}

impl From<(u8, u8)> for MapSize {
    fn from(value: (u8, u8)) -> (r: Self) {
        MapSize { w: value.0 as u32, h: value.1 as u32 }
    }
}

impl vstd::std_specs::convert::FromSpecImpl<(u8, u8)> for MapSize {
    open spec fn obeys_from_spec() -> bool {
        true
    }

    open spec fn from_spec(v: (u8, u8)) -> Self {
        MapSize { w: v.0 as u32, h: v.1 as u32 }
    }
}

impl From<(u8, u8)> for MapPosition {
    fn from(value: (u8, u8)) -> (r: Self) {
        MapPosition { x: value.0 as u32, y: value.1 as u32 }
    }
}

impl vstd::std_specs::convert::FromSpecImpl<(u8, u8)> for MapPosition {
    open spec fn obeys_from_spec() -> bool {
        true
    }

    open spec fn from_spec(v: (u8, u8)) -> Self {
        MapPosition { x: v.0 as u32, y: v.1 as u32 }
    }
}

impl From<(usize, usize)> for MapSize {
    fn from(value: (usize, usize)) -> (r: Self) {
        MapSize {
            w: #[verifier::truncate] (value.0 as u32),
            h: #[verifier::truncate] (value.1 as u32),
        }
    }
}

impl vstd::std_specs::convert::FromSpecImpl<(usize, usize)> for MapSize {
    open spec fn obeys_from_spec() -> bool {
        true
    }

    open spec fn from_spec(v: (usize, usize)) -> Self {
        MapSize { w: v.0 as u32, h: v.1 as u32 }
    }
}

impl From<(usize, usize)> for MapPosition {
    fn from(value: (usize, usize)) -> (r: Self) {
        MapPosition {
            x: #[verifier::truncate] (value.0 as u32),
            y: #[verifier::truncate] (value.1 as u32),
        }
    }
}

impl vstd::std_specs::convert::FromSpecImpl<(usize, usize)> for MapPosition {
    open spec fn obeys_from_spec() -> bool {
        true
    }

    open spec fn from_spec(v: (usize, usize)) -> Self {
        MapPosition { x: v.0 as u32, y: v.1 as u32 }
    }
}

} // verus!
