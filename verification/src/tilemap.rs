//! The grid + viewport + camera engine: a cell grid of tile-kind
//! indices with per-cell flag bits, a scrollable viewport clamped to
//! the map, a sub-tile pixel nudge for smooth scrolling, and the
//! binding step that resolves a map descriptor against a tileset.

use vstd::prelude::*;
use vstd::string::StringExecFns;
use vstd::arithmetic::div_mod::{
    lemma_basic_div, lemma_div_pos_is_pos, lemma_fundamental_div_mod,
    lemma_fundamental_div_mod_converse, lemma_mod_bound, lemma_multiply_divide_le,
};
use std::rc::Rc;
use crate::error::GameUtilError;
use crate::file::{MapExit, TilemapFile};
use crate::tileset::{clone_rc, str_eq, Tileset};
use crate::units::{spec_from_idx, spec_to_idx, MapPosition, MapSize};

verus! {

/// The smaller of two integers.
pub open spec fn spec_min(a: int, b: int) -> int {
    if a < b {
        a
    } else {
        b
    }
}

/// `x + d`, clamped to the `u32` range.
pub open spec fn spec_sat_add(x: int, d: int) -> int {
    if x + d < 0 {
        0
    } else if x + d > u32::MAX {
        u32::MAX as int
    } else {
        x + d
    }
}

/// `img` is the image of the first tileset entry named `name`.
pub open spec fn resolves_to<Image>(ts: &Tileset<Image>, name: Seq<char>, img: Rc<Image>) -> bool {
    exists|i: int|
        0 <= i < ts.spec_names().len() && ts.spec_names()[i] == name && img == ts.spec_images()[i]
            && (forall|j: int| 0 <= j < i ==> ts.spec_names()[j] != name)
}

/// The names among `names` that resolve to no tileset entry, each
/// listed once, in the order in which they first appear.
pub open spec fn missing_names<Image>(names: Seq<Seq<char>>, ts: &Tileset<Image>) -> Seq<Seq<char>>
    decreases names.len(),
{
    if names.len() == 0 {
        Seq::empty()
    } else {
        let prefix = missing_names(names.drop_last(), ts);
        let last = names.last();
        if !ts.has_name(last) && !names.drop_last().contains(last) {
            prefix.push(last)
        } else {
            prefix
        }
    }
}

/// The missing-name list holds exactly the names with no tileset
/// entry, and holds each such name once.
#[verifier::rlimit(60)]
#[verifier::spinoff_prover]
pub proof fn lemma_missing_names_props<Image>(names: Seq<Seq<char>>, ts: &Tileset<Image>)
    ensures
        forall|name: Seq<char>|
            missing_names(names, ts).contains(name) <==> (names.contains(name) && !ts.has_name(
                name,
            )),
        forall|p: int, q: int|
            0 <= p < q < missing_names(names, ts).len() ==> missing_names(names, ts)[p]
                != missing_names(names, ts)[q],
    decreases names.len(),
{
    if names.len() > 0 {
        let prefix = names.drop_last();
        lemma_missing_names_props(prefix, ts);
        assert forall|name: Seq<char>|
            missing_names(names, ts).contains(name) <==> (names.contains(name) && !ts.has_name(
                name,
            )) by {
            if names.contains(name) && !ts.has_name(name) {
                let i = choose|i: int| 0 <= i < names.len() && names[i] == name;
                if i < names.len() - 1 {
                    assert(prefix[i] == name);
                    assert(prefix.contains(name));
                    assert(missing_names(prefix, ts).contains(name));
                    let k = choose|k: int|
                        0 <= k < missing_names(prefix, ts).len() && missing_names(prefix, ts)[k]
                            == name;
                    assert(missing_names(names, ts)[k] == name);
                } else {
                    if !prefix.contains(name) {
                        assert(missing_names(names, ts).last() == name);
                    } else {
                        assert(missing_names(prefix, ts).contains(name));
                        let k = choose|k: int|
                            0 <= k < missing_names(prefix, ts).len() && missing_names(prefix, ts)[k]
                                == name;
                        assert(missing_names(names, ts)[k] == name);
                    }
                }
            }
            if missing_names(names, ts).contains(name) {
                let k = choose|k: int|
                    0 <= k < missing_names(names, ts).len() && missing_names(names, ts)[k] == name;
                if k < missing_names(prefix, ts).len() {
                    assert(missing_names(prefix, ts).contains(name));
                    assert(prefix.contains(name));
                    let i = choose|i: int| 0 <= i < prefix.len() && prefix[i] == name;
                    assert(names[i] == name);
                } else {
                    assert(name == names.last());
                }
            }
        }
    }
}

/// True if some element of `v` spells `s`.
fn vec_contains_str(v: &Vec<String>, s: &str) -> (r: bool)
    ensures
        r == v.deep_view().contains(s@),
{
    let mut i: usize = 0;
    while i < v.len()
        invariant
            i <= v@.len(),
            forall|j: int| 0 <= j < i ==> v.deep_view()[j] != s@,
        decreases v@.len() - i,
    {
        if str_eq(v[i].as_str(), s) {
            assert(v.deep_view()[i as int] == s@);
            return true;
        }
        i = i + 1;
    }
    false
}

/// Resolves each name against the tileset: on full success the image
/// handles, one per name; otherwise every unresolved name, once each,
/// in first-seen order.
fn resolve_handles<Image>(ts: &Tileset<Image>, names: &Vec<String>) -> (r: Result<
    Vec<Rc<Image>>,
    Vec<String>,
>)
    requires
        ts.wf(),
    ensures
        match r {
            Ok(imgs) => {
                &&& missing_names(names.deep_view(), ts).len() == 0
                &&& imgs@.len() == names@.len()
                &&& forall|k: int|
                    0 <= k < names@.len() ==> resolves_to(ts, names.deep_view()[k], #[trigger] imgs@[k])
            },
            Err(missing) => {
                &&& missing.deep_view() =~= missing_names(names.deep_view(), ts)
                &&& missing@.len() > 0
            },
        },
{
    let ghost all = names.deep_view();
    let mut imgs: Vec<Rc<Image>> = Vec::new();
    let mut missing: Vec<String> = Vec::new();
    let mut k: usize = 0;
    while k < names.len()
        invariant
            ts.wf(),
            k <= names@.len(),
            all == names.deep_view(),
            missing.deep_view() =~= missing_names(all.take(k as int), ts),
            missing@.len() == 0 ==> imgs@.len() == k,
            missing@.len() == 0 ==> forall|j: int|
                0 <= j < k ==> resolves_to(ts, all[j], #[trigger] imgs@[j]),
        decreases names@.len() - k,
    {
        proof {
            assert(all.take(k + 1).drop_last() =~= all.take(k as int));
            assert(all.take(k + 1).last() == all[k as int]);
            lemma_missing_names_props(all.take(k as int), ts);
        }
        let name = &names[k];
        assert(name@ == all[k as int]);
        // The scan retrieves the index so the `Rc` handle itself can be
        // shared instead of deep-copying the image.
        let mut found: bool = false;
        let mut idx: usize = 0;
        let mut i: usize = 0;
        while i < ts.names.len()
            invariant
                ts.wf(),
                i <= ts.names@.len(),
                !found ==> forall|j: int| 0 <= j < i ==> ts.spec_names()[j] != name@,
                found ==> idx < ts.names@.len() && ts.spec_names()[idx as int] == name@ && (
                forall|j: int| 0 <= j < idx ==> ts.spec_names()[j] != name@),
                found ==> i == ts.names@.len(),
            decreases ts.names@.len() - i + (if found {
                0int
            } else {
                1int
            }),
        {
            if str_eq(ts.names[i].as_str(), name.as_str()) {
                assert(ts.spec_names()[i as int] == name@);
                found = true;
                idx = i;
                i = ts.names.len();
            } else {
                i = i + 1;
            }
        }
        if found {
            assert(ts.has_name(all[k as int]));
            let img = clone_rc(&ts.images[idx]);
            assert(resolves_to(ts, all[k as int], img));
            imgs.push(img);
        } else {
            assert(!ts.has_name(all[k as int]));
            if !vec_contains_str(&missing, name.as_str()) {
                proof {
                    lemma_missing_names_props(all.take(k as int), ts);
                    assert(!all.take(k as int).contains(all[k as int]));
                }
                missing.push(name.clone());
                assert(missing.deep_view() =~= missing_names(all.take(k + 1), ts));
            } else {
                proof {
                    lemma_missing_names_props(all.take(k as int), ts);
                    assert(all.take(k as int).contains(all[k as int]));
                }
                assert(missing.deep_view() =~= missing_names(all.take(k + 1), ts));
            }
        }
        k = k + 1;
    }
    proof {
        assert(all.take(names@.len() as int) =~= all);
    }
    if missing.len() > 0 {
        Err(missing)
    } else {
        Ok(imgs)
    }
}

/// A renderable map: one tile-kind index and one flag word per cell,
/// resolved image handles per tile kind, and the viewport state.
#[derive(Debug, Clone)]
pub struct Tilemap<Image> {
    /// Per cell, row-major: an index into `images`.
    pub tiles: Vec<usize>,
    /// Per cell, row-major: flag bits.
    pub flags: Vec<u32>,
    /// Full map dimensions, in cells.
    pub size: MapSize,
    /// Viewport dimensions, in cells; never exceeds `size`.
    pub visible_size: MapSize,
    /// Top-left cell of the viewport.
    pub offset: MapPosition,
    /// Image handles, one per tile kind.
    pub images: Vec<Rc<Image>>,
    /// Width of every tile, in pixels.
    pub tile_w: u32,
    /// Height of every tile, in pixels.
    pub tile_h: u32,
    /// Horizontal sub-tile pixel nudge.
    pub sub_x: i16,
    /// Vertical sub-tile pixel nudge.
    pub sub_y: i16,
    /// The default, safe start position on the map.
    pub default_start: MapPosition,
    /// All exits to other maps.
    pub exits: Vec<MapExit>,
}

impl<Image> Tilemap<Image> {
    /// Structural invariant: one flag word and one tile-kind index per
    /// cell, every index backed by an image, the viewport inside the
    /// map, and a nonzero tile size.
    pub open spec fn wf(&self) -> bool {
        &&& self.tiles@.len() == self.size.w * self.size.h
        &&& self.flags@.len() == self.size.w * self.size.h
        &&& self.size.w * self.size.h <= u32::MAX
        &&& forall|i: int| 0 <= i < self.tiles@.len() ==> self.tiles@[i] < self.images@.len()
        &&& self.visible_size.w <= self.size.w
        &&& self.visible_size.h <= self.size.h
        &&& self.offset.x + self.visible_size.w <= self.size.w
        &&& self.offset.y + self.visible_size.h <= self.size.h
        &&& self.tile_w > 0
        &&& self.tile_h > 0
    }

    /// Builds a map from raw per-cell arrays; each name in
    /// `tile_idx_image_name` is resolved once against the tileset, and
    /// every unresolved name is reported in one aggregated error.
    pub fn new(
        tiles: Vec<usize>,
        flags: Vec<u32>,
        size: MapSize,
        tile_idx_image_name: Vec<String>,
        tileset: Tileset<Image>,
        render_size: (u32, u32),
        default_start: MapPosition,
        exits: Vec<MapExit>,
    ) -> (r: Result<Self, GameUtilError>)
        requires
            tileset.wf(),
            tileset.spec_tilesize().0 > 0,
            tileset.spec_tilesize().1 > 0,
            tiles@.len() == size.w * size.h,
            flags@.len() == size.w * size.h,
            size.w * size.h <= u32::MAX,
            forall|i: int| 0 <= i < tiles@.len() ==> tiles@[i] < tile_idx_image_name@.len(),
        ensures
            match r {
                Ok(m) => {
                    &&& missing_names(tile_idx_image_name.deep_view(), &tileset).len() == 0
                    &&& m.wf()
                    &&& m.tiles@ == tiles@
                    &&& m.flags@ == flags@
                    &&& m.size == size
                    &&& m.images@.len() == tile_idx_image_name@.len()
                    &&& forall|k: int|
                        0 <= k < tile_idx_image_name@.len() ==> resolves_to(
                            &tileset,
                            tile_idx_image_name.deep_view()[k],
                            #[trigger] m.images@[k],
                        )
                    &&& (m.tile_w, m.tile_h) == tileset.spec_tilesize()
                    &&& m.visible_size.w == spec_min(
                        render_size.0 as int / tileset.spec_tilesize().0 as int,
                        size.w as int,
                    )
                    &&& m.visible_size.h == spec_min(
                        render_size.1 as int / tileset.spec_tilesize().1 as int,
                        size.h as int,
                    )
                    &&& m.offset == (MapPosition { x: 0, y: 0 })
                    &&& m.sub_x == 0 && m.sub_y == 0
                    &&& m.default_start == default_start
                    &&& m.exits@ == exits@
                },
                Err(e) => {
                    &&& missing_names(tile_idx_image_name.deep_view(), &tileset).len() > 0
                    &&& e matches GameUtilError::InvalidTileset(label, missing)
                    &&& e matches GameUtilError::InvalidTileset(label, missing) ==> label@
                        == "from code"@ && missing.deep_view() == missing_names(
                        tile_idx_image_name.deep_view(),
                        &tileset,
                    )
                },
            },
    {
        let images = match resolve_handles(&tileset, &tile_idx_image_name) {
            Ok(imgs) => imgs,
            Err(missing) => {
                return Err(
                    GameUtilError::InvalidTileset(String::from_str("from code"), missing),
                );
            },
        };
        let (tw, th) = tileset.tilesize();
        let mut vw = render_size.0 / tw;
        let mut vh = render_size.1 / th;
        if vw > size.w {
            vw = size.w;
        }
        if vh > size.h {
            vh = size.h;
        }
        Ok(
            Self {
                tiles,
                flags,
                size,
                visible_size: MapSize { w: vw, h: vh },
                offset: MapPosition { x: 0, y: 0 },
                images,
                tile_w: tw,
                tile_h: th,
                sub_x: 0,
                sub_y: 0,
                default_start,
                exits,
            },
        )
    }
}


/// One axis of the extra partially visible range that a sub-tile nudge
/// exposes: the pixel nudge divided by the tile size, rounded away
/// from zero.
pub open spec fn spec_subtile_extra(s: int, t: int) -> int {
    if s >= 0 {
        (s + t - 1) / t
    } else {
        s / t
    }
}

/// For a positive numerator and divisor, floor of the negated quotient
/// is the negated ceiling.
proof fn lemma_neg_div_is_neg_ceil(a: int, t: int)
    requires
        a > 0,
        t > 0,
    ensures
        (-a) / t == -((a + t - 1) / t),
{
    let q = (a + t - 1) / t;
    let r = (a + t - 1) % t;
    lemma_fundamental_div_mod(a + t - 1, t);
    lemma_mod_bound(a + t - 1, t);
    assert(-a == (-q) * t + (t - 1 - r)) by (nonlinear_arith)
        requires
            a + t - 1 == t * q + r,
    ;
    lemma_fundamental_div_mod_converse(-a, t, -q, t - 1 - r);
}

/// Computes `spec_subtile_extra` for one axis.
fn subtile_extra(s: i16, t: u32) -> (r: i32)
    requires
        t > 0,
    ensures
        r == spec_subtile_extra(s as int, t as int),
        -32768 <= r <= 32767,
{
    if s >= 0 {
        let su = s as u64;
        let tu = t as u64;
        let q = (su + tu - 1) / tu;
        proof {
            if s > 0 {
                assert(su as int + tu - 1 <= tu as int * su as int) by (nonlinear_arith)
                    requires
                        su >= 1,
                        tu >= 1,
                ;
                lemma_multiply_divide_le(su as int + tu - 1, tu as int, su as int);
            } else {
                lemma_basic_div(tu as int - 1, tu as int);
            }
            lemma_div_pos_is_pos(su as int + tu - 1, tu as int);
        }
        q as i32
    } else {
        let m = -(s as i64);
        let mu = m as u64;
        let tu = t as u64;
        let q = (mu + tu - 1) / tu;
        proof {
            lemma_neg_div_is_neg_ceil(mu as int, tu as int);
            assert(mu as int + tu - 1 <= tu as int * mu as int) by (nonlinear_arith)
                requires
                    mu >= 1,
                    tu >= 1,
            ;
            lemma_multiply_divide_le(mu as int + tu - 1, tu as int, mu as int);
            lemma_div_pos_is_pos(mu as int + tu - 1, tu as int);
        }
        -((q as i64) as i32)
    }
}

/// `a + b`, saturating at `u32::MAX`.
fn sat_add_u32u(a: u32, b: u32) -> (r: u32)
    ensures
        r == spec_sat_add(a as int, b as int),
{
    let sum = a as u64 + b as u64;
    if sum > u32::MAX as u64 {
        u32::MAX
    } else {
        sum as u32
    }
}

/// `x + d`, saturating at the `u32` bounds.
fn sat_add_u32(x: u32, d: i32) -> (r: u32)
    ensures
        r == spec_sat_add(x as int, d as int),
{
    if d >= 0 {
        let sum = x as u64 + d as u64;
        if sum > u32::MAX as u64 {
            u32::MAX
        } else {
            sum as u32
        }
    } else {
        let mag = (-(d as i64)) as u64;
        if mag > x as u64 {
            0
        } else {
            x - (mag as u32)
        }
    }
}

impl<Image> Tilemap<Image> {
    /// True if the cell lies inside the full map.
    pub open spec fn spec_inside(&self, tile: MapPosition) -> bool {
        tile.x < self.size.w && tile.y < self.size.h
    }

    /// Flag word of an in-map cell; `0` outside the map.
    pub open spec fn spec_flags_for_tile(&self, tile: MapPosition) -> u32 {
        if self.spec_inside(tile) {
            self.flags@[spec_to_idx(tile, self.size)]
        } else {
            0u32
        }
    }

    /// Pixel position of a cell's top-left corner relative to the
    /// viewport, sub-tile nudge included.
    pub open spec fn spec_px_for_tile(&self, tile: MapPosition) -> (int, int) {
        (
            self.tile_w * tile.x - self.tile_w * self.offset.x + self.sub_x,
            self.tile_h * tile.y - self.tile_h * self.offset.y + self.sub_y,
        )
    }

    /// On-screen pixel position of a cell: the nudge-free
    /// viewport-relative position, shifted once more by the sub-tile
    /// nudge.
    pub open spec fn spec_onscreen_px(&self, tile: MapPosition) -> (int, int) {
        (
            self.tile_w * tile.x - self.tile_w * self.offset.x - self.sub_x,
            self.tile_h * tile.y - self.tile_h * self.offset.y - self.sub_y,
        )
    }

    pub open spec fn spec_first_visible_tile(&self) -> MapPosition {
        MapPosition {
            x: spec_sat_add(
                self.offset.x as int,
                spec_subtile_extra(self.sub_x as int, self.tile_w as int),
            ) as u32,
            y: spec_sat_add(
                self.offset.y as int,
                spec_subtile_extra(self.sub_y as int, self.tile_h as int),
            ) as u32,
        }
    }

    pub open spec fn spec_first_fully_visible_tile(&self) -> MapPosition {
        self.offset
    }

    pub open spec fn spec_last_fully_visible_tile(&self) -> MapPosition {
        MapPosition {
            x: (self.offset.x + self.visible_size.w) as u32,
            y: (self.offset.y + self.visible_size.h) as u32,
        }
    }

    pub open spec fn spec_last_visible_tile(&self) -> MapPosition {
        MapPosition {
            x: spec_sat_add(
                self.offset.x + self.visible_size.w,
                spec_subtile_extra(self.sub_x as int, self.tile_w as int),
            ) as u32,
            y: spec_sat_add(
                self.offset.y + self.visible_size.h,
                spec_subtile_extra(self.sub_y as int, self.tile_h as int),
            ) as u32,
        }
    }

    /// Pixel coordinate for a cell relative to the current viewport and
    /// sub-tile offset; may be negative or beyond the visible area.
    pub fn px_for_tile(&self, tile: MapPosition) -> (r: (i64, i64))
        requires
            self.tile_w * tile.x <= u32::MAX,
            self.tile_w * self.offset.x <= u32::MAX,
            self.tile_h * tile.y <= u32::MAX,
            self.tile_h * self.offset.y <= u32::MAX,
        ensures
            r.0 == self.spec_px_for_tile(tile).0,
            r.1 == self.spec_px_for_tile(tile).1,
    {
        (
            (self.tile_w as i64) * (tile.x as i64) - (self.tile_w as i64) * (self.offset.x as i64)
                + (self.sub_x as i64),
            (self.tile_h as i64) * (tile.y as i64) - (self.tile_h as i64) * (self.offset.y as i64)
                + (self.sub_y as i64),
        )
    }

    /// Pixel coordinate for a cell relative to the current viewport,
    /// ignoring the sub-tile offset.
    pub fn orig_px_for_tile(&self, tile: MapPosition) -> (r: (i64, i64))
        requires
            self.tile_w * tile.x <= u32::MAX,
            self.tile_w * self.offset.x <= u32::MAX,
            self.tile_h * tile.y <= u32::MAX,
            self.tile_h * self.offset.y <= u32::MAX,
        ensures
            r.0 == self.tile_w * tile.x - self.tile_w * self.offset.x,
            r.1 == self.tile_h * tile.y - self.tile_h * self.offset.y,
    {
        (
            (self.tile_w as i64) * (tile.x as i64) - (self.tile_w as i64) * (self.offset.x as i64),
            (self.tile_h as i64) * (tile.y as i64) - (self.tile_h as i64) * (self.offset.y as i64),
        )
    }

    /// On-screen pixel coordinate for a cell: the viewport-relative
    /// position without the nudge, then shifted by the nudge — the
    /// exact position handed to the renderer during drawing.
    pub fn onscreen_px_for_tile(&self, tile: MapPosition) -> (r: (i64, i64))
        requires
            self.tile_w * tile.x <= u32::MAX,
            self.tile_w * self.offset.x <= u32::MAX,
            self.tile_h * tile.y <= u32::MAX,
            self.tile_h * self.offset.y <= u32::MAX,
        ensures
            r.0 == self.spec_onscreen_px(tile).0,
            r.1 == self.spec_onscreen_px(tile).1,
    {
        let base = self.orig_px_for_tile(tile);
        self.update_pos_with_offset(base)
    }

    /// Shifts a pixel position back by the sub-tile nudge; applied to
    /// the nudge-free viewport position, it yields the on-screen
    /// position used for drawing.
    pub fn update_pos_with_offset(&self, pos: (i64, i64)) -> (r: (i64, i64))
        requires
            i64::MIN <= pos.0 - self.sub_x <= i64::MAX,
            i64::MIN <= pos.1 - self.sub_y <= i64::MAX,
        ensures
            r.0 == pos.0 - self.sub_x,
            r.1 == pos.1 - self.sub_y,
    {
        (pos.0 - self.sub_x as i64, pos.1 - self.sub_y as i64)
    }

    /// Position of the first tile with at least one visible pixel.
    pub fn first_visible_tile(&self) -> (r: MapPosition)
        requires
            self.wf(),
        ensures
            r == self.spec_first_visible_tile(),
    {
        let ex = subtile_extra(self.sub_x, self.tile_w);
        let ey = subtile_extra(self.sub_y, self.tile_h);
        MapPosition { x: sat_add_u32(self.offset.x, ex), y: sat_add_u32(self.offset.y, ey) }
    }

    /// Position of the first fully visible tile: the viewport corner.
    pub fn first_fully_visible_tile(&self) -> (r: MapPosition)
        ensures
            r == self.spec_first_fully_visible_tile(),
    {
        self.offset
    }

    /// Position of the last tile with at least one visible pixel.
    pub fn last_visible_tile(&self) -> (r: MapPosition)
        requires
            self.wf(),
        ensures
            r == self.spec_last_visible_tile(),
    {
        let bx = self.offset.x + self.visible_size.w;
        let by = self.offset.y + self.visible_size.h;
        let ex = subtile_extra(self.sub_x, self.tile_w);
        let ey = subtile_extra(self.sub_y, self.tile_h);
        MapPosition { x: sat_add_u32(bx, ex), y: sat_add_u32(by, ey) }
    }

    /// Position one past the last fully visible tile in each axis.
    pub fn last_fully_visible_tile(&self) -> (r: MapPosition)
        requires
            self.wf(),
        ensures
            r == self.spec_last_fully_visible_tile(),
    {
        MapPosition {
            x: self.offset.x + self.visible_size.w,
            y: self.offset.y + self.visible_size.h,
        }
    }

    /// True if `tile` is inside the map.
    pub fn is_inside(&self, tile: MapPosition) -> (r: bool)
        ensures
            r == self.spec_inside(tile),
    {
        tile.x < self.size.w && tile.y < self.size.h
    }

    /// Backing-array index of an in-map cell.
    fn tile_idx(&self, tile: MapPosition) -> (r: Option<usize>)
        requires
            self.wf(),
        ensures
            match r {
                Some(i) => self.spec_inside(tile) && i == spec_to_idx(tile, self.size) && i
                    < self.flags@.len() && i < self.tiles@.len(),
                None => !self.spec_inside(tile),
            },
    {
        if tile.x < self.size.w && tile.y < self.size.h {
            proof {
                assert(tile.x + tile.y * self.size.w < self.size.w * self.size.h)
                    by (nonlinear_arith)
                    requires
                        tile.x < self.size.w,
                        tile.y < self.size.h,
                ;
            }
            Some(tile.to_idx(self.size))
        } else {
            None
        }
    }

    /// Cell position of a backing-array index.
    fn tile_pos(&self, tile: usize) -> (r: Option<MapPosition>)
        requires
            self.wf(),
        ensures
            match r {
                Some(p) => tile < self.tiles@.len() && p == spec_from_idx(tile as int, self.size),
                None => tile >= self.tiles@.len(),
            },
    {
        if tile < self.tiles.len() {
            proof {
                assert(self.size.w > 0) by (nonlinear_arith)
                    requires
                        self.size.w * self.size.h > tile as int >= 0,
                ;
            }
            Some(MapPosition::from_idx(tile, self.size))
        } else {
            None
        }
    }

    /// Moves the viewport so `pos` is as close to its center as the map
    /// bounds allow; the viewport never leaves the map.
    pub fn center_on(&mut self, pos: MapPosition)
        requires
            old(self).wf(),
        ensures
            final(self).wf(),
            final(self).offset.x == spec_min(
                spec_sat_add(pos.x as int, -((old(self).visible_size.w / 2) as int)),
                old(self).size.w - old(self).visible_size.w,
            ),
            final(self).offset.y == spec_min(
                spec_sat_add(pos.y as int, -((old(self).visible_size.h / 2) as int)),
                old(self).size.h - old(self).visible_size.h,
            ),
            final(self).offset.x + final(self).visible_size.w <= final(self).size.w,
            final(self).offset.y + final(self).visible_size.h <= final(self).size.h,
            *final(self) == (Tilemap { offset: final(self).offset, ..*old(self) }),
    {
        let half_w = self.visible_size.w / 2;
        let half_h = self.visible_size.h / 2;
        let mut ox = if pos.x >= half_w {
            pos.x - half_w
        } else {
            0
        };
        let mut oy = if pos.y >= half_h {
            pos.y - half_h
        } else {
            0
        };
        let max_x = self.size.w - self.visible_size.w;
        let max_y = self.size.h - self.visible_size.h;
        if ox > max_x {
            ox = max_x;
        }
        if oy > max_y {
            oy = max_y;
        }
        self.offset = MapPosition { x: ox, y: oy };
    }

    /// Flag word of a cell; `0` for out-of-map coordinates.
    pub fn flags_for_tile(&self, tile: MapPosition) -> (r: u32)
        requires
            self.wf(),
        ensures
            r == self.spec_flags_for_tile(tile),
    {
        if let Some(i) = self.tile_idx(tile) {
            self.flags[i]
        } else {
            0
        }
    }

    /// True if the cell holds every bit of `value`; false for
    /// out-of-map coordinates.
    pub fn tile_has_flag(&self, tile: MapPosition, value: u32) -> (r: bool)
        requires
            self.wf(),
        ensures
            r == (self.spec_inside(tile) && (value & self.spec_flags_for_tile(tile)) == value),
    {
        if let Some(i) = self.tile_idx(tile) {
            value & self.flags[i] == value
        } else {
            false
        }
    }

    /// Ors `value` into the cell's flags; out-of-map coordinates leave
    /// the map unchanged.
    pub fn set_flag(&mut self, tile: MapPosition, value: u32)
        requires
            old(self).wf(),
        ensures
            final(self).wf(),
            old(self).spec_inside(tile) ==> final(self).flags@ == old(self).flags@.update(
                spec_to_idx(tile, old(self).size),
                old(self).flags@[spec_to_idx(tile, old(self).size)] | value,
            ),
            !old(self).spec_inside(tile) ==> final(self).flags@ == old(self).flags@,
            *final(self) == (Tilemap { flags: final(self).flags, ..*old(self) }),
    {
        if let Some(i) = self.tile_idx(tile) {
            let cur = self.flags[i];
            self.flags[i] = cur | value;
        }
    }

    /// Removes the bits of `value` from the cell's flags; out-of-map
    /// coordinates leave the map unchanged.
    pub fn clear_flag(&mut self, tile: MapPosition, value: u32)
        requires
            old(self).wf(),
        ensures
            final(self).wf(),
            old(self).spec_inside(tile) ==> final(self).flags@ == old(self).flags@.update(
                spec_to_idx(tile, old(self).size),
                old(self).flags@[spec_to_idx(tile, old(self).size)] & !value,
            ),
            !old(self).spec_inside(tile) ==> final(self).flags@ == old(self).flags@,
            *final(self) == (Tilemap { flags: final(self).flags, ..*old(self) }),
    {
        if let Some(i) = self.tile_idx(tile) {
            let cur = self.flags[i];
            self.flags[i] = cur & !value;
        }
    }

    /// The default, safe start position on the map.
    pub fn default_start(&self) -> (r: MapPosition)
        ensures
            r == self.default_start,
    {
        self.default_start
    }

    /// All exits to other maps.
    pub fn exits(&self) -> (r: &Vec<MapExit>)
        ensures
            r@ == self.exits@,
    {
        &self.exits
    }

    /// The pixel size of one tile.
    pub fn tile_size(&self) -> (r: (u32, u32))
        ensures
            r == (self.tile_w, self.tile_h),
    {
        (self.tile_w, self.tile_h)
    }

    /// The full map dimensions, in cells.
    pub fn size(&self) -> (r: MapSize)
        ensures
            r == self.size,
    {
        self.size
    }

    /// Sets the pixel nudge applied when drawing, used to smooth
    /// scrolling between cell-aligned camera positions.
    pub fn set_subtile_offset(&mut self, subtile_offset: (i16, i16))
        ensures
            final(self).sub_x == subtile_offset.0,
            final(self).sub_y == subtile_offset.1,
            *final(self) == (
            Tilemap { sub_x: subtile_offset.0, sub_y: subtile_offset.1, ..*old(self) }),
    {
        self.sub_x = subtile_offset.0;
        self.sub_y = subtile_offset.1;
    }

    /// The pixel nudge applied when drawing.
    pub fn subtile_offset(&self) -> (r: (i16, i16))
        ensures
            r == (self.sub_x, self.sub_y),
    {
        (self.sub_x, self.sub_y)
    }
}

/// With no sub-tile nudge, the partially visible range equals the fully
/// visible range on both ends.
pub proof fn lemma_zero_subtile_visibility<Image>(m: &Tilemap<Image>)
    requires
        m.wf(),
        m.sub_x == 0,
        m.sub_y == 0,
    ensures
        m.spec_first_visible_tile() == m.spec_first_fully_visible_tile(),
        m.spec_last_visible_tile() == m.spec_last_fully_visible_tile(),
{
    lemma_basic_div(m.tile_w as int - 1, m.tile_w as int);
    lemma_basic_div(m.tile_h as int - 1, m.tile_h as int);
}

/// The flag algebra behind `set_flag`, `clear_flag` and
/// `tile_has_flag`: the flag test accepts exactly the words holding
/// every bit of `value`; after setting, the test holds; after clearing
/// `value` from a word that held exactly `value`, the test fails for
/// nonzero `value`.
pub proof fn lemma_flag_semantics(flags: u32, value: u32)
    ensures
        ((value & flags) == value) == ((flags & value) == value),
        (value & (flags | value)) == value,
        value != 0 ==> (value & (value & !value)) != value,
{
    assert(((value & flags) == value) == ((flags & value) == value)) by (bit_vector);
    assert((value & (flags | value)) == value) by (bit_vector);
    assert(value & (value & !value) == 0) by (bit_vector);
}

/// For an in-map cell, the flag test holds exactly when the cell's
/// flag word contains every bit of `value`.
pub proof fn lemma_has_flag_iff<Image>(m: &Tilemap<Image>, tile: MapPosition, value: u32)
    requires
        m.spec_inside(tile),
    ensures
        (m.spec_inside(tile) && (value & m.spec_flags_for_tile(tile)) == value) == (
        m.spec_flags_for_tile(tile) & value == value),
{
    lemma_flag_semantics(m.spec_flags_for_tile(tile), value);
}


/// Positions of the cells whose flags contain every bit of `flag`, in
/// row-major index order.
pub open spec fn spec_tiles_with_flag(flags: Seq<u32>, size: MapSize, flag: u32) -> Seq<
    MapPosition,
>
    decreases flags.len(),
{
    if flags.len() == 0 {
        Seq::empty()
    } else {
        let prefix = spec_tiles_with_flag(flags.drop_last(), size, flag);
        if flags.last() & flag == flag {
            prefix.push(spec_from_idx(flags.len() - 1, size))
        } else {
            prefix
        }
    }
}

/// The consumer of `Tilemap::draw`: it receives one call per visible,
/// in-map cell with the cell's image handle and on-screen pixel
/// position, and is responsible for culling and blitting.
pub trait TileRenderer<Image> {
    fn render(&mut self, image: &Rc<Image>, px: (i64, i64));
}

impl<Image> Tilemap<Image> {
    /// Positions of every cell whose flags contain all bits of `flag`,
    /// in row-major order.
    pub fn all_tiles_with_flag(&self, flag: u32) -> (r: Vec<MapPosition>)
        requires
            self.wf(),
        ensures
            r@ == spec_tiles_with_flag(self.flags@, self.size, flag),
    {
        let mut r: Vec<MapPosition> = Vec::new();
        let mut i: usize = 0;
        while i < self.flags.len()
            invariant
                self.wf(),
                i <= self.flags@.len(),
                r@ =~= spec_tiles_with_flag(self.flags@.take(i as int), self.size, flag),
            decreases self.flags@.len() - i,
        {
            proof {
                assert(self.flags@.take(i + 1).drop_last() =~= self.flags@.take(i as int));
                assert(self.flags@.take(i + 1).last() == self.flags@[i as int]);
                assert(self.size.w > 0) by (nonlinear_arith)
                    requires
                        self.size.w * self.size.h > i as int >= 0,
                ;
            }
            if self.flags[i] & flag == flag {
                r.push(MapPosition::from_idx(i, self.size));
            }
            i = i + 1;
        }
        proof {
            assert(self.flags@.take(self.flags@.len() as int) =~= self.flags@);
        }
        r
    }

    /// What the draw scan hands the renderer at step `j` (columns
    /// outer, rows inner): the cell's image index and on-screen pixel
    /// position, or nothing when the cell's index falls outside the
    /// backing arrays.
    pub open spec fn spec_draw_cell(&self, j: int) -> Option<(usize, (i64, i64))> {
        let vh = self.visible_size.h as int;
        let ax = spec_sat_add(j / vh, self.offset.x as int);
        let ay = spec_sat_add(j % vh, self.offset.y as int);
        let idx = ax + ay * self.size.w;
        let pos = MapPosition { x: ax as u32, y: ay as u32 };
        if idx < self.tiles@.len() && self.tiles@[idx] < self.images@.len() {
            Some(
                (
                    self.tiles@[idx],
                    (self.spec_onscreen_px(pos).0 as i64, self.spec_onscreen_px(pos).1 as i64),
                ),
            )
        } else {
            None
        }
    }

    /// The renderer calls of the first `k` steps of the draw scan, in
    /// order.
    pub open spec fn spec_draw_list(&self, k: int) -> Seq<(usize, (i64, i64))>
        decreases k,
    {
        if k <= 0 {
            Seq::empty()
        } else {
            self.spec_draw_list(k - 1) + match self.spec_draw_cell(k - 1) {
                Some(e) => seq![e],
                None => Seq::empty(),
            }
        }
    }

    /// The image index and on-screen pixel position of every viewport
    /// cell whose backing-array index is in range, in scan order
    /// (columns outer, rows inner). This is exactly what `draw` hands
    /// the renderer. The two bounds keep the pixel arithmetic inside
    /// the machine range the tile engine works in.
    #[verifier::rlimit(60)]
    pub fn draw_list(&self) -> (r: Vec<(usize, (i64, i64))>)
        requires
            self.tile_w * spec_sat_add(self.offset.x as int, self.visible_size.w as int)
                <= u32::MAX,
            self.tile_h * spec_sat_add(self.offset.y as int, self.visible_size.h as int)
                <= u32::MAX,
        ensures
            r@ == self.spec_draw_list(self.visible_size.w * self.visible_size.h),
            forall|k: int| 0 <= k < r@.len() ==> (#[trigger] r@[k]).0 < self.images@.len(),
    {
        let vw = self.visible_size.w;
        let vh = self.visible_size.h;
        let mut out: Vec<(usize, (i64, i64))> = Vec::new();
        let mut x: u32 = 0;
        while x < vw
            invariant
                vw == self.visible_size.w,
                vh == self.visible_size.h,
                self.tile_w * spec_sat_add(self.offset.x as int, self.visible_size.w as int)
                    <= u32::MAX,
                self.tile_h * spec_sat_add(self.offset.y as int, self.visible_size.h as int)
                    <= u32::MAX,
                x <= vw,
                out@ == self.spec_draw_list(x * vh),
                forall|k: int| 0 <= k < out@.len() ==> (#[trigger] out@[k]).0 < self.images@.len(),
            decreases vw - x,
        {
            let mut y: u32 = 0;
            proof {
                assert(x * vh + vh == (x + 1) * vh) by (nonlinear_arith);
                assert(0 <= x * vh) by (nonlinear_arith);
            }
            while y < vh
                invariant
                    vw == self.visible_size.w,
                    vh == self.visible_size.h,
                    self.tile_w * spec_sat_add(self.offset.x as int, self.visible_size.w as int)
                        <= u32::MAX,
                    self.tile_h * spec_sat_add(self.offset.y as int, self.visible_size.h as int)
                        <= u32::MAX,
                    x < vw,
                    y <= vh,
                    out@ == self.spec_draw_list(x * vh + y),
                    forall|k: int|
                        0 <= k < out@.len() ==> (#[trigger] out@[k]).0 < self.images@.len(),
                decreases vh - y,
            {
                let ghost j = x as int * vh as int + y as int;
                proof {
                    lemma_fundamental_div_mod_converse(j, vh as int, x as int, y as int);
                }
                let ax = sat_add_u32u(x, self.offset.x);
                let ay = sat_add_u32u(y, self.offset.y);
                proof {
                    assert(0 <= ay as int * self.size.w as int && ax as int + ay as int
                        * self.size.w as int <= 0xFFFF_FFFF_FFFF_FFFFu64) by (nonlinear_arith)
                        requires
                            0 <= ax as int <= 0xFFFF_FFFF,
                            0 <= ay as int <= 0xFFFF_FFFF,
                            0 <= self.size.w as int <= 0xFFFF_FFFF,
                    ;
                }
                let idx64 = ax as u64 + (ay as u64) * (self.size.w as u64);
                if idx64 < self.tiles.len() as u64 {
                    let i = idx64 as usize;
                    let t = self.tiles[i];
                    if t < self.images.len() {
                        proof {
                            assert(ax as int <= spec_sat_add(
                                self.offset.x as int,
                                self.visible_size.w as int,
                            ));
                            assert(ay as int <= spec_sat_add(
                                self.offset.y as int,
                                self.visible_size.h as int,
                            ));
                            assert(0 <= self.tile_w * ax <= u32::MAX && 0 <= self.tile_w
                                * self.offset.x <= u32::MAX) by (nonlinear_arith)
                                requires
                                    0 <= self.offset.x as int <= ax as int || (0
                                        <= self.offset.x as int && 0 <= ax as int),
                                    ax as int <= spec_sat_add(
                                        self.offset.x as int,
                                        self.visible_size.w as int,
                                    ),
                                    self.offset.x as int <= spec_sat_add(
                                        self.offset.x as int,
                                        self.visible_size.w as int,
                                    ),
                                    self.tile_w * spec_sat_add(
                                        self.offset.x as int,
                                        self.visible_size.w as int,
                                    ) <= u32::MAX,
                                    0 <= self.tile_w,
                            ;
                            assert(0 <= self.tile_h * ay <= u32::MAX && 0 <= self.tile_h
                                * self.offset.y <= u32::MAX) by (nonlinear_arith)
                                requires
                                    0 <= self.offset.y as int && 0 <= ay as int,
                                    ay as int <= spec_sat_add(
                                        self.offset.y as int,
                                        self.visible_size.h as int,
                                    ),
                                    self.offset.y as int <= spec_sat_add(
                                        self.offset.y as int,
                                        self.visible_size.h as int,
                                    ),
                                    self.tile_h * spec_sat_add(
                                        self.offset.y as int,
                                        self.visible_size.h as int,
                                    ) <= u32::MAX,
                                    0 <= self.tile_h,
                            ;
                        }
                        let pos = MapPosition::new(ax, ay);
                        let px = self.onscreen_px_for_tile(pos);
                        out.push((t, px));
                        proof {
                            assert(self.spec_draw_cell(j) == Some((t, px)));
                            assert(out@ =~= self.spec_draw_list(j + 1));
                        }
                    } else {
                        proof {
                            assert(self.spec_draw_cell(j) is None);
                            assert(out@ =~= self.spec_draw_list(j + 1));
                        }
                    }
                } else {
                    proof {
                        assert(self.spec_draw_cell(j) is None);
                        assert(out@ =~= self.spec_draw_list(j + 1));
                    }
                }
                y = y + 1;
            }
            x = x + 1;
        }
        proof {
            assert(out@ == self.spec_draw_list(
                self.visible_size.w * self.visible_size.h,
            ));
        }
        out
    }

    /// Calls `render` once per entry of `draw_list`, in order: one call
    /// for every viewport cell whose backing-array index is in range
    /// (out-of-range cells of a hand-built map are skipped, never a
    /// panic), with the cell's image handle and its on-screen pixel
    /// position — the nudge-free viewport position shifted by the
    /// sub-tile nudge.
    pub fn draw<R: TileRenderer<Image>>(&self, render: &mut R)
        requires
            self.tile_w * spec_sat_add(self.offset.x as int, self.visible_size.w as int)
                <= u32::MAX,
            self.tile_h * spec_sat_add(self.offset.y as int, self.visible_size.h as int)
                <= u32::MAX,
    {
        let list = self.draw_list();
        let mut k: usize = 0;
        while k < list.len()
            invariant
                forall|k2: int|
                    0 <= k2 < list@.len() ==> (#[trigger] list@[k2]).0 < self.images@.len(),
            decreases list@.len() - k,
        {
            let e = &list[k];
            render.render(&self.images[e.0], e.1);
            k = k + 1;
        }
    }
}


/// Pointwise description of the nested view of a cell grid.
proof fn lemma_grid_deep_view(map: &Vec<Vec<u16>>)
    ensures
        map.deep_view().len() == map@.len(),
        forall|r: int| 0 <= r < map@.len() ==> #[trigger] map.deep_view()[r] == map@[r]@,
{
    assert forall|r: int| 0 <= r < map@.len() implies #[trigger] map.deep_view()[r]
        == map@[r]@ by {
        assert(map@[r].deep_view() =~= map@[r]@);
    }
}

/// The tile-kind names referenced by a descriptor catalogue, in order.
pub open spec fn descriptor_names(tiles: Seq<crate::file::TileDescriptor>) -> Seq<Seq<char>> {
    tiles.map_values(|d: crate::file::TileDescriptor| d.image@)
}

/// A cell grid is drawable when it has at least one row, rows have at
/// least one cell, and every row has the same width.
pub open spec fn grid_ok(map: Seq<Seq<u16>>) -> bool {
    &&& map.len() > 0
    &&& map[0].len() > 0
    &&& forall|r: int| 0 <= r < map.len() ==> #[trigger] map[r].len() == map[0].len()
}

impl TilemapFile {
    /// Binds this descriptor against a tileset: every tile kind is
    /// resolved to an image once, per-cell flags come from the kind
    /// catalogue, and the viewport is sized from the given pixel area.
    /// All unresolved names are reported in one aggregated error; an
    /// empty or ragged grid is rejected.
    pub fn into_tilemap<Image>(self, tileset: &Tileset<Image>, visible_area_px: (u32, u32)) -> (r:
        Result<Tilemap<Image>, GameUtilError>)
        requires
            tileset.wf(),
            tileset.spec_tilesize().0 > 0,
            tileset.spec_tilesize().1 > 0,
            forall|ri: int, ci: int|
                0 <= ri < self.map@.len() && 0 <= ci < self.map@[ri]@.len()
                    ==> self.map@[ri]@[ci] < self.tiles@.len(),
            self.map@.len() <= u32::MAX,
            self.map@.len() > 0 ==> self.map@[0]@.len() <= u32::MAX,
            self.map@.len() > 0 ==> self.map@.len() * self.map@[0]@.len() <= u32::MAX,
        ensures
            match r {
                Ok(m) => {
                    let dm = self.map.deep_view();
                    let w = dm[0].len() as int;
                    &&& missing_names(descriptor_names(self.tiles@), tileset).len() == 0
                    &&& grid_ok(dm)
                    &&& m.wf()
                    &&& m.size == (MapSize { w: dm[0].len() as u32, h: dm.len() as u32 })
                    &&& m.tiles@.len() == dm.len() * w
                    &&& m.flags@.len() == dm.len() * w
                    &&& forall|i: int|
                        0 <= i < m.tiles@.len() ==> m.tiles@[i] == dm[i / w][i % w] as usize
                    &&& forall|i: int|
                        0 <= i < m.flags@.len() ==> m.flags@[i] == self.tiles@[m.tiles@[i] as int].flags
                    &&& m.images@.len() == self.tiles@.len()
                    &&& forall|k: int|
                        0 <= k < self.tiles@.len() ==> resolves_to(
                            tileset,
                            descriptor_names(self.tiles@)[k],
                            #[trigger] m.images@[k],
                        )
                    &&& (m.tile_w, m.tile_h) == tileset.spec_tilesize()
                    &&& m.visible_size.w == spec_min(
                        visible_area_px.0 as int / tileset.spec_tilesize().0 as int,
                        m.size.w as int,
                    )
                    &&& m.visible_size.h == spec_min(
                        visible_area_px.1 as int / tileset.spec_tilesize().1 as int,
                        m.size.h as int,
                    )
                    &&& m.offset == (MapPosition { x: 0, y: 0 })
                    &&& m.sub_x == 0 && m.sub_y == 0
                    &&& m.default_start == (MapPosition {
                        x: self.data.start.0,
                        y: self.data.start.1,
                    })
                    &&& m.exits@.len() == self.data.exits@.len()
                    &&& forall|e: int|
                        0 <= e < m.exits@.len() ==> {
                            let src = self.data.exits@[e];
                            &&& (#[trigger] m.exits@[e]).position == (MapPosition {
                                x: src.0,
                                y: src.1,
                            })
                            &&& m.exits@[e].target_map@ == src.2@
                            &&& m.exits@[e].target_pos == (MapPosition { x: src.3, y: src.4 })
                        }
                },
                Err(e) => {
                    &&& missing_names(descriptor_names(self.tiles@), tileset).len() > 0 || !grid_ok(
                        self.map.deep_view(),
                    )
                    &&& missing_names(descriptor_names(self.tiles@), tileset).len() > 0 ==> {
                        &&& e matches GameUtilError::InvalidTileset(label, missing)
                        &&& e matches GameUtilError::InvalidTileset(label, missing) ==> label@
                            == self.name@ && missing.deep_view() == missing_names(
                            descriptor_names(self.tiles@),
                            tileset,
                        )
                    }
                    &&& missing_names(descriptor_names(self.tiles@), tileset).len() == 0 ==> e
                        == GameUtilError::MalformedGrid
                },
            },
    {
        let ghost dm = self.map.deep_view();
        proof {
            lemma_grid_deep_view(&self.map);
        }
        // Resolve every tile kind against the tileset first, as the
        // aggregated missing-name error takes precedence.
        let mut names: Vec<String> = Vec::new();
        let mut kind_flags: Vec<u32> = Vec::new();
        let mut k: usize = 0;
        while k < self.tiles.len()
            invariant
                k <= self.tiles@.len(),
                names@.len() == k,
                kind_flags@.len() == k,
                forall|j: int| 0 <= j < k ==> (#[trigger] names@[j])@ == self.tiles@[j].image@,
                forall|j: int| 0 <= j < k ==> #[trigger] kind_flags@[j] == self.tiles@[j].flags,
            decreases self.tiles@.len() - k,
        {
            names.push(self.tiles[k].image.clone());
            kind_flags.push(self.tiles[k].flags);
            k = k + 1;
        }
        proof {
            assert forall|j: int| 0 <= j < names@.len() implies #[trigger] names.deep_view()[j]
                == descriptor_names(self.tiles@)[j] by {
                assert(names.deep_view()[j] == names@[j]@);
            }
            assert(names.deep_view() =~= descriptor_names(self.tiles@));
        }
        let images = match resolve_handles(tileset, &names) {
            Ok(imgs) => imgs,
            Err(missing) => {
                return Err(GameUtilError::InvalidTileset(self.name, missing));
            },
        };
        assert(missing_names(descriptor_names(self.tiles@), tileset).len() == 0);
        // Reject an empty or ragged grid before touching any row.
        if self.map.len() == 0 {
            assert(!grid_ok(dm));
            return Err(GameUtilError::MalformedGrid);
        }
        let w = self.map[0].len();
        if w == 0 {
            assert(dm[0].len() == 0);
            assert(!grid_ok(dm));
            return Err(GameUtilError::MalformedGrid);
        }
        let mut ri: usize = 1;
        while ri < self.map.len()
            invariant
                missing_names(descriptor_names(self.tiles@), tileset).len() == 0,
                1 <= ri <= self.map@.len(),
                w == dm[0].len(),
                dm == self.map.deep_view(),
                dm.len() == self.map@.len(),
                forall|j: int| 0 <= j < self.map@.len() ==> #[trigger] dm[j] == self.map@[j]@,
                forall|j: int| 0 <= j < ri ==> #[trigger] dm[j].len() == w,
            decreases self.map@.len() - ri,
        {
            if self.map[ri].len() != w {
                assert(dm[ri as int].len() != dm[0].len());
                assert(!grid_ok(dm));
                return Err(GameUtilError::MalformedGrid);
            }
            ri = ri + 1;
        }
        assert(grid_ok(dm));
        let h = self.map.len();
        // Flatten the grid row-major: per cell, the kind index and the
        // kind's flag word.
        let mut tiles_v: Vec<usize> = Vec::new();
        let mut flags_v: Vec<u32> = Vec::new();
        let mut rr: usize = 0;
        while rr < h
            invariant
                rr <= h,
                h == dm.len(),
                dm == self.map.deep_view(),
                dm.len() == self.map@.len(),
                forall|j: int| 0 <= j < self.map@.len() ==> #[trigger] dm[j] == self.map@[j]@,
                grid_ok(dm),
                w == dm[0].len(),
                h * w <= u32::MAX,
                forall|ri2: int, ci: int|
                    0 <= ri2 < dm.len() && 0 <= ci < dm[ri2].len() ==> dm[ri2][ci]
                        < self.tiles@.len(),
                kind_flags@.len() == self.tiles@.len(),
                forall|j: int|
                    0 <= j < kind_flags@.len() ==> kind_flags@[j] == self.tiles@[j].flags,
                tiles_v@.len() == rr * w,
                flags_v@.len() == rr * w,
                forall|i: int|
                    0 <= i < tiles_v@.len() ==> #[trigger] tiles_v@[i] == dm[i / (w as int)][i % (
                    w as int)] as usize,
                forall|i: int|
                    0 <= i < tiles_v@.len() ==> tiles_v@[i] < self.tiles@.len(),
                forall|i: int|
                    0 <= i < flags_v@.len() ==> #[trigger] flags_v@[i] == self.tiles@[tiles_v@[i] as int].flags,
            decreases h - rr,
        {
            let mut cc: usize = 0;
            proof {
                assert(rr * w + w == (rr + 1) * w) by (nonlinear_arith);
                assert((rr + 1) * w <= h * w) by (nonlinear_arith)
                    requires
                        rr + 1 <= h,
                        w >= 0,
                ;
            }
            while cc < w
                invariant
                    cc <= w,
                    rr < h,
                    h == dm.len(),
                    dm == self.map.deep_view(),
                    dm.len() == self.map@.len(),
                    forall|j: int| 0 <= j < self.map@.len() ==> #[trigger] dm[j] == self.map@[j]@,
                    grid_ok(dm),
                    w == dm[0].len(),
                    h * w <= u32::MAX,
                    rr * w + w <= h * w,
                    forall|ri2: int, ci: int|
                        0 <= ri2 < dm.len() && 0 <= ci < dm[ri2].len() ==> dm[ri2][ci]
                            < self.tiles@.len(),
                    kind_flags@.len() == self.tiles@.len(),
                    forall|j: int|
                        0 <= j < kind_flags@.len() ==> kind_flags@[j] == self.tiles@[j].flags,
                    tiles_v@.len() == rr * w + cc,
                    flags_v@.len() == rr * w + cc,
                    forall|i: int|
                        0 <= i < tiles_v@.len() ==> #[trigger] tiles_v@[i] == dm[i / (w as int)][i
                            % (w as int)] as usize,
                    forall|i: int|
                        0 <= i < tiles_v@.len() ==> tiles_v@[i] < self.tiles@.len(),
                    forall|i: int|
                        0 <= i < flags_v@.len() ==> #[trigger] flags_v@[i] == self.tiles@[tiles_v@[i] as int].flags,
                decreases w - cc,
            {
                proof {
                    assert(dm[rr as int] == self.map@[rr as int]@);
                    assert(dm[rr as int].len() == w);
                }
                let cell = self.map[rr][cc];
                let kind = cell as usize;
                assert(dm[rr as int][cc as int] == cell);
                tiles_v.push(kind);
                flags_v.push(kind_flags[kind]);
                proof {
                    let i = rr * w + cc;
                    lemma_fundamental_div_mod_converse(
                        i as int,
                        w as int,
                        rr as int,
                        cc as int,
                    );
                    assert(tiles_v@[i as int] == dm[i as int / (w as int)][i as int % (
                    w as int)] as usize);
                }
                cc = cc + 1;
            }
            rr = rr + 1;
        }
        let w32 = w as u32;
        let h32 = h as u32;
        let size = MapSize { w: w32, h: h32 };
        let (tw, th) = tileset.tilesize();
        let mut vw = visible_area_px.0 / tw;
        let mut vh = visible_area_px.1 / th;
        if vw > w32 {
            vw = w32;
        }
        if vh > h32 {
            vh = h32;
        }
        // Exit records convert from their 5-tuple file form.
        let mut exits_v: Vec<MapExit> = Vec::new();
        let mut ei: usize = 0;
        while ei < self.data.exits.len()
            invariant
                ei <= self.data.exits@.len(),
                exits_v@.len() == ei,
                forall|e: int|
                    0 <= e < ei ==> {
                        let src = self.data.exits@[e];
                        &&& (#[trigger] exits_v@[e]).position == (MapPosition {
                            x: src.0,
                            y: src.1,
                        })
                        &&& exits_v@[e].target_map@ == src.2@
                        &&& exits_v@[e].target_pos == (MapPosition { x: src.3, y: src.4 })
                    },
            decreases self.data.exits@.len() - ei,
        {
            let e = &self.data.exits[ei];
            exits_v.push(MapExit::from_file((e.0, e.1, e.2.clone(), e.3, e.4)));
            ei = ei + 1;
        }
        proof {
            assert(h as int * w as int == size.w * size.h) by (nonlinear_arith)
                requires
                    w == size.w as int,
                    h == size.h as int,
            ;
        }
        Ok(
            Tilemap {
                tiles: tiles_v,
                flags: flags_v,
                size,
                visible_size: MapSize { w: vw, h: vh },
                offset: MapPosition { x: 0, y: 0 },
                images,
                tile_w: tw,
                tile_h: th,
                sub_x: 0,
                sub_y: 0,
                default_start: MapPosition { x: self.data.start.0, y: self.data.start.1 },
                exits: exits_v,
            },
        )
    }
}

} // verus!
