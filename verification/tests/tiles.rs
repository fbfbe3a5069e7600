use std::rc::Rc;

use simple_game_utils::codec::{from_text, to_text};
use simple_game_utils::error::GameUtilError;
use simple_game_utils::file::{MapExit, TileDescriptor, TilemapDataDescriptor, TilemapFile};
use simple_game_utils::tilemap::{TileRenderer, Tilemap};
use simple_game_utils::tileset::Tileset;
use simple_game_utils::units::{MapPosition, MapSize};

fn simple_tileset() -> Tileset<&'static str> {
    Tileset::new(vec![Rc::new("img")], vec!["img".to_string()], (16, 16))
}

fn sample_file() -> TilemapFile {
    TilemapFile {
        name: "Desert Temple".to_string(),
        tileset: "desert".to_string(),
        flags: vec![(1, "wall".to_string()), (2, "trap".to_string())],
        tiles: vec![
            TileDescriptor {
                image: "sand".to_string(),
                flags: 0,
            },
            TileDescriptor {
                image: "temple_floor".to_string(),
                flags: 0,
            },
            TileDescriptor {
                image: "temple_wall".to_string(),
                flags: 1,
            },
        ],
        map: vec![
            vec![2, 2, 2, 2],
            vec![2, 0, 0, 2],
            vec![2, 0, 0, 2],
            vec![2, 1, 2, 2],
        ],
        data: TilemapDataDescriptor {
            start: (1, 2),
            exits: vec![(1, 3, "desert".to_string(), 4, 5)],
        },
    }
}

fn desert_tileset() -> Tileset<&'static str> {
    Tileset::new(
        vec![Rc::new("sand"), Rc::new("temple_floor"), Rc::new("temple_wall")],
        vec![
            "sand".to_string(),
            "temple_floor".to_string(),
            "temple_wall".to_string(),
        ],
        (16, 16),
    )
}

#[test]
fn macros() {
    let _u64s: MapSize = (12_u64, 12_u64).into();
    let _u64p: MapPosition = (12_u64, 12_u64).into();

    assert_eq!(MapSize::new(12, 12), _u64s);
    assert_eq!(MapPosition::new(12, 12), _u64p);
}

#[test]
fn indexing() {
    let size1 = MapSize::new(4, 4);
    let size2 = MapSize::new(8, 4);

    let pos1 = MapPosition::new(1, 1);

    assert_eq!(pos1.to_idx(size1), 5);
    assert_eq!(pos1.to_idx(size2), 9);
    assert_eq!(MapPosition::from_idx(15, size1), MapPosition::new(3, 3));
    assert_eq!(MapPosition::from_idx(15, size2), MapPosition::new(7, 1));
}

#[test]
fn init() {
    let tileset = simple_tileset();
    let idx_map = vec!["img".to_string()];
    let tilemap = Tilemap::new(
        vec![0; 400],
        vec![0; 400],
        MapSize::new(20, 20),
        idx_map,
        tileset,
        (300, 200),
        MapPosition::new(0, 0),
        vec![],
    )
    .unwrap();

    assert_eq!(tilemap.offset, MapPosition::new(0, 0));
    assert_eq!(tilemap.visible_size, MapSize::new(18, 12));
    assert_eq!(tilemap.onscreen_px_for_tile(MapPosition::new(0, 0)), (0, 0));
    assert_eq!(tilemap.onscreen_px_for_tile(MapPosition::new(4, 4)), (64, 64));
    assert_eq!(tilemap.first_visible_tile(), MapPosition::new(0, 0));
}

#[test]
fn offset() {
    let tileset = simple_tileset();
    let idx_map = vec!["img".to_string()];
    let mut tilemap = Tilemap::new(
        vec![0; 400],
        vec![0; 400],
        MapSize::new(20, 20),
        idx_map,
        tileset,
        (300, 200),
        MapPosition::new(0, 0),
        vec![],
    )
    .unwrap();
    tilemap.center_on(MapPosition::new(10, 6));

    assert_eq!(tilemap.offset, MapPosition::new(1, 0));
    assert_eq!(tilemap.visible_size, MapSize::new(18, 12));
    assert_eq!(tilemap.onscreen_px_for_tile(MapPosition::new(0, 0)), (-16, 0));
    assert_eq!(tilemap.onscreen_px_for_tile(MapPosition::new(4, 4)), (48, 64));
    assert_eq!(tilemap.first_visible_tile(), MapPosition::new(1, 0));
}

#[allow(non_snake_case)]
#[test]
fn flags() {
    let tileset = simple_tileset();
    let idx_map = vec!["img".to_string()];
    let FLAG_WALL = 0b0001;
    let FLAG_TRAP = 0b0010;
    let mut flags = vec![0; 20];
    flags[1] = FLAG_WALL;
    flags[2] = FLAG_WALL;
    flags[5] = FLAG_TRAP;
    let mut tilemap = Tilemap::new(
        vec![0; 20],
        flags,
        MapSize::new(4, 5),
        idx_map,
        tileset,
        (300, 200),
        MapPosition::new(0, 0),
        vec![],
    )
    .unwrap();
    tilemap.set_flag(MapPosition::new(3, 3), FLAG_WALL);
    tilemap.clear_flag(MapPosition::new(2, 0), FLAG_WALL);
    assert!(tilemap.tile_has_flag(MapPosition::new(1, 0), FLAG_WALL));
    assert!(!tilemap.tile_has_flag(MapPosition::new(1, 0), FLAG_TRAP));
    assert_eq!(tilemap.flags_for_tile(MapPosition::new(1, 0)), FLAG_WALL);
    assert_eq!(tilemap.flags_for_tile(MapPosition::new(3, 0)), 0);
    assert_eq!(
        tilemap.all_tiles_with_flag(FLAG_WALL),
        vec![MapPosition::new(1, 0), MapPosition::new(3, 3)]
    );
}

#[test]
fn flag_lifecycle() {
    let tileset = simple_tileset();
    let mut tilemap = Tilemap::new(
        vec![0; 16],
        vec![0; 16],
        MapSize::new(4, 4),
        vec!["img".to_string()],
        tileset,
        (300, 200),
        MapPosition::new(0, 0),
        vec![],
    )
    .unwrap();
    let pos = MapPosition::new(2, 1);
    let v = 0b100;
    assert!(!tilemap.tile_has_flag(pos, v));
    tilemap.set_flag(pos, v);
    assert!(tilemap.tile_has_flag(pos, v));
    assert_eq!(tilemap.flags_for_tile(pos) & v, v);
    tilemap.clear_flag(pos, v);
    assert!(!tilemap.tile_has_flag(pos, v));
    // Out-of-map coordinates read as empty and ignore writes.
    let outside = MapPosition::new(9, 9);
    assert_eq!(tilemap.flags_for_tile(outside), 0);
    tilemap.set_flag(outside, v);
    assert!(!tilemap.tile_has_flag(outside, v));
}

#[test]
fn center_clamps_to_map() {
    let tileset = simple_tileset();
    let mut tilemap = Tilemap::new(
        vec![0; 400],
        vec![0; 400],
        MapSize::new(20, 20),
        vec!["img".to_string()],
        tileset,
        (300, 200),
        MapPosition::new(0, 0),
        vec![],
    )
    .unwrap();
    tilemap.center_on(MapPosition::new(19, 19));
    assert_eq!(tilemap.offset, MapPosition::new(2, 8));
    assert!(tilemap.offset.x + tilemap.visible_size.w <= tilemap.size.w);
    assert!(tilemap.offset.y + tilemap.visible_size.h <= tilemap.size.h);
    tilemap.center_on(MapPosition::new(0, 0));
    assert_eq!(tilemap.offset, MapPosition::new(0, 0));
}

#[test]
fn subtile_visibility() {
    let tileset = simple_tileset();
    let mut tilemap = Tilemap::new(
        vec![0; 400],
        vec![0; 400],
        MapSize::new(20, 20),
        vec!["img".to_string()],
        tileset,
        (300, 200),
        MapPosition::new(0, 0),
        vec![],
    )
    .unwrap();
    tilemap.center_on(MapPosition::new(10, 8));
    assert_eq!(tilemap.offset, MapPosition::new(1, 2));
    // No nudge: partially visible range equals the fully visible one.
    assert_eq!(
        tilemap.first_visible_tile(),
        tilemap.first_fully_visible_tile()
    );
    assert_eq!(
        tilemap.last_visible_tile(),
        tilemap.last_fully_visible_tile()
    );
    // A positive nudge exposes one more column on the right; a negative
    // one, one more row above.
    tilemap.set_subtile_offset((8, -8));
    assert_eq!(tilemap.subtile_offset(), (8, -8));
    // The plain pixel position carries the nudge forward; the on-screen
    // position applies it the other way.
    assert_eq!(tilemap.px_for_tile(MapPosition::new(1, 2)), (8, -8));
    assert_eq!(tilemap.onscreen_px_for_tile(MapPosition::new(1, 2)), (-8, 8));
    assert_eq!(tilemap.first_visible_tile(), MapPosition::new(2, 1));
    assert_eq!(tilemap.last_visible_tile(), MapPosition::new(20, 13));
    assert_eq!(tilemap.first_fully_visible_tile(), MapPosition::new(1, 2));
    assert_eq!(tilemap.last_fully_visible_tile(), MapPosition::new(19, 14));
}

struct CollectingRenderer {
    calls: Vec<(&'static str, (i64, i64))>,
}

impl TileRenderer<&'static str> for CollectingRenderer {
    fn render(&mut self, image: &Rc<&'static str>, px: (i64, i64)) {
        self.calls.push((**image, px));
    }
}

#[test]
fn draw_visits_viewport() {
    let tileset = simple_tileset();
    let mut tilemap = Tilemap::new(
        vec![0; 400],
        vec![0; 400],
        MapSize::new(20, 20),
        vec!["img".to_string()],
        tileset,
        (300, 200),
        MapPosition::new(0, 0),
        vec![],
    )
    .unwrap();
    tilemap.center_on(MapPosition::new(10, 6));
    tilemap.set_subtile_offset((3, 0));
    let mut sink = CollectingRenderer { calls: vec![] };
    tilemap.draw(&mut sink);
    assert_eq!(sink.calls.len(), 18 * 12);
    // The first visited cell is the viewport corner; its on-screen
    // position is the nudge-free position shifted by the nudge.
    assert_eq!(sink.calls[0].0, "img");
    assert_eq!(sink.calls[0].1, (-3, 0));
    assert_eq!(sink.calls[12].1, (13, 0));
    assert_eq!(
        sink.calls[0].1,
        tilemap.onscreen_px_for_tile(tilemap.first_fully_visible_tile())
    );
    // Without a nudge the corner lands exactly on screen origin.
    tilemap.set_subtile_offset((0, 0));
    let mut plain = CollectingRenderer { calls: vec![] };
    tilemap.draw(&mut plain);
    assert_eq!(plain.calls[0].1, (0, 0));
}

#[test]
fn legend_keys_checked() {
    let file = sample_file();
    assert!(file.legend_unique());
    let mut dup = sample_file();
    dup.flags.push((1, "door".to_string()));
    assert!(!dup.legend_unique());
}

#[test]
fn into_tilemap_binds_descriptor() {
    let file = sample_file();
    let tilemap: Tilemap<&'static str> = file.into_tilemap(&desert_tileset(), (300, 200)).unwrap();
    assert_eq!(tilemap.size(), MapSize::new(4, 4));
    assert_eq!(tilemap.visible_size, MapSize::new(4, 4));
    assert_eq!(tilemap.offset, MapPosition::new(0, 0));
    assert_eq!(tilemap.tile_size(), (16, 16));
    assert_eq!(tilemap.default_start(), MapPosition::new(1, 2));
    assert_eq!(
        tilemap.exits(),
        &vec![MapExit {
            position: MapPosition::new(1, 3),
            target_map: "desert".to_string(),
            target_pos: MapPosition::new(4, 5),
        }]
    );
    // Kind 2 carries the wall flag; the 2x2 interior of kind 0 does not.
    assert!(tilemap.tile_has_flag(MapPosition::new(0, 0), 0b01));
    assert!(!tilemap.tile_has_flag(MapPosition::new(1, 1), 0b01));
    assert!(!tilemap.tile_has_flag(MapPosition::new(2, 2), 0b01));
    assert_eq!(tilemap.flags_for_tile(MapPosition::new(3, 3)), 1);
    let walls = tilemap.all_tiles_with_flag(0b01);
    assert_eq!(walls.len(), 11);
    assert_eq!(walls[0], MapPosition::new(0, 0));
}

#[test]
fn into_tilemap_reports_missing_names_once() {
    let mut file = sample_file();
    file.tiles.push(TileDescriptor {
        image: "lava".to_string(),
        flags: 0,
    });
    file.tiles.push(TileDescriptor {
        image: "temple_roof".to_string(),
        flags: 0,
    });
    file.tiles.push(TileDescriptor {
        image: "lava".to_string(),
        flags: 2,
    });
    let err = file
        .into_tilemap::<&'static str>(&desert_tileset(), (300, 200))
        .unwrap_err();
    match err {
        GameUtilError::InvalidTileset(label, missing) => {
            assert_eq!(label, "Desert Temple");
            assert_eq!(missing, vec!["lava".to_string(), "temple_roof".to_string()]);
        }
        other => panic!("unexpected error: {:?}", other),
    }
}

#[test]
fn into_tilemap_rejects_bad_grids() {
    let mut empty = sample_file();
    empty.map = vec![];
    assert_eq!(
        empty
            .into_tilemap::<&'static str>(&desert_tileset(), (300, 200))
            .unwrap_err(),
        GameUtilError::MalformedGrid
    );

    let mut ragged = sample_file();
    ragged.map = vec![vec![0, 0], vec![0, 0, 0]];
    assert_eq!(
        ragged
            .into_tilemap::<&'static str>(&desert_tileset(), (300, 200))
            .unwrap_err(),
        GameUtilError::MalformedGrid
    );
}

#[test]
fn tilemap_new_reports_missing() {
    let err = Tilemap::<&'static str>::new(
        vec![0; 4],
        vec![0; 4],
        MapSize::new(2, 2),
        vec!["img".to_string(), "ghost".to_string()],
        simple_tileset(),
        (300, 200),
        MapPosition::new(0, 0),
        vec![],
    )
    .unwrap_err();
    assert_eq!(
        err,
        GameUtilError::InvalidTileset("from code".to_string(), vec!["ghost".to_string()])
    );
}

#[test]
fn tileset_lookup_first_match_wins() {
    let tileset = Tileset::new(
        vec![Rc::new("first"), Rc::new("second")],
        vec!["dup".to_string(), "dup".to_string()],
        (8, 8),
    );
    assert_eq!(tileset.find_by_name("dup"), Some(&"first"));
    assert_eq!(tileset.find_by_name("missing"), None);
    assert_eq!(tileset.names(), &["dup".to_string(), "dup".to_string()]);
    assert_eq!(tileset.images().len(), 2);
    assert_eq!(tileset.tilesize(), (8, 8));
}

#[test]
fn exit_from_tuple() {
    let exit = MapExit::from_file((3, 4, "cave".to_string(), 7, 8));
    assert_eq!(exit.position, MapPosition::new(3, 4));
    assert_eq!(exit.target_map, "cave");
    assert_eq!(exit.target_pos, MapPosition::new(7, 8));
}

#[test]
fn codec_round_trip() {
    let file = sample_file();
    let text = to_text(&file);
    let back = from_text(text.as_str()).unwrap();
    assert_eq!(back, sample_file());
}

#[test]
fn codec_round_trip_empty_lists() {
    let file = TilemapFile {
        name: String::new(),
        tileset: "t".to_string(),
        flags: vec![],
        tiles: vec![],
        map: vec![],
        data: TilemapDataDescriptor {
            start: (0, 0),
            exits: vec![],
        },
    };
    let text = to_text(&file);
    let back = from_text(text.as_str()).unwrap();
    assert_eq!(back.name, "");
    assert_eq!(back.tileset, "t");
    assert!(back.flags.is_empty());
    assert!(back.tiles.is_empty());
    assert!(back.map.is_empty());
    assert_eq!(back.data.start, (0, 0));
    assert!(back.data.exits.is_empty());
}

#[test]
fn codec_rejects_garbage() {
    assert!(from_text("not a map").is_none());
    assert!(from_text("").is_none());
    // Trailing bytes after a valid record are refused too.
    let mut text = to_text(&sample_file());
    text.push(' ');
    assert!(from_text(text.as_str()).is_none());
}
