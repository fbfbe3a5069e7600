use ici_files::color::{Color, BLUE, RED};
use ici_files::image::IndexedImage;
use simple_game_utils::error::GameUtilError;
use simple_game_utils::ici::{IciTileset, ImageError, Rgba, TileEntry};
use std::rc::Rc;
use simple_game_utils::tileset::Tileset;

fn rgba(r: u8, g: u8, b: u8, a: u8) -> Rgba {
    Rgba { r, g, b, a }
}

fn sample_palette() -> Vec<Rgba> {
    vec![
        rgba(0, 0, 0, 0),
        rgba(255, 0, 0, 255),
        rgba(0, 255, 0, 255),
        rgba(0, 0, 255, 255),
    ]
}

fn sample_colors() -> Vec<Color> {
    sample_palette()
        .into_iter()
        .map(|c| Color::new(c.r, c.g, c.b, c.a))
        .collect()
}

fn sample_ici() -> IciTileset {
    IciTileset::new(
        "sample".to_string(),
        (3, 3),
        sample_palette(),
        vec![
            TileEntry {
                name: "trans".to_string(),
                pixels: vec![0; 9],
            },
            TileEntry {
                name: "red".to_string(),
                pixels: vec![1; 9],
            },
            TileEntry {
                name: "green".to_string(),
                pixels: vec![2; 9],
            },
            TileEntry {
                name: "blue".to_string(),
                pixels: vec![3; 9],
            },
        ],
    )
}

#[test]
fn converting() {
    let tileset: Tileset<IndexedImage> = sample_ici().into_tileset().unwrap();
    assert_eq!(tileset.tilesize(), (3, 3));
    assert_eq!(tileset.images().len(), 4);
    assert_eq!(tileset.find_by_name("red").unwrap().get_palette()[3], BLUE);
    assert_eq!(tileset.find_by_name("blue").unwrap().get_palette()[1], RED);
    assert!(tileset
        .find_by_name("trans")
        .unwrap()
        .get_pixels()
        .iter()
        .all(|&p| p == 0));
    assert!(tileset
        .find_by_name("green")
        .unwrap()
        .get_pixels()
        .iter()
        .all(|&p| p == 2));
}

#[test]
fn converting_rejects_bad_shapes() {
    let mut zero_width = sample_ici();
    zero_width.tile_w = 0;
    assert_eq!(zero_width.into_tileset().unwrap_err(), ImageError::WidthZero);

    let mut no_palette = sample_ici();
    no_palette.palette = vec![];
    assert_eq!(
        no_palette.into_tileset().unwrap_err(),
        ImageError::PaletteEmpty
    );
}

#[test]
fn converting_rejects_short_buffers() {
    let mut set = sample_ici();
    set.tiles.push(TileEntry {
        name: "broken".to_string(),
        pixels: vec![1; 5],
    });
    assert_eq!(
        set.into_tileset().unwrap_err(),
        ImageError::WrongPixelCount(5, 9)
    );
}

#[test]
fn add_image_checks_palette() {
    let mut set = sample_ici();
    let good = IndexedImage::new(3, 3, sample_colors(), vec![2; 9]).unwrap();
    assert_eq!(set.add_image("extra", &good), Ok(()));
    assert_eq!(set.tiles().len(), 5);
    assert_eq!(set.tiles()[4].name, "extra");
    assert_eq!(set.tiles()[4].pixels, vec![2; 9]);

    // Replacing an existing name keeps the set's size.
    assert_eq!(set.add_image("red", &good), Ok(()));
    assert_eq!(set.tiles().len(), 5);

    let other_palette = vec![Color::new(9, 9, 9, 255)];
    let bad = IndexedImage::new(3, 3, other_palette, vec![0; 9]).unwrap();
    assert_eq!(
        set.add_image("bad", &bad),
        Err(GameUtilError::PaletteMismatch)
    );
    assert_eq!(set.tiles().len(), 5);
}

#[test]
fn hashmap_view_last_write_wins() {
    let tileset = Tileset::new(
        vec![Rc::new("first"), Rc::new("second"), Rc::new("other")],
        vec!["dup".to_string(), "dup".to_string(), "solo".to_string()],
        (8, 8),
    );
    let map = tileset.as_hashmap();
    assert_eq!(map.len(), 2);
    let dup = map.iter().find(|e| e.0 == "dup").unwrap();
    assert_eq!(*dup.1, "second");
    let solo = map.iter().find(|e| e.0 == "solo").unwrap();
    assert_eq!(*solo.1, "other");
    // The linear lookup keeps the opposite policy: first match wins.
    assert_eq!(tileset.find_by_name("dup"), Some(&"first"));
}
