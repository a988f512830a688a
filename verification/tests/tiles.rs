use sprite_fight::sprite_set::{make_tile_codes, sprite_tile, SpriteCode};
use sprite_fight::tileset::{TileInfo, TileRect, Tileset, EXTENDED_ASCII};

fn sheet() -> TileInfo {
    TileInfo { total_count: 256, col_count: 16, width: 20, height: 20, orig_w: 10, orig_h: 12 }
}

#[test]
fn sheet_names_255_tiles() {
    assert_eq!(EXTENDED_ASCII.chars().count(), 255);
    assert_eq!(EXTENDED_ASCII.chars().nth(1), Some('☺'));
    assert_eq!(EXTENDED_ASCII.chars().nth(65), Some('A'));
}

#[test]
fn characters_find_their_tiles() {
    let tiles = sprite_fight::tileset::make_tile_codes(&sheet());
    assert_eq!(tiles.len(), 254);
    assert_eq!(tiles[&(' ' as u32)], TileRect { x: 0, y: 0, w: 10, h: 12 });
    assert_eq!(tiles[&('☺' as u32)], TileRect { x: 10, y: 0, w: 10, h: 12 });
    assert_eq!(tiles[&('!' as u32)], TileRect { x: 10, y: 24, w: 10, h: 12 });
    assert_eq!(tiles[&('A' as u32)], TileRect { x: 10, y: 48, w: 10, h: 12 });
    assert_eq!(tiles[&('@' as u32)], TileRect { x: 0, y: 48, w: 10, h: 12 });
    assert_eq!(tiles[&('Z' as u32)], TileRect { x: 100, y: 60, w: 10, h: 12 });
    assert_eq!(tiles[&('■' as u32)], TileRect { x: 140, y: 180, w: 10, h: 12 });
    assert_eq!(tiles[&('▼' as u32)], TileRect { x: 150, y: 12, w: 10, h: 12 });
    assert!(!tiles.contains_key(&0));
}

#[test]
fn tileset_looks_characters_up() {
    let tileset = Tileset::new(sheet());
    assert_eq!(tileset.tile_info, sheet());
    assert_eq!(*tileset.get_char('#'), TileRect { x: 30, y: 24, w: 10, h: 12 });
    assert_eq!(*tileset.get_char(' '), TileRect { x: 0, y: 0, w: 10, h: 12 });
    let narrow = Tileset::new(TileInfo { col_count: 1, ..sheet() });
    assert_eq!(*narrow.get_char('#'), TileRect { x: 0, y: 35 * 12, w: 10, h: 12 });
}

#[test]
fn sprites_are_cut_in_order() {
    let info = sprite_fight::sprite_set::TileInfo {
        total_count: 7,
        row_count: 3,
        width: 16,
        height: 16,
        orig_w: 8,
        orig_h: 9,
    };
    let codes = make_tile_codes(&info);
    assert_eq!(
        codes,
        vec![
            TileRect { x: 0, y: 0, w: 8, h: 9 },
            TileRect { x: 8, y: 0, w: 8, h: 9 },
            TileRect { x: 16, y: 0, w: 8, h: 9 },
            TileRect { x: 0, y: 9, w: 8, h: 9 },
            TileRect { x: 8, y: 9, w: 8, h: 9 },
            TileRect { x: 16, y: 9, w: 8, h: 9 },
            TileRect { x: 0, y: 18, w: 8, h: 9 },
        ],
    );
    let none = make_tile_codes(&sprite_fight::sprite_set::TileInfo { total_count: 0, ..info });
    assert!(none.is_empty());
}

#[test]
fn sprite_codes_count_from_zero() {
    assert_eq!(SpriteCode::Building10.index(), 0);
    assert_eq!(SpriteCode::Building11.index(), 1);
    assert_eq!(SpriteCode::NoSprite.index(), 235);
    assert_eq!(SpriteCode::Cursor.index(), 234);
    assert!(SpriteCode::Building10 < SpriteCode::NoSprite);
}

#[test]
fn sprite_finds_its_tile() {
    let info = sprite_fight::sprite_set::TileInfo {
        total_count: 236,
        row_count: 16,
        width: 16,
        height: 16,
        orig_w: 8,
        orig_h: 8,
    };
    let codes = make_tile_codes(&info);
    assert_eq!(*sprite_tile(&codes, SpriteCode::Building10), TileRect { x: 0, y: 0, w: 8, h: 8 });
    assert_eq!(*sprite_tile(&codes, SpriteCode::NoSprite), TileRect { x: 88, y: 112, w: 8, h: 8 });
}
