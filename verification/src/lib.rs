use vstd::prelude::*;

pub mod astar;
pub mod components;
pub mod entitys;
pub mod fov;
pub mod game_map;
pub mod map_gen;
pub mod render;
pub mod scenes;
pub mod sprite_set;
pub mod systems;
pub mod tileset;

use crate::components::{EntitySize, Health, Name, Render};
use crate::entitys::Entitys;
use crate::game_map::MapInfo;
use crate::scenes::Scene;
use crate::tileset::TileInfo;

verus! {

broadcast use vstd::std_specs::hash::group_hash_axioms;

/// The window the game is drawn in.
pub struct WindowInfo {
    pub name: String,
    pub width: u32,
    pub height: u32,
    /// Horizontal position at which the map begins.
    pub map_start_x: i32,
}

/// What the main loop does next: take a turn, stop, or wait for input.
#[derive(Debug, Clone, Copy, PartialEq, Eq, Structural)]
pub enum LoopState {
    Run,
    Quit,
    Wait,
}

/// The settings the game starts with: a map of thirty by thirty squares, a
/// sheet of 256 tiles of ten by ten pixels in rows of sixteen, drawn at twice
/// their size, and a window that holds the map and a side panel of 250
/// pixels.
pub fn make_game_info() -> (r: (WindowInfo, TileInfo, MapInfo))
    ensures
        r.0.name@ == "rend"@,
        r.0.width == 850,
        r.0.height == 600,
        r.0.map_start_x == 0,
        r.1 == (TileInfo {
            total_count: 256,
            col_count: 16,
            width: 20,
            height: 20,
            orig_w: 10,
            orig_h: 10,
        }),
        r.2 == (MapInfo { column_count: 30, row_count: 30, total_count: 900 }),
        r.2.consistent(),
{
    let map_cols: u32 = 30;
    let map_rows: u32 = 30;
    let total_tiles: u32 = 256;
    let tile_col_count: u32 = 16;
    let orig_w: u32 = 10;
    let orig_h: u32 = 10;
    let tile_width: u32 = orig_w * 2;
    let tile_heigh: u32 = orig_h * 2;
    let window_info = WindowInfo {
        width: (tile_width * map_cols) + 250,
        height: tile_heigh * map_rows,
        name: "rend".to_owned(),
        map_start_x: 0,
    };
    let tile_info = TileInfo {
        orig_w,
        orig_h,
        width: tile_width,
        height: tile_heigh,
        col_count: tile_col_count,
        total_count: total_tiles,
    };
    let map_cols: usize = map_cols as usize;
    let map_rows: usize = map_rows as usize;
    let map_info = MapInfo {
        column_count: map_cols,
        row_count: map_rows,
        total_count: map_cols * map_rows,
    };
    (window_info, tile_info, map_info)
}

/// Makes the player: a fresh entity named "test player", with ten points of
/// health out of ten, of medium size, drawn as `@` on the square `center`.
pub fn init_player(scene: &mut Scene, entitys: &mut Entitys, center: (usize, usize))
    requires
        old(entitys).next_id < usize::MAX,
        center.0 + old(scene).game_map.map_info.column_count * center.1 <= usize::MAX,
    ensures
        final(entitys).next_id == old(entitys).next_id + 1,
        final(scene).player == old(entitys).next_id,
        final(scene).game_map == old(scene).game_map,
        final(scene).loop_state == old(scene).loop_state,
        final(scene).components.ai == old(scene).components.ai,
        final(scene).components.selected == old(scene).components.selected,
        final(scene).components.name@.dom() == old(scene).components.name@.dom().insert(
            old(entitys).next_id,
        ),
        final(scene).components.name@[old(entitys).next_id].value@ == "test player"@,
        forall|k: usize|
            k != old(entitys).next_id && old(scene).components.name@.contains_key(k)
                ==> #[trigger] final(scene).components.name@[k]
                == old(scene).components.name@[k],
        final(scene).components.health@ == old(scene).components.health@.insert(
            old(entitys).next_id,
            Health { max_value: 10, cur_value: 10 },
        ),
        final(scene).components.render@ == old(scene).components.render@.insert(
            old(entitys).next_id,
            Render {
                index: (center.0 + old(scene).game_map.map_info.column_count * center.1) as usize,
                reper_char: '@',
                size: EntitySize::Medium,
                visible: true,
            },
        ),
{
    let player_id: usize = entitys.new_id();
    assert(scene.game_map.map_info.column_count * center.1 >= 0) by (nonlinear_arith);
    let index: usize = center.0 + (scene.game_map.map_info.column_count * center.1);
    scene.player = player_id;
    scene.components.name.insert(player_id, Name { value: "test player".to_owned() });
    scene.components.health.insert(player_id, Health { max_value: 10, cur_value: 10 });
    scene.components.render.insert(
        player_id,
        Render { index, reper_char: '@', size: EntitySize::Medium, visible: true },
    );
}

} // verus!
