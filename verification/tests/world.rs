use sprite_fight::components::{
    Ai, AiType, ComponentStore, EntitySize, Health, Name, Render, Selected,
};
use sprite_fight::entitys::Entitys;
use sprite_fight::game_map::{is_zombie, GameMap, MapError, MapInfo, RenderCell};
use sprite_fight::scenes::{SceneBuilder, SceneManager};
use sprite_fight::tileset::TileInfo;
use sprite_fight::{init_player, make_game_info, LoopState};

fn info(columns: usize, rows: usize) -> MapInfo {
    MapInfo { column_count: columns, row_count: rows, total_count: columns * rows }
}

fn map_from(columns: usize, rows: usize, text: &str) -> (GameMap, ComponentStore, Entitys) {
    let mut map = GameMap::new(info(columns, rows)).unwrap();
    let mut components = ComponentStore::default();
    let mut entitys = Entitys::new();
    map.init_map(&mut components, &mut entitys, text.chars().collect());
    (map, components, entitys)
}

#[test]
fn identifiers_count_up_from_zero() {
    let mut entitys = Entitys::new();
    assert_eq!(entitys.next_id, 0);
    assert_eq!(entitys.new_id(), 0);
    assert_eq!(entitys.new_id(), 1);
    assert_eq!(entitys.new_id(), 2);
    assert_eq!(entitys.next_id, 3);
}

#[test]
fn sizes_are_ordered() {
    let sizes = [EntitySize::Nothing, EntitySize::Small, EntitySize::Medium, EntitySize::Large];
    for (i, a) in sizes.iter().enumerate() {
        assert_eq!(a.rank() as usize, i);
        for (j, b) in sizes.iter().enumerate() {
            assert_eq!(a.below(*b), i < j);
            assert_eq!(a < b, i < j);
        }
    }
}

#[test]
fn fresh_component_store_is_empty() {
    let store = ComponentStore::default();
    assert!(store.health.is_empty());
    assert!(store.render.is_empty());
    assert!(store.selected.is_empty());
    assert!(store.name.is_empty());
    assert!(store.ai.is_empty());
}

#[test]
fn component_values_hold_their_fields() {
    let selected = Selected { entity: Some(4) };
    assert_eq!(selected.entity, Some(4));
    let ai = Ai { ai_type: AiType::Basic };
    assert_eq!(ai.ai_type, AiType::Basic);
    let name = Name { value: "rat".to_string() };
    assert_eq!(name.value, "rat");
    let health = Health { max_value: 9, cur_value: 3 };
    assert_eq!((health.max_value, health.cur_value), (9, 3));
}

#[test]
fn new_map_holds_no_cells() {
    let map = GameMap::new(info(4, 3)).unwrap();
    assert_eq!(map.map_info, info(4, 3));
    assert!(map.render_map.is_empty());
    assert!(map.terrain_map.is_empty());
    assert!(!map.is_well_formed());
}

#[test]
fn malformed_dimensions_make_no_map() {
    let refused = |columns: usize, rows: usize, total: usize| {
        matches!(
            GameMap::new(MapInfo { column_count: columns, row_count: rows, total_count: total }),
            Err(MapError::MalformedMap)
        )
    };
    assert!(refused(0, 3, 0));
    assert!(refused(3, 0, 0));
    assert!(refused(0, 0, 0));
    assert!(refused(4, 3, 11));
    assert!(refused(4, 3, 13));
    assert!(refused(usize::MAX, 2, usize::MAX.wrapping_mul(2)));
    assert!(refused(usize::MAX, 1, usize::MAX));
    assert!(!refused(4, 3, 12));
    assert!(!refused(1, 1, 1));
    assert!(!refused(isize::MAX as usize, 1, isize::MAX as usize));
}

#[test]
fn dimensions_must_multiply_to_the_cell_count() {
    assert!(info(4, 3).is_consistent());
    assert!(!MapInfo { column_count: 4, row_count: 3, total_count: 11 }.is_consistent());
    assert!(!MapInfo { column_count: 0, row_count: 3, total_count: 0 }.is_consistent());
    assert!(!MapInfo { column_count: 3, row_count: 0, total_count: 0 }.is_consistent());
    assert!(!MapInfo {
        column_count: usize::MAX,
        row_count: 2,
        total_count: usize::MAX.wrapping_mul(2),
    }
    .is_consistent());
    assert!(!MapInfo {
        column_count: usize::MAX,
        row_count: 1,
        total_count: usize::MAX,
    }
    .is_consistent());
    assert!(MapInfo {
        column_count: isize::MAX as usize,
        row_count: 1,
        total_count: isize::MAX as usize,
    }
    .is_consistent());
}

#[test]
fn map_characters_become_cells_and_zombies() {
    let (map, components, entitys) = map_from(4, 1, "#Z z");
    assert!(map.is_well_formed());
    assert_eq!(map.terrain_map, vec![0, 1, 3, 4]);
    assert_eq!(entitys.next_id, 6);
    let rock = RenderCell {
        lit: false,
        visible: true,
        visited: false,
        ent_size: EntitySize::Medium,
        ent_char: '#',
        terrain_size: EntitySize::Medium,
        terrain_char: '#',
    };
    let lair = RenderCell {
        lit: false,
        visible: true,
        visited: false,
        ent_size: EntitySize::Nothing,
        ent_char: ' ',
        terrain_size: EntitySize::Nothing,
        terrain_char: ' ',
    };
    let blank = RenderCell { visible: false, ..lair };
    assert_eq!(map.render_map, vec![rock, lair, blank, lair]);
    assert_eq!(components.ai.len(), 2);
    assert_eq!(components.ai[&2], Ai { ai_type: AiType::Basic });
    assert_eq!(components.ai[&5], Ai { ai_type: AiType::Basic });
    assert_eq!(components.render.len(), 2);
    assert_eq!(
        components.render[&2],
        Render { index: 1, size: EntitySize::Medium, reper_char: 'Z', visible: true },
    );
    assert_eq!(
        components.render[&5],
        Render { index: 3, size: EntitySize::Medium, reper_char: 'Z', visible: true },
    );
    assert!(components.health.is_empty());
    assert!(components.name.is_empty());
    assert!(components.selected.is_empty());
}

#[test]
fn cells_are_appended_after_those_already_there() {
    let (mut map, mut components, mut entitys) = map_from(2, 2, "..");
    map.init_map(&mut components, &mut entitys, vec!['Z', ' ']);
    assert_eq!(map.render_map.len(), 4);
    assert_eq!(map.terrain_map, vec![0, 1, 2, 4]);
    assert_eq!(entitys.next_id, 5);
    assert_eq!(components.render[&3].index, 0);
    assert_eq!(map.render_map[0].terrain_char, '.');
    assert_eq!(map.render_map[2].terrain_char, ' ');
    assert!(map.render_map[2].visible);
}

#[test]
fn only_the_letter_z_is_a_zombie() {
    assert!(is_zombie('Z'));
    assert!(is_zombie('z'));
    assert!(!is_zombie('#'));
    assert!(!is_zombie(' '));
    assert!(!is_zombie('2'));
}

#[test]
fn squares_are_on_the_grid_by_column_and_row() {
    let (map, _, _) = map_from(4, 2, "        ");
    assert!(map.in_bounds((0, 0)));
    assert!(map.in_bounds((3, 1)));
    assert!(!map.in_bounds((4, 0)));
    assert!(!map.in_bounds((4, 1)));
    assert!(!map.in_bounds((0, 2)));
    assert!(!map.in_bounds((-1, 0)));
    assert!(!map.in_bounds((0, -1)));
    assert!(!map.in_bounds((7, 0)));
}

#[test]
fn passable_depends_on_the_threshold() {
    let (mut map, _, _) = map_from(3, 1, "   ");
    map.render_map[1].ent_size = EntitySize::Small;
    map.render_map[2].ent_size = EntitySize::Large;
    assert!(map.passable((0, 0), EntitySize::Medium));
    assert!(map.passable((1, 0), EntitySize::Medium));
    assert!(!map.passable((2, 0), EntitySize::Medium));
    assert!(map.passable((0, 0), EntitySize::Small));
    assert!(!map.passable((1, 0), EntitySize::Small));
    assert!(!map.passable((0, 0), EntitySize::Nothing));
    assert!(map.passable((2, 0), EntitySize::Large) == false);
    assert!(!map.passable((3, 0), EntitySize::Large));
    assert!(!map.passable((0, 1), EntitySize::Large));
    let empty = GameMap::new(info(3, 1)).unwrap();
    assert!(!empty.passable((0, 0), EntitySize::Large));
}

#[test]
fn game_starts_with_its_usual_settings() {
    let (window, tiles, map) = make_game_info();
    assert_eq!(window.name, "rend");
    assert_eq!(window.width, 850);
    assert_eq!(window.height, 600);
    assert_eq!(window.map_start_x, 0);
    assert_eq!(
        tiles,
        TileInfo { total_count: 256, col_count: 16, width: 20, height: 20, orig_w: 10, orig_h: 10 },
    );
    assert_eq!(map, info(30, 30));
    assert!(map.is_consistent());
}

#[test]
fn builder_puts_a_scene_together() {
    let (map, components, _) = map_from(2, 1, "Z#");
    let scene = SceneBuilder::new().set_components(components).set_game_map(map).build();
    assert_eq!(scene.player, 0);
    assert_eq!(scene.loop_state, LoopState::Wait);
    assert_eq!(scene.game_map.render_map.len(), 2);
    assert_eq!(scene.components.render[&1].index, 0);
}

#[test]
fn manager_files_scenes_under_fresh_identifiers() {
    let mut scenes = SceneManager::new();
    assert_eq!((scenes.next_id, scenes.current_scene), (0, 0));
    assert!(scenes.scenes.is_empty());
    let (map, components, _) = map_from(2, 1, "Z#");
    let first = scenes
        .register_scene(SceneBuilder::new().set_game_map(map).set_components(components));
    let (map, components, _) = map_from(3, 1, "###");
    let second = scenes
        .register_scene(SceneBuilder::new().set_game_map(map).set_components(components));
    assert_eq!((first, second), (0, 1));
    assert_eq!(scenes.next_id, 2);
    assert_eq!(scenes.scenes.len(), 2);
    assert_eq!(scenes.get_current_scene().game_map.render_map.len(), 2);
    scenes.set_current_scene(second);
    assert_eq!(scenes.current_scene, 1);
    assert_eq!(scenes.get_current_scene().game_map.render_map.len(), 3);
    assert_eq!(scenes.new_id(), 2);
    assert_eq!(scenes.next_id, 3);
}

#[test]
fn current_scene_can_be_written_through() {
    let mut scenes = SceneManager::new();
    let (map, components, _) = map_from(2, 1, "  ");
    let id = scenes.register_scene(SceneBuilder::new().set_game_map(map).set_components(components));
    scenes.set_current_scene(id);
    {
        let scene = scenes.get_current_scene_mut();
        assert_eq!(scene.player, 0);
        scene.player = 41;
        scene.loop_state = LoopState::Run;
    }
    assert_eq!(scenes.get_current_scene().player, 41);
    assert_eq!(scenes.scenes[&id].loop_state, LoopState::Run);
    assert_eq!(scenes.scenes.len(), 1);
}

#[test]
fn player_is_made_where_asked() {
    let (map, components, mut entitys) = map_from(3, 3, "  Z      ");
    let mut scene = SceneBuilder::new().set_game_map(map).set_components(components).build();
    assert_eq!(entitys.next_id, 10);
    init_player(&mut scene, &mut entitys, (1, 2));
    assert_eq!(scene.player, 10);
    assert_eq!(entitys.next_id, 11);
    assert_eq!(scene.components.name[&10].value, "test player");
    assert_eq!(scene.components.health[&10], Health { max_value: 10, cur_value: 10 });
    assert_eq!(
        scene.components.render[&10],
        Render { index: 7, size: EntitySize::Medium, reper_char: '@', visible: true },
    );
    assert_eq!(scene.components.render.len(), 2);
    assert_eq!(scene.components.ai.len(), 1);
    assert_eq!(scene.loop_state, LoopState::Wait);
}
