use sprite_fight::components::{Ai, AiType, ComponentStore, EntitySize, Health, Render};
use sprite_fight::entitys::Entitys;
use sprite_fight::game_map::{GameMap, MapInfo};
use sprite_fight::render::{health_bar, map_plan, ui_origin, DrawCell, Layout};
use sprite_fight::scenes::{Scene, SceneBuilder, SceneManager};
use sprite_fight::systems::ai_system::{ai_order, ai_system, ai_turn, ai_turns, basic_movement};
use sprite_fight::systems::input_system::{
    handle_events, handle_wait, move_player, InputEvent, Key,
};
use sprite_fight::systems::move_system::{is_occupied, move_by_system, move_to_system};
use sprite_fight::systems::turn_system::{
    apply_event, new_game, place_entities, refresh_cells, take_turn,
};
use sprite_fight::{init_player, LoopState};
use std::collections::HashMap;

fn scene_from(columns: usize, rows: usize, text: &str, player_at: (usize, usize)) -> Scene {
    let mut map = GameMap::new(MapInfo {
        column_count: columns,
        row_count: rows,
        total_count: columns * rows,
    })
    .unwrap();
    let mut components = ComponentStore::default();
    let mut entitys = Entitys::new();
    map.init_map(&mut components, &mut entitys, text.chars().collect());
    let mut scene = SceneBuilder::new().set_game_map(map).set_components(components).build();
    init_player(&mut scene, &mut entitys, player_at);
    scene
}

fn entity(index: usize) -> Render {
    Render { index, size: EntitySize::Medium, reper_char: 'e', visible: true }
}

fn places(render: &HashMap<usize, Render>) -> Vec<(usize, usize)> {
    let mut all: Vec<(usize, usize)> = render.iter().map(|(id, r)| (*id, r.index)).collect();
    all.sort();
    all
}

fn light_all(scene: &mut Scene) {
    for cell in scene.game_map.render_map.iter_mut() {
        cell.lit = true;
    }
}

#[test]
fn occupied_cells_are_found() {
    let mut render = HashMap::new();
    assert!(!is_occupied(&render, 0));
    render.insert(3, entity(5));
    render.insert(9, entity(7));
    assert!(is_occupied(&render, 5));
    assert!(is_occupied(&render, 7));
    assert!(!is_occupied(&render, 3));
    assert!(!is_occupied(&render, 9));
    assert!(!is_occupied(&render, 6));
}

#[test]
fn entity_is_put_on_a_free_square() {
    let mut scene = scene_from(3, 3, "         ", (0, 0));
    let player = scene.player;
    scene.components.render.insert(50, entity(4));
    let map = &mut scene.game_map;
    let render = &mut scene.components.render;
    move_to_system(map, render, player, (1, 1));
    assert_eq!(places(render), vec![(9, 0), (50, 4)]);
    move_to_system(map, render, player, (2, 2));
    assert_eq!(places(render), vec![(9, 8), (50, 4)]);
    move_to_system(map, render, player, (3, 0));
    move_to_system(map, render, player, (0, 3));
    move_to_system(map, render, player, (-1, 0));
    move_to_system(map, render, player, (0, -1));
    move_to_system(map, render, player, (2, 2));
    assert_eq!(places(render), vec![(9, 8), (50, 4)]);
    map.render_map[1].terrain_size = EntitySize::Large;
    move_to_system(map, render, player, (1, 0));
    assert_eq!(places(render), vec![(9, 8), (50, 4)]);
    map.render_map[1].terrain_size = EntitySize::Medium;
    move_to_system(map, render, player, (1, 0));
    assert_eq!(places(render), vec![(9, 1), (50, 4)]);
    assert_eq!(render[&player].reper_char, '@');
    assert_eq!(render[&player].size, EntitySize::Medium);
}

#[test]
fn entity_moves_by_a_step() {
    let mut scene = scene_from(3, 3, "         ", (1, 1));
    let player = scene.player;
    let map = &mut scene.game_map;
    let render = &mut scene.components.render;
    move_by_system(map, render, player, (1, 0));
    assert_eq!(render[&player].index, 5);
    move_by_system(map, render, player, (1, 0));
    assert_eq!(render[&player].index, 5);
    move_by_system(map, render, player, (-2, 1));
    assert_eq!(render[&player].index, 6);
    move_by_system(map, render, player, (0, 1));
    move_by_system(map, render, player, (-1, 0));
    move_by_system(map, render, player, (0, 0));
    move_by_system(map, render, player, (isize::MAX, isize::MIN));
    assert_eq!(render[&player].index, 6);
    map.render_map[3].terrain_size = EntitySize::Medium;
    move_by_system(map, render, player, (0, -1));
    assert_eq!(render[&player].index, 6);
    map.render_map[3].terrain_size = EntitySize::Small;
    move_by_system(map, render, player, (0, -1));
    assert_eq!(render[&player].index, 3);
    move_by_system(map, render, 77, (1, 0));
    assert_eq!(places(render), vec![(9, 3)]);
    render.insert(12, entity(4));
    move_by_system(map, render, player, (1, 0));
    assert_eq!(places(render), vec![(9, 3), (12, 4)]);
}

#[test]
fn moving_an_entity_that_is_not_there_needs_no_map() {
    let mut map = GameMap {
        terrain_map: Vec::new(),
        render_map: Vec::new(),
        map_info: MapInfo { column_count: 0, row_count: 0, total_count: 0 },
    };
    let mut render = HashMap::new();
    move_by_system(&mut map, &mut render, 3, (1, 0));
    move_to_system(&mut map, &mut render, 3, (0, 0));
    move_to_system(&mut map, &mut render, 3, (-1, 4));
    assert!(render.is_empty());
    render.insert(3, entity(0));
    move_to_system(&mut map, &mut render, 3, (2, 2));
    assert_eq!(places(&render), vec![(3, 0)]);
}

#[test]
fn moving_needs_only_the_cell_that_is_entered() {
    let mut scene = scene_from(3, 3, "         ", (1, 1));
    let player = scene.player;
    scene.game_map.map_info.total_count = 7;
    let map = &mut scene.game_map;
    let render = &mut scene.components.render;
    move_by_system(map, render, player, (1, 1));
    assert_eq!(render[&player].index, 8);
    move_to_system(map, render, player, (0, 0));
    assert_eq!(render[&player].index, 0);
}

#[test]
fn zombie_steps_along_its_route_to_the_player() {
    let mut scene = scene_from(5, 5, "Z                        ", (4, 4));
    light_all(&mut scene);
    ai_system(&mut scene);
    assert_eq!(places(&scene.components.render), vec![(1, 6), (26, 24)]);
    ai_system(&mut scene);
    ai_system(&mut scene);
    assert_eq!(places(&scene.components.render), vec![(1, 18), (26, 24)]);
    ai_system(&mut scene);
    ai_system(&mut scene);
    assert_eq!(places(&scene.components.render), vec![(1, 18), (26, 24)]);
    assert_eq!(scene.loop_state, LoopState::Wait);
    assert_eq!(scene.player, 26);
}

#[test]
fn zombie_in_the_dark_stays_put() {
    let mut scene = scene_from(5, 5, "Z                        ", (4, 4));
    ai_system(&mut scene);
    assert_eq!(places(&scene.components.render), vec![(1, 0), (26, 24)]);
    scene.components.ai.insert(90, Ai { ai_type: AiType::Basic });
    light_all(&mut scene);
    ai_system(&mut scene);
    assert_eq!(places(&scene.components.render), vec![(1, 6), (26, 24)]);
}

#[test]
fn zombies_take_their_turns_in_the_order_given() {
    let mut scene = scene_from(5, 1, "ZZ   ", (4, 0));
    light_all(&mut scene);
    assert_eq!(places(&scene.components.render), vec![(1, 0), (3, 1), (7, 4)]);
    ai_turns(&mut scene, (4, 0), &vec![3, 1]);
    assert_eq!(places(&scene.components.render), vec![(1, 0), (3, 1), (7, 4)]);
    let mut wide = scene_from(9, 1, "ZZ       ", (3, 0));
    light_all(&mut wide);
    ai_turns(&mut wide, (3, 0), &vec![3, 1]);
    assert_eq!(places(&wide.components.render), vec![(1, 1), (3, 2), (11, 3)]);
    let mut wide = scene_from(9, 1, "ZZ       ", (3, 0));
    light_all(&mut wide);
    ai_turns(&mut wide, (3, 0), &vec![1, 3]);
    assert_eq!(places(&wide.components.render), vec![(1, 0), (3, 2), (11, 3)]);
    let mut order = ai_order(&wide.components.ai);
    order.sort();
    assert_eq!(order, vec![1, 3]);
}

#[test]
fn one_zombie_takes_one_step() {
    let mut scene = scene_from(5, 5, "Z                        ", (2, 0));
    light_all(&mut scene);
    ai_turn(&mut scene.game_map, &mut scene.components.render, (2, 0), 1);
    assert_eq!(places(&scene.components.render), vec![(1, 1), (26, 2)]);
    ai_turn(&mut scene.game_map, &mut scene.components.render, (2, 0), 1);
    assert_eq!(places(&scene.components.render), vec![(1, 1), (26, 2)]);
    ai_turn(&mut scene.game_map, &mut scene.components.render, (1, 0), 1);
    assert_eq!(places(&scene.components.render), vec![(1, 1), (26, 2)]);
    ai_turn(&mut scene.game_map, &mut scene.components.render, (2, 0), 64);
    assert_eq!(places(&scene.components.render), vec![(1, 1), (26, 2)]);
}

#[test]
fn simple_movement_heads_straight_for_the_player() {
    let mut scene = scene_from(7, 7, "Z                                                ", (6, 1));
    light_all(&mut scene);
    basic_movement(&mut scene, 1);
    assert_eq!(scene.components.render[&1].index, 1);
    scene.components.render.insert(49, entity(6 + 7 * 4));
    scene.player = 49;
    basic_movement(&mut scene, 1);
    assert_eq!(scene.components.render[&1].index, 2 + 7);
    scene.components.render.insert(49, entity(2 + 7 * 6));
    basic_movement(&mut scene, 1);
    assert_eq!(scene.components.render[&1].index, 2 + 7 * 2);
    scene.components.render.insert(49, entity(0 + 7 * 3));
    basic_movement(&mut scene, 1);
    assert_eq!(scene.components.render[&1].index, 1 + 7 * 2);
    scene.components.render.insert(49, entity(1 + 7 * 3));
    basic_movement(&mut scene, 1);
    assert_eq!(scene.components.render[&1].index, 1 + 7 * 2);
    scene.game_map.render_map[1 + 7 * 2].lit = false;
    scene.components.render.insert(49, entity(6));
    basic_movement(&mut scene, 1);
    assert_eq!(scene.components.render[&1].index, 1 + 7 * 2);
    basic_movement(&mut scene, 1234);
    assert_eq!(scene.components.render.len(), 3);
}

#[test]
fn arrow_keys_move_the_player() {
    let mut scene = scene_from(3, 3, "         ", (1, 1));
    let player = scene.player;
    let key = |k| InputEvent::KeyDown { keycode: Some(k) };
    assert_eq!(handle_events(&mut scene, &key(Key::Left)), LoopState::Run);
    assert_eq!(scene.components.render[&player].index, 3);
    assert_eq!(handle_events(&mut scene, &key(Key::Up)), LoopState::Run);
    assert_eq!(scene.components.render[&player].index, 0);
    assert_eq!(handle_events(&mut scene, &key(Key::Up)), LoopState::Run);
    assert_eq!(scene.components.render[&player].index, 0);
    assert_eq!(handle_events(&mut scene, &key(Key::Right)), LoopState::Run);
    assert_eq!(scene.components.render[&player].index, 1);
    assert_eq!(handle_events(&mut scene, &key(Key::Down)), LoopState::Run);
    assert_eq!(scene.components.render[&player].index, 4);
    assert_eq!(scene.loop_state, LoopState::Wait);
}

#[test]
fn other_events_leave_the_player_alone() {
    let mut scene = scene_from(3, 3, "         ", (1, 1));
    let player = scene.player;
    assert_eq!(handle_events(&mut scene, &InputEvent::Quit), LoopState::Quit);
    assert_eq!(
        handle_events(&mut scene, &InputEvent::KeyDown { keycode: Some(Key::Escape) }),
        LoopState::Quit,
    );
    assert_eq!(
        handle_events(&mut scene, &InputEvent::KeyDown { keycode: Some(Key::Other) }),
        LoopState::Wait,
    );
    assert_eq!(handle_events(&mut scene, &InputEvent::KeyDown { keycode: None }), LoopState::Wait);
    assert_eq!(handle_events(&mut scene, &InputEvent::Other), LoopState::Wait);
    assert_eq!(handle_wait(&mut scene, &InputEvent::Other), LoopState::Wait);
    assert_eq!(scene.components.render[&player].index, 4);
    scene.loop_state = LoopState::Run;
    assert_eq!(
        handle_events(&mut scene, &InputEvent::KeyDown { keycode: Some(Key::Left) }),
        LoopState::Wait,
    );
    assert_eq!(handle_events(&mut scene, &InputEvent::Quit), LoopState::Wait);
    scene.loop_state = LoopState::Quit;
    assert_eq!(handle_events(&mut scene, &InputEvent::Quit), LoopState::Wait);
    assert_eq!(scene.components.render[&player].index, 4);
    assert_eq!(move_player(&mut scene, (1, 1)), LoopState::Run);
    assert_eq!(scene.components.render[&player].index, 8);
    assert_eq!(move_player(&mut scene, (1, 1)), LoopState::Run);
    assert_eq!(scene.components.render[&player].index, 8);
}

#[test]
fn events_set_the_state_of_the_loop() {
    let mut scene = scene_from(3, 3, "         ", (1, 1));
    let left = InputEvent::KeyDown { keycode: Some(Key::Left) };
    assert!(!apply_event(&mut scene, &InputEvent::Other));
    assert_eq!(scene.loop_state, LoopState::Wait);
    assert!(!apply_event(&mut scene, &left));
    assert_eq!(scene.loop_state, LoopState::Run);
    assert_eq!(scene.components.render[&scene.player].index, 3);
    assert!(!apply_event(&mut scene, &left));
    assert_eq!(scene.loop_state, LoopState::Wait);
    assert_eq!(scene.components.render[&scene.player].index, 3);
    assert!(apply_event(&mut scene, &InputEvent::Quit));
    assert_eq!(scene.loop_state, LoopState::Wait);
    scene.loop_state = LoopState::Run;
    assert!(!apply_event(&mut scene, &InputEvent::Quit));
    assert_eq!(scene.loop_state, LoopState::Wait);
}

#[test]
fn refreshing_leaves_the_terrain() {
    let mut scene = scene_from(3, 1, "# Z", (1, 0));
    scene.game_map.render_map[1].ent_size = EntitySize::Large;
    scene.game_map.render_map[1].ent_char = '@';
    scene.game_map.render_map[1].lit = true;
    scene.game_map.render_map[1].visited = true;
    scene.game_map.render_map[0].visible = false;
    scene.game_map.render_map[0].lit = true;
    refresh_cells(&mut scene.game_map);
    let cells = &scene.game_map.render_map;
    assert!(cells.iter().all(|c| !c.lit));
    assert_eq!(cells[1].ent_size, EntitySize::Nothing);
    assert_eq!(cells[1].ent_char, ' ');
    assert!(cells[1].visited);
    assert!(!cells[1].visible);
    assert!(cells[0].visible);
    assert_eq!(cells[0].ent_size, EntitySize::Medium);
    assert_eq!(cells[0].ent_char, '#');
    assert!(cells[2].visible);
}

#[test]
fn entities_are_put_on_their_cells() {
    let mut scene = scene_from(3, 1, "  Z", (0, 0));
    scene.components.render.insert(
        40,
        Render { index: 1, size: EntitySize::Small, reper_char: 'r', visible: false },
    );
    place_entities(&mut scene.game_map, &scene.components.render);
    let cells = &scene.game_map.render_map;
    assert_eq!((cells[0].ent_char, cells[0].ent_size, cells[0].visible), ('@', EntitySize::Medium, true));
    assert_eq!((cells[1].ent_char, cells[1].ent_size, cells[1].visible), ('r', EntitySize::Small, false));
    assert_eq!((cells[2].ent_char, cells[2].ent_size, cells[2].visible), ('Z', EntitySize::Medium, true));
    assert!(cells.iter().all(|c| c.terrain_size == EntitySize::Nothing && !c.lit));
}

#[test]
fn a_turn_casts_sight_and_moves_the_zombies() {
    let mut scene = scene_from(5, 5, "Z                        ", (4, 4));
    take_turn(&mut scene);
    assert_eq!(places(&scene.components.render), vec![(1, 0), (26, 24)]);
    assert!(scene.game_map.render_map.iter().all(|c| !c.lit));
    scene.loop_state = LoopState::Run;
    take_turn(&mut scene);
    assert_eq!(scene.loop_state, LoopState::Wait);
    assert_eq!(places(&scene.components.render), vec![(1, 6), (26, 24)]);
    assert!(scene.game_map.render_map.iter().all(|c| c.lit && c.visited));
    assert_eq!(scene.game_map.render_map[0].ent_char, 'Z');
    assert_eq!(scene.game_map.render_map[24].ent_char, '@');
    assert_eq!(scene.game_map.render_map[6].ent_char, ' ');
    scene.loop_state = LoopState::Run;
    take_turn(&mut scene);
    assert_eq!(places(&scene.components.render), vec![(1, 12), (26, 24)]);
    assert_eq!(scene.game_map.render_map[0].ent_char, ' ');
    assert_eq!(scene.game_map.render_map[6].ent_char, 'Z');
    assert_eq!(scene.game_map.render_map[6].ent_size, EntitySize::Medium);
}

#[test]
fn a_wall_keeps_the_zombie_out_of_sight() {
    let mut scene = scene_from(7, 1, "Z  #   ", (6, 0));
    scene.loop_state = LoopState::Run;
    take_turn(&mut scene);
    let lit: Vec<bool> = scene.game_map.render_map.iter().map(|c| c.lit).collect();
    assert_eq!(lit, vec![false, false, false, true, true, true, true]);
    assert_eq!(places(&scene.components.render), vec![(1, 0), (scene.player, 6)]);
    assert_eq!(scene.player, 8);
}

#[test]
fn new_game_is_ready_for_play() {
    let mut scenes = SceneManager::new();
    let mut entitys = Entitys::new();
    let info = MapInfo { column_count: 30, row_count: 30, total_count: 900 };
    let id = new_game(info, &mut scenes, &mut entitys);
    assert_eq!(id, 0);
    assert_eq!(scenes.current_scene, 0);
    assert_eq!(scenes.next_id, 1);
    let scene = scenes.get_current_scene();
    assert!(scene.game_map.is_well_formed());
    assert_eq!(scene.game_map.map_info, info);
    assert_eq!(scene.loop_state, LoopState::Wait);
    let player = scene.components.render[&scene.player];
    assert_eq!(player.reper_char, '@');
    assert!(scene.game_map.render_map[player.index].lit);
    assert!(scene.game_map.render_map[player.index].visited);
    assert_eq!(scene.game_map.render_map[player.index].terrain_char, ' ');
    assert_eq!(scene.components.name[&scene.player].value, "test player");
    assert_eq!(entitys.next_id, scene.player + 1);
    for render in scene.components.render.values() {
        assert!(render.index < 900);
        assert_ne!(scene.game_map.render_map[render.index].ent_char, ' ');
    }
    let second = new_game(info, &mut scenes, &mut entitys);
    assert_eq!(second, 1);
    assert_eq!(scenes.current_scene, 1);
    assert_eq!(scenes.scenes.len(), 2);
}

#[test]
fn lit_cells_are_listed_for_drawing() {
    let mut scene = scene_from(3, 2, " #    ", (2, 1));
    let layout = Layout { column_count: 3, tile_width: 20, tile_height: 16, start_x: 7 };
    assert_eq!(map_plan(&scene.game_map, &layout), vec![]);
    place_entities(&mut scene.game_map, &scene.components.render);
    scene.game_map.render_map[0].lit = true;
    scene.game_map.render_map[1].lit = true;
    scene.game_map.render_map[5].lit = true;
    assert_eq!(
        map_plan(&scene.game_map, &layout),
        vec![
            DrawCell { x: 7, y: 0, glyph: None },
            DrawCell { x: 27, y: 0, glyph: Some('#') },
            DrawCell { x: 47, y: 16, glyph: Some('@') },
        ],
    );
    let shifted = Layout { start_x: -30, ..layout };
    assert_eq!(map_plan(&scene.game_map, &shifted)[2], DrawCell { x: 10, y: 16, glyph: Some('@') });
}

#[test]
fn health_bar_grows_with_the_ratio() {
    assert_eq!(health_bar(&Health { max_value: 10, cur_value: 10 }), 240);
    assert_eq!(health_bar(&Health { max_value: 10, cur_value: 5 }), 480);
    assert_eq!(health_bar(&Health { max_value: 10, cur_value: 3 }), 720);
    assert_eq!(health_bar(&Health { max_value: 10, cur_value: 11 }), 0);
    assert_eq!(health_bar(&Health { max_value: 0, cur_value: 1 }), 0);
    assert_eq!(health_bar(&Health { max_value: -10, cur_value: -5 }), 480);
    assert_eq!(health_bar(&Health { max_value: 3, cur_value: -5 }), 0);
    assert_eq!(health_bar(&Health { max_value: 178_956, cur_value: 1 }), 42_949_440);
    assert_eq!(health_bar(&Health { max_value: 42_949_673, cur_value: 1 }), 9);
    assert_eq!(health_bar(&Health { max_value: -42_949_672, cur_value: 1 }), 230);
    assert_eq!(health_bar(&Health { max_value: isize::MIN, cur_value: isize::MIN }), 240);
}

#[test]
fn side_panel_begins_right_of_the_map() {
    assert_eq!(ui_origin(0, 30, 20), (605, 5));
    assert_eq!(ui_origin(12, 3, 8), (41, 5));
    assert_eq!(ui_origin(-10, 0, 8), (-5, 5));
}
