use sprite_fight::astar::{
    adjacent_square, is_closed, is_dominated, movement_threshold, Node,
};
use sprite_fight::components::{ComponentStore, EntitySize, Health, Render};
use sprite_fight::entitys::Entitys;
use sprite_fight::fov::{sight_radius, sight_threshold, Ratio};
use sprite_fight::game_map::{GameMap, MapInfo};
use sprite_fight::render::{is_showable, Layout};
use sprite_fight::scenes::{SceneBuilder, SceneManager};
use sprite_fight::systems::ai_system::is_placed;
use sprite_fight::systems::turn_system::{is_playable, is_set_up_possible};
use sprite_fight::tileset::can_cut;
use sprite_fight::init_player;

fn blank_map(columns: usize, rows: usize) -> (GameMap, ComponentStore, Entitys) {
    let mut map = GameMap::new(MapInfo {
        column_count: columns,
        row_count: rows,
        total_count: columns * rows,
    })
    .unwrap();
    let mut components = ComponentStore::default();
    let mut entitys = Entitys::new();
    map.init_map(&mut components, &mut entitys, vec![' '; columns * rows]);
    (map, components, entitys)
}

#[test]
fn usual_thresholds_and_radius() {
    assert_eq!(movement_threshold(), EntitySize::Medium);
    assert_eq!(sight_threshold(), EntitySize::Medium);
    assert_eq!(sight_radius(), 7);
}

#[test]
fn neighbours_are_tried_straight_ones_first() {
    let all: Vec<(isize, isize)> = (0..8).map(adjacent_square).collect();
    assert_eq!(
        all,
        vec![(0, -1), (0, 1), (-1, 0), (1, 0), (-1, -1), (-1, 1), (1, -1), (1, 1)],
    );
}

#[test]
fn cell_edges_have_exact_slopes() {
    let left = Ratio::left(2, 1);
    assert_eq!((left.num, left.den), (3, 3));
    let right = Ratio::right(2, 1);
    assert_eq!((right.num, right.den), (1, 5));
    let near = Ratio::left(1, 0);
    assert_eq!((near.num, near.den), (1, 1));
    let far = Ratio::right(1, 0);
    assert_eq!((far.num, far.den), (-1, 3));
    let deep = Ratio::right(4_294_967_295, 4_294_967_295);
    assert_eq!((deep.num, deep.den), (8_589_934_589, 8_589_934_591));
    let deepest = Ratio::left(1 << 62, (1 << 62) - 1);
    assert_eq!((deepest.num, deepest.den), (i64::MAX, i64::MAX));
    let lowest = Ratio::right(-(1 << 62), -(1 << 62) + 1);
    assert_eq!((lowest.num, lowest.den), (-i64::MAX, -i64::MAX));
}

#[test]
fn slopes_compare_as_fractions() {
    let third = Ratio { num: 1, den: 3 };
    let two_sixths = Ratio { num: 2, den: 6 };
    let half = Ratio { num: 1, den: 2 };
    let below = Ratio { num: -1, den: 1 };
    assert!(third.lt(&half));
    assert!(!half.lt(&third));
    assert!(!third.lt(&two_sixths));
    assert!(!two_sixths.lt(&third));
    assert!(below.lt(&third));
    assert!(!third.lt(&below));
    let wide = Ratio { num: 8_589_934_591, den: 8_589_934_592 };
    let wider = Ratio { num: 8_589_934_592, den: 8_589_934_592 };
    assert!(wide.lt(&wider));
    assert!(!wider.lt(&wide));
    let most = Ratio { num: i64::MAX, den: 1 };
    let half_of_most = Ratio { num: i64::MAX, den: 2 };
    let least = Ratio { num: i64::MIN, den: 1 };
    assert!(half_of_most.lt(&most));
    assert!(!most.lt(&half_of_most));
    assert!(least.lt(&most));
    assert!(!most.lt(&least));
    assert!(!most.lt(&most));
}

#[test]
fn closed_squares_are_found() {
    let closed = vec![(0, 0), (2, 1), (4, 4)];
    assert!(is_closed(&closed, (2, 1)));
    assert!(is_closed(&closed, (4, 4)));
    assert!(!is_closed(&closed, (1, 2)));
    assert!(!is_closed(&closed, (2, 0)));
    assert!(!is_closed(&Vec::new(), (0, 0)));
}

#[test]
fn cheaper_or_equal_open_node_dominates() {
    let mut nodes = vec![Node::new(None, (0, 0)), Node::new(Some(0), (1, 1))];
    nodes[1].g = 3;
    nodes.push(Node::new(Some(0), (2, 2)));
    let open = vec![1];
    assert!(is_dominated(&nodes, &open, (1, 1), 3));
    assert!(is_dominated(&nodes, &open, (1, 1), 4));
    assert!(!is_dominated(&nodes, &open, (1, 1), 2));
    assert!(!is_dominated(&nodes, &open, (2, 2), 9));
    assert!(!is_dominated(&nodes, &open, (0, 0), 9));
    assert!(!is_dominated(&nodes, &Vec::new(), (1, 1), 9));
}

#[test]
fn entities_off_the_map_are_noticed() {
    let (map, mut components, _) = blank_map(3, 2);
    assert!(is_placed(&map, &components.render));
    let on = Render { index: 5, size: EntitySize::Small, reper_char: 'r', visible: true };
    components.render.insert(1, on);
    assert!(is_placed(&map, &components.render));
    components.render.insert(2, Render { index: 6, ..on });
    assert!(!is_placed(&map, &components.render));
}

#[test]
fn a_scene_needs_its_player_to_be_playable() {
    let (map, components, mut entitys) = blank_map(3, 2);
    let mut scene = SceneBuilder::new().set_game_map(map).set_components(components).build();
    assert!(!is_playable(&scene));
    init_player(&mut scene, &mut entitys, (2, 1));
    assert!(is_playable(&scene));
    scene.game_map.render_map.pop();
    assert!(!is_playable(&scene));
    scene.game_map.render_map.push(scene.game_map.render_map[0]);
    assert!(is_playable(&scene));
    scene.components.render.insert(77, Render {
        index: 6,
        size: EntitySize::Small,
        reper_char: 'r',
        visible: true,
    });
    assert!(!is_playable(&scene));
}

#[test]
fn set_up_needs_room_and_identifiers() {
    let scenes = SceneManager::new();
    let mut entitys = Entitys::new();
    let info = |c: usize, r: usize| MapInfo { column_count: c, row_count: r, total_count: c * r };
    assert!(is_set_up_possible(&info(6, 6), &scenes, &entitys));
    assert!(is_set_up_possible(&info(30, 30), &scenes, &entitys));
    assert!(!is_set_up_possible(&info(5, 6), &scenes, &entitys));
    assert!(!is_set_up_possible(&info(6, 5), &scenes, &entitys));
    let wrong = MapInfo { column_count: 6, row_count: 6, total_count: 35 };
    assert!(!is_set_up_possible(&wrong, &scenes, &entitys));
    entitys.next_id = usize::MAX - 73;
    assert!(is_set_up_possible(&info(6, 6), &scenes, &entitys));
    entitys.next_id = usize::MAX - 72;
    assert!(!is_set_up_possible(&info(6, 6), &scenes, &entitys));
    entitys.next_id = 0;
    let mut shown_elsewhere = SceneManager::new();
    shown_elsewhere.current_scene = 4;
    assert!(!is_set_up_possible(&info(6, 6), &shown_elsewhere, &entitys));
    shown_elsewhere.next_id = 4;
    assert!(is_set_up_possible(&info(6, 6), &shown_elsewhere, &entitys));
    shown_elsewhere.next_id = usize::MAX;
    shown_elsewhere.current_scene = usize::MAX;
    assert!(!is_set_up_possible(&info(6, 6), &shown_elsewhere, &entitys));
}

#[test]
fn sheets_must_fit_pixel_coordinates() {
    assert!(can_cut(16, 10, 10, 255));
    assert!(!can_cut(0, 10, 10, 255));
    assert!(can_cut(0, 10, 10, 0));
    assert!(can_cut(2, u32::MAX, u32::MAX, 0));
    assert!(can_cut(2, u32::MAX, u32::MAX, 1));
    assert!(can_cut(2, 0x7fff_ffff, 1, 2));
    assert!(!can_cut(2, 0x8000_0000, 1, 2));
    assert!(can_cut(2, 0x8000_0000, 1, 1));
    assert!(can_cut(3, 0x3fff_ffff, 1, 9));
    assert!(!can_cut(3, 0x4000_0000, 1, 9));
    assert!(can_cut(3, 0x4000_0000, 1, 2));
    assert!(can_cut(1, 1, 0x7fff_ffff, 2));
    assert!(!can_cut(1, 1, 0x7fff_ffff, 3));
    assert!(can_cut(16, 10, 143_165_576, 255));
    assert!(!can_cut(16, 10, 143_165_577, 255));
    assert!(can_cut(16, 10, 143_165_577, 240));
    assert!(can_cut(u32::MAX, 0, 0, u32::MAX));
}

#[test]
fn layouts_must_fit_screen_coordinates() {
    let layout = Layout { column_count: 30, tile_width: 20, tile_height: 20, start_x: 0 };
    assert!(layout.can_hold(900));
    assert!(!Layout { column_count: 0, ..layout }.can_hold(900));
    assert!(Layout { column_count: 0, ..layout }.can_hold(0));
    assert!(Layout { start_x: i32::MAX - 580, ..layout }.can_hold(900));
    assert!(!Layout { start_x: i32::MAX - 579, ..layout }.can_hold(900));
    assert!(Layout { start_x: i32::MAX - 579, ..layout }.can_hold(29));
    assert!(Layout { start_x: i32::MAX, ..layout }.can_hold(1));
    assert!(Layout { start_x: i32::MIN, tile_width: u32::MAX, column_count: 2, ..layout }
        .can_hold(2));
    assert!(!Layout { start_x: i32::MIN, tile_width: u32::MAX, column_count: 3, ..layout }
        .can_hold(3));
    assert!(Layout { tile_height: 74_051_160, ..layout }.can_hold(900));
    assert!(!Layout { tile_height: 74_051_161, ..layout }.can_hold(900));
    assert!(Layout { tile_height: 74_051_161, ..layout }.can_hold(870));
    assert!(Layout { column_count: 1, tile_height: 0, ..layout }.can_hold(usize::MAX));
    assert!(!Layout { column_count: 1, tile_height: 1, ..layout }.can_hold(usize::MAX));
    assert!(Layout { column_count: 1, tile_height: 1, ..layout }.can_hold(0x8000_0000));
    assert!(!Layout { column_count: 1, tile_height: 1, ..layout }.can_hold(0x8000_0001));
}

#[test]
fn health_must_be_held_to_be_shown() {
    assert!(is_showable(&Health { max_value: 10, cur_value: 10 }));
    assert!(is_showable(&Health { max_value: 0, cur_value: 1 }));
    assert!(!is_showable(&Health { max_value: 10, cur_value: 0 }));
    assert!(!is_showable(&Health { max_value: 0, cur_value: 0 }));
    assert!(!is_showable(&Health { max_value: 10, cur_value: -1 }));
    assert!(!is_showable(&Health { max_value: -1, cur_value: 1 }));
    assert!(is_showable(&Health { max_value: -10, cur_value: -5 }));
    assert!(is_showable(&Health { max_value: 3, cur_value: -5 }));
    assert!(is_showable(&Health { max_value: -3, cur_value: 5 }));
    assert!(is_showable(&Health { max_value: 170_001, cur_value: 1 }));
    assert!(is_showable(&Health { max_value: 178_956, cur_value: 1 }));
    assert!(!is_showable(&Health { max_value: 178_957, cur_value: 1 }));
    assert!(is_showable(&Health { max_value: 357_913, cur_value: 2 }));
    assert!(!is_showable(&Health { max_value: 357_914, cur_value: 2 }));
    assert!(is_showable(&Health { max_value: 42_949_673, cur_value: 1 }));
    assert!(is_showable(&Health { max_value: -42_949_672, cur_value: 1 }));
    assert!(!is_showable(&Health { max_value: isize::MIN, cur_value: -1 }));
    assert!(!is_showable(&Health { max_value: isize::MIN, cur_value: 1 }));
    assert!(!is_showable(&Health { max_value: isize::MAX, cur_value: 1 }));
    assert!(is_showable(&Health { max_value: isize::MAX, cur_value: isize::MAX }));
    assert!(is_showable(&Health { max_value: isize::MIN, cur_value: isize::MIN }));
}
