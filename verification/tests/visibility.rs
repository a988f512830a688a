use sprite_fight::components::EntitySize;
use sprite_fight::fov::{compute_visibility, fov};
use sprite_fight::game_map::{GameMap, MapError, MapInfo, RenderCell};

fn clear_cell() -> RenderCell {
    RenderCell {
        lit: false,
        visible: false,
        visited: false,
        ent_size: EntitySize::Nothing,
        ent_char: ' ',
        terrain_size: EntitySize::Nothing,
        terrain_char: ' ',
    }
}

fn clear_map(columns: usize, rows: usize) -> GameMap {
    let mut map = GameMap::new(MapInfo {
        column_count: columns,
        row_count: rows,
        total_count: columns * rows,
    })
    .unwrap();
    for _ in 0..columns * rows {
        map.render_map.push(clear_cell());
        map.terrain_map.push(0);
    }
    map
}

fn wall(map: &mut GameMap, x: usize, y: usize) {
    let at = x + map.map_info.column_count * y;
    map.render_map[at].ent_size = EntitySize::Large;
}

fn lit(map: &GameMap, x: usize, y: usize) -> bool {
    map.render_map[x + map.map_info.column_count * y].lit
}

fn lit_flags(map: &GameMap) -> Vec<bool> {
    map.render_map.iter().map(|c| c.lit).collect()
}

fn visited_flags(map: &GameMap) -> Vec<bool> {
    map.render_map.iter().map(|c| c.visited).collect()
}

fn darken(map: &mut GameMap) {
    for c in map.render_map.iter_mut() {
        c.lit = false;
    }
}

#[test]
fn clear_grid_is_lit_all_over() {
    let mut map = clear_map(5, 5);
    assert_eq!(compute_visibility(&mut map, (2, 2), 3, EntitySize::Medium), Ok(()));
    assert_eq!(lit_flags(&map), vec![true; 25]);
    assert_eq!(visited_flags(&map), vec![true; 25]);
}

#[test]
fn wall_to_the_north_hides_what_lies_behind_it() {
    let mut map = clear_map(5, 5);
    wall(&mut map, 2, 1);
    assert_eq!(compute_visibility(&mut map, (2, 2), 3, EntitySize::Medium), Ok(()));
    assert!(!lit(&map, 2, 0));
    assert!(lit(&map, 2, 2));
    assert!(lit(&map, 2, 1));
    assert!(lit(&map, 1, 2));
    assert!(lit(&map, 3, 2));
    assert!(lit(&map, 2, 3));
    assert!(lit(&map, 1, 1));
    assert!(lit(&map, 3, 1));
    assert!(lit(&map, 1, 3));
    assert!(lit(&map, 3, 3));
    let lit_count = lit_flags(&map).iter().filter(|l| **l).count();
    assert_eq!(lit_count, 24);
}

#[test]
fn radius_cuts_the_corners_off() {
    let mut map = clear_map(7, 7);
    assert_eq!(compute_visibility(&mut map, (3, 3), 3, EntitySize::Medium), Ok(()));
    for y in 0..7usize {
        for x in 0..7usize {
            let dx = x as isize - 3;
            let dy = y as isize - 3;
            assert_eq!(lit(&map, x, y), dx * dx + dy * dy <= 9, "at ({}, {})", x, y);
        }
    }
}

#[test]
fn radius_of_one_lights_the_four_straight_neighbours() {
    let mut map = clear_map(3, 3);
    assert_eq!(compute_visibility(&mut map, (1, 1), 1, EntitySize::Medium), Ok(()));
    assert_eq!(
        lit_flags(&map),
        vec![false, true, false, true, true, true, false, true, false],
    );
}

#[test]
fn second_pass_changes_nothing() {
    let mut map = clear_map(9, 9);
    wall(&mut map, 4, 2);
    wall(&mut map, 5, 5);
    wall(&mut map, 2, 4);
    compute_visibility(&mut map, (4, 4), 4, EntitySize::Medium).unwrap();
    let once = lit_flags(&map);
    let once_visited = visited_flags(&map);
    compute_visibility(&mut map, (4, 4), 4, EntitySize::Medium).unwrap();
    assert_eq!(lit_flags(&map), once);
    assert_eq!(visited_flags(&map), once_visited);
    darken(&mut map);
    compute_visibility(&mut map, (4, 4), 4, EntitySize::Medium).unwrap();
    assert_eq!(lit_flags(&map), once);
}

#[test]
fn visited_cells_stay_visited() {
    let mut map = clear_map(12, 3);
    compute_visibility(&mut map, (1, 1), 2, EntitySize::Medium).unwrap();
    let first = visited_flags(&map);
    darken(&mut map);
    compute_visibility(&mut map, (10, 1), 2, EntitySize::Medium).unwrap();
    let second = visited_flags(&map);
    for i in 0..first.len() {
        assert!(!first[i] || second[i]);
    }
    assert!(second[1 + 12]);
    assert!(second[10 + 12]);
    assert!(!lit(&map, 1, 1));
    assert!(lit(&map, 10, 1));
    assert!(!second[5 + 12]);
}

#[test]
fn light_is_only_added() {
    let mut map = clear_map(12, 1);
    map.render_map[11].lit = true;
    compute_visibility(&mut map, (0, 0), 2, EntitySize::Medium).unwrap();
    assert_eq!(
        lit_flags(&map),
        vec![true, true, true, false, false, false, false, false, false, false, false, true],
    );
    assert!(!map.render_map[11].visited);
}

#[test]
fn occupants_and_terrain_are_left_alone() {
    let mut map = clear_map(5, 5);
    wall(&mut map, 1, 1);
    map.render_map[7].terrain_size = EntitySize::Small;
    map.render_map[7].ent_char = 'x';
    let before: Vec<RenderCell> = map.render_map.clone();
    compute_visibility(&mut map, (2, 2), 3, EntitySize::Medium).unwrap();
    for (now, then) in map.render_map.iter().zip(before.iter()) {
        assert_eq!(now.ent_size, then.ent_size);
        assert_eq!(now.terrain_size, then.terrain_size);
        assert_eq!(now.ent_char, then.ent_char);
        assert_eq!(now.terrain_char, then.terrain_char);
        assert_eq!(now.visible, then.visible);
    }
}

#[test]
fn sight_threshold_decides_what_is_opaque() {
    let mut map = clear_map(5, 1);
    map.render_map[2].ent_size = EntitySize::Small;
    compute_visibility(&mut map, (0, 0), 4, EntitySize::Medium).unwrap();
    assert_eq!(lit_flags(&map), vec![true; 5]);
    let mut map = clear_map(5, 1);
    map.render_map[2].ent_size = EntitySize::Small;
    compute_visibility(&mut map, (0, 0), 4, EntitySize::Small).unwrap();
    assert_eq!(lit_flags(&map), vec![true, true, true, false, false]);
}

#[test]
fn usual_pass_sees_seven_squares_far() {
    let mut map = clear_map(20, 1);
    assert_eq!(fov(&mut map, (0, 0)), Ok(()));
    for x in 0..20 {
        assert_eq!(lit(&map, x, 0), x <= 7);
    }
    let mut map = clear_map(20, 1);
    map.render_map[3].ent_size = EntitySize::Medium;
    assert_eq!(fov(&mut map, (0, 0)), Ok(()));
    for x in 0..20 {
        assert_eq!(lit(&map, x, 0), x <= 3);
    }
    let mut map = clear_map(20, 1);
    map.render_map[3].ent_size = EntitySize::Small;
    assert_eq!(fov(&mut map, (0, 0)), Ok(()));
    for x in 0..20 {
        assert_eq!(lit(&map, x, 0), x <= 7);
    }
}

#[test]
fn bad_queries_are_refused_and_change_nothing() {
    let mut map = clear_map(4, 4);
    assert_eq!(
        compute_visibility(&mut map, (4, 0), 3, EntitySize::Medium),
        Err(MapError::OutOfBounds),
    );
    assert_eq!(
        compute_visibility(&mut map, (0, 4), 3, EntitySize::Medium),
        Err(MapError::OutOfBounds),
    );
    assert_eq!(
        compute_visibility(&mut map, (1, 1), 0, EntitySize::Medium),
        Err(MapError::InvalidRadius),
    );
    assert_eq!(lit_flags(&map), vec![false; 16]);
    let mut empty =
        GameMap::new(MapInfo { column_count: 4, row_count: 4, total_count: 16 }).unwrap();
    assert_eq!(fov(&mut empty, (0, 0)), Err(MapError::MalformedMap));
    assert_eq!(empty.render_map.len(), 0);
}

#[test]
fn wall_next_to_the_viewer_hides_the_line_behind_it() {
    for (dx, dy) in [(0isize, -1isize), (0, 1), (-1, 0), (1, 0)] {
        let mut map = clear_map(9, 9);
        wall(&mut map, (4 + dx) as usize, (4 + dy) as usize);
        compute_visibility(&mut map, (4, 4), 4, EntitySize::Medium).unwrap();
        assert!(lit(&map, (4 + dx) as usize, (4 + dy) as usize));
        for step in 2..=4 {
            assert!(!lit(&map, (4 + step * dx) as usize, (4 + step * dy) as usize));
            assert!(lit(&map, (4 - step * dx) as usize, (4 - step * dy) as usize));
        }
    }
}

#[test]
fn nothing_is_lit_beyond_the_radius_whatever_stands_in_the_way() {
    let mut map = clear_map(11, 11);
    wall(&mut map, 4, 5);
    wall(&mut map, 6, 6);
    wall(&mut map, 5, 3);
    wall(&mut map, 7, 4);
    compute_visibility(&mut map, (5, 5), 3, EntitySize::Medium).unwrap();
    for y in 0..11usize {
        for x in 0..11usize {
            let dx = x as isize - 5;
            let dy = y as isize - 5;
            if dx * dx + dy * dy > 9 {
                assert!(!lit(&map, x, y), "at ({}, {})", x, y);
            }
        }
    }
    assert!(lit(&map, 5, 5));
    assert!(!lit(&map, 2, 5));
    assert!(!lit(&map, 3, 5));
}
