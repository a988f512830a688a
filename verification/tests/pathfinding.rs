use sprite_fight::astar::{astar, find_path, heuristic, make_path, pick_lowest, Node};
use sprite_fight::components::EntitySize;
use sprite_fight::game_map::{GameMap, MapError, MapInfo, RenderCell};

fn cell(size: EntitySize) -> RenderCell {
    RenderCell {
        lit: false,
        visible: false,
        visited: false,
        ent_size: size,
        ent_char: ' ',
        terrain_size: size,
        terrain_char: ' ',
    }
}

fn open_map(columns: usize, rows: usize) -> GameMap {
    let mut map = GameMap::new(MapInfo {
        column_count: columns,
        row_count: rows,
        total_count: columns * rows,
    })
    .unwrap();
    for _ in 0..columns * rows {
        map.render_map.push(cell(EntitySize::Nothing));
        map.terrain_map.push(0);
    }
    map
}

fn block(map: &mut GameMap, x: usize, y: usize, size: EntitySize) {
    let at = x + map.map_info.column_count * y;
    map.render_map[at].ent_size = size;
}

fn one_move_apart(a: (isize, isize), b: (isize, isize)) -> bool {
    let dx = (a.0 - b.0).abs();
    let dy = (a.1 - b.1).abs();
    dx <= 1 && dy <= 1 && (dx, dy) != (0, 0)
}

#[test]
fn empty_grid_route_runs_along_the_diagonal() {
    let map = open_map(5, 5);
    let path = astar(&map, (0, 0), (4, 4)).unwrap().unwrap();
    assert_eq!(path.len(), 5);
    assert_eq!(path, vec![(4, 4), (3, 3), (2, 2), (1, 1), (0, 0)]);
    assert_eq!(*path.first().unwrap(), (4, 4));
    assert_eq!(*path.last().unwrap(), (0, 0));
}

#[test]
fn route_moves_one_square_at_a_time() {
    let mut map = open_map(9, 9);
    for y in 0..3 {
        block(&mut map, 4, y, EntitySize::Large);
    }
    let path = astar(&map, (0, 0), (8, 0)).unwrap().unwrap();
    let mut forward = path.clone();
    forward.reverse();
    assert_eq!(forward[0], (0, 0));
    assert_eq!(*forward.last().unwrap(), (8, 0));
    for pair in forward.windows(2) {
        assert!(one_move_apart(pair[0], pair[1]));
    }
    for square in &forward[1..forward.len() - 1] {
        assert!(map.passable(*square, EntitySize::Medium));
    }
    assert!(forward.iter().any(|square| square.0 == 4 && square.1 >= 3));
    for (i, square) in forward.iter().enumerate() {
        assert!(!forward[i + 1..].contains(square));
    }
    assert!(path.len() <= 9 * 9 / 2);
}

#[test]
fn walled_in_goal_has_no_route() {
    let mut map = open_map(7, 7);
    for (dx, dy) in [(-1, -1), (0, -1), (1, -1), (-1, 0), (1, 0), (-1, 1), (0, 1), (1, 1)] {
        block(&mut map, (3 + dx) as usize, (3 + dy) as usize, EntitySize::Medium);
    }
    assert_eq!(astar(&map, (0, 0), (3, 3)), Ok(None));
}

#[test]
fn occupied_goal_can_be_entered() {
    let mut map = open_map(5, 5);
    block(&mut map, 4, 4, EntitySize::Large);
    block(&mut map, 0, 0, EntitySize::Medium);
    let path = astar(&map, (0, 0), (4, 4)).unwrap().unwrap();
    assert_eq!(path.len(), 5);
    assert_eq!(path[0], (4, 4));
}

#[test]
fn long_corridor_runs_out_of_budget() {
    let map = open_map(20, 1);
    assert_eq!(astar(&map, (0, 0), (19, 0)), Ok(None));
    let near = astar(&map, (0, 0), (9, 0)).unwrap().unwrap();
    assert_eq!(near.len(), 10);
    assert_eq!(astar(&map, (0, 0), (10, 0)), Ok(None));
}

#[test]
fn start_on_goal_is_a_route_of_one_square() {
    let map = open_map(3, 3);
    assert_eq!(astar(&map, (1, 1), (1, 1)), Ok(Some(vec![(1, 1)])));
}

#[test]
fn single_cell_map_has_no_budget() {
    let map = open_map(1, 1);
    assert_eq!(astar(&map, (0, 0), (0, 0)), Ok(None));
}

#[test]
fn end_points_off_the_grid_are_refused() {
    let map = open_map(5, 5);
    assert_eq!(astar(&map, (-1, 0), (4, 4)), Err(MapError::OutOfBounds));
    assert_eq!(astar(&map, (0, 0), (5, 4)), Err(MapError::OutOfBounds));
    assert_eq!(astar(&map, (0, 0), (4, 5)), Err(MapError::OutOfBounds));
    assert_eq!(astar(&map, (0, 5), (4, 4)), Err(MapError::OutOfBounds));
}

#[test]
fn coordinates_are_not_measured_against_the_cell_count() {
    // On a 3 x 3 map the square (3, 1) has a row-major position below the
    // cell count, yet it is not on the grid.
    let mut map = open_map(3, 3);
    block(&mut map, 1, 0, EntitySize::Large);
    block(&mut map, 1, 1, EntitySize::Large);
    block(&mut map, 1, 2, EntitySize::Large);
    assert_eq!(astar(&map, (0, 0), (2, 0)), Ok(None));
    assert!(!map.in_bounds((3, 1)));
    assert!(!map.passable((3, 1), EntitySize::Medium));
}

#[test]
fn malformed_maps_are_refused() {
    let empty =
        GameMap::new(MapInfo { column_count: 5, row_count: 5, total_count: 25 }).unwrap();
    assert_eq!(astar(&empty, (0, 0), (1, 1)), Err(MapError::MalformedMap));
    let mut wrong_total = open_map(2, 2);
    wrong_total.map_info.total_count = 5;
    assert_eq!(astar(&wrong_total, (0, 0), (1, 1)), Err(MapError::MalformedMap));
    let no_columns = GameMap {
        terrain_map: Vec::new(),
        render_map: Vec::new(),
        map_info: MapInfo { column_count: 0, row_count: 5, total_count: 0 },
    };
    assert_eq!(astar(&no_columns, (0, 0), (0, 0)), Err(MapError::MalformedMap));
    let no_rows = GameMap {
        terrain_map: Vec::new(),
        render_map: Vec::new(),
        map_info: MapInfo { column_count: 5, row_count: 0, total_count: 0 },
    };
    assert_eq!(astar(&no_rows, (0, 0), (0, 0)), Err(MapError::MalformedMap));
}

#[test]
fn threshold_decides_what_blocks() {
    let mut map = open_map(3, 1);
    block(&mut map, 1, 0, EntitySize::Small);
    assert_eq!(
        find_path(&map, (0, 0), (2, 0), EntitySize::Medium),
        Ok(None),
    );
    let mut wide = open_map(6, 1);
    block(&mut wide, 1, 0, EntitySize::Small);
    assert_eq!(
        find_path(&wide, (0, 0), (2, 0), EntitySize::Medium),
        Ok(Some(vec![(2, 0), (1, 0), (0, 0)])),
    );
    assert_eq!(find_path(&wide, (0, 0), (2, 0), EntitySize::Small), Ok(None));
    assert_eq!(
        find_path(&wide, (0, 0), (1, 0), EntitySize::Small),
        Ok(Some(vec![(1, 0), (0, 0)])),
    );
}

#[test]
fn heuristic_is_the_squared_distance() {
    assert_eq!(heuristic((0, 0), (3, 4)), 25);
    assert_eq!(heuristic((3, 4), (0, 0)), 25);
    assert_eq!(heuristic((2, 2), (2, 2)), 0);
    assert_eq!(heuristic((1, 5), (4, 5)), 9);
    assert_eq!(heuristic((-3, -4), (0, 0)), 25);
    assert_eq!(heuristic((-2, 7), (1, 3)), 25);
    assert_eq!(
        heuristic((isize::MIN, 0), (isize::MAX, 0)),
        (u64::MAX as u128) * (u64::MAX as u128),
    );
}

#[test]
fn new_node_has_no_cost() {
    let node = Node::new(Some(3), (2, 5));
    assert_eq!(node.parent, Some(3));
    assert_eq!(node.position, (2, 5));
    assert_eq!((node.g, node.h, node.f), (0, 0, 0));
}

#[test]
fn lowest_cost_is_picked_first_found() {
    let mut nodes = Vec::new();
    for f in [5u128, 3, 7, 3] {
        let mut node = Node::new(None, (0, 0));
        node.f = f;
        nodes.push(node);
    }
    assert_eq!(pick_lowest(&nodes, &vec![0, 1, 2, 3]), 1);
    assert_eq!(pick_lowest(&nodes, &vec![3, 2, 1, 0]), 0);
    assert_eq!(pick_lowest(&nodes, &vec![2, 0]), 1);
}

#[test]
fn path_follows_parents_to_the_root() {
    let mut nodes = vec![Node::new(None, (0, 0)), Node::new(Some(0), (1, 0))];
    nodes.push(Node::new(Some(0), (0, 1)));
    nodes.push(Node::new(Some(2), (1, 2)));
    assert_eq!(make_path(&nodes, 3), vec![(1, 2), (0, 1), (0, 0)]);
    assert_eq!(make_path(&nodes, 1), vec![(1, 0), (0, 0)]);
    assert_eq!(make_path(&nodes, 0), vec![(0, 0)]);
}
