use sprite_fight::components::ComponentStore;
use sprite_fight::entitys::Entitys;
use sprite_fight::game_map::MapInfo;
use sprite_fight::map_gen::basic_dungeon::{
    basic_gen, carve_corridors, carve_room, carved_mark, rock,
};
use sprite_fight::map_gen::generator::{MapGen, MapRect, MapType};

fn grid(columns: usize, rows: usize) -> Vec<char> {
    vec!['#'; columns * rows]
}

fn text(chars: &[char], columns: usize) -> Vec<String> {
    chars.chunks(columns).map(|row| row.iter().collect()).collect()
}

#[test]
fn rectangle_spans_from_corner_to_corner() {
    let rect = MapRect::new(2, 3, 4, 5);
    assert_eq!(rect, MapRect { x1: 2, y1: 3, x2: 6, y2: 8 });
    assert_eq!(MapRect::new(0, 0, 0, 0), MapRect { x1: 0, y1: 0, x2: 0, y2: 0 });
}

#[test]
fn center_is_the_rounded_down_middle() {
    assert_eq!(MapRect::new(2, 3, 4, 5).center(), (4, 5));
    assert_eq!(MapRect { x1: 1, y1: 1, x2: 2, y2: 4 }.center(), (1, 2));
    assert_eq!(MapRect { x1: 3, y1: 5, x2: 3, y2: 5 }.center(), (3, 5));
    assert_eq!(
        MapRect { x1: usize::MAX, y1: usize::MAX - 1, x2: usize::MAX, y2: usize::MAX }.center(),
        (usize::MAX, usize::MAX - 1),
    );
}

#[test]
fn rectangles_that_touch_intersect() {
    let a = MapRect { x1: 2, y1: 2, x2: 4, y2: 4 };
    assert!(a.intersects(&a));
    assert!(a.intersects(&MapRect { x1: 4, y1: 4, x2: 6, y2: 6 }));
    assert!(a.intersects(&MapRect { x1: 0, y1: 0, x2: 2, y2: 2 }));
    assert!(a.intersects(&MapRect { x1: 3, y1: 0, x2: 3, y2: 9 }));
    assert!(!a.intersects(&MapRect { x1: 5, y1: 2, x2: 7, y2: 4 }));
    assert!(!a.intersects(&MapRect { x1: 2, y1: 5, x2: 4, y2: 7 }));
    assert!(!a.intersects(&MapRect { x1: 0, y1: 0, x2: 1, y2: 9 }));
    assert!(!a.intersects(&MapRect { x1: 0, y1: 0, x2: 9, y2: 1 }));
}

#[test]
fn room_is_carved_square_by_square() {
    let mut chars = grid(5, 4);
    carve_room(&MapRect { x1: 1, y1: 1, x2: 3, y2: 2 }, &mut chars, 5);
    assert_eq!(text(&chars, 5), vec!["#####", "#ZZZ#", "#ZZZ#", "#####"]);
    carve_room(&MapRect { x1: 4, y1: 0, x2: 4, y2: 0 }, &mut chars, 5);
    assert_eq!(text(&chars, 5), vec!["####Z", "#ZZZ#", "#ZZZ#", "#####"]);
    assert_eq!(carved_mark(), 'Z');
    assert_eq!(rock(), '#');
    carve_room(&MapRect { x1: 3, y1: 0, x2: 2, y2: 9 }, &mut chars, 5);
    carve_room(&MapRect { x1: 0, y1: 9, x2: 9, y2: 2 }, &mut chars, 5);
    assert_eq!(text(&chars, 5), vec!["####Z", "#ZZZ#", "#ZZZ#", "#####"]);
}

#[test]
fn corridors_meet_at_either_corner() {
    let past = MapRect { x1: 0, y1: 0, x2: 2, y2: 2 };
    let next = MapRect { x1: 4, y1: 3, x2: 6, y2: 5 };
    let mut chars = grid(8, 6);
    carve_corridors(&past, &next, true, &mut chars, 8);
    assert_eq!(
        text(&chars, 8),
        vec!["########", "#ZZZZZ##", "#####Z##", "#####Z##", "#####Z##", "########"],
    );
    let mut chars = grid(8, 6);
    carve_corridors(&past, &next, false, &mut chars, 8);
    assert_eq!(
        text(&chars, 8),
        vec!["########", "#Z######", "#Z######", "#Z######", "#ZZZZZ##", "########"],
    );
    let mut chars = grid(8, 6);
    carve_corridors(&next, &past, false, &mut chars, 8);
    assert_eq!(
        text(&chars, 8),
        vec!["########", "#ZZZZZ##", "#####Z##", "#####Z##", "#####Z##", "########"],
    );
}

#[test]
fn generated_dungeon_is_rock_with_carved_rooms() {
    let mut rng = rand::thread_rng();
    for _ in 0..20 {
        let (chars, center) = basic_gen(&mut rng, 30, 20, 600);
        assert_eq!(chars.len(), 600);
        assert!(chars.iter().all(|c| *c == '#' || *c == 'Z'));
        assert!(center.0 < 29 && center.1 < 19);
        assert_eq!(chars[center.0 + 30 * center.1], 'Z');
        let carved = chars.iter().filter(|c| **c == 'Z').count();
        assert!(carved >= 16);
        for y in 0..20 {
            assert_eq!(chars[29 + 30 * y], '#');
        }
        for x in 0..30 {
            assert_eq!(chars[x + 30 * 19], '#');
        }
    }
}

#[test]
fn first_room_is_three_or_four_squares_across() {
    let mut rng = rand::thread_rng();
    for _ in 0..20 {
        let (chars, center) = basic_gen(&mut rng, 6, 6, 36);
        let rows = text(&chars, 6);
        assert!(rows.iter().all(|row| row.ends_with('#')));
        assert_eq!(rows[5], "######");
        assert!(center.0 >= 1 && center.0 <= 2);
        assert!(center.1 >= 1 && center.1 <= 2);
        assert_eq!(chars[1 + 6 * 1], 'Z');
        assert_eq!(chars[3 + 6 * 3], 'Z');
    }
}

#[test]
fn generator_keeps_its_settings() {
    let info = MapInfo { column_count: 30, row_count: 30, total_count: 900 };
    let gen = MapGen::new(MapType::Basic, info);
    assert_eq!(gen.map_type, MapType::Basic);
    assert_eq!(gen.map_info, info);
}

#[test]
fn made_map_matches_its_entities() {
    let info = MapInfo { column_count: 12, row_count: 9, total_count: 108 };
    let mut components = ComponentStore::default();
    let mut entitys = Entitys::new();
    let (map, center) = MapGen::new(MapType::Basic, info).make_map(&mut components, &mut entitys);
    assert!(map.is_well_formed());
    assert_eq!(map.map_info, info);
    assert!(map.in_bounds((center.0 as isize, center.1 as isize)));
    assert_eq!(map.terrain_map.len(), 108);
    let lairs = map.render_map.iter().filter(|c| c.terrain_char == ' ').count();
    let rocks = map.render_map.iter().filter(|c| c.terrain_char == '#').count();
    assert_eq!(lairs + rocks, 108);
    assert_eq!(components.ai.len(), lairs);
    assert_eq!(components.render.len(), lairs);
    assert_eq!(entitys.next_id, 108 + lairs);
    assert_eq!(map.render_map[center.0 + 12 * center.1].terrain_char, ' ');
    for (id, render) in components.render.iter() {
        assert!(components.ai.contains_key(id));
        assert_eq!(map.render_map[render.index].terrain_char, ' ');
        assert_eq!(map.terrain_map[render.index] + 1, *id);
    }
    assert!(components.health.is_empty());
}

#[test]
fn generated_dungeon_is_of_one_piece() {
    let mut rng = rand::thread_rng();
    for _ in 0..20 {
        let (chars, center) = basic_gen(&mut rng, 40, 25, 1000);
        let mut reached = vec![false; 1000];
        let mut pending = vec![center];
        reached[center.0 + 40 * center.1] = true;
        while let Some((x, y)) = pending.pop() {
            let mut around = vec![(x + 1, y), (x, y + 1)];
            if x > 0 {
                around.push((x - 1, y));
            }
            if y > 0 {
                around.push((x, y - 1));
            }
            for (nx, ny) in around {
                if nx < 40 && ny < 25 && chars[nx + 40 * ny] == 'Z' && !reached[nx + 40 * ny] {
                    reached[nx + 40 * ny] = true;
                    pending.push((nx, ny));
                }
            }
        }
        for i in 0..1000 {
            assert_eq!(reached[i], chars[i] == 'Z', "at {}", i);
        }
    }
}
