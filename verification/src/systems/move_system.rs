use crate::components::{EntitySize, Render};
use crate::game_map::{lemma_index_in_range, GameMap};
use crate::scenes::Scene;
use std::collections::HashMap;
use vstd::prelude::*;
use vstd::std_specs::hash::spec_values_iter;
use vstd::std_specs::iter::IteratorSpec;

verus! {

broadcast use vstd::std_specs::hash::group_hash_axioms;

/// Some entity stands on the cell at `index`.
pub open spec fn occupied(render: Map<usize, Render>, index: int) -> bool {
    exists|k: usize| render.contains_key(k) && (#[trigger] render[k]).index == index
}

/// An entity may move onto `(x, y)`: the square is on the grid, its terrain
/// is no larger than `limit`, and nobody stands there.
pub open spec fn can_enter(
    map: &GameMap,
    render: Map<usize, Render>,
    x: int,
    y: int,
    limit: EntitySize,
) -> bool {
    &&& map.spec_in_bounds(x, y)
    &&& map.render_map@[map.spec_index(x, y)].terrain_size.spec_rank() <= limit.spec_rank()
    &&& !occupied(render, map.spec_index(x, y))
}

/// If `(x, y)` is a square of the grid, the map stores a cell for it.
pub open spec fn has_cell(map: &GameMap, x: int, y: int) -> bool {
    map.spec_in_bounds(x, y) ==> map.spec_index(x, y) < map.render_map@.len()
}

/// A well-formed map stores a cell for every square of its grid.
pub proof fn lemma_well_formed_has_cells(map: &GameMap)
    requires
        map.well_formed(),
    ensures
        map.map_info.column_count > 0,
        forall|x: int, y: int| #[trigger] has_cell(map, x, y),
{
    assert forall|x: int, y: int| #[trigger] has_cell(map, x, y) by {
        if map.spec_in_bounds(x, y) {
            lemma_index_in_range(map, x, y);
        }
    }
}

/// The render table after entity `id` has been put on the cell at `index`.
pub open spec fn moved(render: Map<usize, Render>, id: usize, index: int) -> Map<usize, Render> {
    render.insert(id, Render { index: index as usize, ..render[id] })
}

/// Decides whether some entity stands on the cell at `index`.
pub fn is_occupied(render: &HashMap<usize, Render>, index: usize) -> (r: bool)
    ensures
        r == occupied(render@, index as int),
{
    let mut found: bool = false;
    let ghost all = spec_values_iter(render).remaining();
    let ghost mut seen: int = 0;
    for ents in it: render.values()
        invariant
            it.seq() == all,
            seen == it.index(),
            found == (exists|i: int| 0 <= i < seen && (#[trigger] all[i]).index == index),
    {
        if ents.index == index {
            found = true;
        }
        proof {
            seen = seen + 1;
        }
    }
    proof {
        let vals = all.unref();
        assert(vals.to_set() == render@.values());
        if found {
            let i = choose|i: int| 0 <= i < seen && (#[trigger] all[i]).index == index;
            assert(vals[i] == *all[i]);
            assert(vals.to_set().contains(vals[i]));
            assert(render@.values().contains(vals[i]));
            let k = choose|k: usize| render@.contains_key(k) && render@[k] == vals[i];
            assert(render@[k].index == index);
        }
        if occupied(render@, index as int) {
            let k = choose|k: usize|
                render@.contains_key(k) && (#[trigger] render@[k]).index == index as int;
            assert(render@.values().contains(render@[k]));
            assert(vals.to_set().contains(render@[k]));
            assert(vals.contains(render@[k]));
            let i = choose|i: int| 0 <= i < vals.len() && vals[i] == render@[k];
            assert(all[i].index == index);
        }
    }
    found
}

/// Puts entity `entity_id` on the square `to`, if it may enter there past
/// terrain no larger than `Medium`; otherwise nothing moves.
pub fn move_to_system(
    game_map: &mut GameMap,
    render: &mut HashMap<usize, Render>,
    entity_id: usize,
    to: (isize, isize),
)
    requires
        has_cell(old(game_map), to.0 as int, to.1 as int),
        can_enter(old(game_map), old(render)@, to.0 as int, to.1 as int, EntitySize::Medium)
            ==> old(render)@.contains_key(entity_id),
    ensures
        *final(game_map) == *old(game_map),
        final(render)@ == if can_enter(
            old(game_map),
            old(render)@,
            to.0 as int,
            to.1 as int,
            EntitySize::Medium,
        ) {
            moved(old(render)@, entity_id, old(game_map).spec_index(to.0 as int, to.1 as int))
        } else {
            old(render)@
        },
{
    if !game_map.in_bounds(to) {
        return ;
    }
    let stored: usize = game_map.render_map.len();
    proof {
        assert(game_map.map_info.column_count * to.1 >= 0) by (nonlinear_arith)
            requires
                to.1 >= 0,
        ;
    }
    let new_i: usize = to.0 as usize + game_map.map_info.column_count * (to.1 as usize);
    if game_map.render_map[new_i].terrain_size.rank() > EntitySize::Medium.rank() {
        return ;
    }
    if is_occupied(render, new_i) {
        return ;
    }
    let entity: Render = *render.get(&entity_id).unwrap();
    render.insert(entity_id, Render { index: new_i, ..entity });
}

/// The square that entity `id` would stand on after moving by `adjust`.
pub open spec fn step_target(
    map: &GameMap,
    render: Map<usize, Render>,
    id: usize,
    adjust: (isize, isize),
) -> (int, int) {
    let at = render[id].index as int;
    let columns = map.map_info.column_count as int;
    (at % columns + adjust.0, at / columns + adjust.1)
}

/// Entity `id` can try to move by `adjust`: either there is no such entity,
/// or the map has columns and stores a cell for the square that the entity
/// would come to, if that is a square of the grid.
pub open spec fn can_step(
    map: &GameMap,
    render: Map<usize, Render>,
    id: usize,
    adjust: (isize, isize),
) -> bool {
    render.contains_key(id) ==> map.map_info.column_count > 0 && has_cell(
        map,
        step_target(map, render, id, adjust).0,
        step_target(map, render, id, adjust).1,
    )
}

/// On a well-formed map any entity can try any move.
pub proof fn lemma_well_formed_can_step(
    map: &GameMap,
    render: Map<usize, Render>,
    id: usize,
    adjust: (isize, isize),
)
    requires
        map.well_formed(),
    ensures
        can_step(map, render, id, adjust),
{
    lemma_well_formed_has_cells(map);
}

/// The render table after entity `id` has tried to move by `adjust`.
pub open spec fn stepped(
    map: &GameMap,
    render: Map<usize, Render>,
    id: usize,
    adjust: (isize, isize),
) -> Map<usize, Render> {
    let target = step_target(map, render, id, adjust);
    if render.contains_key(id) && can_enter(map, render, target.0, target.1, EntitySize::Small) {
        moved(render, id, map.spec_index(target.0, target.1))
    } else {
        render
    }
}

/// Moves entity `entity_id` by `adjust` squares, if it exists and may enter
/// the square it would come to past terrain no larger than `Small`;
/// otherwise nothing moves.
pub fn move_by_system(
    game_map: &mut GameMap,
    render: &mut HashMap<usize, Render>,
    entity_id: usize,
    adjust: (isize, isize),
)
    requires
        can_step(old(game_map), old(render)@, entity_id, adjust),
    ensures
        *final(game_map) == *old(game_map),
        final(render)@ == stepped(old(game_map), old(render)@, entity_id, adjust),
{
    let column_count: usize = game_map.map_info.column_count;
    let row_count: usize = game_map.map_info.row_count;
    let entity: Render = match render.get(&entity_id) {
        Some(ent) => *ent,
        None => {
            return ;
        },
    };
    let old_i: usize = entity.index;
    let old_x: usize = old_i % column_count;
    let old_y: usize = old_i / column_count;
    let n_x: i128 = old_x as i128 + adjust.0 as i128;
    let n_y: i128 = old_y as i128 + adjust.1 as i128;
    if n_x < 0 || n_y < 0 {
        return ;
    }
    if n_x >= column_count as i128 || n_y >= row_count as i128 {
        return ;
    }
    let stored: usize = game_map.render_map.len();
    proof {
        assert(column_count * n_y >= 0) by (nonlinear_arith)
            requires
                n_y >= 0,
        ;
    }
    let new_i: usize = n_x as usize + column_count * (n_y as usize);
    if game_map.render_map[new_i].terrain_size.rank() > EntitySize::Small.rank() {
        return ;
    }
    if is_occupied(render, new_i) {
        return ;
    }
    render.insert(entity_id, Render { index: new_i, ..entity });
}

/// The scene is `before` but for its render table, which is `render`.
pub open spec fn only_render_differs(
    before: &Scene,
    after: &Scene,
    render: Map<usize, Render>,
) -> bool {
    &&& after.game_map == before.game_map
    &&& after.player == before.player
    &&& after.loop_state == before.loop_state
    &&& after.components.ai == before.components.ai
    &&& after.components.health == before.components.health
    &&& after.components.selected == before.components.selected
    &&& after.components.name == before.components.name
    &&& after.components.render@ == render
}

} // verus!
