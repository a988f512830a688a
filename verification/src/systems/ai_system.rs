use crate::astar::{astar, movement_threshold, route, valid_route};
use crate::components::{Ai, EntitySize, Render};
use crate::game_map::{lemma_index_in_range, GameMap};
use crate::scenes::Scene;
use crate::systems::move_system::{
    can_enter, lemma_well_formed_can_step, lemma_well_formed_has_cells, move_by_system,
    move_to_system, moved, only_render_differs, stepped,
};
use std::collections::HashMap;
use vstd::prelude::*;
use vstd::std_specs::hash::{spec_keys_iter, spec_values_iter};
use vstd::std_specs::iter::IteratorSpec;

verus! {

broadcast use vstd::std_specs::hash::group_hash_axioms;

/// Every entity stands on a cell of the map.
pub open spec fn placed(map: &GameMap, render: Map<usize, Render>) -> bool {
    forall|k: usize| render.contains_key(k) ==> (#[trigger] render[k]).index < map.render_map@.len()
}

/// Decides whether every entity stands on a cell of the map.
pub fn is_placed(map: &GameMap, render: &HashMap<usize, Render>) -> (r: bool)
    ensures
        r == placed(map, render@),
{
    let count: usize = map.render_map.len();
    let mut all_placed: bool = true;
    let ghost all = spec_values_iter(render).remaining();
    let ghost mut seen: int = 0;
    for ent in it: render.values()
        invariant
            it.seq() == all,
            seen == it.index(),
            count == map.render_map@.len(),
            all_placed == (forall|i: int| 0 <= i < seen ==> (#[trigger] all[i]).index < count),
    {
        if ent.index >= count {
            all_placed = false;
        }
        proof {
            seen = seen + 1;
        }
    }
    proof {
        let vals = all.unref();
        assert(vals.to_set() == render@.values());
        if all_placed {
            assert forall|k: usize| render@.contains_key(k) implies (#[trigger] render@[k]).index
                < count by {
                assert(render@.values().contains(render@[k]));
                assert(vals.to_set().contains(render@[k]));
                assert(vals.contains(render@[k]));
                let i = choose|i: int| 0 <= i < vals.len() && vals[i] == render@[k];
                assert(all[i].index < count);
            }
        } else {
            let i = choose|i: int| 0 <= i < seen && !((#[trigger] all[i]).index < count);
            assert(vals[i] == *all[i]);
            assert(vals.to_set().contains(vals[i]));
            assert(render@.values().contains(vals[i]));
            let k = choose|k: usize| render@.contains_key(k) && render@[k] == vals[i];
            assert(!(render@[k].index < count));
        }
    }
    all_placed
}

/// The square of the cell at `index`.
pub open spec fn square_of(map: &GameMap, index: usize) -> (isize, isize) {
    (
        (index as int % map.map_info.column_count as int) as isize,
        (index as int / map.map_info.column_count as int) as isize,
    )
}

/// The render table after the AI entity `ai_id` has had its turn. An entity
/// that has no place on the map, or stands on an unlit cell, stays where it
/// is. Otherwise it looks for a route to `goal` and takes the first step of
/// it, which is the last square but one of the route, if it may enter
/// there.
pub open spec fn ai_step(
    map: &GameMap,
    render: Map<usize, Render>,
    goal: (isize, isize),
    ai_id: usize,
) -> Map<usize, Render> {
    if !render.contains_key(ai_id) || !map.render_map@[render[ai_id].index as int].lit {
        render
    } else {
        match route(map, square_of(map, render[ai_id].index), goal, movement_threshold()) {
            None => render,
            Some(path) => {
                if path.len() < 2 {
                    render
                } else {
                    let next = path[path.len() - 2];
                    if can_enter(map, render, next.0 as int, next.1 as int, EntitySize::Medium) {
                        moved(render, ai_id, map.spec_index(next.0 as int, next.1 as int))
                    } else {
                        render
                    }
                }
            },
        }
    }
}

/// The render table after the first `n` entities of `order` have had their
/// turn, one after the other.
pub open spec fn ai_steps(
    map: &GameMap,
    render: Map<usize, Render>,
    goal: (isize, isize),
    order: Seq<usize>,
    n: int,
) -> Map<usize, Render>
    decreases n,
{
    if n <= 0 {
        render
    } else {
        ai_step(map, ai_steps(map, render, goal, order, n - 1), goal, order[n - 1])
    }
}

/// The square of a cell of a well-formed map is on its grid, and the cell
/// is the one that the square names.
pub proof fn lemma_square_of(map: &GameMap, index: usize)
    requires
        map.well_formed(),
        index < map.render_map@.len(),
    ensures
        map.spec_in_bounds(square_of(map, index).0 as int, square_of(map, index).1 as int),
        map.spec_index(square_of(map, index).0 as int, square_of(map, index).1 as int) == index,
        square_of(map, index).0 == index as int % map.map_info.column_count as int,
        square_of(map, index).1 == index as int / map.map_info.column_count as int,
{
    let c = map.map_info.column_count as int;
    let r = map.map_info.row_count as int;
    let i = index as int;
    vstd::arithmetic::div_mod::lemma_fundamental_div_mod(i, c);
    vstd::arithmetic::div_mod::lemma_mod_bound(i, c);
    assert(c * (i / c) <= i);
    if i / c >= r {
        assert(c * (i / c) >= c * r) by (nonlinear_arith)
            requires
                i / c >= r,
                c > 0,
        ;
    }
    assert(0 <= i / c) by (nonlinear_arith)
        requires
            i >= 0,
            c > 0,
    ;
}

/// One AI's turn keeps every entity on the map.
pub proof fn lemma_ai_step_keeps_placed(
    map: &GameMap,
    render: Map<usize, Render>,
    goal: (isize, isize),
    ai_id: usize,
)
    requires
        map.well_formed(),
        placed(map, render),
    ensures
        placed(map, ai_step(map, render, goal, ai_id)),
        ai_step(map, render, goal, ai_id).dom() == render.dom(),
{
    let after = ai_step(map, render, goal, ai_id);
    if after != render {
        let path = route(map, square_of(map, render[ai_id].index), goal, movement_threshold())->0;
        let next = path[path.len() - 2];
        lemma_index_in_range(map, next.0 as int, next.1 as int);
        assert(after.dom() =~= render.dom());
        assert forall|k: usize| after.contains_key(k) implies (#[trigger] after[k]).index
            < map.render_map@.len() by {
            if k != ai_id {
                assert(after[k] == render[k]);
            }
        }
    }
}

/// Gives the AI entity `ai_id` its turn: where it stands on a lit cell it
/// takes one step along its route to `goal`.
pub fn ai_turn(
    game_map: &mut GameMap,
    render: &mut HashMap<usize, Render>,
    goal: (isize, isize),
    ai_id: usize,
)
    requires
        old(game_map).well_formed(),
        old(game_map).spec_in_bounds(goal.0 as int, goal.1 as int),
        placed(old(game_map), old(render)@),
    ensures
        *final(game_map) == *old(game_map),
        final(render)@ == ai_step(old(game_map), old(render)@, goal, ai_id),
        placed(final(game_map), final(render)@),
{
    proof {
        lemma_ai_step_keeps_placed(game_map, render@, goal, ai_id);
    }
    let column_count: usize = game_map.map_info.column_count;
    let at: usize = match render.get(&ai_id) {
        Some(ai_ent_render) => ai_ent_render.index,
        None => {
            return ;
        },
    };
    if !game_map.render_map[at].lit {
        return ;
    }
    proof {
        lemma_square_of(game_map, at);
    }
    let ai_x: isize = (at % column_count) as isize;
    let ai_y: isize = (at / column_count) as isize;
    let found = astar(game_map, (ai_x, ai_y), goal);
    match found {
        Ok(Some(path)) => {
            if path.len() < 2 {
                return ;
            }
            let next: (isize, isize) = path[path.len() - 2];
            proof {
                assert(valid_route(game_map, movement_threshold(), (ai_x, ai_y), goal, path@));
                assert(game_map.spec_in_bounds(next.0 as int, next.1 as int));
            }
            proof {
                lemma_well_formed_has_cells(game_map);
            }
            move_to_system(game_map, render, ai_id, next);
        },
        Ok(None) => {},
        Err(_) => {},
    }
}

/// Gives every AI entity of `order` its turn, in that order.
pub fn ai_turns(scene: &mut Scene, goal: (isize, isize), order: &Vec<usize>)
    requires
        old(scene).game_map.well_formed(),
        old(scene).game_map.spec_in_bounds(goal.0 as int, goal.1 as int),
        placed(&old(scene).game_map, old(scene).components.render@),
    ensures
        final(scene).game_map == old(scene).game_map,
        final(scene).player == old(scene).player,
        final(scene).loop_state == old(scene).loop_state,
        final(scene).components.ai == old(scene).components.ai,
        final(scene).components.health == old(scene).components.health,
        final(scene).components.selected == old(scene).components.selected,
        final(scene).components.name == old(scene).components.name,
        final(scene).components.render@ == ai_steps(
            &old(scene).game_map,
            old(scene).components.render@,
            goal,
            order@,
            order@.len() as int,
        ),
        placed(&final(scene).game_map, final(scene).components.render@),
{
    let mut n: usize = 0;
    while n < order.len()
        invariant
            n <= order@.len(),
            scene.game_map == old(scene).game_map,
            scene.player == old(scene).player,
            scene.loop_state == old(scene).loop_state,
            scene.components.ai == old(scene).components.ai,
            scene.components.health == old(scene).components.health,
            scene.components.selected == old(scene).components.selected,
            scene.components.name == old(scene).components.name,
            scene.game_map.well_formed(),
            scene.game_map.spec_in_bounds(goal.0 as int, goal.1 as int),
            placed(&scene.game_map, scene.components.render@),
            scene.components.render@ == ai_steps(
                &old(scene).game_map,
                old(scene).components.render@,
                goal,
                order@,
                n as int,
            ),
        decreases order@.len() - n,
    {
        ai_turn(&mut scene.game_map, &mut scene.components.render, goal, order[n]);
        n = n + 1;
    }
}

/// The identifiers of the AI entities, each once, in the order in which the
/// table hands them out.
pub fn ai_order(ai: &HashMap<usize, Ai>) -> (order: Vec<usize>)
    ensures
        order@.no_duplicates(),
        order@.to_set() == ai@.dom(),
{
    let mut order: Vec<usize> = Vec::new();
    let ghost all = spec_keys_iter(ai).remaining();
    for ai_id in it: ai.keys()
        invariant
            it.seq() == all,
            order@.len() == it.index(),
            forall|i: int| 0 <= i < order@.len() ==> order@[i] == *all[i],
    {
        order.push(*ai_id);
    }
    proof {
        assert(order@ =~= all.unref());
    }
    order
}

/// The render table `after` is what the AI entities of `ai` leave of
/// `before` when each has had one turn towards `goal`, in some order.
pub open spec fn ai_moved(
    map: &GameMap,
    ai: Set<usize>,
    before: Map<usize, Render>,
    goal: (isize, isize),
    after: Map<usize, Render>,
) -> bool {
    exists|order: Seq<usize>|
        {
            &&& order.no_duplicates()
            &&& order.to_set() == ai
            &&& after == #[trigger] ai_steps(map, before, goal, order, order.len() as int)
        }
}

/// Gives every AI entity its turn. Each one that stands on a lit cell takes
/// one step along its route to the square on which the player stood when
/// the turns began. The entities move one after the other, in an order
/// that the caller cannot choose.
pub fn ai_system(scene: &mut Scene)
    requires
        old(scene).game_map.well_formed(),
        old(scene).components.render@.contains_key(old(scene).player),
        placed(&old(scene).game_map, old(scene).components.render@),
    ensures
        final(scene).game_map == old(scene).game_map,
        final(scene).player == old(scene).player,
        final(scene).loop_state == old(scene).loop_state,
        final(scene).components.ai == old(scene).components.ai,
        final(scene).components.health == old(scene).components.health,
        final(scene).components.selected == old(scene).components.selected,
        final(scene).components.name == old(scene).components.name,
        placed(&final(scene).game_map, final(scene).components.render@),
        ai_moved(
            &old(scene).game_map,
            old(scene).components.ai@.dom(),
            old(scene).components.render@,
            square_of(&old(scene).game_map, old(scene).components.render@[old(scene).player].index),
            final(scene).components.render@,
        ),
{
    let column_count: usize = scene.game_map.map_info.column_count;
    let player_index: usize = scene.components.render.get(&scene.player).unwrap().index;
    proof {
        lemma_square_of(&scene.game_map, player_index);
    }
    let player_x: isize = (player_index % column_count) as isize;
    let player_y: isize = (player_index / column_count) as isize;
    let order = ai_order(&scene.components.ai);
    ai_turns(scene, (player_x, player_y), &order);
    assert(scene.components.render@ == ai_steps(
        &old(scene).game_map,
        old(scene).components.render@,
        (player_x, player_y),
        order@,
        order@.len() as int,
    ));
}

/// One component of the unit vector along `(d, other)`, rounded to the
/// nearest whole number: a step of one in the direction of `d` where `d`
/// makes up at least half the length of the vector, and no step otherwise.
/// Half the length is reached where `3 * d * d >= other * other`.
pub open spec fn unit_step(d: int, other: int) -> int {
    if d != 0 && 3 * d * d >= other * other {
        if d > 0 {
            1
        } else {
            -1
        }
    } else {
        0
    }
}

/// Computes `unit_step` for the difference of two coordinates of the grid.
fn rounded_step(from: isize, to: isize, other_from: isize, other_to: isize) -> (r: isize)
    requires
        0 <= from,
        0 <= to,
        0 <= other_from,
        0 <= other_to,
    ensures
        r == unit_step(to - from, other_to - other_from),
{
    let d: u128 = if to >= from {
        (to - from) as u128
    } else {
        (from - to) as u128
    };
    let o: u128 = if other_to >= other_from {
        (other_to - other_from) as u128
    } else {
        (other_from - other_to) as u128
    };
    assert(d * d <= 0x7fff_ffff_ffff_ffff * 0x7fff_ffff_ffff_ffff) by (nonlinear_arith)
        requires
            0 <= d <= 0x7fff_ffff_ffff_ffff,
    ;
    assert(o * o <= 0x7fff_ffff_ffff_ffff * 0x7fff_ffff_ffff_ffff) by (nonlinear_arith)
        requires
            0 <= o <= 0x7fff_ffff_ffff_ffff,
    ;
    assert(d * d == (to - from) * (to - from)) by (nonlinear_arith)
        requires
            d == to - from || d == from - to,
    ;
    assert(o * o == (other_to - other_from) * (other_to - other_from)) by (nonlinear_arith)
        requires
            o == other_to - other_from || o == other_from - other_to,
    ;
    assert(3 * (d * d) == 3 * (to - from) * (to - from)) by (nonlinear_arith)
        requires
            d * d == (to - from) * (to - from),
    ;
    if d != 0 && 3 * (d * d) >= o * o {
        if to > from {
            1
        } else {
            -1
        }
    } else {
        0
    }
}

/// The render table after entity `ai_id` has moved the simple way: where
/// it stands on a lit cell it takes one step straight towards the player,
/// along the unit vector rounded to whole squares, if it may enter there.
pub open spec fn basic_move(
    map: &GameMap,
    render: Map<usize, Render>,
    player: usize,
    ai_id: usize,
) -> Map<usize, Render> {
    if !render.contains_key(ai_id) || !map.render_map@[render[ai_id].index as int].lit {
        render
    } else {
        let target = square_of(map, render[player].index);
        let from = square_of(map, render[ai_id].index);
        stepped(
            map,
            render,
            ai_id,
            (
                unit_step(target.0 - from.0, target.1 - from.1) as isize,
                unit_step(target.1 - from.1, target.0 - from.0) as isize,
            ),
        )
    }
}

/// Moves the AI entity `ai_id` the simple way: one step straight towards
/// the player, if the entity stands on a lit cell and may enter the square
/// it would come to.
pub fn basic_movement(scene: &mut Scene, ai_id: usize)
    requires
        old(scene).game_map.well_formed(),
        old(scene).components.render@.contains_key(old(scene).player),
        placed(&old(scene).game_map, old(scene).components.render@),
    ensures
        only_render_differs(
            old(scene),
            final(scene),
            basic_move(
                &old(scene).game_map,
                old(scene).components.render@,
                old(scene).player,
                ai_id,
            ),
        ),
{
    let index: usize = scene.components.render.get(&scene.player).unwrap().index;
    let ai_pos_index: usize = match scene.components.render.get(&ai_id) {
        Some(ai_pos) => ai_pos.index,
        None => {
            return ;
        },
    };
    if scene.game_map.render_map[ai_pos_index].lit {
        proof {
            lemma_square_of(&scene.game_map, index);
            lemma_square_of(&scene.game_map, ai_pos_index);
        }
        let cols: usize = scene.game_map.map_info.column_count;
        let player_x: isize = (index % cols) as isize;
        let player_y: isize = (index / cols) as isize;
        let ai_x: isize = (ai_pos_index % cols) as isize;
        let ai_y: isize = (ai_pos_index / cols) as isize;
        let dx: isize = rounded_step(ai_x, player_x, ai_y, player_y);
        let dy: isize = rounded_step(ai_y, player_y, ai_x, player_x);
        proof {
            lemma_well_formed_can_step(
                &scene.game_map,
                scene.components.render@,
                ai_id,
                (dx, dy),
            );
        }
        move_by_system(&mut scene.game_map, &mut scene.components.render, ai_id, (dx, dy));
    }
}

} // verus!
