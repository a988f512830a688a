use crate::components::{Ai, ComponentStore, EntitySize, Health, Render, Selected};
use crate::entitys::Entitys;
use crate::fov::{fov, lit_after, sight_radius, sight_threshold};
use crate::game_map::{
    cells_for, lemma_index_in_range, lemma_spawned_render_indices, lemma_zombies_before_bounds,
    spawned_ai, spawned_render, terrain_ids, zombies_before, GameMap, MapInfo, RenderCell,
};
use crate::init_player;
use crate::map_gen::basic_dungeon::generated;
use crate::map_gen::generator::{MapGen, MapType};
use crate::scenes::{Scene, SceneBuilder, SceneManager};
use crate::systems::input_system::{asks_to_quit, handle_events, key_step, InputEvent};
use crate::systems::ai_system::{
    ai_moved, ai_system, is_placed, lemma_square_of, placed, square_of,
};
use crate::systems::move_system::{can_step, occupied, stepped};
use crate::LoopState;
use std::collections::HashMap;
use vstd::prelude::*;
use vstd::std_specs::hash::spec_values_iter;
use vstd::std_specs::iter::IteratorSpec;

verus! {

broadcast use vstd::std_specs::hash::group_hash_axioms;

/// A cell at the start of a turn: dark, holding its terrain alone, and
/// drawn if it was drawn before or its terrain is not blank.
pub open spec fn refreshed(c: RenderCell) -> RenderCell {
    RenderCell {
        lit: false,
        ent_size: c.terrain_size,
        ent_char: c.terrain_char,
        visible: c.visible || c.terrain_char != ' ',
        ..c
    }
}

/// Every cell at the start of a turn.
pub open spec fn refreshed_all(cells: Seq<RenderCell>) -> Seq<RenderCell> {
    Seq::new(cells.len(), |i: int| refreshed(cells[i]))
}

/// A cell with an entity put on it: the cell takes the entity's size and
/// character and is drawn if the entity is.
pub open spec fn stamped(c: RenderCell, ent: Render) -> RenderCell {
    RenderCell { ent_char: ent.reper_char, ent_size: ent.size, visible: ent.visible, ..c }
}

/// The cells `after` are the cells `before` with every entity put on its
/// cell: a cell on which nobody stands is as it was, and any other cell
/// carries one of the entities that stand on it.
pub open spec fn staged(
    before: Seq<RenderCell>,
    render: Map<usize, Render>,
    after: Seq<RenderCell>,
) -> bool {
    &&& after.len() == before.len()
    &&& forall|i: int|
        0 <= i < before.len() ==> if occupied(render, i) {
            exists|k: usize|
                render.contains_key(k) && (#[trigger] render[k]).index == i && after[i] == stamped(
                    before[i],
                    render[k],
                )
        } else {
            #[trigger] after[i] == before[i]
        }
}

/// Darkens every cell and clears it of entities, leaving the terrain.
pub fn refresh_cells(game_map: &mut GameMap)
    ensures
        final(game_map).map_info == old(game_map).map_info,
        final(game_map).terrain_map == old(game_map).terrain_map,
        final(game_map).render_map@ == refreshed_all(old(game_map).render_map@),
{
    let ghost cells0 = game_map.render_map@;
    let mut i: usize = 0;
    while i < game_map.render_map.len()
        invariant
            i <= cells0.len(),
            game_map.map_info == old(game_map).map_info,
            game_map.terrain_map == old(game_map).terrain_map,
            game_map.render_map@.len() == cells0.len(),
            forall|k: int| 0 <= k < i ==> #[trigger] game_map.render_map@[k] == refreshed(cells0[k]),
            forall|k: int| i <= k < cells0.len() ==> #[trigger] game_map.render_map@[k] == cells0[k],
        decreases cells0.len() - i,
    {
        let cell: RenderCell = game_map.render_map[i];
        let shown: bool = cell.visible || cell.terrain_char != ' ';
        game_map.render_map.set(
            i,
            RenderCell {
                lit: false,
                ent_size: cell.terrain_size,
                ent_char: cell.terrain_char,
                visible: shown,
                ..cell
            },
        );
        i = i + 1;
    }
    assert(game_map.render_map@ =~= refreshed_all(cells0));
}

/// Puts every entity on its cell. Where several entities stand on one cell,
/// the cell carries one of them.
pub fn place_entities(game_map: &mut GameMap, render: &HashMap<usize, Render>)
    requires
        placed(old(game_map), render@),
    ensures
        final(game_map).map_info == old(game_map).map_info,
        final(game_map).terrain_map == old(game_map).terrain_map,
        staged(old(game_map).render_map@, render@, final(game_map).render_map@),
{
    let ghost cells0 = game_map.render_map@;
    let ghost all = spec_values_iter(render).remaining();
    let ghost mut seen: int = 0;
    proof {
        let vals = all.unref();
        assert(vals.to_set() == render@.values());
        assert forall|j: int| 0 <= j < all.len() implies (#[trigger] all[j]).index
            < cells0.len() by {
            assert(vals[j] == *all[j]);
            assert(vals.to_set().contains(vals[j]));
            assert(render@.values().contains(vals[j]));
        }
    }
    for ent in it: render.values()
        invariant
            it.seq() == all,
            seen == it.index(),
            game_map.map_info == old(game_map).map_info,
            game_map.terrain_map == old(game_map).terrain_map,
            game_map.render_map@.len() == cells0.len(),
            forall|j: int| 0 <= j < all.len() ==> (#[trigger] all[j]).index < cells0.len(),
            forall|i: int|
                0 <= i < cells0.len() ==> if exists|j: int|
                    0 <= j < seen && (#[trigger] all[j]).index == i {
                    exists|j: int|
                        0 <= j < seen && (#[trigger] all[j]).index == i && game_map.render_map@[i]
                            == stamped(cells0[i], *all[j])
                } else {
                    #[trigger] game_map.render_map@[i] == cells0[i]
                },
    {
        let at: usize = ent.index;
        let cell: RenderCell = game_map.render_map[at];
        let ghost before = game_map.render_map@;
        game_map.render_map.set(
            at,
            RenderCell { ent_char: ent.reper_char, ent_size: ent.size, visible: ent.visible, ..cell },
        );
        proof {
            assert(*all[seen] == *ent);
            assert forall|i: int| 0 <= i < cells0.len() implies if exists|j: int|
                0 <= j < seen + 1 && (#[trigger] all[j]).index == i {
                exists|j: int|
                    0 <= j < seen + 1 && (#[trigger] all[j]).index == i && game_map.render_map@[i]
                        == stamped(cells0[i], *all[j])
            } else {
                #[trigger] game_map.render_map@[i] == cells0[i]
            } by {
                if i == at {
                    assert(all[seen].index == i);
                    assert(game_map.render_map@[i] == stamped(cells0[i], *all[seen]));
                } else {
                    assert(game_map.render_map@[i] == before[i]);
                    if exists|j: int| 0 <= j < seen + 1 && (#[trigger] all[j]).index == i {
                        let j = choose|j: int| 0 <= j < seen + 1 && (#[trigger] all[j]).index == i;
                        assert(j < seen);
                        let j2 = choose|j: int|
                            0 <= j < seen && (#[trigger] all[j]).index == i && before[i] == stamped(
                                cells0[i],
                                *all[j],
                            );
                        assert(0 <= j2 < seen + 1 && all[j2].index == i);
                    }
                }
            }
            seen = seen + 1;
        }
    }
    proof {
        let vals = all.unref();
        let after = game_map.render_map@;
        assert(vals.to_set() == render@.values());
        assert forall|i: int| 0 <= i < cells0.len() implies if occupied(render@, i) {
            exists|k: usize|
                render@.contains_key(k) && (#[trigger] render@[k]).index == i && after[i]
                    == stamped(cells0[i], render@[k])
        } else {
            #[trigger] after[i] == cells0[i]
        } by {
            if occupied(render@, i) {
                let k = choose|k: usize| render@.contains_key(k) && (#[trigger] render@[k]).index == i;
                assert(render@.values().contains(render@[k]));
                assert(vals.to_set().contains(render@[k]));
                assert(vals.contains(render@[k]));
                let j = choose|j: int| 0 <= j < vals.len() && vals[j] == render@[k];
                assert(all[j].index == i);
                let j2 = choose|j: int|
                    0 <= j < seen && (#[trigger] all[j]).index == i && after[i] == stamped(
                        cells0[i],
                        *all[j],
                    );
                assert(vals[j2] == *all[j2]);
                assert(vals.to_set().contains(vals[j2]));
                assert(render@.values().contains(vals[j2]));
                let k2 = choose|k: usize| render@.contains_key(k) && render@[k] == vals[j2];
                assert(render@[k2].index == i);
            } else {
                if exists|j: int| 0 <= j < seen && (#[trigger] all[j]).index == i {
                    let j = choose|j: int| 0 <= j < seen && (#[trigger] all[j]).index == i;
                    assert(vals[j] == *all[j]);
                    assert(vals.to_set().contains(vals[j]));
                    assert(render@.values().contains(vals[j]));
                    let k = choose|k: usize| render@.contains_key(k) && render@[k] == vals[j];
                    assert(render@[k].index == i);
                }
            }
        }
    }
}

/// The scene `after` is the scene `before` once a turn has been taken: the
/// cells were refreshed, the entities put on them, the player's sight cast
/// from the player's square, and then every AI entity had its turn towards
/// that square. The loop waits for input again.
pub open spec fn turn_taken(before: &Scene, after: &Scene) -> bool {
    let square = square_of(&before.game_map, before.components.render@[before.player].index);
    &&& after.loop_state == LoopState::Wait
    &&& after.player == before.player
    &&& after.game_map.map_info == before.game_map.map_info
    &&& after.game_map.terrain_map == before.game_map.terrain_map
    &&& after.components.ai == before.components.ai
    &&& after.components.health == before.components.health
    &&& after.components.selected == before.components.selected
    &&& after.components.name == before.components.name
    &&& exists|stage: Seq<RenderCell>|
        {
            &&& #[trigger] staged(
                refreshed_all(before.game_map.render_map@),
                before.components.render@,
                stage,
            )
            &&& after.game_map.render_map@ == lit_after(
                stage,
                before.game_map.map_info,
                (square.0 as usize, square.1 as usize),
                sight_radius(),
                sight_threshold(),
            )
        }
    &&& ai_moved(
        &after.game_map,
        before.components.ai@.dom(),
        before.components.render@,
        square,
        after.components.render@,
    )
}

/// A turn can be taken in the scene: its map is well formed, the player is
/// an entity with a place on the map, and every entity stands on a cell.
pub open spec fn playable(scene: &Scene) -> bool {
    &&& scene.game_map.well_formed()
    &&& scene.components.render@.contains_key(scene.player)
    &&& placed(&scene.game_map, scene.components.render@)
}

/// Decides whether a turn can be taken in the scene.
pub fn is_playable(scene: &Scene) -> (r: bool)
    ensures
        r == playable(scene),
{
    scene.game_map.is_well_formed() && scene.components.render.contains_key(&scene.player)
        && is_placed(&scene.game_map, &scene.components.render)
}

/// Takes a turn if the loop asks for one, and leaves the scene alone if it
/// does not.
pub fn take_turn(scene: &mut Scene)
    requires
        old(scene).loop_state == LoopState::Run ==> playable(old(scene)),
    ensures
        old(scene).loop_state != LoopState::Run ==> *final(scene) == *old(scene),
        old(scene).loop_state == LoopState::Run ==> turn_taken(old(scene), final(scene)),
{
    match scene.loop_state {
        LoopState::Run => {},
        _ => {
            return ;
        },
    }
    refresh_cells(&mut scene.game_map);
    place_entities(&mut scene.game_map, &scene.components.render);
    let ghost stage = scene.game_map.render_map@;
    let player_id: usize = scene.player;
    let player_index: usize = scene.components.render.get(&player_id).unwrap().index;
    proof {
        lemma_square_of(&scene.game_map, player_index);
        assert(square_of(&scene.game_map, player_index) == square_of(
            &old(scene).game_map,
            player_index,
        ));
    }
    let cx: usize = player_index % scene.game_map.map_info.column_count;
    let cy: usize = player_index / scene.game_map.map_info.column_count;
    let _ = fov(&mut scene.game_map, (cx, cy));
    proof {
        assert(square_of(&scene.game_map, player_index) == square_of(
            &old(scene).game_map,
            player_index,
        ));
    }
    ai_system(scene);
    scene.loop_state = LoopState::Wait;
    proof {
        assert(staged(
            refreshed_all(old(scene).game_map.render_map@),
            old(scene).components.render@,
            stage,
        ));
    }
}

/// The scene is fit for play: a turn can be taken in it, the player's own
/// cell is lit, and the loop waits for input.
pub open spec fn ready(scene: &Scene) -> bool {
    &&& playable(scene)
    &&& scene.game_map.render_map@[scene.components.render@[scene.player].index as int].lit
    &&& scene.loop_state == LoopState::Wait
}

/// A game with a map of these dimensions can be set up: the dimensions are
/// consistent and leave room for a room, the identifiers left suffice for
/// every square, its zombie and the player, a scene identifier is left, and
/// the scene shown is a registered one or the one about to be registered.
pub open spec fn can_set_up(map_info: MapInfo, scenes: &SceneManager, entitys: &Entitys) -> bool {
    &&& map_info.consistent()
    &&& map_info.column_count > 5
    &&& map_info.row_count > 5
    &&& entitys.next_id + 2 * map_info.total_count + 1 <= usize::MAX
    &&& scenes.next_id < usize::MAX
    &&& (scenes.scenes@.contains_key(scenes.current_scene) || scenes.current_scene
        == scenes.next_id)
}

/// Decides whether a game with a map of these dimensions can be set up.
pub fn is_set_up_possible(map_info: &MapInfo, scenes: &SceneManager, entitys: &Entitys) -> (r:
    bool)
    ensures
        r == can_set_up(*map_info, scenes, entitys),
{
    if !map_info.is_consistent() || map_info.column_count <= 5 || map_info.row_count <= 5 {
        return false;
    }
    let needed: usize = 2 * map_info.total_count + 1;
    if entitys.next_id > usize::MAX - needed {
        return false;
    }
    scenes.next_id < usize::MAX && (scenes.scenes.contains_key(&scenes.current_scene)
        || scenes.current_scene == scenes.next_id)
}

/// The scene is a freshly set up game on the dungeon `chars`, made with
/// identifiers from `base` on: its cells, terrain identifiers and zombies
/// are those of the dungeon, the player is the entity made last and stands
/// on `center`, every entity has been put on its cell, and the player's
/// sight has been cast once.
pub open spec fn set_up_from(
    scene: &Scene,
    map_info: MapInfo,
    base: int,
    chars: Seq<char>,
    center: (usize, usize),
) -> bool {
    let count = chars.len() as int;
    let player = (base + count + zombies_before(chars, count)) as usize;
    &&& generated(chars, map_info.column_count as int, map_info.row_count as int, center)
    &&& scene.player == player
    &&& scene.loop_state == LoopState::Wait
    &&& scene.game_map.map_info == map_info
    &&& scene.game_map.terrain_map@ == terrain_ids(base, chars)
    &&& scene.components.ai@ == spawned_ai(Map::<usize, Ai>::empty(), base, chars, count)
    &&& scene.components.render@ == spawned_render(
        Map::<usize, Render>::empty(),
        base,
        chars,
        count,
    ).insert(
        player,
        Render {
            index: (center.0 + map_info.column_count * center.1) as usize,
            reper_char: '@',
            size: EntitySize::Medium,
            visible: true,
        },
    )
    &&& scene.components.health@ == Map::<usize, Health>::empty().insert(
        player,
        Health { max_value: 10, cur_value: 10 },
    )
    &&& scene.components.selected@ == Map::<usize, Selected>::empty()
    &&& scene.components.name@.dom() == Set::<usize>::empty().insert(player)
    &&& scene.components.name@[player].value@ == "test player"@
    &&& exists|stage: Seq<RenderCell>|
        {
            &&& #[trigger] staged(cells_for(chars), scene.components.render@, stage)
            &&& scene.game_map.render_map@ == lit_after(
                stage,
                map_info,
                center,
                sight_radius(),
                sight_threshold(),
            )
        }
}

/// Sets a game up: generates a map of the given dimensions, files it as a
/// new scene and shows that scene, makes the player on the square where the
/// map lets the player start, puts the entities on their cells and casts
/// the player's sight for the first time. The dungeon is drawn at random:
/// what is promised holds of the scene whichever dungeon came out.
pub fn new_game(map_info: MapInfo, scenes: &mut SceneManager, entitys: &mut Entitys) -> (id: usize)
    requires
        can_set_up(map_info, old(scenes), old(entitys)),
    ensures
        id == old(scenes).next_id,
        final(scenes).next_id == old(scenes).next_id + 1,
        final(scenes).current_scene == id,
        final(scenes).scenes@.dom() == old(scenes).scenes@.dom().insert(id),
        forall|k: usize|
            k != id && old(scenes).scenes@.contains_key(k) ==> #[trigger] final(scenes).scenes@[k]
                == old(scenes).scenes@[k],
        ready(&final(scenes).scenes@[id]),
        final(entitys).next_id == final(scenes).scenes@[id].player + 1,
        exists|chars: Seq<char>, center: (usize, usize)|
            #[trigger] set_up_from(
                &final(scenes).scenes@[id],
                map_info,
                old(entitys).next_id as int,
                chars,
                center,
            ),
{
    let mut components = ComponentStore::default();
    let ghost base = entitys.next_id as int;
    let (game_map, center) = MapGen::new(MapType::Basic, map_info).make_map(
        &mut components,
        entitys,
    );
    let ghost chars = choose|chars: Seq<char>|
        {
            &&& #[trigger] generated(
                chars,
                map_info.column_count as int,
                map_info.row_count as int,
                center,
            )
            &&& game_map.render_map@ == cells_for(chars)
            &&& game_map.terrain_map@ == terrain_ids(base, chars)
            &&& entitys.next_id == base + chars.len() + zombies_before(chars, chars.len() as int)
            &&& components.ai@ == spawned_ai(
                Map::<usize, Ai>::empty(),
                base,
                chars,
                chars.len() as int,
            )
            &&& components.render@ == spawned_render(
                Map::<usize, Render>::empty(),
                base,
                chars,
                chars.len() as int,
            )
        };
    proof {
        lemma_zombies_before_bounds(chars, chars.len() as int);
        lemma_spawned_render_indices(
            Map::<usize, Render>::empty(),
            base,
            chars,
            chars.len() as int,
            chars.len() as int,
        );
        lemma_index_in_range(&game_map, center.0 as int, center.1 as int);
    }
    let ghost cells = game_map.render_map@;
    let scene_builder = SceneBuilder::new().set_game_map(game_map).set_components(components);
    let scene_id: usize = scenes.register_scene(scene_builder);
    scenes.set_current_scene(scene_id);
    let scene = scenes.get_current_scene_mut();
    init_player(scene, entitys, center);
    place_entities(&mut scene.game_map, &scene.components.render);
    let ghost stage = scene.game_map.render_map@;
    let _ = fov(&mut scene.game_map, center);
    proof {
        assert(staged(cells, scene.components.render@, stage));
        assert(scene.components.name@.dom() =~= Set::<usize>::empty().insert(scene.player));
        assert(set_up_from(scene, map_info, base, chars, center));
    }
    scene_id
}

/// Hands an event to the scene and says whether the game is to stop. Where
/// it is not, the scene's loop takes the state that the event asks for.
pub fn apply_event(scene: &mut Scene, evt: &InputEvent) -> (quit: bool)
    requires
        old(scene).loop_state == LoopState::Wait ==> (key_step(*evt) matches Some(step)
            ==> can_step(
            &old(scene).game_map,
            old(scene).components.render@,
            old(scene).player,
            step,
        )),
    ensures
        quit == (old(scene).loop_state == LoopState::Wait && asks_to_quit(*evt)),
        quit ==> *final(scene) == *old(scene),
        !quit ==> final(scene).game_map == old(scene).game_map,
        !quit ==> final(scene).player == old(scene).player,
        !quit ==> final(scene).components.ai == old(scene).components.ai,
        !quit ==> final(scene).components.health == old(scene).components.health,
        !quit ==> final(scene).components.selected == old(scene).components.selected,
        !quit ==> final(scene).components.name == old(scene).components.name,
        !quit ==> final(scene).loop_state == (if old(scene).loop_state == LoopState::Wait
            && key_step(*evt) is Some {
            LoopState::Run
        } else {
            LoopState::Wait
        }),
        !quit ==> final(scene).components.render@ == (if old(scene).loop_state == LoopState::Wait
            && key_step(*evt) is Some {
            stepped(
                &old(scene).game_map,
                old(scene).components.render@,
                old(scene).player,
                key_step(*evt)->0,
            )
        } else {
            old(scene).components.render@
        }),
{
    let loop_state = handle_events(scene, evt);
    match loop_state {
        LoopState::Quit => true,
        _ => {
            scene.loop_state = loop_state;
            false
        },
    }
}

} // verus!
