use crate::components::ComponentStore;
use crate::game_map::GameMap;
use crate::LoopState;
use std::collections::HashMap;
use vstd::prelude::*;

verus! {

broadcast use vstd::std_specs::hash::group_hash_axioms;

/// Collects the parts of a scene before it is built.
pub struct SceneBuilder {
    game_map: Option<GameMap>,
    components: Option<ComponentStore>,
}

/// One stage of the game: its map, its entities, the player's entity and
/// what the main loop does next.
pub struct Scene {
    pub game_map: GameMap,
    pub components: ComponentStore,
    pub player: usize,
    pub loop_state: LoopState,
}

impl SceneBuilder {
    /// The map handed to the builder, if any.
    pub closed spec fn map_part(&self) -> Option<GameMap> {
        self.game_map
    }

    /// The component tables handed to the builder, if any.
    pub closed spec fn components_part(&self) -> Option<ComponentStore> {
        self.components
    }

    /// Both parts are there, so a scene can be built.
    pub open spec fn complete(&self) -> bool {
        self.map_part() is Some && self.components_part() is Some
    }

    /// A builder that holds nothing yet.
    pub fn new() -> (r: SceneBuilder)
        ensures
            r.map_part() is None,
            r.components_part() is None,
    {
        Self { game_map: None, components: None }
    }

    /// Hands the builder its map, in place of any handed over before.
    pub fn set_game_map(self, game_map: GameMap) -> (r: Self)
        ensures
            r.map_part() == Some(game_map),
            r.components_part() == self.components_part(),
    {
        Self { game_map: Some(game_map), components: self.components }
    }

    /// Hands the builder its component tables, in place of any handed over
    /// before.
    pub fn set_components(self, components: ComponentStore) -> (r: Self)
        ensures
            r.map_part() == self.map_part(),
            r.components_part() == Some(components),
    {
        Self { game_map: self.game_map, components: Some(components) }
    }

    /// Makes the scene out of the two parts. The player's entity is zero
    /// and the loop waits for input.
    pub fn build(self) -> (scene: Scene)
        requires
            self.complete(),
        ensures
            Some(scene.game_map) == self.map_part(),
            Some(scene.components) == self.components_part(),
            scene.player == 0,
            scene.loop_state == LoopState::Wait,
    {
        let game_map = self.game_map.unwrap();
        let components = self.components.unwrap();
        Scene { components, game_map, player: 0, loop_state: LoopState::Wait }
    }
}

/// The scenes of a game by identifier, and which of them is shown.
pub struct SceneManager {
    pub next_id: usize,
    pub scenes: HashMap<usize, Scene>,
    pub current_scene: usize,
}

/// Looks up the scene with identifier `id` for writing, through
/// `HashMap::get_mut`. Where the table holds the identifier, the result is
/// that scene, and whatever is written through it replaces the entry;
/// where it does not, the table is left alone.
#[verifier::external_body]
fn scene_slot<'a>(scenes: &'a mut HashMap<usize, Scene>, id: usize) -> (r: Option<&'a mut Scene>)
    ensures
        match r {
            Some(s) => old(scenes)@.contains_key(id) && *s == old(scenes)@[id] && final(scenes)@
                == old(scenes)@.insert(id, *final(s)),
            None => !old(scenes)@.contains_key(id) && final(scenes)@ == old(scenes)@,
        },
{
    scenes.get_mut(&id)
}

impl SceneManager {
    /// A manager without scenes.
    pub fn new() -> (r: Self)
        ensures
            r.next_id == 0,
            r.current_scene == 0,
            r.scenes@ == Map::<usize, Scene>::empty(),
    {
        Self { scenes: HashMap::new(), next_id: 0, current_scene: 0 }
    }

    /// Returns the next unused scene identifier and advances the counter.
    pub fn new_id(&mut self) -> (id: usize)
        requires
            old(self).next_id < usize::MAX,
        ensures
            id == old(self).next_id,
            final(self).next_id == old(self).next_id + 1,
            final(self).scenes == old(self).scenes,
            final(self).current_scene == old(self).current_scene,
    {
        let id: usize = self.next_id;
        self.next_id = self.next_id + 1;
        id
    }

    /// Shows the scene `scene_id` from now on. The scene shown so far has
    /// to be a registered one.
    pub fn set_current_scene(&mut self, scene_id: usize)
        requires
            old(self).scenes@.contains_key(old(self).current_scene),
        ensures
            final(self).current_scene == scene_id,
            final(self).next_id == old(self).next_id,
            final(self).scenes == old(self).scenes,
    {
        self.current_scene = scene_id;
    }

    /// Builds the scene and files it under a fresh identifier, which is
    /// returned.
    pub fn register_scene(&mut self, new_scene: SceneBuilder) -> (id: usize)
        requires
            new_scene.complete(),
            old(self).next_id < usize::MAX,
        ensures
            id == old(self).next_id,
            final(self).next_id == old(self).next_id + 1,
            final(self).current_scene == old(self).current_scene,
            final(self).scenes@ == old(self).scenes@.insert(
                id,
                Scene {
                    game_map: new_scene.map_part()->0,
                    components: new_scene.components_part()->0,
                    player: 0,
                    loop_state: LoopState::Wait,
                },
            ),
    {
        let scene = new_scene.build();
        let new_id = self.new_id();
        self.scenes.insert(new_id, scene);
        new_id
    }

    /// The scene now shown, which has to be a registered one.
    pub fn get_current_scene(&self) -> (scene: &Scene)
        requires
            self.scenes@.contains_key(self.current_scene),
        ensures
            *scene == self.scenes@[self.current_scene],
    {
        self.scenes.get(&self.current_scene).unwrap()
    }

    /// The scene now shown, for writing. What is written through the result
    /// replaces the scene in the table; nothing else changes.
    pub fn get_current_scene_mut(&mut self) -> (scene: &mut Scene)
        requires
            old(self).scenes@.contains_key(old(self).current_scene),
        ensures
            *scene == old(self).scenes@[old(self).current_scene],
            final(self).scenes@ == old(self).scenes@.insert(
                old(self).current_scene,
                *final(scene),
            ),
            final(self).next_id == old(self).next_id,
            final(self).current_scene == old(self).current_scene,
    {
        let current: usize = self.current_scene;
        match scene_slot(&mut self.scenes, current) {
            Some(scene) => scene,
            None => vstd::pervasive::unreached(),
        }
    }
}

} // verus!
