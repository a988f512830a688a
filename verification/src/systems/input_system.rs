use crate::scenes::Scene;
use crate::systems::move_system::{can_step, move_by_system, only_render_differs, stepped};
use crate::LoopState;
use vstd::prelude::*;

verus! {

/// The keys the game tells apart.
#[derive(Debug, Clone, Copy, PartialEq, Eq, Structural)]
pub enum Key {
    Escape,
    Left,
    Right,
    Down,
    Up,
    Other,
}

/// What the window reports: a request to close it, a key going down, or
/// anything else.
#[derive(Debug, Clone, Copy, PartialEq, Eq, Structural)]
pub enum InputEvent {
    Quit,
    KeyDown { keycode: Option<Key> },
    Other,
}

/// The event asks the game to stop: the window is closed or escape is
/// pressed.
pub open spec fn asks_to_quit(evt: InputEvent) -> bool {
    evt == InputEvent::Quit || evt == (InputEvent::KeyDown { keycode: Some(Key::Escape) })
}

/// The step the player takes on an event: one square in the direction of an
/// arrow key, with `y` growing downwards, and none on anything else.
pub open spec fn key_step(evt: InputEvent) -> Option<(isize, isize)> {
    match evt {
        InputEvent::KeyDown { keycode: Some(Key::Left) } => Some((-1isize, 0isize)),
        InputEvent::KeyDown { keycode: Some(Key::Right) } => Some((1isize, 0isize)),
        InputEvent::KeyDown { keycode: Some(Key::Down) } => Some((0isize, 1isize)),
        InputEvent::KeyDown { keycode: Some(Key::Up) } => Some((0isize, -1isize)),
        _ => None,
    }
}

/// Moves the player by `to_move` if the square it comes to can be entered,
/// and asks the loop to take a turn either way.
pub fn move_player(scene: &mut Scene, to_move: (isize, isize)) -> (r: LoopState)
    requires
        can_step(
            &old(scene).game_map,
            old(scene).components.render@,
            old(scene).player,
            to_move,
        ),
    ensures
        r == LoopState::Run,
        only_render_differs(
            old(scene),
            final(scene),
            stepped(&old(scene).game_map, old(scene).components.render@, old(scene).player, to_move),
        ),
{
    let player: usize = scene.player;
    move_by_system(&mut scene.game_map, &mut scene.components.render, player, to_move);
    LoopState::Run
}

/// Answers an event while the loop waits for input: a request to quit
/// stops the loop, an arrow key moves the player and starts a turn, and
/// anything else leaves the loop waiting.
pub fn handle_wait(scene: &mut Scene, evt: &InputEvent) -> (r: LoopState)
    requires
        key_step(*evt) matches Some(step) ==> can_step(
            &old(scene).game_map,
            old(scene).components.render@,
            old(scene).player,
            step,
        ),
    ensures
        asks_to_quit(*evt) ==> r == LoopState::Quit && *final(scene) == *old(scene),
        key_step(*evt) matches Some(step) ==> r == LoopState::Run && only_render_differs(
            old(scene),
            final(scene),
            stepped(&old(scene).game_map, old(scene).components.render@, old(scene).player, step),
        ),
        !asks_to_quit(*evt) && key_step(*evt) is None ==> r == LoopState::Wait && *final(scene)
            == *old(scene),
{
    match evt {
        InputEvent::Quit => LoopState::Quit,
        InputEvent::KeyDown { keycode: Some(Key::Escape) } => LoopState::Quit,
        InputEvent::KeyDown { keycode: Some(Key::Left) } => {
            move_player(scene, (-1, 0));
            LoopState::Run
        },
        InputEvent::KeyDown { keycode: Some(Key::Right) } => {
            move_player(scene, (1, 0));
            LoopState::Run
        },
        InputEvent::KeyDown { keycode: Some(Key::Down) } => {
            move_player(scene, (0, 1));
            LoopState::Run
        },
        InputEvent::KeyDown { keycode: Some(Key::Up) } => {
            move_player(scene, (0, -1));
            LoopState::Run
        },
        _ => LoopState::Wait,
    }
}

/// Answers an event. Only a loop that waits for input listens: in any other
/// state the event is dropped and the loop is told to wait.
pub fn handle_events(scene: &mut Scene, evt: &InputEvent) -> (r: LoopState)
    requires
        old(scene).loop_state == LoopState::Wait ==> (key_step(*evt) matches Some(step)
            ==> can_step(
            &old(scene).game_map,
            old(scene).components.render@,
            old(scene).player,
            step,
        )),
    ensures
        old(scene).loop_state != LoopState::Wait ==> r == LoopState::Wait && *final(scene) == *old(
            scene,
        ),
        old(scene).loop_state == LoopState::Wait && asks_to_quit(*evt) ==> r == LoopState::Quit
            && *final(scene) == *old(scene),
        old(scene).loop_state == LoopState::Wait ==> (key_step(*evt) matches Some(step) ==> r
            == LoopState::Run && only_render_differs(
            old(scene),
            final(scene),
            stepped(&old(scene).game_map, old(scene).components.render@, old(scene).player, step),
        )),
        old(scene).loop_state == LoopState::Wait && !asks_to_quit(*evt) && key_step(*evt) is None
            ==> r == LoopState::Wait && *final(scene) == *old(scene),
{
    match scene.loop_state {
        LoopState::Wait => handle_wait(scene, evt),
        _ => LoopState::Wait,
    }
}

} // verus!
