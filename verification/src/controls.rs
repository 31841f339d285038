//! What the keyboard does to the game.
use vstd::prelude::*;
use crate::grid::Dir;

verus! {

/// The keys the game listens to; every other key is `Other`.
#[derive(Clone, Copy, Debug, PartialEq, Eq, Structural)]
pub enum Key {
    Escape,
    W,
    A,
    S,
    D,
    Up,
    Down,
    Left,
    Right,
    Other,
}

/// What a key does.
#[derive(Clone, Copy, Debug, PartialEq, Eq, Structural)]
pub enum KeyAction {
    /// Close the windows.
    Quit,
    /// Ask the game to move the snake.
    Move(Dir),
    /// Nothing.
    Ignore,
}

/// What pressing (or releasing) `key` does. The screen's rows are counted
/// from the top, so `W` and the up arrow move towards row 0 (`Dir::Down`),
/// and `S` and the down arrow away from it (`Dir::Up`). Releasing a key does
/// nothing.
pub fn key_action(key: Key, pressed: bool) -> (a: KeyAction)
    ensures
        !pressed ==> a == KeyAction::Ignore,
        pressed ==> a == match key {
            Key::Escape => KeyAction::Quit,
            Key::S | Key::Down => KeyAction::Move(Dir::Up),
            Key::A | Key::Left => KeyAction::Move(Dir::Left),
            Key::W | Key::Up => KeyAction::Move(Dir::Down),
            Key::D | Key::Right => KeyAction::Move(Dir::Right),
            Key::Other => KeyAction::Ignore,
        },
{
    if !pressed {
        return KeyAction::Ignore;
    }
    match key {
        Key::Escape => KeyAction::Quit,
        Key::S | Key::Down => KeyAction::Move(Dir::Up),
        Key::A | Key::Left => KeyAction::Move(Dir::Left),
        Key::W | Key::Up => KeyAction::Move(Dir::Down),
        Key::D | Key::Right => KeyAction::Move(Dir::Right),
        Key::Other => KeyAction::Ignore,
    }
}

} // verus!
