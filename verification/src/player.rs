use vstd::prelude::*;
use crate::components::{FieldOfView, Position};
use crate::game::SystemState;
use crate::map::{idx_ok, spec_xy_idx, GameMap, TileType};

verus! {

/// The keys the game reacts to; every other key is `Other`.
#[derive(Clone, Copy, Debug, PartialEq, Eq, Structural)]
pub enum InputKey {
    Left,
    Right,
    Up,
    Down,
    Numpad2,
    Numpad4,
    Numpad6,
    Numpad8,
    H,
    J,
    K,
    L,
    Other,
}

/// The step a key asks the player to take: the arrows, the numeric keypad and
/// the vi keys `h`, `j`, `k`, `l` move one tile; other keys do not move.
pub open spec fn key_delta(key: InputKey) -> Option<(i32, i32)> {
    match key {
        InputKey::Left | InputKey::Numpad4 | InputKey::H => Some((-1i32, 0i32)),
        InputKey::Right | InputKey::Numpad6 | InputKey::L => Some((1i32, 0i32)),
        InputKey::Up | InputKey::Numpad8 | InputKey::K => Some((0i32, -1i32)),
        InputKey::Down | InputKey::Numpad2 | InputKey::J => Some((0i32, 1i32)),
        InputKey::Other => None,
    }
}

/// `v` brought into `lo..=hi`.
pub open spec fn clamp(v: int, lo: int, hi: int) -> int {
    if v < lo {
        lo
    } else if v > hi {
        hi
    } else {
        v
    }
}

/// Whether the player may step onto a tile: walls and trees block.
pub open spec fn passable(t: TileType) -> bool {
    t != TileType::Wall && t != TileType::Tree
}

/// The tile index the player aims at when stepping by `(delta_x, delta_y)` from `pos`.
pub open spec fn destination(pos: Position, delta_x: int, delta_y: int) -> int {
    spec_xy_idx(pos.x + delta_x, pos.y + delta_y)
}

/// Whether `(pos2, follow2)` is where one step by `(delta_x, delta_y)` leaves
/// the player, from `pos` with the position `follow` kept for it: when the tile aimed
/// at is passable, the player moves there, kept inside the 80 by 50 map, and
/// `follow` goes with it; otherwise both stay.
pub open spec fn player_step(
    tiles: Seq<TileType>,
    pos: Position,
    follow: Position,
    delta_x: int,
    delta_y: int,
    pos2: Position,
    follow2: Position,
) -> bool {
    if passable(tiles[destination(pos, delta_x, delta_y)]) {
        &&& pos2.x == clamp(pos.x + delta_x, 0, 79)
        &&& pos2.y == clamp(pos.y + delta_y, 0, 49)
        &&& follow2 == pos2
    } else {
        &&& pos2 == pos
        &&& follow2 == follow
    }
}

/// Moves the player by `(delta_x, delta_y)` unless a wall or a tree stands on the
/// tile aimed at. A move keeps the player inside the 80 by 50 map, records the
/// new position as the player's position, and marks the player's view dirty.
pub fn move_player(
    delta_x: i32,
    delta_y: i32,
    map: &GameMap,
    pos: &mut Position,
    fov: &mut FieldOfView,
    player_pos: &mut Position,
)
    requires
        i32::MIN <= old(pos).x + delta_x <= i32::MAX,
        i32::MIN <= old(pos).y + delta_y <= i32::MAX,
        idx_ok(old(pos).x + delta_x, old(pos).y + delta_y),
        destination(*old(pos), delta_x as int, delta_y as int) < map.tiles@.len(),
    ensures
        final(fov).range == old(fov).range,
        final(fov).visuble_tiles@ == old(fov).visuble_tiles@,
        player_step(
            map.tiles@,
            *old(pos),
            *old(player_pos),
            delta_x as int,
            delta_y as int,
            *final(pos),
            *final(player_pos),
        ),
        passable(map.tiles@[destination(*old(pos), delta_x as int, delta_y as int)]) ==> {
            &&& final(pos).x == clamp(old(pos).x + delta_x, 0, 79)
            &&& final(pos).y == clamp(old(pos).y + delta_y, 0, 49)
            &&& *final(player_pos) == *final(pos)
            &&& final(fov).dirty
        },
        !passable(map.tiles@[destination(*old(pos), delta_x as int, delta_y as int)]) ==> {
            &&& *final(pos) == *old(pos)
            &&& *final(player_pos) == *old(player_pos)
            &&& final(fov).dirty == old(fov).dirty
        },
{
    let des_idx = map.xy_idx(pos.x + delta_x, pos.y + delta_y);
    if map.tiles[des_idx] != TileType::Wall && map.tiles[des_idx] != TileType::Tree {
        let nx = pos.x + delta_x;
        let ny = pos.y + delta_y;
        let lx = if nx < 0 { 0 } else { nx };
        pos.x = if lx > 79 { 79 } else { lx };
        let ly = if ny < 0 { 0 } else { ny };
        pos.y = if ly > 49 { 49 } else { ly };
        player_pos.x = pos.x;
        player_pos.y = pos.y;
        fov.dirty = true;
    }
}

/// Reads the key pressed this frame: no key, or a key that does not move the
/// player, leaves the game paused; a movement key asks for that step and sets
/// the game running.
pub fn player_input(key: Option<InputKey>) -> (r: (SystemState, Option<(i32, i32)>))
    ensures
        key.is_none() ==> r == (SystemState::Paused, None::<(i32, i32)>),
        key matches Some(k) ==> r == (if key_delta(k).is_some() {
            (SystemState::Running, key_delta(k))
        } else {
            (SystemState::Paused, None::<(i32, i32)>)
        }),
{
    match key {
        None => (SystemState::Paused, None),
        Some(k) => match k {
            InputKey::Left | InputKey::Numpad4 | InputKey::H => (SystemState::Running, Some((-1, 0))),
            InputKey::Right | InputKey::Numpad6 | InputKey::L => (SystemState::Running, Some((1, 0))),
            InputKey::Up | InputKey::Numpad8 | InputKey::K => (SystemState::Running, Some((0, -1))),
            InputKey::Down | InputKey::Numpad2 | InputKey::J => (SystemState::Running, Some((0, 1))),
            InputKey::Other => (SystemState::Paused, None),
        },
    }
}

} // verus!
