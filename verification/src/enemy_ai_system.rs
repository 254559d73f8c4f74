use vstd::prelude::*;
use crate::components::{FieldOfView, Position};
use crate::map::{cell_index, idx_ok, spec_xy_idx, GameMap, MAP_SIZE};

verus! {

/// Moves monsters toward the player.
pub struct MonsterAI {}

/// What a monster does this turn.
#[derive(Clone, Copy, Debug, PartialEq, Eq, Structural)]
pub enum MonsterIntent {
    /// The player is within reach: the monster announces it and stays.
    Adjacent,
    /// The monster sees the player and looks for a path to them.
    Chase,
    /// The monster neither reaches nor sees the player.
    Idle,
}

/// Whether `a` and `b` are less than 1.5 apart in straight-line distance, that is,
/// whether the square of the distance is below 2.25.
pub open spec fn within_reach(a: Position, b: Position) -> bool {
    let dx = a.x - b.x;
    let dy = a.y - b.y;
    4 * (dx * dx + dy * dy) < 9
}

/// What a monster at `pos` with view `view` does about a player at `player`.
pub open spec fn spec_intent(pos: Position, view: Seq<Position>, player: Position) -> MonsterIntent {
    if within_reach(pos, player) {
        MonsterIntent::Adjacent
    } else if view.contains(player) {
        MonsterIntent::Chase
    } else {
        MonsterIntent::Idle
    }
}

/// Whether `points` holds `p`.
pub fn holds_position(points: &Vec<Position>, p: &Position) -> (b: bool)
    ensures
        b == points@.contains(*p),
{
    let mut k: usize = 0;
    while k < points.len()
        invariant
            k <= points@.len(),
            forall|j: int| 0 <= j < k ==> points@[j] != *p,
        decreases points@.len() - k,
    {
        if points[k] == *p {
            assert(points@[k as int] == *p);
            return true;
        }
        k = k + 1;
    }
    false
}

impl MonsterAI {
    /// Decides what the monster at `pos` does: a player within reach is
    /// announced, a player in view is chased, otherwise nothing happens.
    pub fn intent(&self, pos: &Position, fov: &FieldOfView, player: &Position) -> (r: MonsterIntent)
        ensures
            r == spec_intent(*pos, fov.visuble_tiles@, *player),
    {
        let dx: i64 = pos.x as i64 - player.x as i64;
        let dy: i64 = pos.y as i64 - player.y as i64;
        assert(dx * dx <= 0x1_0000_0000_0000_0000) by (nonlinear_arith)
            requires -0x1_0000_0000 <= dx <= 0x1_0000_0000;
        assert(dy * dy <= 0x1_0000_0000_0000_0000) by (nonlinear_arith)
            requires -0x1_0000_0000 <= dy <= 0x1_0000_0000;
        assert(0 <= dx * dx && 0 <= dy * dy) by (nonlinear_arith);
        let dx2: i128 = (dx as i128) * (dx as i128);
        let dy2: i128 = (dy as i128) * (dy as i128);
        if 4 * (dx2 + dy2) < 9 {
            MonsterIntent::Adjacent
        } else if holds_position(&fov.visuble_tiles, player) {
            MonsterIntent::Chase
        } else {
            MonsterIntent::Idle
        }
    }

    /// Follows a path found toward the player: when the search succeeded and
    /// the path has a step beyond the monster's own cell, the monster leaves its
    /// cell (which is no longer blocked), moves onto the path's second cell (which
    /// becomes blocked), and its view is marked dirty. Returns whether it moved.
    pub fn follow_path(
        &self,
        map: &mut GameMap,
        pos: &mut Position,
        fov: &mut FieldOfView,
        path_success: bool,
        steps: &Vec<usize>,
    ) -> (moved: bool)
        requires
            old(map).wf(),
            idx_ok(old(pos).x as int, old(pos).y as int),
            spec_xy_idx(old(pos).x as int, old(pos).y as int) < MAP_SIZE,
            path_success && steps@.len() > 1 ==> steps@[1] < MAP_SIZE,
        ensures
            final(map).wf(),
            final(map).tiles@ == old(map).tiles@,
            final(map).rooms@ == old(map).rooms@,
            final(map).revealed_tiles@ == old(map).revealed_tiles@,
            final(map).visible_tiles@ == old(map).visible_tiles@,
            final(fov).range == old(fov).range,
            final(fov).visuble_tiles@ == old(fov).visuble_tiles@,
            moved == (path_success && steps@.len() > 1),
            moved ==> {
                &&& final(pos).x == steps@[1] % 80
                &&& final(pos).y == steps@[1] / 80
                &&& final(map).blocked_tiles@ == old(map).blocked_tiles@.update(
                    spec_xy_idx(old(pos).x as int, old(pos).y as int),
                    false,
                ).update(steps@[1] as int, true)
                &&& final(fov).dirty
                &&& idx_ok(final(pos).x as int, final(pos).y as int)
                &&& final(map).blocked_tiles@[spec_xy_idx(final(pos).x as int, final(pos).y as int)]
            },
            !moved ==> {
                &&& *final(pos) == *old(pos)
                &&& final(map).blocked_tiles@ == old(map).blocked_tiles@
                &&& final(fov).dirty == old(fov).dirty
            },
    {
        if path_success && steps.len() > 1 {
            let mut idx = map.xy_idx(pos.x, pos.y);
            map.blocked_tiles.set(idx, false);
            let (new_x, new_y) = map.idx_xy(steps[1]);
            pos.x = new_x;
            pos.y = new_y;
            proof {
                let s = steps@[1] as int;
                assert(s == 80 * (s / 80) + s % 80);
                assert(cell_index(new_x as int, new_y as int) == s);
            }
            idx = map.xy_idx(pos.x, pos.y);
            map.blocked_tiles.set(idx, true);
            fov.dirty = true;
            true
        } else {
            false
        }
    }
}

} // verus!
