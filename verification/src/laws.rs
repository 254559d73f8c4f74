use vstd::prelude::*;
use crate::components::Position;
use crate::draw::{label_commands, tile_commands, DrawCommand};
use crate::enemy_ai_system::{spec_intent, within_reach, MonsterIntent};
use crate::game::{spec_plan_tick, SystemState, TickPlan};
use crate::map::{
    block_cell, carved, cell_index, fresh_room_ok, h_tunnel_cell, idx_ok, on_border, room_cell,
    room_in_map, rooms_generated, spec_xy_idx, v_tunnel_cell, GameMap, TileType, MAP_SIZE,
};
use crate::player::{clamp, destination, key_delta, player_step, InputKey};
use crate::rect::Rect;
use crate::visibility_system::view_applied;
use vstd::math::{max, min};

verus! {

/// A cell of the map goes to its index and back: the index of `(x, y)` lies in
/// column `x` and row `y`.
pub proof fn law_xy_idx_round_trip(x: int, y: int)
    requires
        0 <= x < 80,
        0 <= y,
        cell_index(x, y) <= usize::MAX,
    ensures
        idx_ok(x, y),
        spec_xy_idx(x, y) % 80 == x,
        spec_xy_idx(x, y) / 80 == y,
{
    assert((80 * y + x) % 80 == x && (80 * y + x) / 80 == y) by (nonlinear_arith)
        requires 0 <= x < 80, 0 <= y;
}

/// An index goes to its cell and back.
pub proof fn law_idx_xy_round_trip(i: int)
    requires
        0 <= i <= usize::MAX,
    ensures
        idx_ok(i % 80, i / 80),
        spec_xy_idx(i % 80, i / 80) == i,
{
    assert(i == 80 * (i / 80) + i % 80);
}

/// Whether two rooms overlap does not depend on which one asks.
pub proof fn law_intersect_symmetric(a: Rect, b: Rect)
    ensures
        a.spec_intersects(b) == b.spec_intersects(a),
{
}

/// A rectangle overlaps itself.
pub proof fn law_intersects_itself(r: Rect)
    requires
        r.x1 <= r.x2,
        r.y1 <= r.y2,
    ensures
        r.spec_intersects(r),
{
}

/// The center of a rectangle lies within it.
pub proof fn law_center_inside(r: Rect)
    requires
        r.x1 <= r.x2,
        r.y1 <= r.y2,
    ensures
        r.x1 <= r.spec_center().0 <= r.x2,
        r.y1 <= r.spec_center().1 <= r.y2,
{
}

/// Rooms generated on a map without rooms never overlap or touch one another.
pub proof fn law_generated_rooms_disjoint(
    before: GameMap,
    after: GameMap,
    min_size: int,
    max_size: int,
    attempts: int,
)
    requires
        before.rooms@.len() == 0,
        rooms_generated(before, after, min_size, max_size, attempts),
    ensures
        forall|j: int, k: int|
            0 <= j < after.rooms@.len() && 0 <= k < after.rooms@.len() && j != k
                ==> !(#[trigger] after.rooms@[j]).spec_intersects(#[trigger] after.rooms@[k]),
{
    assert forall|j: int, k: int|
        0 <= j < after.rooms@.len() && 0 <= k < after.rooms@.len() && j != k
        implies !(#[trigger] after.rooms@[j]).spec_intersects(#[trigger] after.rooms@[k]) by {
        if j > k {
            assert(!after.rooms@[j].spec_intersects(after.rooms@[k]));
        } else {
            assert(!after.rooms@[k].spec_intersects(after.rooms@[j]));
        }
    }
}

/// Whether no two of `rooms` overlap or touch.
pub open spec fn pairwise_apart(rooms: Seq<Rect>) -> bool {
    forall|j: int, k: int|
        0 <= j < rooms.len() && 0 <= k < rooms.len() && j != k ==> !(#[trigger] rooms[j]).spec_intersects(
            #[trigger] rooms[k],
        )
}

/// Placing a room that `can_place_room` accepts keeps the rooms of the map apart
/// from one another.
pub proof fn law_place_keeps_rooms_apart(before: GameMap, after: GameMap, room: Rect, horizontal_first: bool)
    requires
        pairwise_apart(before.rooms@),
        before.room_fits(room),
        GameMap::placed(before, after, room, horizontal_first),
    ensures
        pairwise_apart(after.rooms@),
{
    let n = before.rooms@.len();
    let rooms = after.rooms@;
    assert forall|j: int, k: int|
        0 <= j < rooms.len() && 0 <= k < rooms.len() && j != k implies !(#[trigger] rooms[j]).spec_intersects(
            #[trigger] rooms[k],
        ) by {
        if j == n {
            assert(rooms[k] == before.rooms@[k]);
            assert(!room.spec_intersects(before.rooms@[k]));
        } else if k == n {
            assert(rooms[j] == before.rooms@[j]);
            assert(!room.spec_intersects(before.rooms@[j]));
        } else {
            assert(rooms[j] == before.rooms@[j]);
            assert(rooms[k] == before.rooms@[k]);
        }
    }
}

/// Generating rooms keeps the rooms of a map apart from one another: a
/// candidate that overlaps or touches a room already listed is dropped, and no
/// listed room changes.
pub proof fn law_generated_keeps_rooms_apart(
    before: GameMap,
    after: GameMap,
    min_size: int,
    max_size: int,
    attempts: int,
)
    requires
        pairwise_apart(before.rooms@),
        rooms_generated(before, after, min_size, max_size, attempts),
    ensures
        pairwise_apart(after.rooms@),
{
    let n = before.rooms@.len();
    let rooms = after.rooms@;
    assert forall|j: int, k: int|
        0 <= j < rooms.len() && 0 <= k < rooms.len() && j != k implies !(#[trigger] rooms[j]).spec_intersects(
            #[trigger] rooms[k],
        ) by {
        if j < n && k < n {
            assert(rooms.subrange(0, n as int)[j] == rooms[j]);
            assert(rooms.subrange(0, n as int)[k] == rooms[k]);
            assert(!before.rooms@[j].spec_intersects(before.rooms@[k]));
        } else if j > k {
            assert(!rooms[j].spec_intersects(rooms[k]));
        } else {
            assert(!rooms[k].spec_intersects(rooms[j]));
        }
    }
}

/// A step keeps a player that stands on the map on the map, with the position
/// kept for it (`follow`) still equal to its position, whichever way the step goes.
pub proof fn law_player_point_follows(
    tiles: Seq<TileType>,
    pos: Position,
    follow: Position,
    delta_x: int,
    delta_y: int,
    pos2: Position,
    follow2: Position,
)
    requires
        0 <= pos.x <= 79,
        0 <= pos.y <= 49,
        follow == pos,
        player_step(tiles, pos, follow, delta_x, delta_y, pos2, follow2),
    ensures
        0 <= pos2.x <= 79,
        0 <= pos2.y <= 49,
        follow2 == pos2,
{
}

/// A move keeps the player on the map: columns 0 to 79, rows 0 to 49.
pub proof fn law_moves_stay_on_map(x: int, y: int)
    ensures
        0 <= clamp(x, 0, 79) <= 79,
        0 <= clamp(y, 0, 49) <= 49,
{
}

/// Whether the center of `r` lies in its interior, for a room that lies in the map
/// and is at least two cells wide and high (a room one cell wide has its center
/// on its left wall).
pub open spec fn roomy(r: Rect) -> bool {
    &&& room_in_map(r)
    &&& 2 <= r.x2 - r.x1
    &&& 2 <= r.y2 - r.y1
}

/// The center of a room at least two cells wide and high lies in its interior,
/// inside the border of the map.
proof fn lemma_roomy_center(r: Rect)
    requires
        roomy(r),
    ensures
        r.x1 < r.spec_center().0 <= r.x2,
        r.y1 < r.spec_center().1 <= r.y2,
        1 <= r.spec_center().0 <= 78,
        1 <= r.spec_center().1 <= 48,
        room_cell(r, cell_index(r.spec_center().0, r.spec_center().1)),
{
    let (cx, cy) = r.spec_center();
    assert(cell_index(cx, cy) == cell_index(cx, cy));
}

/// The center of every room generated with sides of at least two cells is floor,
/// so that an entity put there stands on the floor.
pub proof fn law_room_centers_are_floor(
    before: GameMap,
    after: GameMap,
    min_size: int,
    max_size: int,
    attempts: int,
)
    requires
        2 <= min_size,
        rooms_generated(before, after, min_size, max_size, attempts),
    ensures
        forall|k: int|
            before.rooms@.len() <= k < after.rooms@.len() ==> after.tiles@[cell_index(
                (#[trigger] after.rooms@[k]).spec_center().0,
                after.rooms@[k].spec_center().1,
            )] == TileType::Floor,
{
    assert forall|k: int| before.rooms@.len() <= k < after.rooms@.len() implies after.tiles@[cell_index(
        (#[trigger] after.rooms@[k]).spec_center().0,
        after.rooms@[k].spec_center().1,
    )] == TileType::Floor by {
        let r = after.rooms@[k];
        assert(fresh_room_ok(r, min_size, max_size));
        lemma_roomy_center(r);
        let c = cell_index(r.spec_center().0, r.spec_center().1);
        assert(0 <= c < MAP_SIZE);
        assert(room_cell(after.rooms@[k], c));
    }
}

/// The cells strictly inside the border are not on it.
proof fn lemma_inside_not_border(x: int, y: int)
    requires
        1 <= x <= 78,
        1 <= y <= 48,
    ensures
        !on_border(cell_index(x, y)),
{
    assert((80 * y + x) % 80 == x) by (nonlinear_arith)
        requires 1 <= x <= 78, 1 <= y;
}

/// A block of cells inside the border holds no border cell.
proof fn lemma_inside_block_not_border(x_lo: int, x_hi: int, y_lo: int, y_hi: int, i: int)
    requires
        1 <= x_lo,
        x_hi <= 78,
        1 <= y_lo,
        y_hi <= 48,
        block_cell(x_lo, x_hi, y_lo, y_hi, i),
    ensures
        !on_border(i),
{
    let (x, y) = choose|x: int, y: int| x_lo <= x <= x_hi && y_lo <= y <= y_hi && #[trigger] cell_index(x, y) == i;
    lemma_inside_not_border(x, y);
}

/// Whether `r` lies in the map and its center lies strictly inside the border.
pub open spec fn centered_inside(r: Rect) -> bool {
    &&& room_in_map(r)
    &&& 1 <= r.spec_center().0 <= 78
    &&& 1 <= r.spec_center().1 <= 48
}

/// What is carved for a room after another room, both lying in the map with their
/// centers inside the border, lies inside the border.
proof fn lemma_carved_not_border(rooms: Seq<Rect>, k: int, i: int)
    requires
        0 <= k < rooms.len(),
        centered_inside(rooms[k]),
        k > 0 ==> centered_inside(rooms[k - 1]),
        carved(rooms, k, i),
    ensures
        !on_border(i),
{
    let r = rooms[k];
    if room_cell(r, i) {
        lemma_inside_block_not_border(r.x1 + 1, r.x2 as int, r.y1 + 1, r.y2 as int, i);
    } else {
        let p = rooms[k - 1];
        let (nx, ny) = r.spec_center();
        let (px, py) = p.spec_center();
        if h_tunnel_cell(px, nx, py, i) {
            lemma_inside_block_not_border(min(px, nx), max(px, nx), py, py, i);
        } else if v_tunnel_cell(py, ny, nx, i) {
            lemma_inside_block_not_border(nx, nx, min(py, ny), max(py, ny), i);
        } else if h_tunnel_cell(px, nx, ny, i) {
            lemma_inside_block_not_border(min(px, nx), max(px, nx), ny, ny, i);
        } else {
            assert(v_tunnel_cell(py, ny, px, i));
            lemma_inside_block_not_border(px, px, min(py, ny), max(py, ny), i);
        }
    }
}

/// Generating rooms leaves every border cell as it was, as long as every room of
/// the result lies in the map with its center strictly inside the border: the
/// border of a map of solid wall stays solid.
pub proof fn law_border_kept(before: GameMap, after: GameMap, min_size: int, max_size: int, attempts: int)
    requires
        rooms_generated(before, after, min_size, max_size, attempts),
        forall|k: int| 0 <= k < after.rooms@.len() ==> centered_inside(#[trigger] after.rooms@[k]),
    ensures
        forall|i: int| 0 <= i < MAP_SIZE && on_border(i) ==> #[trigger] after.tiles@[i] == before.tiles@[i],
{
    let n = before.rooms@.len();
    let rooms = after.rooms@;
    assert forall|i: int| 0 <= i < MAP_SIZE && on_border(i) implies #[trigger] after.tiles@[i] == before.tiles@[i] by {
        if after.tiles@[i] != before.tiles@[i] {
            let k = choose|k: int| n <= k < rooms.len() && #[trigger] carved(rooms, k, i);
            assert(centered_inside(rooms[k]));
            if k > 0 {
                assert(centered_inside(rooms[k - 1]));
            }
            lemma_carved_not_border(rooms, k, i);
        }
    }
}

/// In particular, generating rooms of at least two cells a side, on a map whose
/// rooms are all such rooms, leaves every border cell as it was.
pub proof fn law_border_kept_for_roomy_rooms(
    before: GameMap,
    after: GameMap,
    min_size: int,
    max_size: int,
    attempts: int,
)
    requires
        2 <= min_size,
        forall|k: int| 0 <= k < before.rooms@.len() ==> roomy(#[trigger] before.rooms@[k]),
        rooms_generated(before, after, min_size, max_size, attempts),
    ensures
        forall|i: int| 0 <= i < MAP_SIZE && on_border(i) ==> #[trigger] after.tiles@[i] == before.tiles@[i],
{
    let n = before.rooms@.len();
    let rooms = after.rooms@;
    assert forall|k: int| 0 <= k < rooms.len() implies centered_inside(#[trigger] rooms[k]) by {
        if k < n {
            assert(rooms.subrange(0, n as int)[k] == rooms[k]);
        } else {
            assert(fresh_room_ok(rooms[k], min_size, max_size));
        }
        lemma_roomy_center(rooms[k]);
    }
    law_border_kept(before, after, min_size, max_size, attempts);
}

/// The cell `(5, 2)` is stored at index 165, and no grid laid out by whole rows,
/// or by whole columns, of any width stores it at 156.
pub proof fn law_cell_5_2_index(width: int)
    ensures
        spec_xy_idx(5, 2) == 165,
        2 * width + 5 != 156,
        5 * width + 2 != 156,
{
}

/// Every tile the player sees has been revealed.
pub proof fn law_seen_is_revealed(before: GameMap, after: GameMap, view: Seq<Position>)
    requires
        view_applied(before, after, view),
    ensures
        forall|i: int| 0 <= i < MAP_SIZE && #[trigger] after.visible_tiles@[i] ==> after.revealed_tiles@[i],
{
}

/// A revealed tile stays revealed.
pub proof fn law_revealed_persists(before: GameMap, after: GameMap, view: Seq<Position>)
    requires
        view_applied(before, after, view),
    ensures
        forall|i: int| 0 <= i < MAP_SIZE && #[trigger] before.revealed_tiles@[i] ==> after.revealed_tiles@[i],
{
}

/// Applying the same view twice changes nothing the second time.
pub proof fn law_view_idempotent(a: GameMap, b: GameMap, c: GameMap, view: Seq<Position>)
    requires
        view_applied(a, b, view),
        view_applied(b, c, view),
    ensures
        c.visible_tiles@ == b.visible_tiles@,
        c.revealed_tiles@ == b.revealed_tiles@,
{
    assert(c.visible_tiles@ =~= b.visible_tiles@);
    assert(c.revealed_tiles@ =~= b.revealed_tiles@);
}

/// When the player aims at a tile of the map, the tile whose walls and trees
/// `move_player` checks is the very tile it moves the player onto.
pub proof fn law_move_checks_landing_tile(pos: Position, delta_x: int, delta_y: int)
    requires
        0 <= pos.x + delta_x <= 79,
        0 <= pos.y + delta_y <= 49,
    ensures
        idx_ok(pos.x + delta_x, pos.y + delta_y),
        destination(pos, delta_x, delta_y) == cell_index(
            clamp(pos.x + delta_x, 0, 79),
            clamp(pos.y + delta_y, 0, 49),
        ),
{
}

/// A monster is within reach of the player exactly when it stands on the
/// player's cell or one of the eight around it.
pub proof fn law_within_reach_is_adjacent(a: Position, b: Position)
    ensures
        within_reach(a, b) == (-1 <= a.x - b.x <= 1 && -1 <= a.y - b.y <= 1),
{
    let dx = a.x - b.x;
    let dy = a.y - b.y;
    assert(within_reach(a, b) == (-1 <= dx <= 1 && -1 <= dy <= 1)) by (nonlinear_arith)
        requires
            within_reach(a, b) == (4 * (dx * dx + dy * dy) < 9),
    {
        if !(-1 <= dx <= 1) {
            assert(dx * dx >= 4);
        }
        if !(-1 <= dy <= 1) {
            assert(dy * dy >= 4);
        }
        assert(dx * dx >= 0 && dy * dy >= 0);
    }
}

/// Every step the player takes is followed by exactly one run of the systems
/// before the game waits for the next key.
pub proof fn law_move_then_systems(key: InputKey, next_key: Option<InputKey>)
    requires
        key_delta(key).is_some(),
    ensures
        spec_plan_tick(SystemState::Paused, Some(key)).player_move == key_delta(key),
        spec_plan_tick(SystemState::Paused, Some(key)).next_state == SystemState::Running,
        spec_plan_tick(spec_plan_tick(SystemState::Paused, Some(key)).next_state, next_key).run_systems,
        spec_plan_tick(spec_plan_tick(SystemState::Paused, Some(key)).next_state, next_key).player_move.is_none(),
        spec_plan_tick(spec_plan_tick(SystemState::Paused, Some(key)).next_state, next_key).next_state
            == SystemState::Paused,
{
}

/// A monster on the player's cell or one of the eight around it announces the
/// player and stays, whatever it sees; farther away it chases a player in view
/// and does nothing otherwise.
pub proof fn law_intent_by_distance(pos: Position, view: Seq<Position>, player: Position)
    ensures
        (-1 <= pos.x - player.x <= 1 && -1 <= pos.y - player.y <= 1) ==> spec_intent(pos, view, player)
            == MonsterIntent::Adjacent,
        !(-1 <= pos.x - player.x <= 1 && -1 <= pos.y - player.y <= 1) && view.contains(player)
            ==> spec_intent(pos, view, player) == MonsterIntent::Chase,
        !(-1 <= pos.x - player.x <= 1 && -1 <= pos.y - player.y <= 1) && !view.contains(player)
            ==> spec_intent(pos, view, player) == MonsterIntent::Idle,
{
    law_within_reach_is_adjacent(pos, player);
}

/// In a paused frame the arrows, the keypad and `h`, `j`, `k`, `l` move the player
/// one tile and let the world run next frame; any other key, or none, leaves the
/// game paused with no move. A running frame runs the systems once and pauses.
pub proof fn law_tick_by_key(key: Option<InputKey>)
    ensures
        spec_plan_tick(SystemState::Running, key) == (TickPlan {
            run_systems: true,
            player_move: None,
            next_state: SystemState::Paused,
        }),
        (key == Some(InputKey::Left) || key == Some(InputKey::Numpad4) || key == Some(InputKey::H))
            ==> spec_plan_tick(SystemState::Paused, key) == (TickPlan {
            run_systems: false,
            player_move: Some((-1i32, 0i32)),
            next_state: SystemState::Running,
        }),
        (key == Some(InputKey::Right) || key == Some(InputKey::Numpad6) || key == Some(InputKey::L))
            ==> spec_plan_tick(SystemState::Paused, key) == (TickPlan {
            run_systems: false,
            player_move: Some((1i32, 0i32)),
            next_state: SystemState::Running,
        }),
        (key == Some(InputKey::Up) || key == Some(InputKey::Numpad8) || key == Some(InputKey::K))
            ==> spec_plan_tick(SystemState::Paused, key) == (TickPlan {
            run_systems: false,
            player_move: Some((0i32, -1i32)),
            next_state: SystemState::Running,
        }),
        (key == Some(InputKey::Down) || key == Some(InputKey::Numpad2) || key == Some(InputKey::J))
            ==> spec_plan_tick(SystemState::Paused, key) == (TickPlan {
            run_systems: false,
            player_move: Some((0i32, 1i32)),
            next_state: SystemState::Running,
        }),
        (key == Some(InputKey::Other) || key.is_none()) ==> spec_plan_tick(SystemState::Paused, key) == (TickPlan {
            run_systems: false,
            player_move: None,
            next_state: SystemState::Paused,
        }),
{
}

/// Whether the cell `(x, y)` lies in `r`, its corners and edges included.
pub open spec fn rect_holds(r: Rect, x: int, y: int) -> bool {
    r.x1 <= x <= r.x2 && r.y1 <= y <= r.y2
}

/// Two rectangles intersect exactly when some cell lies in both, corners
/// included; rectangles whose columns or whose rows lie apart never intersect.
pub proof fn law_intersect_means_shared_cell(a: Rect, b: Rect)
    ensures
        a.x1 <= a.x2 && a.y1 <= a.y2 && b.x1 <= b.x2 && b.y1 <= b.y2 ==> a.spec_intersects(b) == (exists|
            x: int,
            y: int,
        | #[trigger] rect_holds(a, x, y) && rect_holds(b, x, y)),
        a.y2 < b.y1 || b.y2 < a.y1 || a.x2 < b.x1 || b.x2 < a.x1 ==> !a.spec_intersects(b),
{
    if a.x1 <= a.x2 && a.y1 <= a.y2 && b.x1 <= b.x2 && b.y1 <= b.y2 && a.spec_intersects(b) {
        let x = max(a.x1 as int, b.x1 as int);
        let y = max(a.y1 as int, b.y1 as int);
        assert(rect_holds(a, x, y) && rect_holds(b, x, y));
    }
}

/// The calls for the first `m` tiles come first among the calls for the first `n`.
proof fn lemma_tile_commands_prefix(
    tiles: Seq<TileType>,
    revealed: Seq<bool>,
    visible: Seq<bool>,
    m: int,
    n: int,
)
    requires
        0 <= m <= n,
    ensures
        tile_commands(tiles, revealed, visible, m).len() <= tile_commands(tiles, revealed, visible, n).len(),
        forall|j: int|
            0 <= j < tile_commands(tiles, revealed, visible, m).len() ==> tile_commands(tiles, revealed, visible, n)[j]
                == #[trigger] tile_commands(tiles, revealed, visible, m)[j],
    decreases n - m,
{
    if m < n {
        lemma_tile_commands_prefix(tiles, revealed, visible, m, n - 1);
    }
}

/// The colour a tile type is drawn in while in view.
pub open spec fn lit_colour(t: TileType) -> (u8, u8, u8) {
    if t == TileType::Floor {
        (255u8, 255u8, 255u8)
    } else if t == TileType::Wall {
        (190u8, 190u8, 190u8)
    } else {
        (0u8, 139u8, 0u8)
    }
}

/// The character a tile type is drawn with.
pub open spec fn drawn_char(t: TileType) -> char {
    if t == TileType::Floor {
        '.'
    } else if t == TileType::Wall {
        '#'
    } else {
        '|'
    }
}

/// Among the calls that draw the first `n` tiles, a revealed tile `i < n` is drawn,
/// right after the calls for the tiles before it, at its column and row with its
/// character in its colour (white floor, grey wall, dark green tree) on black; a
/// tile in view gets that one call, one out of view gets a second call at the
/// same cell with the same character in dark grey `(26, 26, 26)`. A tile never
/// revealed gets no call.
pub proof fn law_draw_tile(tiles: Seq<TileType>, revealed: Seq<bool>, visible: Seq<bool>, n: int, i: int)
    requires
        0 <= i < n,
    ensures
        ({
            let before = tile_commands(tiles, revealed, visible, i).len() as int;
            let upto = tile_commands(tiles, revealed, visible, i + 1).len();
            let all = tile_commands(tiles, revealed, visible, n);
            let lit = DrawCommand::Cell {
                x: (i % 80) as i32,
                y: (i / 80) as i32,
                fg: lit_colour(tiles[i]),
                bg: (0u8, 0u8, 0u8),
                glyph: drawn_char(tiles[i]),
            };
            let dim = DrawCommand::Cell {
                x: (i % 80) as i32,
                y: (i / 80) as i32,
                fg: (26u8, 26u8, 26u8),
                bg: (0u8, 0u8, 0u8),
                glyph: drawn_char(tiles[i]),
            };
            &&& !revealed[i] ==> upto == before
            &&& revealed[i] && visible[i] ==> upto == before + 1 && all[before] == lit
            &&& revealed[i] && !visible[i] ==> upto == before + 2 && all[before] == lit && all[before + 1] == dim
        }),
{
    lemma_tile_commands_prefix(tiles, revealed, visible, i + 1, n);
    let before = tile_commands(tiles, revealed, visible, i);
    let upto = tile_commands(tiles, revealed, visible, i + 1);
    let cell = crate::draw::cell_commands(tiles, revealed, visible, i);
    assert(upto == before + cell);
    assert(crate::draw::tile_fg(tiles[i]) == lit_colour(tiles[i]));
    assert(crate::map::glyph_of(tiles[i]) == drawn_char(tiles[i]));
    if revealed[i] {
        let b = before.len() as int;
        assert(upto[b] == cell[0]);
        assert(tile_commands(tiles, revealed, visible, n)[b] == upto[b]);
        if !visible[i] {
            assert(upto[b + 1] == cell[1]);
            assert(tile_commands(tiles, revealed, visible, n)[b + 1] == upto[b + 1]);
        }
    }
}

/// The room numbers are drawn one per room, in room order: the `k`-th label sits
/// at the center of room `k`, in white on black, and carries the number `k`.
pub proof fn law_room_labels(rooms: Seq<Rect>, n: int)
    requires
        0 <= n <= rooms.len(),
    ensures
        label_commands(rooms, n).len() == n,
        forall|k: int|
            0 <= k < n ==> #[trigger] label_commands(rooms, n)[k] == (DrawCommand::Label {
                x: rooms[k].spec_center().0 as i32,
                y: rooms[k].spec_center().1 as i32,
                fg: (255u8, 255u8, 255u8),
                bg: (0u8, 0u8, 0u8),
                number: k as usize,
            }),
    decreases n,
{
    if n > 0 {
        law_room_labels(rooms, n - 1);
        assert forall|k: int| 0 <= k < n implies #[trigger] label_commands(rooms, n)[k] == (DrawCommand::Label {
            x: rooms[k].spec_center().0 as i32,
            y: rooms[k].spec_center().1 as i32,
            fg: (255u8, 255u8, 255u8),
            bg: (0u8, 0u8, 0u8),
            number: k as usize,
        }) by {
            if k < n - 1 {
                assert(label_commands(rooms, n)[k] == label_commands(rooms, n - 1)[k]);
            }
        }
    }
}

} // verus!
