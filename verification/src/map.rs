use vstd::prelude::*;
use vstd::math::{max, min};
use crate::rect::Rect;
use crate::dice::{new_rng, rng_range, rng_roll_dice};

verus! {

/// Number of columns the flat tile layout is laid out with.
pub const MAP_WIDTH: i32 = 80;
/// Number of rows of a map.
pub const MAP_HEIGHT: i32 = 50;
/// Number of tiles of a map.
pub const MAP_SIZE: usize = 80 * 50;

/// What stands on a tile of the map.
#[derive(Clone, Copy, Debug, PartialEq, Eq, Structural)]
pub enum TileType {
    Wall,
    Floor,
    Tree,
}

/// The character a tile is drawn with: `.` for floor, `#` for wall, `|` for a tree.
pub open spec fn glyph_of(t: TileType) -> char {
    match t {
        TileType::Floor => '.',
        TileType::Wall => '#',
        TileType::Tree => '|',
    }
}

impl TileType {
    /// The character a tile is drawn with: `.` for floor, `#` for wall, `|` for a tree.
    pub fn glyph(&self) -> (c: char)
        ensures
            c == glyph_of(*self),
    {
        match self {
            TileType::Floor => '.',
            TileType::Wall => '#',
            TileType::Tree => '|',
        }
    }
}

/// The flat index of the cell in column `x` and row `y`, rows being 80 cells wide.
pub open spec fn cell_index(x: int, y: int) -> int {
    80 * y + x
}

/// The coordinates on which `xy_idx` computes without overflow: a row that is not
/// negative, and either a column that is not negative with an index that fits in
/// a `usize`, or a negative column that lands before the first cell (the index
/// then wraps around, as a cast of a negative number to `usize` does).
pub open spec fn idx_ok(x: int, y: int) -> bool {
    &&& 0 <= y
    &&& if 0 <= x {
        cell_index(x, y) <= usize::MAX
    } else {
        cell_index(x, y) < 0
    }
}

/// The value `xy_idx` computes: the flat index, taken modulo the size of `usize`.
pub open spec fn spec_xy_idx(x: int, y: int) -> int {
    if cell_index(x, y) >= 0 {
        cell_index(x, y)
    } else {
        cell_index(x, y) + usize::MAX + 1
    }
}

/// Whether index `i` is the cell `(x, y)` of some `x_lo <= x <= x_hi`, `y_lo <= y <= y_hi`.
pub open spec fn block_cell(x_lo: int, x_hi: int, y_lo: int, y_hi: int, i: int) -> bool {
    exists|x: int, y: int| x_lo <= x <= x_hi && y_lo <= y <= y_hi && #[trigger] cell_index(x, y) == i
}

/// Whether index `i` lies in the interior of `room`, the cells that `apply_room_to_map` floors.
pub open spec fn room_cell(room: Rect, i: int) -> bool {
    block_cell(room.x1 + 1, room.x2 as int, room.y1 + 1, room.y2 as int, i)
}

/// Whether index `i` is floored by a horizontal tunnel from column `x1` to column `x2` in row `y`:
/// only cells strictly after the first one and before `MAP_SIZE` are.
pub open spec fn h_tunnel_cell(x1: int, x2: int, y: int, i: int) -> bool {
    &&& 0 < i < 4000
    &&& block_cell(min(x1, x2), max(x1, x2), y, y, i)
}

/// Whether index `i` is floored by a vertical tunnel from row `y1` to row `y2` in column `x`.
pub open spec fn v_tunnel_cell(y1: int, y2: int, x: int, i: int) -> bool {
    &&& 0 < i < 4000
    &&& block_cell(x, x, min(y1, y2), max(y1, y2), i)
}

/// Whether a room lies where `generate_room` puts rooms: its interior inside the
/// border of the map, its far corner at most one cell before its near corner.
pub open spec fn room_in_map(r: Rect) -> bool {
    &&& 0 <= r.x1
    &&& r.x1 - 1 <= r.x2 <= 78
    &&& 0 <= r.y1
    &&& r.y1 - 1 <= r.y2 <= 48
}

/// Whether a corridor can be dug from the center of `r` to a room that lies in the
/// map without an index overflowing: the center is computed without overflow,
/// lies at non-negative coordinates, and the cells between it and the map fit.
pub open spec fn corridor_anchor_ok(r: Rect) -> bool {
    &&& r.center_fits()
    &&& 0 <= r.spec_center().0
    &&& 0 <= r.spec_center().1
    &&& 80 * max(r.spec_center().1, 48) + max(r.spec_center().0, 78) <= usize::MAX
}

/// Whether index `i` is floored by the corridor from the center of `prev` to the
/// center of `new`: first along the row of `prev`'s center then down the column of
/// `new`'s center when `horizontal_first`, else down the column of `prev`'s center
/// and along the row of `new`'s center.
pub open spec fn corridor_cell(prev: Rect, new: Rect, horizontal_first: bool, i: int) -> bool {
    let (nx, ny) = new.spec_center();
    let (px, py) = prev.spec_center();
    if horizontal_first {
        h_tunnel_cell(px, nx, py, i) || v_tunnel_cell(py, ny, nx, i)
    } else {
        h_tunnel_cell(px, nx, ny, i) || v_tunnel_cell(py, ny, px, i)
    }
}

/// Whether index `i` was carved when room `k` of `rooms` was placed: it lies in the
/// room, or in one of the two corridors that may join it to room `k - 1`.
pub open spec fn carved(rooms: Seq<Rect>, k: int, i: int) -> bool {
    ||| room_cell(rooms[k], i)
    ||| (k > 0 && (corridor_cell(rooms[k - 1], rooms[k], true, i) || corridor_cell(
        rooms[k - 1],
        rooms[k],
        false,
        i,
    )))
}

/// Whether `r` is a room `generate_room` may produce with sizes drawn from
/// `min_size` up to but excluding `max_size`.
pub open spec fn fresh_room_ok(r: Rect, min_size: int, max_size: int) -> bool {
    &&& room_in_map(r)
    &&& min_size <= r.x2 - r.x1 < max_size
    &&& min_size <= r.y2 - r.y1 < max_size
}

/// Whether `room` overlaps or touches none of `rooms`.
pub open spec fn fits_among(rooms: Seq<Rect>, room: Rect) -> bool {
    forall|k: int| 0 <= k < rooms.len() ==> !room.spec_intersects(#[trigger] rooms[k])
}

/// The tiles after placing `room` among `rooms`: its interior floored and, when
/// there is a room before it, the corridor to it from the last one.
pub open spec fn carve(rooms: Seq<Rect>, tiles: Seq<TileType>, room: Rect, horizontal_first: bool) -> Seq<TileType> {
    Seq::new(
        tiles.len(),
        |i: int|
            if room_cell(room, i) || (rooms.len() > 0 && corridor_cell(rooms.last(), room, horizontal_first, i)) {
                TileType::Floor
            } else {
                tiles[i]
            },
    )
}

/// The rooms and tiles after trying the candidate rooms `candidates` in order,
/// the `k`-th with corridor orientation `coins[k]`: a candidate is placed when it
/// fits among the rooms placed so far, and dropped otherwise.
pub open spec fn replay(
    rooms: Seq<Rect>,
    tiles: Seq<TileType>,
    candidates: Seq<Rect>,
    coins: Seq<bool>,
) -> (Seq<Rect>, Seq<TileType>)
    decreases candidates.len(),
{
    if candidates.len() == 0 || coins.len() != candidates.len() {
        (rooms, tiles)
    } else {
        let (r, t) = replay(rooms, tiles, candidates.drop_last(), coins.drop_last());
        let c = candidates.last();
        if fits_among(r, c) {
            (r.push(c), carve(r, t, c, coins.last()))
        } else {
            (r, t)
        }
    }
}

/// Whether `after` is what `generate_room(min_size, max_size, attempts)` makes of
/// `before` when the dice give the rooms `candidates` and the corridor
/// orientations `coins`: one candidate per attempt, each with sizes in range and
/// lying in the map, tried in order.
pub open spec fn generated_from(
    before: GameMap,
    after: GameMap,
    candidates: Seq<Rect>,
    coins: Seq<bool>,
    min_size: int,
    max_size: int,
    attempts: int,
) -> bool {
    &&& candidates.len() == max(attempts, 0)
    &&& coins.len() == candidates.len()
    &&& forall|k: int| 0 <= k < candidates.len() ==> fresh_room_ok(#[trigger] candidates[k], min_size, max_size)
    &&& replay(before.rooms@, before.tiles@, candidates, coins) == (after.rooms@, after.tiles@)
}

/// Whether one of the two corridors from the center of `prev` to the center of
/// `room` is floor all along in `tiles`.
pub open spec fn corridor_floored(prev: Rect, room: Rect, tiles: Seq<TileType>) -> bool {
    ||| forall|i: int| 0 <= i < MAP_SIZE && corridor_cell(prev, room, true, i) ==> #[trigger] tiles[i] == TileType::Floor
    ||| forall|i: int| 0 <= i < MAP_SIZE && corridor_cell(prev, room, false, i) ==> #[trigger] tiles[i] == TileType::Floor
}

/// What `generate_room(min_size, max_size, attempts)` guarantees of the map `after`
/// it made from `before`, whatever the dice rolled: the old rooms are kept and at
/// most `attempts` rooms are added; each added room lies in the map with sizes
/// drawn in range and overlaps no room placed before it; no floor is lost; the
/// interior of every added room is floor; every tile that changed became floor
/// and was carved for one of the added rooms; and a map without rooms gets one
/// as soon as there is an attempt.
pub open spec fn rooms_generated(
    before: GameMap,
    after: GameMap,
    min_size: int,
    max_size: int,
    attempts: int,
) -> bool {
    let n = before.rooms@.len();
    let rooms = after.rooms@;
    &&& before.wf()
    &&& after.wf()
    &&& after.width == before.width
    &&& after.height == before.height
    &&& after.revealed_tiles@ == before.revealed_tiles@
    &&& after.visible_tiles@ == before.visible_tiles@
    &&& after.blocked_tiles@ == before.blocked_tiles@
    &&& n <= rooms.len() <= n + max(attempts, 0)
    &&& rooms.subrange(0, n as int) == before.rooms@
    &&& forall|k: int| n <= k < rooms.len() ==> fresh_room_ok(#[trigger] rooms[k], min_size, max_size)
    &&& forall|j: int, k: int|
        0 <= j < k < rooms.len() && n <= k ==> !(#[trigger] rooms[k]).spec_intersects(#[trigger] rooms[j])
    &&& forall|i: int|
        0 <= i < MAP_SIZE && before.tiles@[i] == TileType::Floor ==> #[trigger] after.tiles@[i]
            == TileType::Floor
    &&& forall|k: int, i: int|
        n <= k < rooms.len() && 0 <= i < MAP_SIZE && room_cell(#[trigger] rooms[k], i)
            ==> #[trigger] after.tiles@[i] == TileType::Floor
    &&& forall|i: int|
        0 <= i < MAP_SIZE && #[trigger] after.tiles@[i] != before.tiles@[i] ==> {
            &&& after.tiles@[i] == TileType::Floor
            &&& exists|k: int| n <= k < rooms.len() && #[trigger] carved(rooms, k, i)
        }
    &&& forall|k: int|
        n <= k < rooms.len() && 0 < k ==> #[trigger] corridor_floored(rooms[k - 1], rooms[k], after.tiles@)
    &&& (n == 0 && attempts > 0 ==> rooms.len() > 0)
}

/// Whether index `i` lies on the border of an 80 by 50 map: the first or last row,
/// or the first or last column.
pub open spec fn on_border(i: int) -> bool {
    ||| i < 80
    ||| 3920 <= i
    ||| i % 80 == 0
    ||| i % 80 == 79
}

/// Whether `draw` is a cell strictly inside the border, as the test map draws them.
pub open spec fn inside_border(draw: (i32, i32)) -> bool {
    1 <= draw.0 <= 78 && 1 <= draw.1 <= 48
}

/// Whether index `i` is the cell of one of `draws`.
pub open spec fn drawn_cell(draws: Seq<(i32, i32)>, i: int) -> bool {
    exists|k: int| 0 <= k < draws.len() && #[trigger] spec_xy_idx(draws[k].0 as int, draws[k].1 as int) == i
}

/// Whether `map` is the test map made with the cells `draws`: a hundred cells
/// inside the border; walls on the border; a tree on each drawn cell but the
/// middle one `(40, 25)`; floor elsewhere.
pub open spec fn test_map_from(draws: Seq<(i32, i32)>, map: Seq<TileType>) -> bool {
    &&& draws.len() == 100
    &&& forall|k: int| 0 <= k < draws.len() ==> inside_border(#[trigger] draws[k])
    &&& map.len() == MAP_SIZE
    &&& forall|i: int|
        0 <= i < MAP_SIZE ==> #[trigger] map[i] == (if on_border(i) {
            TileType::Wall
        } else if drawn_cell(draws, i) && i != cell_index(40, 25) {
            TileType::Tree
        } else {
            TileType::Floor
        })
}

/// A cell drawn inside the border has an index inside the map that is not on its border.
pub proof fn lemma_inside_border_cell(draw: (i32, i32))
    requires
        inside_border(draw),
    ensures
        idx_ok(draw.0 as int, draw.1 as int),
        spec_xy_idx(draw.0 as int, draw.1 as int) == cell_index(draw.0 as int, draw.1 as int),
        81 <= spec_xy_idx(draw.0 as int, draw.1 as int) < MAP_SIZE,
        !on_border(spec_xy_idx(draw.0 as int, draw.1 as int)),
{
    let (x, y) = draw;
    assert((80 * y + x) % 80 == x) by (nonlinear_arith)
        requires 1 <= x <= 78, 1 <= y <= 48;
}

/// The indices of the trees among `tiles`.
pub open spec fn tree_cells(tiles: Seq<TileType>) -> Set<int> {
    Set::new(|i: int| 0 <= i < tiles.len() && tiles[i] == TileType::Tree)
}

/// A cell of one row is found from its index alone.
pub proof fn lemma_row_cell(x_lo: int, x_hi: int, y: int, i: int)
    ensures
        block_cell(x_lo, x_hi, y, y, i) == (x_lo <= i - 80 * y <= x_hi),
{
    if x_lo <= i - 80 * y <= x_hi {
        assert(cell_index(i - 80 * y, y) == i);
    }
}

/// A block one row taller is the block and its new last row.
pub proof fn lemma_block_add_row(x_lo: int, x_hi: int, y_lo: int, y_hi: int, i: int)
    requires
        y_lo <= y_hi + 1,
    ensures
        block_cell(x_lo, x_hi, y_lo, y_hi + 1, i) == (block_cell(x_lo, x_hi, y_lo, y_hi, i)
            || block_cell(x_lo, x_hi, y_hi + 1, y_hi + 1, i)),
{
    if block_cell(x_lo, x_hi, y_lo, y_hi + 1, i) {
        let (x, y) = choose|x: int, y: int|
            x_lo <= x <= x_hi && y_lo <= y <= y_hi + 1 && #[trigger] cell_index(x, y) == i;
        assert(cell_index(x, y) == i);
    }
    if block_cell(x_lo, x_hi, y_lo, y_hi, i) {
        let (x, y) = choose|x: int, y: int|
            x_lo <= x <= x_hi && y_lo <= y <= y_hi && #[trigger] cell_index(x, y) == i;
        assert(cell_index(x, y) == i);
    }
    if block_cell(x_lo, x_hi, y_hi + 1, y_hi + 1, i) {
        let (x, y) = choose|x: int, y: int|
            x_lo <= x <= x_hi && y_hi + 1 <= y <= y_hi + 1 && #[trigger] cell_index(x, y) == i;
        assert(cell_index(x, y) == i);
    }
}

/// A block with no column or no row holds no cell.
pub proof fn lemma_block_empty(x_lo: int, x_hi: int, y_lo: int, y_hi: int, i: int)
    requires
        x_hi < x_lo || y_hi < y_lo,
    ensures
        !block_cell(x_lo, x_hi, y_lo, y_hi, i),
{
}

/// The game map: a grid of tiles laid out row by row, the rooms carved into it,
/// and per tile whether the player has seen it, sees it now, and whether
/// something stands on it.
pub struct GameMap {
    pub tiles: Vec<TileType>,
    pub rooms: Vec<Rect>,
    pub width: i32,
    pub height: i32,
    pub revealed_tiles: Vec<bool>,
    pub visible_tiles: Vec<bool>,
    pub blocked_tiles: Vec<bool>,
}

impl GameMap {
    /// A map is 80 by 50 tiles, and each per-tile vector holds one entry per tile.
    pub open spec fn wf(&self) -> bool {
        &&& self.width == MAP_WIDTH
        &&& self.height == MAP_HEIGHT
        &&& self.tiles@.len() == MAP_SIZE
        &&& self.revealed_tiles@.len() == MAP_SIZE
        &&& self.visible_tiles@.len() == MAP_SIZE
        &&& self.blocked_tiles@.len() == MAP_SIZE
    }

    /// Both maps hold the same.
    pub open spec fn same_as(&self, other: &GameMap) -> bool {
        &&& self.tiles@ == other.tiles@
        &&& self.same_but_tiles(other)
    }

    /// Everything but the tiles is the same in both maps.
    pub open spec fn same_but_tiles(&self, other: &GameMap) -> bool {
        &&& self.rooms@ == other.rooms@
        &&& self.width == other.width
        &&& self.height == other.height
        &&& self.revealed_tiles@ == other.revealed_tiles@
        &&& self.visible_tiles@ == other.visible_tiles@
        &&& self.blocked_tiles@ == other.blocked_tiles@
    }

    /// Whether `after` is `before` with `room` placed as `place_room` places it:
    /// the room's interior floored, and, when there was a room before, the corridor
    /// from the last room's center to the new room's center floored, and the room
    /// appended to the rooms.
    pub open spec fn placed(before: GameMap, after: GameMap, room: Rect, horizontal_first: bool) -> bool {
        &&& after.rooms@ == before.rooms@.push(room)
        &&& after.width == before.width
        &&& after.height == before.height
        &&& after.revealed_tiles@ == before.revealed_tiles@
        &&& after.visible_tiles@ == before.visible_tiles@
        &&& after.blocked_tiles@ == before.blocked_tiles@
        &&& after.tiles@.len() == before.tiles@.len()
        &&& forall|i: int|
            0 <= i < before.tiles@.len() ==> #[trigger] after.tiles@[i] == (if room_cell(room, i) || (
            before.rooms@.len() > 0 && corridor_cell(before.rooms@.last(), room, horizontal_first, i)) {
                TileType::Floor
            } else {
                before.tiles@[i]
            })
    }

    /// Whether `room` overlaps or touches none of the rooms already placed.
    pub open spec fn room_fits(&self, room: Rect) -> bool {
        fits_among(self.rooms@, room)
    }

    /// Translates a 2D position into the index of the flat tile vectors, rows being
    /// 80 tiles wide: for example `(5, 2)` is stored at 165.
    pub fn xy_idx(&self, x: i32, y: i32) -> (idx: usize)
        requires
            idx_ok(x as int, y as int),
        ensures
            idx == spec_xy_idx(x as int, y as int),
    {
        if x >= 0 {
            (y as usize) * 80 + (x as usize)
        } else {
            let below: i64 = -(x as i64) - (y as i64) * 80;
            usize::MAX - ((below - 1) as usize)
        }
    }

    /// Translates a flat index back into its column and row.
    pub fn idx_xy(&self, idx: usize) -> (xy: (i32, i32))
        requires
            idx / 80 <= i32::MAX,
        ensures
            xy.0 == idx % 80,
            xy.1 == idx / 80,
    {
        ((idx % 80) as i32, (idx / 80) as i32)
    }

    /// Floors the interior of `room`: the cells `x1 < x <= x2`, `y1 < y <= y2`.
    fn apply_room_to_map(&mut self, room: &Rect)
        requires
            room.y1 < i32::MAX,
            room.y1 < room.y2 ==> room.x1 < i32::MAX,
            room.x1 < room.x2 && room.y1 < room.y2 ==> {
                &&& -1 <= room.x1
                &&& -1 <= room.y1
                &&& cell_index(room.x2 as int, room.y2 as int) < old(self).tiles@.len()
            },
        ensures
            final(self).same_but_tiles(old(self)),
            final(self).tiles@.len() == old(self).tiles@.len(),
            forall|i: int|
                0 <= i < old(self).tiles@.len() ==> final(self).tiles@[i] == (if room_cell(*room, i) {
                    TileType::Floor
                } else {
                    old(self).tiles@[i]
                }),
    {
        let ghost old_tiles = self.tiles@;
        let tile_count: usize = self.tiles.len();
        let y_start: i64 = room.y1 as i64 + 1;
        let x_start: i64 = room.x1 as i64 + 1;
        let mut y: i64 = y_start;
        while y <= room.y2 as i64
            invariant
                y_start == room.y1 + 1,
                x_start == room.x1 + 1,
                y_start <= y,
                y <= room.y2 + 1 || y == y_start,
                room.x1 < room.x2 && room.y1 < room.y2 ==> {
                    &&& -1 <= room.x1
                    &&& -1 <= room.y1
                    &&& cell_index(room.x2 as int, room.y2 as int) < old_tiles.len()
                },
                self.same_but_tiles(old(self)),
                old_tiles == old(self).tiles@,
                old_tiles.len() == tile_count,
                self.tiles@.len() == old_tiles.len(),
                forall|i: int|
                    0 <= i < old_tiles.len() ==> self.tiles@[i] == (if block_cell(
                        x_start as int,
                        room.x2 as int,
                        y_start as int,
                        y - 1,
                        i,
                    ) {
                        TileType::Floor
                    } else {
                        old_tiles[i]
                    }),
            decreases room.y2 + 1 - y,
        {
            let mut x: i64 = x_start;
            while x <= room.x2 as i64
                invariant
                    y_start == room.y1 + 1,
                    x_start == room.x1 + 1,
                    y_start <= y <= room.y2,
                    x_start <= x,
                    x <= room.x2 + 1 || x == x_start,
                    room.x1 < room.x2 && room.y1 < room.y2 ==> {
                        &&& -1 <= room.x1
                        &&& -1 <= room.y1
                        &&& cell_index(room.x2 as int, room.y2 as int) < old_tiles.len()
                    },
                    self.same_but_tiles(old(self)),
                    old_tiles.len() == tile_count,
                    self.tiles@.len() == old_tiles.len(),
                    forall|i: int|
                        0 <= i < old_tiles.len() ==> self.tiles@[i] == (if block_cell(
                            x_start as int,
                            room.x2 as int,
                            y_start as int,
                            y - 1,
                            i,
                        ) || block_cell(x_start as int, x - 1, y as int, y as int, i) {
                            TileType::Floor
                        } else {
                            old_tiles[i]
                        }),
                decreases room.x2 + 1 - x,
            {
                assert(0 <= x && 0 <= y);
                assert(cell_index(x as int, y as int) <= cell_index(room.x2 as int, room.y2 as int));
                let idx = self.xy_idx(x as i32, y as i32);
                proof {
                    assert(idx == cell_index(x as int, y as int));
                    assert forall|i: int| 0 <= i < old_tiles.len() implies
                        block_cell(x_start as int, x as int, y as int, y as int, i) == (
                        block_cell(x_start as int, x - 1, y as int, y as int, i) || i == idx) by {
                        lemma_row_cell(x_start as int, x as int, y as int, i);
                        lemma_row_cell(x_start as int, x - 1, y as int, i);
                    }
                }
                self.tiles.set(idx, TileType::Floor);
                x = x + 1;
            }
            proof {
                assert forall|i: int| 0 <= i < old_tiles.len() implies
                    block_cell(x_start as int, room.x2 as int, y_start as int, y as int, i) == (
                    block_cell(x_start as int, room.x2 as int, y_start as int, y - 1, i)
                        || block_cell(x_start as int, x - 1, y as int, y as int, i)) by {
                    lemma_block_add_row(x_start as int, room.x2 as int, y_start as int, y - 1, i);
                    if x_start > room.x2 {
                        lemma_block_empty(x_start as int, x - 1, y as int, y as int, i);
                        lemma_block_empty(x_start as int, room.x2 as int, y as int, y as int, i);
                    }
                }
            }
            y = y + 1;
        }
        proof {
            assert forall|i: int| 0 <= i < old_tiles.len() implies
                block_cell(x_start as int, room.x2 as int, y_start as int, y - 1, i) == room_cell(*room, i) by {
                if y_start > room.y2 {
                    lemma_block_empty(x_start as int, room.x2 as int, y_start as int, y - 1, i);
                    lemma_block_empty(x_start as int, room.x2 as int, y_start as int, room.y2 as int, i);
                }
            }
        }
    }

    /// Floors row `y` from column `x1` to column `x2` (in either order), skipping
    /// indices that are not strictly between 0 and `MAP_SIZE`.
    fn apply_horizontal_tunnel(&mut self, x1: i32, x2: i32, y: i32)
        requires
            forall|x: int| min(x1 as int, x2 as int) <= x <= max(x1 as int, x2 as int) ==> idx_ok(x, y as int),
            old(self).tiles@.len() >= MAP_SIZE,
        ensures
            final(self).same_but_tiles(old(self)),
            final(self).tiles@.len() == old(self).tiles@.len(),
            forall|i: int|
                0 <= i < old(self).tiles@.len() ==> final(self).tiles@[i] == (if h_tunnel_cell(
                    x1 as int,
                    x2 as int,
                    y as int,
                    i,
                ) {
                    TileType::Floor
                } else {
                    old(self).tiles@[i]
                }),
    {
        let ghost old_tiles = self.tiles@;
        let lo: i32 = if x1 < x2 { x1 } else { x2 };
        let hi: i32 = if x1 < x2 { x2 } else { x1 };
        let mut x: i64 = lo as i64;
        while x <= hi as i64
            invariant
                lo == min(x1 as int, x2 as int),
                hi == max(x1 as int, x2 as int),
                lo <= x <= hi + 1,
                forall|xx: int| lo <= xx <= hi ==> idx_ok(xx, y as int),
                self.same_but_tiles(old(self)),
                old_tiles == old(self).tiles@,
                old_tiles.len() >= MAP_SIZE,
                self.tiles@.len() == old_tiles.len(),
                forall|i: int|
                    0 <= i < old_tiles.len() ==> self.tiles@[i] == (if 0 < i < 4000 && block_cell(
                        lo as int,
                        x - 1,
                        y as int,
                        y as int,
                        i,
                    ) {
                        TileType::Floor
                    } else {
                        old_tiles[i]
                    }),
            decreases hi + 1 - x,
        {
            assert(idx_ok(x as int, y as int));
            let idx = self.xy_idx(x as i32, y as i32);
            proof {
                assert forall|i: int| 0 <= i < old_tiles.len() implies
                    block_cell(lo as int, x as int, y as int, y as int, i) == (
                    block_cell(lo as int, x - 1, y as int, y as int, i) || i == cell_index(x as int, y as int)) by {
                    lemma_row_cell(lo as int, x as int, y as int, i);
                    lemma_row_cell(lo as int, x - 1, y as int, i);
                }
            }
            if idx > 0 && idx < 80 * 50 {
                self.tiles.set(idx, TileType::Floor);
            }
            x = x + 1;
        }
    }

    /// Floors column `x` from row `y1` to row `y2` (in either order), skipping
    /// indices that are not strictly between 0 and `MAP_SIZE`.
    fn apply_vertical_tunnel(&mut self, y1: i32, y2: i32, x: i32)
        requires
            forall|y: int| min(y1 as int, y2 as int) <= y <= max(y1 as int, y2 as int) ==> idx_ok(x as int, y),
            old(self).tiles@.len() >= MAP_SIZE,
        ensures
            final(self).same_but_tiles(old(self)),
            final(self).tiles@.len() == old(self).tiles@.len(),
            forall|i: int|
                0 <= i < old(self).tiles@.len() ==> final(self).tiles@[i] == (if v_tunnel_cell(
                    y1 as int,
                    y2 as int,
                    x as int,
                    i,
                ) {
                    TileType::Floor
                } else {
                    old(self).tiles@[i]
                }),
    {
        let ghost old_tiles = self.tiles@;
        let lo: i32 = if y1 < y2 { y1 } else { y2 };
        let hi: i32 = if y1 < y2 { y2 } else { y1 };
        let mut y: i64 = lo as i64;
        while y <= hi as i64
            invariant
                lo == min(y1 as int, y2 as int),
                hi == max(y1 as int, y2 as int),
                lo <= y <= hi + 1,
                forall|yy: int| lo <= yy <= hi ==> idx_ok(x as int, yy),
                self.same_but_tiles(old(self)),
                old_tiles == old(self).tiles@,
                old_tiles.len() >= MAP_SIZE,
                self.tiles@.len() == old_tiles.len(),
                forall|i: int|
                    0 <= i < old_tiles.len() ==> self.tiles@[i] == (if 0 < i < 4000 && block_cell(
                        x as int,
                        x as int,
                        lo as int,
                        y - 1,
                        i,
                    ) {
                        TileType::Floor
                    } else {
                        old_tiles[i]
                    }),
            decreases hi + 1 - y,
        {
            assert(idx_ok(x as int, y as int));
            let idx = self.xy_idx(x as i32, y as i32);
            proof {
                assert forall|i: int| 0 <= i < old_tiles.len() implies
                    block_cell(x as int, x as int, lo as int, y as int, i) == (
                    block_cell(x as int, x as int, lo as int, y - 1, i) || i == cell_index(x as int, y as int)) by {
                    lemma_block_add_row(x as int, x as int, lo as int, y - 1, i);
                    lemma_row_cell(x as int, x as int, y as int, i);
                }
            }
            if idx > 0 && idx < 80 * 50 {
                self.tiles.set(idx, TileType::Floor);
            }
            y = y + 1;
        }
    }

    /// Whether `room` can be placed: it intersects none of the rooms already placed.
    pub fn can_place_room(&self, room: &Rect) -> (b: bool)
        ensures
            b == self.room_fits(*room),
    {
        let mut can_place_room = true;
        let mut k: usize = 0;
        while k < self.rooms.len()
            invariant
                k <= self.rooms@.len(),
                can_place_room == forall|j: int| 0 <= j < k ==> !room.spec_intersects(#[trigger] self.rooms@[j]),
            decreases self.rooms@.len() - k,
        {
            if room.intersect(&self.rooms[k]) {
                can_place_room = false;
            }
            k = k + 1;
        }
        can_place_room
    }

    /// Places `room`: floors its interior, digs a corridor to it from the center
    /// of the last room placed, if there is one (along the row first when
    /// `horizontal_first`, down the column first otherwise), and appends it.
    pub fn place_room(&mut self, room: &Rect, horizontal_first: bool)
        requires
            old(self).wf(),
            room_in_map(*room),
            old(self).rooms@.len() > 0 ==> corridor_anchor_ok(old(self).rooms@.last()),
        ensures
            final(self).wf(),
            GameMap::placed(*old(self), *final(self), *room, horizontal_first),
    {
        let ghost before = *self;
        self.apply_room_to_map(room);
        if self.rooms.len() > 0 {
            let (new_x, new_y) = room.center();
            let last = self.rooms.len() - 1;
            let (prev_x, prev_y) = self.rooms[last].center();
            assert(self.rooms@[last as int] == before.rooms@.last());
            if horizontal_first {
                self.apply_horizontal_tunnel(prev_x, new_x, prev_y);
                self.apply_vertical_tunnel(prev_y, new_y, new_x);
            } else {
                self.apply_horizontal_tunnel(prev_x, new_x, new_y);
                self.apply_vertical_tunnel(prev_y, new_y, prev_x);
            }
        }
        self.rooms.push(*room);
    }

    /// One attempt at a room: the room `width` by `height` at `(pos_x, pos_y)` is
    /// placed with `place_room` (the corridor, if one is dug, along the row first
    /// when `horizontal_first`) when it fits among the rooms already placed, and
    /// the map is left as it was otherwise. Returns whether it was placed.
    pub fn try_place(&mut self, width: i32, height: i32, pos_x: i32, pos_y: i32, horizontal_first: bool) -> (placed_it: bool)
        requires
            old(self).wf(),
            room_in_map(Rect { x1: pos_x, y1: pos_y, x2: (pos_x + width) as i32, y2: (pos_y + height) as i32 }),
            i32::MIN <= pos_x + width <= i32::MAX,
            i32::MIN <= pos_y + height <= i32::MAX,
            old(self).rooms@.len() > 0 ==> corridor_anchor_ok(old(self).rooms@.last()),
        ensures
            final(self).wf(),
            placed_it == old(self).room_fits(
                Rect { x1: pos_x, y1: pos_y, x2: (pos_x + width) as i32, y2: (pos_y + height) as i32 },
            ),
            placed_it ==> GameMap::placed(
                *old(self),
                *final(self),
                Rect { x1: pos_x, y1: pos_y, x2: (pos_x + width) as i32, y2: (pos_y + height) as i32 },
                horizontal_first,
            ),
            !placed_it ==> final(self).same_as(old(self)),
    {
        let new_room = Rect::new(pos_x, pos_y, width, height);
        let can_place_room = self.can_place_room(&new_room);
        if can_place_room {
            self.place_room(&new_room, horizontal_first);
        }
        can_place_room
    }

    /// Tries `limit` times to place a room of random width and height between
    /// `min` (inclusive) and `max` (exclusive) at a random place inside the map's
    /// border; a room that overlaps or touches a room already placed is dropped,
    /// one that does not is placed with `place_room`, joined by a corridor whose
    /// orientation is chosen at random.
    pub fn generate_room(&mut self, min: i32, max: i32, limit: i32)
        requires
            old(self).wf(),
            0 < limit ==> -1 <= min < max <= 49,
            old(self).rooms@.len() > 0 ==> corridor_anchor_ok(old(self).rooms@.last()),
        ensures
            rooms_generated(*old(self), *final(self), min as int, max as int, limit as int),
            exists|candidates: Seq<Rect>, coins: Seq<bool>|
                #[trigger] generated_from(*old(self), *final(self), candidates, coins, min as int, max as int, limit as int),
    {
        let ghost before = *self;
        assert(before.rooms@.subrange(0, before.rooms@.len() as int) =~= before.rooms@);
        let mut rng = new_rng();
        let mut attempt: i32 = 0;
        let ghost mut candidates: Seq<Rect> = Seq::empty();
        let ghost mut coins: Seq<bool> = Seq::empty();
        while attempt < limit
            invariant
                0 <= attempt,
                attempt <= limit || attempt == 0,
                0 < limit ==> -1 <= min < max <= 49,
                rooms_generated(before, *self, min as int, max as int, attempt as int),
                self.rooms@.len() > 0 ==> corridor_anchor_ok(self.rooms@.last()),
                candidates.len() == attempt,
                coins.len() == attempt,
                forall|k: int| 0 <= k < candidates.len() ==> fresh_room_ok(#[trigger] candidates[k], min as int, max as int),
                replay(before.rooms@, before.tiles@, candidates, coins) == (self.rooms@, self.tiles@),
            decreases limit - attempt,
        {
            let width = rng_range(&mut rng, min, max);
            let hight = rng_range(&mut rng, min, max);
            let pos_x = rng_roll_dice(&mut rng, 1, 80 - width - 1) - 1;
            let pos_y = rng_roll_dice(&mut rng, 1, 50 - hight - 1) - 1;
            let new_room = Rect::new(pos_x, pos_y, width, hight);
            let horizontal_first = if self.can_place_room(&new_room) && self.rooms.len() > 0 {
                rng_range(&mut rng, 0, 2) == 1
            } else {
                false
            };
            let ghost mid = *self;
            let placed_it = self.try_place(width, hight, pos_x, pos_y, horizontal_first);
            proof {
                let cands2 = candidates.push(new_room);
                let coins2 = coins.push(horizontal_first);
                assert(cands2.drop_last() =~= candidates);
                assert(coins2.drop_last() =~= coins);
                if placed_it {
                    lemma_place_keeps_generated(before, mid, *self, new_room, horizontal_first,
                        min as int, max as int, attempt as int);
                    assert(self.tiles@ =~= carve(mid.rooms@, mid.tiles@, new_room, horizontal_first));
                } else {
                    assert(mid.rooms@.subrange(0, before.rooms@.len() as int) == before.rooms@);
                }
                assert(replay(before.rooms@, before.tiles@, cands2, coins2) == (self.rooms@, self.tiles@));
                candidates = cands2;
                coins = coins2;
            }
            attempt = attempt + 1;
        }
        assert(generated_from(before, *self, candidates, coins, min as int, max as int, limit as int));
    }

    /// Carves rooms joined by corridors into the map: 20 attempts at rooms 6 to 11
    /// tiles wide and high.
    pub fn new_map_rooms_and_corridors(&mut self)
        requires
            old(self).wf(),
            old(self).rooms@.len() > 0 ==> corridor_anchor_ok(old(self).rooms@.last()),
        ensures
            rooms_generated(*old(self), *final(self), 6, 12, 20),
            exists|candidates: Seq<Rect>, coins: Seq<bool>|
                #[trigger] generated_from(*old(self), *final(self), candidates, coins, 6, 12, 20),
    {
        let max_rooms: i32 = 20;
        let min_room_size: i32 = 6;
        let max_room_size: i32 = 12;
        self.generate_room(min_room_size, max_room_size, max_rooms);
    }

    /// Plants a tree on the cell of each of `draws`, except on the middle cell
    /// `(40, 25)`.
    pub fn plant_trees(&self, map: &mut Vec<TileType>, draws: &Vec<(i32, i32)>)
        requires
            forall|k: int|
                0 <= k < draws@.len() ==> idx_ok((#[trigger] draws@[k]).0 as int, draws@[k].1 as int)
                    && spec_xy_idx(draws@[k].0 as int, draws@[k].1 as int) < old(map)@.len(),
        ensures
            final(map)@.len() == old(map)@.len(),
            forall|i: int|
                0 <= i < old(map)@.len() ==> #[trigger] final(map)@[i] == (if drawn_cell(draws@, i) && i
                    != cell_index(40, 25) {
                    TileType::Tree
                } else {
                    old(map)@[i]
                }),
    {
        let mut k: usize = 0;
        while k < draws.len()
            invariant
                k <= draws@.len(),
                map@.len() == old(map)@.len(),
                forall|j: int|
                    0 <= j < draws@.len() ==> idx_ok((#[trigger] draws@[j]).0 as int, draws@[j].1 as int)
                        && spec_xy_idx(draws@[j].0 as int, draws@[j].1 as int) < old(map)@.len(),
                forall|i: int|
                    0 <= i < old(map)@.len() ==> #[trigger] map@[i] == (if drawn_cell(draws@.take(k as int), i)
                        && i != cell_index(40, 25) {
                        TileType::Tree
                    } else {
                        old(map)@[i]
                    }),
            decreases draws@.len() - k,
        {
            let (x, y) = draws[k];
            assert(draws@[k as int] == (x, y));
            let idx = self.xy_idx(x, y);
            proof {
                assert forall|i: int| 0 <= i < old(map)@.len() implies #[trigger] drawn_cell(
                    draws@.take(k + 1),
                    i,
                ) == (drawn_cell(draws@.take(k as int), i) || i == idx) by {
                    let s1 = draws@.take(k + 1);
                    let s0 = draws@.take(k as int);
                    if drawn_cell(s1, i) {
                        let j = choose|j: int| 0 <= j < s1.len() && #[trigger] spec_xy_idx(s1[j].0 as int, s1[j].1 as int) == i;
                        if j < k {
                            assert(s0[j] == s1[j]);
                        }
                    }
                    if drawn_cell(s0, i) {
                        let j = choose|j: int| 0 <= j < s0.len() && #[trigger] spec_xy_idx(s0[j].0 as int, s0[j].1 as int) == i;
                        assert(s1[j] == s0[j]);
                    }
                    if i == idx {
                        assert(s1[k as int] == (x, y));
                        assert(spec_xy_idx(s1[k as int].0 as int, s1[k as int].1 as int) == i);
                    }
                }
            }
            if idx != self.xy_idx(40, 25) {
                map.set(idx, TileType::Tree);
            }
            k = k + 1;
        }
        assert(draws@.take(draws@.len() as int) =~= draws@);
    }

    /// A test map: walls all around the border, floor inside, and a tree on each
    /// of a hundred cells drawn at random inside the border, except the middle
    /// cell `(40, 25)`.
    pub fn new_map_test(&self) -> (map: Vec<TileType>)
        ensures
            map@.len() == MAP_SIZE,
            forall|i: int| 0 <= i < MAP_SIZE ==> (#[trigger] map@[i] == TileType::Wall) == on_border(i),
            forall|i: int| 0 <= i < MAP_SIZE && !on_border(i) ==> #[trigger] map@[i] == TileType::Floor
                || map@[i] == TileType::Tree,
            map@[cell_index(40, 25)] == TileType::Floor,
            tree_cells(map@).finite(),
            tree_cells(map@).len() <= 100,
            exists|draws: Seq<(i32, i32)>| #[trigger] test_map_from(draws, map@),
    {
        let mut map = vec![TileType::Floor; 80 * 50];
        assert forall|i: int| 0 <= i < MAP_SIZE implies map@[i] == TileType::Floor by {
            assert(cloned(TileType::Floor, map@[i]));
        }

        let mut x: i32 = 0;
        while x < 80
            invariant
                0 <= x <= 80,
                map@.len() == MAP_SIZE,
                forall|i: int| 0 <= i < MAP_SIZE ==> #[trigger] map@[i] == (if i < x || (3920 <= i && i < 3920 + x) {
                    TileType::Wall
                } else {
                    TileType::Floor
                }),
            decreases 80 - x,
        {
            let top = self.xy_idx(x, 0);
            map.set(top, TileType::Wall);
            let bottom = self.xy_idx(x, 49);
            map.set(bottom, TileType::Wall);
            x = x + 1;
        }

        let mut y: i32 = 0;
        while y < 50
            invariant
                0 <= y <= 50,
                map@.len() == MAP_SIZE,
                forall|i: int| 0 <= i < MAP_SIZE ==> #[trigger] map@[i] == (if i < 80 || 3920 <= i || ((i % 80
                    == 0 || i % 80 == 79) && i / 80 < y) {
                    TileType::Wall
                } else {
                    TileType::Floor
                }),
            decreases 50 - y,
        {
            let left = self.xy_idx(0, y);
            map.set(left, TileType::Wall);
            let right = self.xy_idx(79, y);
            map.set(right, TileType::Wall);
            proof {
                assert forall|i: int| #![trigger map@[i]] 0 <= i < MAP_SIZE implies ((i % 80 == 0 || i % 80 == 79) && i / 80 < y + 1)
                    == (((i % 80 == 0 || i % 80 == 79) && i / 80 < y) || i == 80 * y || i == 80 * y + 79) by {
                    assert(i == 80 * (i / 80) + i % 80);
                }
            }
            y = y + 1;
        }

        let mut rand = new_rng();
        let mut draws: Vec<(i32, i32)> = Vec::new();
        let mut count: i32 = 0;
        while count < 100
            invariant
                0 <= count <= 100,
                draws@.len() == count,
                forall|k: int| 0 <= k < draws@.len() ==> inside_border(#[trigger] draws@[k]),
            decreases 100 - count,
        {
            let x = rng_roll_dice(&mut rand, 1, 78);
            let y = rng_roll_dice(&mut rand, 1, 48);
            draws.push((x, y));
            count = count + 1;
        }
        let ghost walled = map@;
        self.plant_trees(&mut map, &draws);
        proof {
            assert forall|i: int| 0 <= i < MAP_SIZE implies #[trigger] map@[i] == (if on_border(i) {
                TileType::Wall
            } else if drawn_cell(draws@, i) && i != cell_index(40, 25) {
                TileType::Tree
            } else {
                TileType::Floor
            }) by {
                if drawn_cell(draws@, i) {
                    let k = choose|k: int| 0 <= k < draws@.len() && #[trigger] spec_xy_idx(
                        draws@[k].0 as int,
                        draws@[k].1 as int,
                    ) == i;
                    lemma_inside_border_cell(draws@[k]);
                }
            }
            assert(test_map_from(draws@, map@));
            let planted = Seq::new(100, |k: int| spec_xy_idx(draws@[k].0 as int, draws@[k].1 as int));
            assert forall|i: int| #[trigger] tree_cells(map@).contains(i) implies planted.to_set().contains(i) by {
                let k = choose|k: int| 0 <= k < draws@.len() && #[trigger] spec_xy_idx(
                    draws@[k].0 as int,
                    draws@[k].1 as int,
                ) == i;
                assert(planted[k] == i);
            }
            assert(tree_cells(map@).subset_of(planted.to_set()));
            planted.lemma_cardinality_of_set();
            vstd::set_lib::lemma_len_subset(tree_cells(map@), planted.to_set());
        }
        map
    }

    /// A map of solid wall with no rooms, nothing revealed, visible or blocked.
    pub fn new() -> (map: GameMap)
        ensures
            map.wf(),
            map.rooms@.len() == 0,
            forall|i: int| 0 <= i < MAP_SIZE ==> #[trigger] map.tiles@[i] == TileType::Wall,
            forall|i: int| 0 <= i < MAP_SIZE ==> !(#[trigger] map.revealed_tiles@[i]),
            forall|i: int| 0 <= i < MAP_SIZE ==> !(#[trigger] map.visible_tiles@[i]),
            forall|i: int| 0 <= i < MAP_SIZE ==> !(#[trigger] map.blocked_tiles@[i]),
    {
        let tiles = vec![TileType::Wall; MAP_SIZE];
        let revealed_tiles = vec![false; MAP_SIZE];
        let visible_tiles = vec![false; MAP_SIZE];
        let blocked_tiles = vec![false; MAP_SIZE];
        proof {
            assert forall|i: int| 0 <= i < MAP_SIZE implies tiles@[i] == TileType::Wall && !revealed_tiles@[i]
                && !visible_tiles@[i] && !blocked_tiles@[i] by {
                assert(cloned(TileType::Wall, tiles@[i]));
                assert(cloned(false, revealed_tiles@[i]));
                assert(cloned(false, visible_tiles@[i]));
                assert(cloned(false, blocked_tiles@[i]));
            }
        }
        GameMap {
            tiles,
            rooms: Vec::new(),
            width: 80,
            height: 50,
            revealed_tiles,
            visible_tiles,
            blocked_tiles,
        }
    }

    /// The size of the map, columns then rows.
    pub fn dimensions(&self) -> (d: (i32, i32))
        ensures
            d == (self.width, self.height),
    {
        (self.width, self.height)
    }

    /// Whether the tile at `idx` blocks sight: only walls do.
    pub fn is_opaque(&self, idx: usize) -> (b: bool)
        requires
            idx < self.tiles@.len(),
        ensures
            b == (self.tiles@[idx as int] == TileType::Wall),
    {
        self.tiles[idx] == TileType::Wall
    }

    /// Whether the player sees the tile at `(x, y)` now.
    pub fn is_visible_at(&self, x: i32, y: i32) -> (b: bool)
        requires
            idx_ok(x as int, y as int),
            spec_xy_idx(x as int, y as int) < self.visible_tiles@.len(),
        ensures
            b == self.visible_tiles@[spec_xy_idx(x as int, y as int)],
    {
        let idx = self.xy_idx(x, y);
        self.visible_tiles[idx]
    }
}

/// Placing a fresh room that fits keeps what `generate_room` guarantees, with one
/// attempt more.
proof fn lemma_place_keeps_generated(
    before: GameMap,
    mid: GameMap,
    after: GameMap,
    room: Rect,
    horizontal_first: bool,
    min_size: int,
    max_size: int,
    attempts: int,
)
    requires
        0 <= attempts,
        rooms_generated(before, mid, min_size, max_size, attempts),
        fresh_room_ok(room, min_size, max_size),
        mid.room_fits(room),
        after.wf(),
        GameMap::placed(mid, after, room, horizontal_first),
    ensures
        rooms_generated(before, after, min_size, max_size, attempts + 1),
        corridor_anchor_ok(after.rooms@.last()),
{
    let n = before.rooms@.len();
    let m = mid.rooms@.len();
    let rooms = after.rooms@;
    assert(rooms[m as int] == room);
    assert forall|k: int| 0 <= k < m implies rooms[k] == mid.rooms@[k] by {}
    assert(rooms.subrange(0, n as int) =~= before.rooms@) by {
        assert(mid.rooms@.subrange(0, n as int) == before.rooms@);
        assert forall|k: int| 0 <= k < n implies rooms.subrange(0, n as int)[k] == before.rooms@[k] by {
            assert(rooms[k] == mid.rooms@[k]);
            assert(mid.rooms@.subrange(0, n as int)[k] == mid.rooms@[k]);
        }
    }
    assert forall|k: int| n <= k < rooms.len() implies fresh_room_ok(#[trigger] rooms[k], min_size, max_size) by {
        if k < m {
            assert(rooms[k] == mid.rooms@[k]);
        }
    }
    assert forall|j: int, k: int|
        0 <= j < k < rooms.len() && n <= k implies !(#[trigger] rooms[k]).spec_intersects(#[trigger] rooms[j]) by {
        assert(rooms[j] == mid.rooms@[j]);
        if k < m {
            assert(rooms[k] == mid.rooms@[k]);
        } else {
            assert(!room.spec_intersects(mid.rooms@[j]));
        }
    }
    assert forall|k: int, i: int|
        n <= k < rooms.len() && 0 <= i < MAP_SIZE && room_cell(#[trigger] rooms[k], i)
        implies #[trigger] after.tiles@[i] == TileType::Floor by {
        if k < m {
            assert(rooms[k] == mid.rooms@[k]);
            assert(room_cell(mid.rooms@[k], i));
            assert(mid.tiles@[i] == TileType::Floor);
        } else {
            assert(rooms[k] == room);
        }
    }
    assert forall|i: int|
        0 <= i < MAP_SIZE && #[trigger] after.tiles@[i] != before.tiles@[i] implies {
            &&& after.tiles@[i] == TileType::Floor
            &&& exists|k: int| n <= k < rooms.len() && #[trigger] carved(rooms, k, i)
        } by {
        if after.tiles@[i] != mid.tiles@[i] {
            assert(carved(rooms, m as int, i)) by {
                if m > 0 {
                    assert(rooms[m - 1] == mid.rooms@.last());
                }
            }
        } else {
            assert(mid.tiles@[i] != before.tiles@[i]);
            let k = choose|k: int| n <= k < mid.rooms@.len() && #[trigger] carved(mid.rooms@, k, i);
            assert(rooms[k] == mid.rooms@[k]);
            if k > 0 {
                assert(rooms[k - 1] == mid.rooms@[k - 1]);
            }
            assert(carved(rooms, k, i));
        }
    }
    assert forall|k: int|
        n <= k < rooms.len() && 0 < k implies #[trigger] corridor_floored(rooms[k - 1], rooms[k], after.tiles@) by {
        if k < m {
            assert(rooms[k] == mid.rooms@[k]);
            assert(rooms[k - 1] == mid.rooms@[k - 1]);
            assert(corridor_floored(mid.rooms@[k - 1], mid.rooms@[k], mid.tiles@));
            if forall|i: int| 0 <= i < MAP_SIZE && corridor_cell(rooms[k - 1], rooms[k], true, i)
                ==> #[trigger] mid.tiles@[i] == TileType::Floor {
                assert forall|i: int| 0 <= i < MAP_SIZE && corridor_cell(rooms[k - 1], rooms[k], true, i)
                    implies #[trigger] after.tiles@[i] == TileType::Floor by {
                    assert(mid.tiles@[i] == TileType::Floor);
                }
            } else {
                assert forall|i: int| 0 <= i < MAP_SIZE && corridor_cell(rooms[k - 1], rooms[k], false, i)
                    implies #[trigger] after.tiles@[i] == TileType::Floor by {
                    assert(mid.tiles@[i] == TileType::Floor);
                }
            }
        } else {
            assert(rooms[k - 1] == mid.rooms@.last());
            assert(rooms[k] == room);
            if horizontal_first {
                assert forall|i: int| 0 <= i < MAP_SIZE && corridor_cell(rooms[k - 1], rooms[k], true, i)
                    implies #[trigger] after.tiles@[i] == TileType::Floor by {}
            } else {
                assert forall|i: int| 0 <= i < MAP_SIZE && corridor_cell(rooms[k - 1], rooms[k], false, i)
                    implies #[trigger] after.tiles@[i] == TileType::Floor by {}
            }
        }
    }
}

} // verus!
