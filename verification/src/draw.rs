use vstd::prelude::*;
use bracket_lib::color::{BLACK, GRAY, GRAY10, GRAY100, GREEN4, WHITE};
use crate::map::{glyph_of, GameMap, TileType, MAP_SIZE};
use crate::rect::Rect;

verus! {

/// Reads bracket-lib's named colour `WHITE`, which its source defines as `(255, 255, 255)`.
#[verifier::external_body]
fn white() -> (c: (u8, u8, u8))
    ensures
        c == (255u8, 255u8, 255u8),
{
    WHITE
}

/// Reads bracket-lib's named colour `BLACK`, which its source defines as `(0, 0, 0)`.
#[verifier::external_body]
fn black() -> (c: (u8, u8, u8))
    ensures
        c == (0u8, 0u8, 0u8),
{
    BLACK
}

/// Reads bracket-lib's named colour `GRAY`, which its source defines as `(190, 190, 190)`.
#[verifier::external_body]
fn gray() -> (c: (u8, u8, u8))
    ensures
        c == (190u8, 190u8, 190u8),
{
    GRAY
}

/// Reads bracket-lib's named colour `GREEN4`, which its source defines as `(0, 139, 0)`.
#[verifier::external_body]
fn green4() -> (c: (u8, u8, u8))
    ensures
        c == (0u8, 139u8, 0u8),
{
    GREEN4
}

/// Reads bracket-lib's named colour `GRAY10`, which its source defines as `(26, 26, 26)`.
#[verifier::external_body]
fn gray10() -> (c: (u8, u8, u8))
    ensures
        c == (26u8, 26u8, 26u8),
{
    GRAY10
}

/// Reads bracket-lib's named colour `GRAY100`, which its source defines as `(255, 255, 255)`.
#[verifier::external_body]
fn gray100() -> (c: (u8, u8, u8))
    ensures
        c == (255u8, 255u8, 255u8),
{
    GRAY100
}

/// One call the map drawing makes on the terminal.
#[derive(Clone, Copy, Debug, PartialEq, Eq)]
pub enum DrawCommand {
    /// Set the cell `(x, y)` to `glyph` in colour `fg` on `bg`.
    Cell { x: i32, y: i32, fg: (u8, u8, u8), bg: (u8, u8, u8), glyph: char },
    /// Print the room number `number` at `(x, y)` in colour `fg` on `bg`.
    Label { x: i32, y: i32, fg: (u8, u8, u8), bg: (u8, u8, u8), number: usize },
}

/// The colour a tile is drawn in while in view: white floor, grey wall, dark green tree.
pub open spec fn tile_fg(t: TileType) -> (u8, u8, u8) {
    match t {
        TileType::Floor => (255u8, 255u8, 255u8),
        TileType::Wall => (190u8, 190u8, 190u8),
        TileType::Tree => (0u8, 139u8, 0u8),
    }
}

/// The calls that draw tile `i`: nothing if it was never revealed; otherwise its
/// glyph in its colour at its column and row, followed, when it is out of view,
/// by the same glyph in dim grey.
pub open spec fn cell_commands(
    tiles: Seq<TileType>,
    revealed: Seq<bool>,
    visible: Seq<bool>,
    i: int,
) -> Seq<DrawCommand> {
    if !revealed[i] {
        Seq::empty()
    } else {
        let x = (i % 80) as i32;
        let y = (i / 80) as i32;
        let g = glyph_of(tiles[i]);
        let lit = DrawCommand::Cell { x, y, fg: tile_fg(tiles[i]), bg: (0u8, 0u8, 0u8), glyph: g };
        if visible[i] {
            seq![lit]
        } else {
            seq![lit, DrawCommand::Cell { x, y, fg: (26u8, 26u8, 26u8), bg: (0u8, 0u8, 0u8), glyph: g }]
        }
    }
}

/// The calls that draw the first `n` tiles, in index order.
pub open spec fn tile_commands(
    tiles: Seq<TileType>,
    revealed: Seq<bool>,
    visible: Seq<bool>,
    n: int,
) -> Seq<DrawCommand>
    decreases n,
{
    if n <= 0 {
        Seq::empty()
    } else {
        tile_commands(tiles, revealed, visible, n - 1) + cell_commands(tiles, revealed, visible, n - 1)
    }
}

/// The calls that number the first `n` rooms, each at its center, in white on black.
pub open spec fn label_commands(rooms: Seq<Rect>, n: int) -> Seq<DrawCommand>
    decreases n,
{
    if n <= 0 {
        Seq::empty()
    } else {
        label_commands(rooms, n - 1).push(
            DrawCommand::Label {
                x: rooms[n - 1].spec_center().0 as i32,
                y: rooms[n - 1].spec_center().1 as i32,
                fg: (255u8, 255u8, 255u8),
                bg: (0u8, 0u8, 0u8),
                number: (n - 1) as usize,
            },
        )
    }
}

impl GameMap {
    /// The calls that draw the map, in order: each revealed tile (walking the rows
    /// left to right, 80 tiles to a row) in its colour, dimmed when out of view,
    /// then the number of each room at its center.
    pub fn draw_commands(&self) -> (cmds: Vec<DrawCommand>)
        requires
            self.wf(),
            forall|k: int| 0 <= k < self.rooms@.len() ==> (#[trigger] self.rooms@[k]).center_fits(),
        ensures
            cmds@ == tile_commands(self.tiles@, self.revealed_tiles@, self.visible_tiles@, MAP_SIZE as int)
                + label_commands(self.rooms@, self.rooms@.len() as int),
    {
        let mut cmds: Vec<DrawCommand> = Vec::new();
        let mut x: i32 = 0;
        let mut y: i32 = 0;
        let mut idx: usize = 0;
        while idx < self.tiles.len()
            invariant
                self.wf(),
                idx <= MAP_SIZE,
                x == idx % 80,
                y == idx / 80,
                cmds@ == tile_commands(self.tiles@, self.revealed_tiles@, self.visible_tiles@, idx as int),
            decreases MAP_SIZE - idx,
        {
            let ghost before = cmds@;
            if self.revealed_tiles[idx] {
                let tile = self.tiles[idx];
                let glyph = tile.glyph();
                let fg = match tile {
                    TileType::Floor => white(),
                    TileType::Wall => gray(),
                    TileType::Tree => green4(),
                };
                cmds.push(DrawCommand::Cell { x, y, fg, bg: black(), glyph });
                if !self.visible_tiles[idx] {
                    cmds.push(DrawCommand::Cell { x, y, fg: gray10(), bg: black(), glyph });
                }
            }
            proof {
                assert(cmds@ =~= before + cell_commands(
                    self.tiles@,
                    self.revealed_tiles@,
                    self.visible_tiles@,
                    idx as int,
                ));
            }
            x = x + 1;
            if x > 79 {
                x = 0;
                y = y + 1;
            }
            idx = idx + 1;
        }
        let ghost tiles_part = cmds@;
        let mut k: usize = 0;
        while k < self.rooms.len()
            invariant
                k <= self.rooms@.len(),
                forall|j: int| 0 <= j < self.rooms@.len() ==> (#[trigger] self.rooms@[j]).center_fits(),
                cmds@ == tiles_part + label_commands(self.rooms@, k as int),
            decreases self.rooms@.len() - k,
        {
            let (cx, cy) = self.rooms[k].center();
            cmds.push(DrawCommand::Label { x: cx, y: cy, fg: gray100(), bg: black(), number: k });
            proof {
                assert(label_commands(self.rooms@, k + 1) == label_commands(self.rooms@, k as int).push(
                    DrawCommand::Label { x: cx, y: cy, fg: (255u8, 255u8, 255u8), bg: (0u8, 0u8, 0u8), number: k },
                ));
                assert(cmds@ =~= tiles_part + label_commands(self.rooms@, k + 1));
            }
            k = k + 1;
        }
        cmds
    }
}

} // verus!
