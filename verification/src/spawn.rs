use vstd::prelude::*;

verus! {

/// The kinds of monster the game spawns.
#[derive(Clone, Copy, Debug, PartialEq, Eq, Structural)]
pub enum MonsterKind {
    Goblin,
    Orc,
}

impl MonsterKind {
    /// The kind a roll of a two-sided die picks: 1 is a goblin, anything else an orc.
    pub fn from_roll(roll: i32) -> (kind: MonsterKind)
        ensures
            kind == (if roll == 1 { MonsterKind::Goblin } else { MonsterKind::Orc }),
    {
        if roll == 1 {
            MonsterKind::Goblin
        } else {
            MonsterKind::Orc
        }
    }

    /// The character the monster is drawn with.
    pub fn glyph(&self) -> (c: char)
        ensures
            c == match *self {
                MonsterKind::Goblin => 'g',
                MonsterKind::Orc => 'o',
            },
    {
        match self {
            MonsterKind::Goblin => 'g',
            MonsterKind::Orc => 'o',
        }
    }
}

} // verus!
