use vstd::prelude::*;
use crate::components::{FieldOfView, Position};
use crate::map::{cell_index, GameMap, MAP_SIZE};

verus! {

/// Whether `p` lies on a map `width` columns wide and `height` rows high.
pub open spec fn in_map(p: Position, width: int, height: int) -> bool {
    0 <= p.x < width && 0 <= p.y < height
}

/// Whether index `i` is the cell of one of the positions in `view`.
pub open spec fn view_covers(view: Seq<Position>, i: int) -> bool {
    exists|k: int| 0 <= k < view.len() && #[trigger] cell_index(view[k].x as int, view[k].y as int) == i
}

/// Whether `after` is `before` with exactly the cells of `view` visible and those
/// cells revealed in addition to what was revealed already, all else the same.
pub open spec fn view_applied(before: GameMap, after: GameMap, view: Seq<Position>) -> bool {
    &&& after.wf()
    &&& after.tiles@ == before.tiles@
    &&& after.rooms@ == before.rooms@
    &&& after.blocked_tiles@ == before.blocked_tiles@
    &&& after.width == before.width
    &&& after.height == before.height
    &&& forall|i: int| 0 <= i < MAP_SIZE ==> #[trigger] after.visible_tiles@[i] == view_covers(view, i)
    &&& forall|i: int|
        0 <= i < MAP_SIZE ==> #[trigger] after.revealed_tiles@[i] == (before.revealed_tiles@[i]
            || view_covers(view, i))
}

/// The positions of `points` that lie on the map, in their order.
pub open spec fn on_map(points: Seq<Position>, width: int, height: int) -> Seq<Position> {
    points.filter(|p: Position| in_map(p, width, height))
}

/// Keeps the positions that lie on a map of the given size, in their order.
pub fn retain_on_map(points: Vec<Position>, width: i32, height: i32) -> (kept: Vec<Position>)
    ensures
        kept@ == on_map(points@, width as int, height as int),
{
    let ghost pred = |p: Position| in_map(p, width as int, height as int);
    let mut kept: Vec<Position> = Vec::new();
    let mut k: usize = 0;
    while k < points.len()
        invariant
            k <= points@.len(),
            pred == (|p: Position| in_map(p, width as int, height as int)),
            kept@ == points@.take(k as int).filter(pred),
        decreases points@.len() - k,
    {
        let p = points[k];
        proof {
            reveal_with_fuel(Seq::<_>::filter, 1);
            assert(points@.take(k + 1).drop_last() =~= points@.take(k as int));
            assert(points@.take(k + 1).last() == p);
        }
        if p.x >= 0 && p.x < width && p.y >= 0 && p.y < height {
            kept.push(p);
        }
        k = k + 1;
    }
    assert(points@.take(points@.len() as int) =~= points@);
    kept
}

/// Recomputes fields of view that are out of date.
pub struct VisibilitySystem {}

impl VisibilitySystem {
    /// Marks exactly the cells of `view` as visible, and reveals them for good.
    pub fn reveal_view(map: &mut GameMap, view: &Vec<Position>)
        requires
            old(map).wf(),
            forall|k: int| 0 <= k < view@.len() ==> in_map(#[trigger] view@[k], 80, 50),
        ensures
            view_applied(*old(map), *final(map), view@),
    {
        let mut t: usize = 0;
        while t < map.visible_tiles.len()
            invariant
                map.wf(),
                t <= MAP_SIZE,
                map.tiles@ == old(map).tiles@,
                map.rooms@ == old(map).rooms@,
                map.blocked_tiles@ == old(map).blocked_tiles@,
                map.revealed_tiles@ == old(map).revealed_tiles@,
                map.width == old(map).width,
                map.height == old(map).height,
                forall|i: int| 0 <= i < t ==> #[trigger] map.visible_tiles@[i] == false,
            decreases MAP_SIZE - t,
        {
            map.visible_tiles.set(t, false);
            t = t + 1;
        }
        assert forall|i: int| 0 <= i < MAP_SIZE implies #[trigger] map.visible_tiles@[i] == view_covers(view@.take(0), i) by {}
        let mut k: usize = 0;
        while k < view.len()
            invariant
                map.wf(),
                k <= view@.len(),
                forall|j: int| 0 <= j < view@.len() ==> in_map(#[trigger] view@[j], 80, 50),
                map.tiles@ == old(map).tiles@,
                map.rooms@ == old(map).rooms@,
                map.blocked_tiles@ == old(map).blocked_tiles@,
                map.width == old(map).width,
                map.height == old(map).height,
                forall|i: int| 0 <= i < MAP_SIZE ==> #[trigger] map.visible_tiles@[i] == view_covers(view@.take(k as int), i),
                forall|i: int|
                    0 <= i < MAP_SIZE ==> #[trigger] map.revealed_tiles@[i] == (old(map).revealed_tiles@[i]
                        || view_covers(view@.take(k as int), i)),
            decreases view@.len() - k,
        {
            let v = view[k];
            assert(in_map(view@[k as int], 80, 50));
            let idx = map.xy_idx(v.x, v.y);
            proof {
                assert forall|i: int| 0 <= i < MAP_SIZE implies #[trigger] view_covers(view@.take(k + 1), i) == (
                    view_covers(view@.take(k as int), i) || i == idx) by {
                    let s = view@.take(k + 1);
                    if view_covers(s, i) {
                        let j = choose|j: int| 0 <= j < s.len() && #[trigger] cell_index(s[j].x as int, s[j].y as int) == i;
                        if j < k {
                            assert(view@.take(k as int)[j] == s[j]);
                        }
                    }
                    if view_covers(view@.take(k as int), i) {
                        let s0 = view@.take(k as int);
                        let j = choose|j: int| 0 <= j < s0.len() && #[trigger] cell_index(s0[j].x as int, s0[j].y as int) == i;
                        assert(s[j] == s0[j]);
                    }
                    if i == idx {
                        assert(s[k as int] == v);
                        assert(cell_index(s[k as int].x as int, s[k as int].y as int) == i);
                    }
                }
            }
            map.revealed_tiles.set(idx, true);
            map.visible_tiles.set(idx, true);
            k = k + 1;
        }
        assert(view@.take(view@.len() as int) =~= view@);
    }

    /// Brings the field of view of one entity up to date. Nothing happens unless
    /// the view is marked dirty. Then the view becomes the positions of `computed`
    /// (what the field-of-view algorithm saw from the entity) that lie on the map,
    /// it is no longer dirty, and, when the entity is the player, exactly the
    /// viewed cells become visible and are revealed.
    pub fn run(&mut self, map: &mut GameMap, fov: &mut FieldOfView, is_player: bool, computed: Vec<Position>)
        requires
            old(map).wf(),
        ensures
            final(map).wf(),
            final(fov).range == old(fov).range,
            !old(fov).dirty ==> {
                &&& final(map).same_as(old(map))
                &&& final(fov).dirty == old(fov).dirty
                &&& final(fov).visuble_tiles@ == old(fov).visuble_tiles@
            },
            old(fov).dirty ==> {
                &&& !final(fov).dirty
                &&& final(fov).visuble_tiles@ == on_map(computed@, old(map).width as int, old(map).height as int)
            },
            old(fov).dirty && !is_player ==> final(map).same_as(old(map)),
            old(fov).dirty && is_player ==> view_applied(*old(map), *final(map), final(fov).visuble_tiles@),
    {
        if fov.dirty {
            fov.dirty = false;
            fov.visuble_tiles = retain_on_map(computed, map.width, map.height);
            if is_player {
                proof {
                    assert forall|k: int| 0 <= k < fov.visuble_tiles@.len() implies in_map(
                        #[trigger] fov.visuble_tiles@[k],
                        80,
                        50,
                    ) by {
                        computed@.lemma_filter_pred(|p: Position| in_map(p, map.width as int, map.height as int), k);
                    }
                }
                VisibilitySystem::reveal_view(map, &fov.visuble_tiles);
            }
        }
    }
}

} // verus!
