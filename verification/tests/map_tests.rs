use roguelike::draw::DrawCommand;
use roguelike::map::{GameMap, TileType, MAP_SIZE};
use roguelike::rect::Rect;

fn is_border(i: usize) -> bool {
    i < 80 || i >= 3920 || i % 80 == 0 || i % 80 == 79
}

fn in_room(r: &Rect, i: usize) -> bool {
    let x = (i % 80) as i32;
    let y = (i / 80) as i32;
    r.x1 < x && x <= r.x2 && r.y1 < y && y <= r.y2
}

#[test]
fn xy_idx_lays_rows_of_eighty() {
    let map = GameMap::new();
    assert_eq!(map.xy_idx(5, 2), 165);
    assert_eq!(map.xy_idx(0, 0), 0);
    assert_eq!(map.xy_idx(79, 49), 3999);
    assert_eq!(map.xy_idx(0, 1), 80);
}

#[test]
fn xy_idx_wraps_before_the_first_cell() {
    let map = GameMap::new();
    assert_eq!(map.xy_idx(-1, 0), usize::MAX);
    assert_eq!(map.xy_idx(-81, 1), usize::MAX);
}

#[test]
fn idx_xy_inverts_xy_idx() {
    let map = GameMap::new();
    assert_eq!(map.idx_xy(165), (5, 2));
    for i in [0usize, 79, 80, 1234, 3999] {
        let (x, y) = map.idx_xy(i);
        assert_eq!(map.xy_idx(x, y), i);
    }
}

#[test]
fn new_map_is_solid_wall() {
    let map = GameMap::new();
    assert_eq!(map.tiles.len(), MAP_SIZE);
    assert!(map.tiles.iter().all(|t| *t == TileType::Wall));
    assert!(map.rooms.is_empty());
    assert!(map.revealed_tiles.iter().all(|b| !*b));
    assert_eq!(map.dimensions(), (80, 50));
}

#[test]
fn only_walls_are_opaque() {
    let mut map = GameMap::new();
    map.tiles[1] = TileType::Floor;
    map.tiles[2] = TileType::Tree;
    assert!(map.is_opaque(0));
    assert!(!map.is_opaque(1));
    assert!(!map.is_opaque(2));
}

#[test]
fn glyphs_of_tiles() {
    assert_eq!(TileType::Floor.glyph(), '.');
    assert_eq!(TileType::Wall.glyph(), '#');
    assert_eq!(TileType::Tree.glyph(), '|');
}

#[test]
fn place_first_room_floors_its_interior_only() {
    let mut map = GameMap::new();
    let room = Rect::new(10, 5, 4, 3);
    assert!(map.can_place_room(&room));
    map.place_room(&room, true);
    assert_eq!(map.rooms.len(), 1);
    for i in 0..MAP_SIZE {
        let expect = if in_room(&room, i) { TileType::Floor } else { TileType::Wall };
        assert_eq!(map.tiles[i], expect, "tile {}", i);
    }
    // interior is x 11..=14, y 6..=8: 12 cells
    assert_eq!(map.tiles.iter().filter(|t| **t == TileType::Floor).count(), 12);
}

#[test]
fn place_second_room_digs_corridor_horizontal_first() {
    let mut map = GameMap::new();
    let a = Rect::new(2, 2, 4, 4); // center (4, 4)
    let b = Rect::new(20, 10, 4, 4); // center (22, 12)
    map.place_room(&a, false);
    assert!(!map.can_place_room(&Rect::new(4, 4, 4, 4)));
    assert!(map.can_place_room(&b));
    map.place_room(&b, true);
    assert_eq!(map.rooms.len(), 2);
    // row 4 from x 4 to 22, then column 22 from y 4 to 12
    for x in 4..=22 {
        assert_eq!(map.tiles[map.xy_idx(x, 4)], TileType::Floor);
    }
    for y in 4..=12 {
        assert_eq!(map.tiles[map.xy_idx(22, y)], TileType::Floor);
    }
    assert_eq!(map.tiles[map.xy_idx(4, 12)], TileType::Wall);
}

#[test]
fn place_second_room_digs_corridor_vertical_first() {
    let mut map = GameMap::new();
    let a = Rect::new(2, 2, 4, 4); // center (4, 4)
    let b = Rect::new(20, 10, 4, 4); // center (22, 12)
    map.place_room(&a, false);
    map.place_room(&b, false);
    // column 4 from y 4 to 12, then row 12 from x 4 to 22
    for y in 4..=12 {
        assert_eq!(map.tiles[map.xy_idx(4, y)], TileType::Floor);
    }
    for x in 4..=22 {
        assert_eq!(map.tiles[map.xy_idx(x, 12)], TileType::Floor);
    }
    assert_eq!(map.tiles[map.xy_idx(22, 4)], TileType::Wall);
}

#[test]
fn touching_rooms_do_not_fit() {
    let mut map = GameMap::new();
    map.place_room(&Rect::new(10, 10, 5, 5), true);
    assert!(!map.can_place_room(&Rect::new(15, 10, 5, 5)));
    assert!(map.can_place_room(&Rect::new(16, 10, 5, 5)));
}

fn check_generated(map: &GameMap, min: i32, max: i32) {
    assert_eq!(map.tiles.len(), MAP_SIZE);
    for (k, r) in map.rooms.iter().enumerate() {
        let w = r.x2 - r.x1;
        let h = r.y2 - r.y1;
        assert!(min <= w && w < max && min <= h && h < max);
        assert!(0 <= r.x1 && r.x2 <= 78 && 0 <= r.y1 && r.y2 <= 48);
        for other in map.rooms.iter().take(k) {
            assert!(!r.intersect(other));
            assert!(!other.intersect(r));
        }
        for i in 0..MAP_SIZE {
            if in_room(r, i) {
                assert_eq!(map.tiles[i], TileType::Floor);
            }
        }
        let (cx, cy) = r.center();
        assert_eq!(map.tiles[map.xy_idx(cx, cy)], TileType::Floor);
    }
    for i in 0..MAP_SIZE {
        if is_border(i) {
            assert_eq!(map.tiles[i], TileType::Wall);
        }
    }
}

#[test]
fn rooms_and_corridors_follow_the_rules() {
    for _ in 0..20 {
        let mut map = GameMap::new();
        map.new_map_rooms_and_corridors();
        assert!(!map.rooms.is_empty());
        assert!(map.rooms.len() <= 20);
        check_generated(&map, 6, 12);
    }
}

#[test]
fn rooms_are_scattered() {
    // if the dice always gave the same number every room would start at the same place
    let mut seen_other_corner = false;
    for _ in 0..20 {
        let mut map = GameMap::new();
        map.new_map_rooms_and_corridors();
        let first = map.rooms[0];
        if map.rooms.len() > 1 || first.x1 != 0 || first.y1 != 0 {
            seen_other_corner = true;
        }
    }
    assert!(seen_other_corner);
}

#[test]
fn generate_room_with_no_attempts_changes_nothing() {
    let mut map = GameMap::new();
    map.generate_room(6, 12, 0);
    assert!(map.rooms.is_empty());
    assert!(map.tiles.iter().all(|t| *t == TileType::Wall));
}

#[test]
fn generate_room_with_small_rooms() {
    let mut map = GameMap::new();
    map.generate_room(2, 4, 50);
    check_generated(&map, 2, 4);
}

#[test]
fn test_map_has_solid_border_and_trees() {
    let map = GameMap::new();
    let tiles = map.new_map_test();
    assert_eq!(tiles.len(), MAP_SIZE);
    let mut trees = 0;
    for i in 0..MAP_SIZE {
        if is_border(i) {
            assert_eq!(tiles[i], TileType::Wall);
        } else {
            assert!(tiles[i] == TileType::Floor || tiles[i] == TileType::Tree);
        }
        if tiles[i] == TileType::Tree {
            trees += 1;
        }
    }
    assert_eq!(tiles[map.xy_idx(40, 25)], TileType::Floor);
    assert!(trees <= 100);
    // a hundred rolls landing all on one cell would mean the dice do not roll
    assert!(trees > 1);
}

#[test]
fn draw_one_lit_floor_tile() {
    let mut map = GameMap::new();
    map.tiles[81] = TileType::Floor;
    map.revealed_tiles[81] = true;
    map.visible_tiles[81] = true;
    let cmds = map.draw_commands();
    assert_eq!(
        cmds,
        vec![DrawCommand::Cell { x: 1, y: 1, fg: (255, 255, 255), bg: (0, 0, 0), glyph: '.' }]
    );
}

#[test]
fn draw_dims_tiles_out_of_view_and_numbers_rooms() {
    let mut map = GameMap::new();
    map.tiles[82] = TileType::Tree;
    map.revealed_tiles[82] = true;
    map.revealed_tiles[3999] = true;
    map.visible_tiles[3999] = true;
    map.rooms.push(Rect::new(2, 2, 4, 4));
    let cmds = map.draw_commands();
    assert_eq!(
        cmds,
        vec![
            DrawCommand::Cell { x: 2, y: 1, fg: (0, 139, 0), bg: (0, 0, 0), glyph: '|' },
            DrawCommand::Cell { x: 2, y: 1, fg: (26, 26, 26), bg: (0, 0, 0), glyph: '|' },
            DrawCommand::Cell { x: 79, y: 49, fg: (190, 190, 190), bg: (0, 0, 0), glyph: '#' },
            DrawCommand::Label { x: 4, y: 4, fg: (255, 255, 255), bg: (0, 0, 0), number: 0 },
        ]
    );
}

#[test]
fn visible_at_reads_the_cell() {
    let mut map = GameMap::new();
    map.visible_tiles[165] = true;
    assert!(map.is_visible_at(5, 2));
    assert!(!map.is_visible_at(2, 5));
}

#[test]
fn room_sizes_vary() {
    // if the size draw always gave its lower bound every room would be 6 by 6
    let mut seen_other_size = false;
    for _ in 0..20 {
        let mut map = GameMap::new();
        map.new_map_rooms_and_corridors();
        for r in map.rooms.iter() {
            if r.x2 - r.x1 != 6 || r.y2 - r.y1 != 6 {
                seen_other_size = true;
            }
        }
    }
    assert!(seen_other_size);
}

#[test]
fn placing_fitting_rooms_keeps_them_apart() {
    let mut map = GameMap::new();
    let candidates = [
        Rect::new(1, 1, 5, 5),
        Rect::new(3, 3, 5, 5),
        Rect::new(20, 1, 6, 4),
        Rect::new(40, 30, 8, 8),
        Rect::new(45, 35, 3, 3),
    ];
    for c in candidates.iter() {
        if map.can_place_room(c) {
            map.place_room(c, true);
        }
    }
    assert_eq!(map.rooms.len(), 3);
    for (j, a) in map.rooms.iter().enumerate() {
        for (k, b) in map.rooms.iter().enumerate() {
            if j != k {
                assert!(!a.intersect(b));
            }
        }
    }
}

fn corridor_floored(map: &GameMap, prev: &Rect, room: &Rect, horizontal_first: bool) -> bool {
    let (px, py) = prev.center();
    let (nx, ny) = room.center();
    let (row, col) = if horizontal_first { (py, nx) } else { (ny, px) };
    let ok = |x: i32, y: i32| {
        let i = map.xy_idx(x, y);
        i == 0 || i >= MAP_SIZE || map.tiles[i] == TileType::Floor
    };
    (px.min(nx)..=px.max(nx)).all(|x| ok(x, row)) && (py.min(ny)..=py.max(ny)).all(|y| ok(col, y))
}

#[test]
fn consecutive_rooms_are_joined_by_corridors() {
    for _ in 0..20 {
        let mut map = GameMap::new();
        map.new_map_rooms_and_corridors();
        for k in 1..map.rooms.len() {
            let (a, b) = (map.rooms[k - 1], map.rooms[k]);
            assert!(corridor_floored(&map, &a, &b, true) || corridor_floored(&map, &a, &b, false));
        }
    }
}

#[test]
fn try_place_places_exactly_fitting_rooms() {
    let mut map = GameMap::new();
    assert!(map.try_place(4, 4, 2, 2, true));
    assert_eq!(map.rooms[0], Rect::new(2, 2, 4, 4));
    let before = map.tiles.clone();
    assert!(!map.try_place(4, 4, 5, 5, true));
    assert_eq!(map.rooms.len(), 1);
    assert_eq!(map.tiles, before);
    assert!(map.try_place(4, 4, 20, 10, false));
    assert_eq!(map.rooms.len(), 2);
    assert!(corridor_floored(&map, &map.rooms[0], &map.rooms[1], false));
    assert_eq!(map.tiles[map.xy_idx(22, 4)], TileType::Wall);
}

#[test]
fn plant_trees_on_drawn_cells_but_the_middle() {
    let map = GameMap::new();
    let mut tiles = vec![TileType::Floor; MAP_SIZE];
    map.plant_trees(&mut tiles, &vec![(1, 1), (40, 25), (78, 48), (1, 1)]);
    assert_eq!(tiles[81], TileType::Tree);
    assert_eq!(tiles[3918], TileType::Tree);
    assert_eq!(tiles[2040], TileType::Floor);
    assert_eq!(tiles.iter().filter(|t| **t == TileType::Tree).count(), 2);
}

#[test]
fn cell_5_2_is_165() {
    assert_eq!(GameMap::new().xy_idx(5, 2), 165);
}
