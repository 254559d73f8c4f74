use roguelike::components::{FieldOfView, Position};
use roguelike::enemy_ai_system::{holds_position, MonsterAI, MonsterIntent};
use roguelike::game::{plan_tick, SystemState};
use roguelike::map::{GameMap, TileType, MAP_SIZE};
use roguelike::player::{move_player, player_input, InputKey};
use roguelike::visibility_system::{retain_on_map, VisibilitySystem};

fn fov(tiles: Vec<Position>) -> FieldOfView {
    FieldOfView { visuble_tiles: tiles, range: 6, dirty: false }
}

fn p(x: i32, y: i32) -> Position {
    Position { x, y }
}

#[test]
fn position_accessors() {
    let map = GameMap::new();
    let pos = p(5, 2);
    assert_eq!(pos.get_pos(), (5, 2));
    assert_eq!(pos.get_idx(&map), 165);
}

#[test]
fn player_moves_onto_floor() {
    let mut map = GameMap::new();
    let at = map.xy_idx(11, 10);
    map.tiles[at] = TileType::Floor;
    let mut pos = p(10, 10);
    let mut view = fov(vec![]);
    let mut player_pos = p(10, 10);
    move_player(1, 0, &map, &mut pos, &mut view, &mut player_pos);
    assert_eq!(pos, p(11, 10));
    assert_eq!(player_pos, p(11, 10));
    assert!(view.dirty);
}

#[test]
fn player_blocked_by_wall_and_tree() {
    let mut map = GameMap::new();
    let at = map.xy_idx(10, 11);
    map.tiles[at] = TileType::Tree;
    let mut pos = p(10, 10);
    let mut view = fov(vec![]);
    let mut player_pos = p(10, 10);
    move_player(0, 1, &map, &mut pos, &mut view, &mut player_pos);
    assert_eq!(pos, p(10, 10));
    assert!(!view.dirty);
    move_player(0, -1, &map, &mut pos, &mut view, &mut player_pos);
    assert_eq!(pos, p(10, 10));
    assert_eq!(player_pos, p(10, 10));
    assert!(!view.dirty);
}

#[test]
fn player_move_is_clamped_to_the_map() {
    let mut map = GameMap::new();
    // (80, 3) lands on the index of (0, 4)
    let at = map.xy_idx(0, 4);
    map.tiles[at] = TileType::Floor;
    let mut pos = p(79, 3);
    let mut view = fov(vec![]);
    let mut player_pos = p(0, 0);
    move_player(1, 0, &map, &mut pos, &mut view, &mut player_pos);
    assert_eq!(pos, p(79, 3));
    assert_eq!(player_pos, p(79, 3));
    assert!(view.dirty);
}

#[test]
fn keys_map_to_steps() {
    assert_eq!(player_input(None), (SystemState::Paused, None));
    assert_eq!(player_input(Some(InputKey::Left)), (SystemState::Running, Some((-1, 0))));
    assert_eq!(player_input(Some(InputKey::Numpad4)), (SystemState::Running, Some((-1, 0))));
    assert_eq!(player_input(Some(InputKey::H)), (SystemState::Running, Some((-1, 0))));
    assert_eq!(player_input(Some(InputKey::Right)), (SystemState::Running, Some((1, 0))));
    assert_eq!(player_input(Some(InputKey::L)), (SystemState::Running, Some((1, 0))));
    assert_eq!(player_input(Some(InputKey::Numpad6)), (SystemState::Running, Some((1, 0))));
    assert_eq!(player_input(Some(InputKey::Up)), (SystemState::Running, Some((0, -1))));
    assert_eq!(player_input(Some(InputKey::K)), (SystemState::Running, Some((0, -1))));
    assert_eq!(player_input(Some(InputKey::Numpad8)), (SystemState::Running, Some((0, -1))));
    assert_eq!(player_input(Some(InputKey::Down)), (SystemState::Running, Some((0, 1))));
    assert_eq!(player_input(Some(InputKey::J)), (SystemState::Running, Some((0, 1))));
    assert_eq!(player_input(Some(InputKey::Numpad2)), (SystemState::Running, Some((0, 1))));
    assert_eq!(player_input(Some(InputKey::Other)), (SystemState::Paused, None));
}

#[test]
fn tick_runs_systems_once_after_a_move() {
    let plan = plan_tick(SystemState::Paused, Some(InputKey::J));
    assert!(!plan.run_systems);
    assert_eq!(plan.player_move, Some((0, 1)));
    assert_eq!(plan.next_state, SystemState::Running);
    let next = plan_tick(plan.next_state, Some(InputKey::J));
    assert!(next.run_systems);
    assert_eq!(next.player_move, None);
    assert_eq!(next.next_state, SystemState::Paused);
    let idle = plan_tick(SystemState::Paused, None);
    assert!(!idle.run_systems);
    assert_eq!(idle.next_state, SystemState::Paused);
}

#[test]
fn retain_keeps_points_on_map_in_order() {
    let pts = vec![p(-1, 0), p(3, 4), p(80, 1), p(79, 49), p(0, 50), p(0, 0)];
    assert_eq!(retain_on_map(pts, 80, 50), vec![p(3, 4), p(79, 49), p(0, 0)]);
}

#[test]
fn player_view_reveals_and_lights() {
    let mut map = GameMap::new();
    map.revealed_tiles[0] = true;
    map.visible_tiles[0] = true;
    let mut view = FieldOfView { visuble_tiles: vec![], range: 6, dirty: true };
    let mut sys = VisibilitySystem {};
    sys.run(&mut map, &mut view, true, vec![p(5, 2), p(-3, 2), p(6, 2)]);
    assert!(!view.dirty);
    assert_eq!(view.visuble_tiles, vec![p(5, 2), p(6, 2)]);
    assert!(map.visible_tiles[165] && map.visible_tiles[166]);
    assert!(!map.visible_tiles[0]);
    assert!(map.revealed_tiles[0] && map.revealed_tiles[165] && map.revealed_tiles[166]);
    assert_eq!(map.visible_tiles.iter().filter(|b| **b).count(), 2);
}

#[test]
fn clean_view_is_left_alone() {
    let mut map = GameMap::new();
    let mut view = fov(vec![p(1, 1)]);
    let mut sys = VisibilitySystem {};
    sys.run(&mut map, &mut view, true, vec![p(5, 2)]);
    assert_eq!(view.visuble_tiles, vec![p(1, 1)]);
    assert!(map.revealed_tiles.iter().all(|b| !*b));
}

#[test]
fn monster_view_does_not_touch_map() {
    let mut map = GameMap::new();
    let mut view = FieldOfView { visuble_tiles: vec![], range: 4, dirty: true };
    let mut sys = VisibilitySystem {};
    sys.run(&mut map, &mut view, false, vec![p(5, 2)]);
    assert_eq!(view.visuble_tiles, vec![p(5, 2)]);
    assert!(!view.dirty);
    assert!(map.revealed_tiles.iter().all(|b| !*b));
    assert_eq!(map.visible_tiles.len(), MAP_SIZE);
}

#[test]
fn monster_intent() {
    let ai = MonsterAI {};
    let player = p(10, 10);
    assert_eq!(ai.intent(&p(11, 11), &fov(vec![]), &player), MonsterIntent::Adjacent);
    assert_eq!(ai.intent(&p(10, 10), &fov(vec![]), &player), MonsterIntent::Adjacent);
    assert_eq!(ai.intent(&p(12, 10), &fov(vec![player]), &player), MonsterIntent::Chase);
    assert_eq!(ai.intent(&p(12, 10), &fov(vec![p(1, 1)]), &player), MonsterIntent::Idle);
    assert!(holds_position(&vec![p(1, 1), player], &player));
    assert!(!holds_position(&vec![], &player));
}

#[test]
fn monster_follows_path() {
    let ai = MonsterAI {};
    let mut map = GameMap::new();
    let mut pos = p(10, 10);
    let start = map.xy_idx(10, 10);
    map.blocked_tiles[start] = true;
    let mut view = fov(vec![]);
    let next = map.xy_idx(11, 11);
    assert!(ai.follow_path(&mut map, &mut pos, &mut view, true, &vec![start, next, 900]));
    assert_eq!(pos, p(11, 11));
    assert!(!map.blocked_tiles[start]);
    assert!(map.blocked_tiles[next]);
    assert!(view.dirty);
}

#[test]
fn monster_stays_without_path() {
    let ai = MonsterAI {};
    let mut map = GameMap::new();
    let mut pos = p(10, 10);
    let mut view = fov(vec![]);
    assert!(!ai.follow_path(&mut map, &mut pos, &mut view, false, &vec![810, 900]));
    assert!(!ai.follow_path(&mut map, &mut pos, &mut view, true, &vec![810]));
    assert_eq!(pos, p(10, 10));
    assert!(!view.dirty);
}

#[test]
fn same_view_twice_changes_nothing() {
    let mut map = GameMap::new();
    let view = vec![p(5, 2), p(6, 3)];
    VisibilitySystem::reveal_view(&mut map, &view);
    let visible = map.visible_tiles.clone();
    let revealed = map.revealed_tiles.clone();
    VisibilitySystem::reveal_view(&mut map, &view);
    assert_eq!(map.visible_tiles, visible);
    assert_eq!(map.revealed_tiles, revealed);
    VisibilitySystem::reveal_view(&mut map, &vec![p(0, 0)]);
    assert!(map.revealed_tiles[165] && !map.visible_tiles[165]);
    assert!(map.visible_tiles[0]);
}
