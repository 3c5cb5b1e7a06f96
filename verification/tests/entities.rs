use gridsim::entity::{
    EnemyDamageComponent, Entity, EntityTeam, GravityComponent, GridComponent, InputComponent,
    SnakeBodyComponent,
};
use gridsim::grid::{Grid, Tile, TILE_SIZE};
use gridsim::vector::Vector2;

fn player_components() -> Vec<gridsim::entity::Component> {
    vec![
        InputComponent::new(),
        GridComponent::new(),
        EnemyDamageComponent::new(),
    ]
}

#[test]
fn entity_player_draw() {
    let p = Entity::new(
        Vector2::new(0, 0),
        10,
        10,
        0x00ff00,
        EntityTeam::Player,
        player_components(),
    );
    assert_eq!(p.draw(), vec![0x00ff00, 0, 0u32, TILE_SIZE, TILE_SIZE]);
    let p0 = Entity::new(
        Vector2::new(0, 0),
        0,
        10,
        0x00ff00,
        EntityTeam::Player,
        player_components(),
    );
    assert_eq!(p0.draw(), vec![0xffffff, 0, 0u32, TILE_SIZE, TILE_SIZE]);
}

#[test]
fn player_process_draw() {
    let p = Entity::new(
        Vector2::new(0, 0),
        10,
        10,
        0x00ff00,
        EntityTeam::Player,
        player_components(),
    );
    p.draw();
}

#[test]
fn player_empty_process() {
    let mut e = Entity::new(
        Vector2::new(0, 0),
        10,
        10,
        0x00ff00,
        EntityTeam::Player,
        player_components(),
    );
    e.process(
        &Vector2::new(0, 0),
        &Grid::new(0, 0, vec![]),
        &vec![],
    );
}

#[test]
fn component_clone() {
    let c = InputComponent::new();
    let _c2 = c.clone();
}

#[test]
fn entity_clone() {
    let e = Entity::new(
        Vector2::new(0, 0),
        10,
        10,
        0x00ff00,
        EntityTeam::Player,
        vec![InputComponent::new()],
    );
    let _e2 = e.clone();
}

#[test]
fn within_one_of_pairs() {
    let center = Vector2::new(4, -7);
    for dx in -1..=1 {
        for dy in -1..=1 {
            assert!(center.within_one_of(&Vector2::new(4 + dx, -7 + dy)));
        }
    }
    assert!(!center.within_one_of(&Vector2::new(6, -7)));
    assert!(!center.within_one_of(&Vector2::new(2, -7)));
    assert!(!center.within_one_of(&Vector2::new(4, -5)));
    assert!(!center.within_one_of(&Vector2::new(4, -9)));
    assert!(!center.within_one_of(&Vector2::new(6, -5)));
}

#[test]
fn vector_add() {
    let v = Vector2::new(2, 3).add(Vector2::new(4, -5));
    assert_eq!(v, Vector2::new(6, -2));
    let mut w = Vector2::new(1, 1);
    w.add_assign(Vector2::new(0, 9));
    assert_eq!(w, Vector2::new(1, 10));
    // Addition is total: it wraps at the i32 boundary.
    let edge = Vector2::new(i32::MAX, 0).add(Vector2::new(1, 0));
    assert_eq!(edge, Vector2::new(i32::MIN, 0));
}

#[test]
fn render_partial_health() {
    // One lost health point out of ten brightens each channel by a tenth
    // of its distance from full white: 25 on red and blue, 0 on green.
    let p = Entity::new(
        Vector2::new(0, 0),
        9,
        10,
        0x00ff00,
        EntityTeam::Player,
        vec![],
    );
    assert_eq!(p.draw()[0], 0x19ff19);
}

#[test]
fn render_positions_scale_by_tile_size() {
    let p = Entity::new(
        Vector2::new(3, 7),
        10,
        10,
        0x123456,
        EntityTeam::Player,
        vec![],
    );
    assert_eq!(p.draw(), vec![0x123456, 60, 140, TILE_SIZE, TILE_SIZE]);
}

#[test]
fn gravity_falls_after_threshold() {
    let mut e = Entity::new(
        Vector2::new(0, 0),
        10,
        10,
        0x0000ff,
        EntityTeam::Enemy,
        vec![GravityComponent::new(), GridComponent::new()],
    );
    let tiles = vec![Tile::Floor; 35];
    let grid = Grid::new(1, 35, tiles);
    let input = Vector2::new(0, 0);
    for _ in 0..30 {
        e.process(&input, &grid, &vec![]);
        assert_eq!(e.get_position(), Vector2::new(0, 0));
    }
    e.process(&input, &grid, &vec![]);
    assert_eq!(e.get_position(), Vector2::new(0, 1));
}

#[test]
fn snake_component_waits_for_cooldown() {
    let food = Entity::new(
        Vector2::new(0, 1),
        1,
        1,
        0xffff00,
        EntityTeam::Food,
        vec![],
    );
    let mut snake = Entity::new(
        Vector2::new(0, 0),
        1,
        1,
        0x007b12,
        EntityTeam::Snake,
        vec![SnakeBodyComponent::new()],
    );
    let grid = Grid::new(0, 0, vec![]);
    let input = Vector2::new(0, 0);
    let roster = vec![food];
    for _ in 0..100 {
        let spawned = snake.process(&input, &grid, &roster);
        assert_eq!(spawned.len(), 0);
    }
    let spawned = snake.process(&input, &grid, &roster);
    assert_eq!(spawned.len(), 1);
    assert_eq!(spawned[0].get_position(), Vector2::new(0, 1));
    assert_eq!(spawned[0].get_state().team, EntityTeam::Snake);
    // The cooldown was reset, so the next tick spawns nothing.
    let again = snake.process(&input, &grid, &roster);
    assert_eq!(again.len(), 0);
}
