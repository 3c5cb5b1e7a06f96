use gridsim::entity::{
    new_snake_entity, EnemyDamageComponent, Entity, EntityTeam, GridComponent, InputComponent,
};
use gridsim::grid::{Grid, Tile, TILE_SIZE};
use gridsim::vector::Vector2;
use gridsim::{game_loop, init_state, new_enemy, new_player, State};

#[test]
fn basic_grid() {
    let v: Vec<Tile> = vec![];
    let g = Grid::new(0, 0, v);
    assert!(g.draw().len() == 0)
}

#[test]
fn one_by_one_grid() {
    let g = Grid::new(1, 1, vec![Tile::Wall]);
    assert_eq!(
        g.draw(),
        vec![Tile::Wall.get_color(), 0, 0, TILE_SIZE, TILE_SIZE]
    )
}

#[test]
fn run_frame() {
    let s = init_state();
    game_loop(Vector2::new(0, 0), s);
}

#[test]
fn run_frame_input() {
    let mut s = init_state();
    s = game_loop(Vector2::new(1, 0), s).state;
    let _ = s;
}

#[test]
fn lib_player_draw() {
    let p = new_player(Vector2::new(0, 0));
    assert_eq!(p.draw(), vec![0x00ff00, 0, 0u32, TILE_SIZE, TILE_SIZE]);
    let p0 = Entity::new(
        Vector2::new(0, 0),
        0,
        10,
        0x00ff00,
        EntityTeam::Player,
        vec![
            InputComponent::new(),
            EnemyDamageComponent::new(),
            GridComponent::new(),
        ],
    );
    assert_eq!(p0.draw(), vec![0xffffff, 0, 0u32, TILE_SIZE, TILE_SIZE]);
}

#[test]
fn grid_bounds() {
    let g = Grid::new(1, 1, vec![Tile::Floor]);
    assert_eq!(g.get_tile(Vector2::new(0, 0)), Some(Tile::Floor));
    assert_eq!(g.get_tile(Vector2::new(1, 0)), None);
    assert_eq!(g.get_tile(Vector2::new(-1, 0)), None);
}

#[test]
fn grid_draw_addressing() {
    // The first coordinate strides by a full row: the tile drawn at grid
    // position (1, 0) is the one at flat index 1 * width + 0.
    let g = Grid::new(
        2,
        2,
        vec![Tile::Wall, Tile::Floor, Tile::Floor, Tile::Wall],
    );
    let out = g.draw();
    assert_eq!(out.len(), 20);
    // (x, y) = (0, 0): tiles[0], a wall.
    assert_eq!(out[0..5], [Tile::Wall.get_color(), 0, 0, 20, 20]);
    // (x, y) = (0, 1): tiles[1], a floor.
    assert_eq!(out[5..10], [Tile::Floor.get_color(), 0, 20, 20, 20]);
    // (x, y) = (1, 0): tiles[2], a floor.
    assert_eq!(out[10..15], [Tile::Floor.get_color(), 20, 0, 20, 20]);
    // (x, y) = (1, 1): tiles[3], a wall.
    assert_eq!(out[15..20], [Tile::Wall.get_color(), 20, 20, 20, 20]);
}

#[test]
fn grid_draw_total_on_non_square() {
    // Every tile is emitted exactly once, also when the grid is not
    // square; the cell of tile k is (k / width, k % width).
    let g = Grid::new(
        2,
        3,
        vec![
            Tile::Wall,
            Tile::Floor,
            Tile::Floor,
            Tile::Wall,
            Tile::Floor,
            Tile::Wall,
        ],
    );
    let out = g.draw();
    assert_eq!(out.len(), 30);
    assert_eq!(out[0..5], [Tile::Wall.get_color(), 0, 0, 20, 20]);
    assert_eq!(out[10..15], [Tile::Floor.get_color(), 20, 0, 20, 20]);
    assert_eq!(out[20..25], [Tile::Floor.get_color(), 40, 0, 20, 20]);
    assert_eq!(out[25..30], [Tile::Wall.get_color(), 40, 20, 20, 20]);
}

#[test]
fn collision_blocked_by_wall() {
    // A wall on the target cell rejects the move and still consumes the
    // pending displacement.
    let g = Grid::new(
        2,
        2,
        vec![Tile::Floor, Tile::Floor, Tile::Wall, Tile::Floor],
    );
    let player = Entity::new(
        Vector2::new(0, 0),
        10,
        10,
        0x00ff00,
        EntityTeam::Player,
        vec![InputComponent::new(), GridComponent::new()],
    );
    let mut s = State::new(vec![player], g);
    s.process(Vector2::new(1, 0));
    let ents = s.get_entities();
    assert_eq!(ents.len(), 1);
    assert_eq!(ents[0].get_position(), Vector2::new(0, 0));
    assert_eq!(ents[0].get_state().delta_position, Vector2::new(0, 0));
    // A second tick without input changes nothing: the displacement was
    // already consumed.
    s.process(Vector2::new(0, 0));
    assert_eq!(s.get_entities()[0].get_position(), Vector2::new(0, 0));
}

#[test]
fn two_hostiles_deal_double_damage() {
    // Two hostile entities on the same target cell each cost one health
    // point in a single tick.
    let g = Grid::new(2, 2, vec![Tile::Floor; 4]);
    let player = Entity::new(
        Vector2::new(0, 0),
        10,
        10,
        0x00ff00,
        EntityTeam::Player,
        vec![
            InputComponent::new(),
            EnemyDamageComponent::new(),
            GridComponent::new(),
        ],
    );
    let e1 = Entity::new(Vector2::new(1, 0), 10, 10, 0xff0000, EntityTeam::Enemy, vec![]);
    let e2 = Entity::new(Vector2::new(1, 0), 10, 10, 0xff0000, EntityTeam::Enemy, vec![]);
    let mut s = State::new(vec![player, e1, e2], g);
    s.process(Vector2::new(1, 0));
    assert_eq!(s.get_entities()[0].get_state().health, 8);
    assert_eq!(s.get_entities()[0].get_position(), Vector2::new(0, 0));
}

#[test]
fn hostile_without_health_does_not_hit() {
    // A hostile with no health left is no combat match: the move onto
    // its cell goes through undamaged.
    let g = Grid::new(2, 2, vec![Tile::Floor; 4]);
    let player = Entity::new(
        Vector2::new(0, 0),
        10,
        10,
        0x00ff00,
        EntityTeam::Player,
        vec![
            InputComponent::new(),
            EnemyDamageComponent::new(),
            GridComponent::new(),
        ],
    );
    let drained = Entity::new(Vector2::new(1, 0), 0, 10, 0xff0000, EntityTeam::Enemy, vec![]);
    let mut s = State::new(vec![player, drained], g);
    s.process(Vector2::new(1, 0));
    assert_eq!(s.get_entities()[0].get_state().health, 10);
    assert_eq!(s.get_entities()[0].get_position(), Vector2::new(1, 0));
}

#[test]
fn combat_cancels_movement() {
    // The player tries to step onto the enemy's cell: it loses exactly
    // one health point and stays where it was.
    let g = Grid::new(4, 4, vec![Tile::Floor; 16]);
    let player = Entity::new(
        Vector2::new(2, 2),
        10,
        10,
        0x00ff00,
        EntityTeam::Player,
        vec![
            InputComponent::new(),
            EnemyDamageComponent::new(),
            GridComponent::new(),
        ],
    );
    let enemy = new_enemy(Vector2::new(3, 2));
    let mut s = State::new(vec![player, enemy], g);
    s.process(Vector2::new(1, 0));
    let ents = s.get_entities();
    assert_eq!(ents.len(), 2);
    assert_eq!(ents[0].get_state().health, 9);
    assert_eq!(ents[0].get_position(), Vector2::new(2, 2));
    assert_eq!(ents[0].get_state().delta_position, Vector2::new(0, 0));
    assert_eq!(ents[1].get_state().health, 10);
    assert_eq!(ents[1].get_position(), Vector2::new(3, 2));
}

#[test]
fn spawn_after_cooldown() {
    let snake = new_snake_entity(Vector2::new(0, 0));
    let food = Entity::new(
        Vector2::new(0, 1),
        1,
        1,
        0xffff00,
        EntityTeam::Food,
        vec![],
    );
    let mut s = State::new(vec![snake, food], Grid::new(0, 0, vec![]));
    for _ in 0..100 {
        s.process(Vector2::new(0, 0));
        assert_eq!(s.get_entities().len(), 2);
    }
    s.process(Vector2::new(0, 0));
    let ents = s.get_entities();
    assert_eq!(ents.len(), 3);
    assert_eq!(ents[2].get_position(), Vector2::new(0, 1));
    assert_eq!(ents[2].get_state().team, EntityTeam::Snake);
    assert_eq!(ents[2].draw()[0], 0x007b12);
    // The spawning snake's cooldown was reset, and the newborn's is
    // fresh, so the next tick spawns nothing more.
    s.process(Vector2::new(0, 0));
    assert_eq!(s.get_entities().len(), 3);
}

#[test]
fn render_color_at_health_bounds() {
    let full = Entity::new(
        Vector2::new(0, 0),
        5,
        5,
        0x123456,
        EntityTeam::Enemy,
        vec![],
    );
    assert_eq!(full.draw()[0], 0x123456);
    let empty = Entity::new(
        Vector2::new(0, 0),
        0,
        5,
        0x123456,
        EntityTeam::Enemy,
        vec![],
    );
    // Every channel blends all the way up: (0xffffff - 0x123456) + 0x123456.
    assert_eq!(empty.draw()[0], 0xffffff);
}

#[test]
fn determinism() {
    let mut a = init_state();
    let mut b = init_state();
    a.process(Vector2::new(1, 0));
    b.process(Vector2::new(1, 0));
    assert_eq!(a.get_entities(), b.get_entities());
    assert_eq!(a.draw(), b.draw());
    a.process(Vector2::new(0, 1));
    b.process(Vector2::new(0, 1));
    assert_eq!(a.get_entities(), b.get_entities());
    assert_eq!(a.draw(), b.draw());
}

#[test]
fn end_to_end_move() {
    let g = Grid::new(10, 10, vec![Tile::Floor; 100]);
    let player = Entity::new(
        Vector2::new(5, 5),
        10,
        10,
        0x00ff00,
        EntityTeam::Player,
        vec![InputComponent::new(), GridComponent::new()],
    );
    let mut s = State::new(vec![player], g);
    s.process(Vector2::new(1, 0));
    let ents = s.get_entities();
    assert_eq!(ents[0].get_position(), Vector2::new(6, 5));
    assert_eq!(ents[0].get_state().delta_position, Vector2::new(0, 0));
}

#[test]
fn dead_entity_stays_in_roster() {
    let walker = Entity::new(
        Vector2::new(0, 0),
        0,
        10,
        0xff0000,
        EntityTeam::Enemy,
        vec![EnemyDamageComponent::new()],
    );
    let mut s = State::new(vec![walker], Grid::new(0, 0, vec![]));
    s.process(Vector2::new(0, 0));
    let ents = s.get_entities();
    assert_eq!(ents.len(), 1);
    assert!(ents[0].get_state().dead);
    assert_eq!(ents[0].get_state().health, 0);
}

#[test]
fn entities_at_position() {
    let a = Entity::new(Vector2::new(1, 1), 5, 5, 0x111111, EntityTeam::Player, vec![]);
    let b = Entity::new(Vector2::new(2, 2), 5, 5, 0x222222, EntityTeam::Enemy, vec![]);
    let c = Entity::new(Vector2::new(1, 1), 5, 5, 0x333333, EntityTeam::Food, vec![]);
    let s = State::new(vec![a, b, c], Grid::new(0, 0, vec![]));
    let here = s.get_entity(Vector2::new(1, 1));
    assert_eq!(here.len(), 2);
    assert_eq!(here[0].get_state().base_color, 0x111111);
    assert_eq!(here[1].get_state().base_color, 0x333333);
    assert_eq!(s.get_entity(Vector2::new(3, 3)).len(), 0);
    assert_eq!(s.get_tile(Vector2::new(0, 0)), None);
}

#[test]
fn init_state_layout() {
    let s = init_state();
    let ents = s.get_entities();
    assert_eq!(ents.len(), 3);
    assert_eq!(ents[0].get_position(), Vector2::new(1, 1));
    assert_eq!(ents[0].get_state().team, EntityTeam::Player);
    assert_eq!(ents[1].get_position(), Vector2::new(2, 3));
    assert_eq!(ents[1].get_state().team, EntityTeam::Enemy);
    assert_eq!(ents[2].get_position(), Vector2::new(7, 7));
    assert_eq!(ents[2].get_state().team, EntityTeam::Player);
}
