use vstd::prelude::*;

pub mod entity;
pub mod grid;
pub mod vector;

use entity::{
    bumped_cooldown, entity_after, entity_spawned, first_adjacent_food, roster_view,
    snake_spawn_view, spec_packed_color, zero_vec, Component, Entity, EntityState, EntityTeam,
    EntityView, EnemyDamageComponent, GridComponent, InputComponent, SnakeBodyComponent,
};
use grid::{pixel, Grid, GridView, Tile, TILE_SIZE};
use vector::Vector2;

verus! {

/// The spawned entities accumulated over the first `i` snapshot entries,
/// in roster order, each chain's output in chain order.
pub open spec fn spawned_upto(
    snapshot: Seq<EntityView>,
    input: Vector2,
    grid: GridView,
    i: int,
) -> Seq<EntityView>
    decreases i,
{
    if i <= 0 {
        Seq::empty()
    } else {
        spawned_upto(snapshot, input, grid, i - 1) + entity_spawned(
            snapshot[i - 1],
            input,
            grid,
            snapshot,
        )
    }
}

/// Every roster entry after its chain has run against the common
/// snapshot.
pub open spec fn tick_mutated(
    snapshot: Seq<EntityView>,
    input: Vector2,
    grid: GridView,
) -> Seq<EntityView> {
    Seq::new(snapshot.len(), |i: int| entity_after(snapshot[i], input, grid, snapshot))
}

/// One tick of the world: every entity processed in roster order against
/// the fixed snapshot, then the spawned entities appended, in that order.
/// Spawned entities never participate in the tick that produced them.
pub open spec fn spec_tick(
    snapshot: Seq<EntityView>,
    input: Vector2,
    grid: GridView,
) -> Seq<EntityView> {
    tick_mutated(snapshot, input, grid) + spawned_upto(snapshot, input, grid, snapshot.len() as int)
}

/// The full render output of a state: one group of five values per grid
/// tile, every tile exactly once in its flat order, then one group per
/// entity in roster order.
pub open spec fn draw_calls_match(s: StateView, out: Seq<u32>) -> bool {
    &&& out.len() == 5 * s.grid.tiles.len() + 5 * s.entities.len()
    &&& forall|k: int|
        0 <= k < s.grid.tiles.len() ==> {
            &&& out[5 * k] == s.grid.tiles[k].spec_color()
            &&& out[5 * k + 1] == pixel(k / s.grid.width as int)
            &&& out[5 * k + 2] == pixel(k % s.grid.width as int)
            &&& out[5 * k + 3] == TILE_SIZE
            &&& out[5 * k + 4] == TILE_SIZE
        }
    &&& forall|j: int|
        0 <= j < s.entities.len() ==> {
            let k = 5 * s.grid.tiles.len() + 5 * j;
            &&& out[k] == spec_packed_color(#[trigger] s.entities[j].state)
            &&& out[k + 1] == pixel(s.entities[j].state.position.x as int)
            &&& out[k + 2] == pixel(s.entities[j].state.position.y as int)
            &&& out[k + 3] == TILE_SIZE
            &&& out[k + 4] == TILE_SIZE
        }
}

/// The top-level simulation state: the entity roster and the tile grid it
/// plays on. The grid is never structurally mutated by a tick.
pub struct State {
    entities: Vec<Entity>,
    grid: Grid,
}

/// The mathematical model of a `State`.
#[verifier::ext_equal]
pub ghost struct StateView {
    pub entities: Seq<EntityView>,
    pub grid: GridView,
}

impl View for State {
    type V = StateView;

    closed spec fn view(&self) -> StateView {
        StateView { entities: roster_view(self.entities@), grid: self.grid@ }
    }
}

impl State {
    /// The constructor capability for external bootstrap code: a state is
    /// an initial roster plus a grid.
    pub fn new(entities: Vec<Entity>, grid: Grid) -> (s: State)
        ensures
            s@ == (StateView { entities: roster_view(entities@), grid: grid@ }),
    {
        State { entities, grid }
    }

    /// Advance the whole world by one tick for one external movement
    /// intent. Every entity's chain runs in roster order against a
    /// read-only snapshot of the roster as it stood when the tick began;
    /// the next roster is the mutated entities followed by everything
    /// they spawned.
    pub fn process(&mut self, input: Vector2)
        ensures
            final(self)@.grid == old(self)@.grid,
            final(self)@.entities == spec_tick(old(self)@.entities, input, old(self)@.grid),
    {
        let ghost snap = self@.entities;
        let ghost gv = self@.grid;
        let mut next: Vec<Entity> = Vec::new();
        let mut spawned: Vec<Entity> = Vec::new();
        let n = self.entities.len();
        let mut i: usize = 0;
        proof {
            assert(roster_view(spawned@) =~= Seq::<EntityView>::empty());
        }
        while i < n
            invariant
                0 <= i <= n,
                n == self.entities@.len(),
                snap == roster_view(self.entities@),
                gv == self.grid@,
                next@.len() == i,
                forall|j: int| 0 <= j < i ==> next@[j]@ == entity_after(snap[j], input, gv, snap),
                roster_view(spawned@) == spawned_upto(snap, input, gv, i as int),
            decreases n - i,
        {
            proof {
                assert(snap[i as int] == self.entities@[i as int]@);
            }
            let mut e = self.entities[i].clone();
            let mut sp = e.process(&input, &self.grid, &self.entities);
            next.push(e);
            proof {
                assert(next@[i as int]@ =~= entity_after(snap[i as int], input, gv, snap));
                entity::lemma_roster_view_app(spawned@, sp@);
            }
            spawned.append(&mut sp);
            i = i + 1;
        }
        proof {
            assert(snap.len() == self.entities@.len());
            assert(roster_view(next@) =~= tick_mutated(snap, input, gv));
            entity::lemma_roster_view_app(next@, spawned@);
        }
        next.append(&mut spawned);
        self.entities = next;
        proof {
            assert(self@.entities =~= spec_tick(snap, input, gv));
        }
    }

    /// The render output of the current state: the grid's tile groups,
    /// then one group per entity in roster order.
    pub fn draw(&self) -> (out: Vec<u32>)
        ensures
            draw_calls_match(self@, out@),
    {
        let ghost base = 5 * self@.grid.tiles.len();
        let mut out = self.grid.draw();
        let mut i: usize = 0;
        while i < self.entities.len()
            invariant
                0 <= i <= self.entities@.len(),
                out@.len() == base + 5 * i,
                base == 5 * self@.grid.tiles.len(),
                forall|k: int|
                    0 <= k < self@.grid.tiles.len() ==> {
                        &&& out@[5 * k] == self@.grid.tiles[k].spec_color()
                        &&& out@[5 * k + 1] == pixel(k / self@.grid.width as int)
                        &&& out@[5 * k + 2] == pixel(k % self@.grid.width as int)
                        &&& out@[5 * k + 3] == TILE_SIZE
                        &&& out@[5 * k + 4] == TILE_SIZE
                    },
                forall|j: int|
                    0 <= j < i ==> {
                        let k = base + 5 * j;
                        &&& out@[k] == spec_packed_color(#[trigger] self@.entities[j].state)
                        &&& out@[k + 1] == pixel(self@.entities[j].state.position.x as int)
                        &&& out@[k + 2] == pixel(self@.entities[j].state.position.y as int)
                        &&& out@[k + 3] == TILE_SIZE
                        &&& out@[k + 4] == TILE_SIZE
                    },
            decreases self.entities@.len() - i,
        {
            proof {
                assert(self@.entities[i as int] == self.entities@[i as int]@);
            }
            let mut group = self.entities[i].draw();
            out.append(&mut group);
            i = i + 1;
        }
        out
    }

    /// The roster, read-only; entities stay in it after death.
    pub fn get_entities(&self) -> (r: &Vec<Entity>)
        ensures
            roster_view(r@) == self@.entities,
    {
        &self.entities
    }

    /// Bounds-checked lookup on the state's own grid.
    pub fn get_tile(&self, position: Vector2) -> (t: Option<Tile>)
        ensures
            t == self@.grid.get_tile(position),
    {
        self.grid.get_tile(position)
    }

    /// Every entity standing on the given cell, in roster order.
    pub fn get_entity(&self, position: Vector2) -> (found: Vec<&Entity>)
        ensures
            ref_roster_view(found@) == self@.entities.filter(at_position(position)),
    {
        let ghost rv = self@.entities;
        let mut found: Vec<&Entity> = Vec::new();
        let mut i: usize = 0;
        proof {
            reveal_with_fuel(Seq::<EntityView>::filter, 2);
            assert(rv.take(0) =~= Seq::<EntityView>::empty());
            assert(ref_roster_view(found@) =~= rv.take(0).filter(at_position(position)));
        }
        while i < self.entities.len()
            invariant
                0 <= i <= self.entities@.len(),
                rv == roster_view(self.entities@),
                rv.len() == self.entities@.len(),
                ref_roster_view(found@) == rv.take(i as int).filter(at_position(position)),
            decreases self.entities@.len() - i,
        {
            let ghost prev = found@;
            proof {
                reveal_with_fuel(Seq::<EntityView>::filter, 2);
                assert(rv[i as int] == self.entities@[i as int]@);
                assert(rv.take(i as int + 1) =~= rv.take(i as int).push(rv[i as int]));
                assert(rv.take(i as int).push(rv[i as int]).drop_last() =~= rv.take(i as int));
            }
            if self.entities[i].get_position() == position {
                found.push(&self.entities[i]);
                proof {
                    assert(ref_roster_view(found@) =~= ref_roster_view(prev).push(
                        rv[i as int],
                    ));
                }
            }
            i = i + 1;
        }
        proof {
            assert(rv.take(rv.len() as int) =~= rv);
        }
        found
    }
}

/// The predicate of standing on one given cell.
pub open spec fn at_position(position: Vector2) -> spec_fn(EntityView) -> bool {
    |ev: EntityView| ev.state.position == position
}

/// The models of a sequence of borrowed entities.
pub open spec fn ref_roster_view(entities: Seq<&Entity>) -> Seq<EntityView> {
    entities.map_values(|e: &Entity| e@)
}

/// What one whole frame hands back to the caller: the advanced state and
/// its render output.
pub struct MainOutput {
    pub state: State,
    pub draw_calls: Vec<u32>,
}

/// One frame: advance the state by one tick, then render it.
pub fn game_loop(input: Vector2, state: State) -> (out: MainOutput)
    ensures
        out.state@.grid == state@.grid,
        out.state@.entities == spec_tick(state@.entities, input, state@.grid),
        draw_calls_match(out.state@, out.draw_calls@),
{
    let mut state_m = state;
    state_m.process(input);
    MainOutput { draw_calls: state_m.draw(), state: state_m }
}

/// A player entity: it takes the external input, then suffers combat
/// damage (which cancels its pending movement), then collides with the
/// grid.
pub open spec fn player_view(position: Vector2) -> EntityView {
    EntityView {
        state: EntityState {
            position,
            delta_position: zero_vec(),
            health: 10,
            max_health: 10,
            base_color: 0x00ff00,
            team: EntityTeam::Player,
            dead: false,
        },
        components: seq![
            Component::Input(InputComponent {  }),
            Component::Damage(EnemyDamageComponent {  }),
            Component::Grid(GridComponent {  }),
        ],
    }
}

/// An enemy entity: combat, then grid collision; it ignores the input.
pub open spec fn enemy_view(position: Vector2) -> EntityView {
    EntityView {
        state: EntityState {
            position,
            delta_position: zero_vec(),
            health: 10,
            max_health: 10,
            base_color: 0xff0000,
            team: EntityTeam::Enemy,
            dead: false,
        },
        components: seq![
            Component::Damage(EnemyDamageComponent {  }),
            Component::Grid(GridComponent {  }),
        ],
    }
}

/// A prize entity: it only collides with the grid.
pub open spec fn prize_view(position: Vector2) -> EntityView {
    EntityView {
        state: EntityState {
            position,
            delta_position: zero_vec(),
            health: 10,
            max_health: 10,
            base_color: 0xffec00,
            team: EntityTeam::Player,
            dead: false,
        },
        components: seq![Component::Grid(GridComponent {  })],
    }
}

pub fn new_player(position: Vector2) -> (e: Entity)
    ensures
        e@ == player_view(position),
{
    let mut components: Vec<Component> = Vec::new();
    components.push(InputComponent::new());
    components.push(EnemyDamageComponent::new());
    components.push(GridComponent::new());
    proof {
        assert(components@ =~= player_view(position).components);
    }
    let e = Entity::new(position, 10, 10, 0x00ff00, EntityTeam::Player, components);
    proof {
        assert(e@ =~= player_view(position));
    }
    e
}

pub fn new_enemy(position: Vector2) -> (e: Entity)
    ensures
        e@ == enemy_view(position),
{
    let mut components: Vec<Component> = Vec::new();
    components.push(EnemyDamageComponent::new());
    components.push(GridComponent::new());
    proof {
        assert(components@ =~= enemy_view(position).components);
    }
    let e = Entity::new(position, 10, 10, 0xff0000, EntityTeam::Enemy, components);
    proof {
        assert(e@ =~= enemy_view(position));
    }
    e
}

pub fn new_prize(position: Vector2) -> (e: Entity)
    ensures
        e@ == prize_view(position),
{
    let mut components: Vec<Component> = Vec::new();
    components.push(GridComponent::new());
    proof {
        assert(components@ =~= prize_view(position).components);
    }
    let e = Entity::new(position, 10, 10, 0xffec00, EntityTeam::Player, components);
    proof {
        assert(e@ =~= prize_view(position));
    }
    e
}

/// The tile layout of the starting maze, in the grid's flat order.
pub open spec fn init_tiles() -> Seq<Tile> {
    seq![
        Tile::Wall, Tile::Wall, Tile::Wall, Tile::Wall, Tile::Wall, Tile::Wall, Tile::Wall, Tile::Wall, Tile::Wall, Tile::Wall,
        Tile::Wall, Tile::Floor, Tile::Floor, Tile::Floor, Tile::Floor, Tile::Floor, Tile::Floor, Tile::Floor, Tile::Floor, Tile::Wall,
        Tile::Wall, Tile::Wall, Tile::Wall, Tile::Floor, Tile::Wall, Tile::Floor, Tile::Floor, Tile::Floor, Tile::Floor, Tile::Wall,
        Tile::Wall, Tile::Floor, Tile::Wall, Tile::Floor, Tile::Wall, Tile::Wall, Tile::Wall, Tile::Wall, Tile::Floor, Tile::Wall,
        Tile::Wall, Tile::Floor, Tile::Wall, Tile::Floor, Tile::Wall, Tile::Floor, Tile::Floor, Tile::Floor, Tile::Floor, Tile::Wall,
        Tile::Wall, Tile::Floor, Tile::Wall, Tile::Floor, Tile::Wall, Tile::Floor, Tile::Wall, Tile::Wall, Tile::Wall, Tile::Wall,
        Tile::Wall, Tile::Floor, Tile::Wall, Tile::Floor, Tile::Wall, Tile::Floor, Tile::Floor, Tile::Floor, Tile::Floor, Tile::Wall,
        Tile::Wall, Tile::Floor, Tile::Wall, Tile::Floor, Tile::Wall, Tile::Floor, Tile::Floor, Tile::Floor, Tile::Floor, Tile::Wall,
        Tile::Wall, Tile::Floor, Tile::Floor, Tile::Floor, Tile::Wall, Tile::Floor, Tile::Floor, Tile::Floor, Tile::Floor, Tile::Wall,
        Tile::Wall, Tile::Wall, Tile::Wall, Tile::Wall, Tile::Wall, Tile::Wall, Tile::Wall, Tile::Wall, Tile::Wall, Tile::Wall,
    ]
}

/// The starting world: one player, one enemy, and one prize in the
/// ten-by-ten maze.
pub fn init_state() -> (s: State)
    ensures
        s@.grid == (GridView { width: 10, height: 10, tiles: init_tiles() }),
        s@.entities == seq![
            player_view(Vector2 { x: 1, y: 1 }),
            enemy_view(Vector2 { x: 2, y: 3 }),
            prize_view(Vector2 { x: 7, y: 7 }),
        ],
{
    let tiles: Vec<Tile> = vec![
        Tile::Wall, Tile::Wall, Tile::Wall, Tile::Wall, Tile::Wall, Tile::Wall, Tile::Wall, Tile::Wall, Tile::Wall, Tile::Wall,
        Tile::Wall, Tile::Floor, Tile::Floor, Tile::Floor, Tile::Floor, Tile::Floor, Tile::Floor, Tile::Floor, Tile::Floor, Tile::Wall,
        Tile::Wall, Tile::Wall, Tile::Wall, Tile::Floor, Tile::Wall, Tile::Floor, Tile::Floor, Tile::Floor, Tile::Floor, Tile::Wall,
        Tile::Wall, Tile::Floor, Tile::Wall, Tile::Floor, Tile::Wall, Tile::Wall, Tile::Wall, Tile::Wall, Tile::Floor, Tile::Wall,
        Tile::Wall, Tile::Floor, Tile::Wall, Tile::Floor, Tile::Wall, Tile::Floor, Tile::Floor, Tile::Floor, Tile::Floor, Tile::Wall,
        Tile::Wall, Tile::Floor, Tile::Wall, Tile::Floor, Tile::Wall, Tile::Floor, Tile::Wall, Tile::Wall, Tile::Wall, Tile::Wall,
        Tile::Wall, Tile::Floor, Tile::Wall, Tile::Floor, Tile::Wall, Tile::Floor, Tile::Floor, Tile::Floor, Tile::Floor, Tile::Wall,
        Tile::Wall, Tile::Floor, Tile::Wall, Tile::Floor, Tile::Wall, Tile::Floor, Tile::Floor, Tile::Floor, Tile::Floor, Tile::Wall,
        Tile::Wall, Tile::Floor, Tile::Floor, Tile::Floor, Tile::Wall, Tile::Floor, Tile::Floor, Tile::Floor, Tile::Floor, Tile::Wall,
        Tile::Wall, Tile::Wall, Tile::Wall, Tile::Wall, Tile::Wall, Tile::Wall, Tile::Wall, Tile::Wall, Tile::Wall, Tile::Wall,
    ];
    proof {
        assert(tiles@ =~= init_tiles());
    }
    let grid = Grid::new(10, 10, tiles);
    let mut entities: Vec<Entity> = Vec::new();
    entities.push(new_player(Vector2::new(1, 1)));
    entities.push(new_enemy(Vector2::new(2, 3)));
    entities.push(new_prize(Vector2::new(7, 7)));
    proof {
        assert(roster_view(entities@) =~= seq![
            player_view(Vector2 { x: 1, y: 1 }),
            enemy_view(Vector2 { x: 2, y: 3 }),
            prize_view(Vector2 { x: 7, y: 7 }),
        ]);
    }
    State::new(entities, grid)
}

proof fn lemma_spawned_upto_single(
    snapshot: Seq<EntityView>,
    input: Vector2,
    grid: GridView,
    i: int,
    k: int,
)
    requires
        0 <= i < snapshot.len(),
        0 <= k <= snapshot.len(),
        forall|j: int|
            0 <= j < snapshot.len() && j != i ==> entity_spawned(
                #[trigger] snapshot[j],
                input,
                grid,
                snapshot,
            ).len() == 0,
    ensures
        spawned_upto(snapshot, input, grid, k) == if k <= i {
            Seq::<EntityView>::empty()
        } else {
            entity_spawned(snapshot[i], input, grid, snapshot)
        },
    decreases k,
{
    if k > 0 {
        lemma_spawned_upto_single(snapshot, input, grid, i, k - 1);
        if k - 1 == i {
            assert(spawned_upto(snapshot, input, grid, k) =~= entity_spawned(
                snapshot[i],
                input,
                grid,
                snapshot,
            ));
        } else if k - 1 < i {
            assert(spawned_upto(snapshot, input, grid, k) =~= Seq::<EntityView>::empty());
        } else {
            assert(spawned_upto(snapshot, input, grid, k) =~= entity_spawned(
                snapshot[i],
                input,
                grid,
                snapshot,
            ));
        }
    }
}

/// Driver-level spawn: when one roster entry is a snake-chained entity
/// whose bumped cooldown has passed one hundred with food within reach at
/// `p`, and no other entry's chain spawns anything, the next roster is
/// every entry processed, in roster order, followed by exactly one new
/// snake on the food's cell.
pub proof fn lemma_tick_appends_one_snake(
    snapshot: Seq<EntityView>,
    input: Vector2,
    grid: GridView,
    i: int,
    c: SnakeBodyComponent,
    p: Vector2,
)
    requires
        0 <= i < snapshot.len(),
        snapshot[i].components == seq![
            Component::SnakeBody(c),
            Component::Grid(GridComponent {  }),
        ],
        bumped_cooldown(c) > 100,
        first_adjacent_food(snapshot[i].state.position, snapshot) == Some(p),
        forall|j: int|
            0 <= j < snapshot.len() && j != i ==> entity_spawned(
                #[trigger] snapshot[j],
                input,
                grid,
                snapshot,
            ).len() == 0,
    ensures
        spec_tick(snapshot, input, grid) == tick_mutated(snapshot, input, grid).push(
            snake_spawn_view(p),
        ),
{
    entity::lemma_snake_chain_spawns(c, snapshot[i], p, input, grid, snapshot);
    lemma_spawned_upto_single(snapshot, input, grid, i, snapshot.len() as int);
    assert(entity_spawned(snapshot[i], input, grid, snapshot) =~= seq![snake_spawn_view(p)]);
    assert(spec_tick(snapshot, input, grid) =~= tick_mutated(snapshot, input, grid).push(
        snake_spawn_view(p),
    ));
}

proof fn lemma_spawned_upto_none(snapshot: Seq<EntityView>, input: Vector2, grid: GridView, k: int)
    requires
        0 <= k <= snapshot.len(),
        forall|j: int|
            0 <= j < snapshot.len() ==> entity_spawned(
                #[trigger] snapshot[j],
                input,
                grid,
                snapshot,
            ).len() == 0,
    ensures
        spawned_upto(snapshot, input, grid, k).len() == 0,
    decreases k,
{
    if k > 0 {
        lemma_spawned_upto_none(snapshot, input, grid, k - 1);
    }
}

/// A tick in which no entry's chain spawns anything keeps the roster
/// length: the next roster is exactly the processed entries, in order.
pub proof fn lemma_tick_no_spawn(snapshot: Seq<EntityView>, input: Vector2, grid: GridView)
    requires
        forall|j: int|
            0 <= j < snapshot.len() ==> entity_spawned(
                #[trigger] snapshot[j],
                input,
                grid,
                snapshot,
            ).len() == 0,
    ensures
        spec_tick(snapshot, input, grid) == tick_mutated(snapshot, input, grid),
{
    lemma_spawned_upto_none(snapshot, input, grid, snapshot.len() as int);
    assert(spec_tick(snapshot, input, grid) =~= tick_mutated(snapshot, input, grid));
}

/// Two value-equal states fed the same input tick to value-equal
/// rosters: the tick is a function of the state and the input alone.
pub proof fn lemma_tick_deterministic(a: StateView, b: StateView, input: Vector2)
    requires
        a == b,
    ensures
        spec_tick(a.entities, input, a.grid) == spec_tick(b.entities, input, b.grid),
{
}

} // verus!
