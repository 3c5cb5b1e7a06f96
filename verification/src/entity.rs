use vstd::prelude::*;

use crate::grid::{pixel, Grid, GridView, Tile, TILE_SIZE};
use crate::vector::Vector2;

verus! {

/// The team tag decides hostility: combat only damages an entity when it
/// shares a cell with an entity of a different team.
#[derive(Clone, Copy, PartialEq, Eq, Structural, Debug)]
pub enum EntityTeam {
    Player,
    Enemy,
    Food,
    Snake,
}

/// The mutable per-entity attribute record. `delta_position` is the
/// pending, not-yet-committed displacement of the current tick; `dead` is
/// a terminal marker, never a removal signal.
#[derive(Clone, Copy, PartialEq, Eq, Structural, Debug)]
pub struct EntityState {
    pub position: Vector2,
    pub delta_position: Vector2,
    pub health: u32,
    pub max_health: u32,
    pub base_color: u32,
    pub team: EntityTeam,
    pub dead: bool,
}

#[derive(Clone, Copy, PartialEq, Eq, Structural, Debug)]
pub struct InputComponent {}

#[derive(Clone, Copy, PartialEq, Eq, Structural, Debug)]
pub struct GridComponent {}

#[derive(Clone, Copy, PartialEq, Eq, Structural, Debug)]
pub struct EnemyDamageComponent {}

/// Nudges the entity one cell downward every time its ticker passes
/// `fall_time` frames.
#[derive(Clone, Copy, PartialEq, Eq, Structural, Debug)]
pub struct GravityComponent {
    pub ticker: u32,
    pub fall_time: u32,
}

/// Spawns a snake entity on a food cell within reach, once the cooldown
/// has run out.
#[derive(Clone, Copy, PartialEq, Eq, Structural, Debug)]
pub struct SnakeBodyComponent {
    pub cool_down: u32,
}

/// One pluggable unit of per-entity logic. An entity owns an ordered
/// chain of these; they run in attachment order once per tick.
#[derive(Clone, Copy, PartialEq, Eq, Structural, Debug)]
pub enum Component {
    Input(InputComponent),
    Grid(GridComponent),
    Damage(EnemyDamageComponent),
    Gravity(GravityComponent),
    SnakeBody(SnakeBodyComponent),
}

/// An entity owns one attribute record and its ordered behavior chain.
#[derive(Debug, PartialEq)]
pub struct Entity {
    state: EntityState,
    components: Vec<Component>,
}

/// The mathematical model of an `Entity`.
#[verifier::ext_equal]
pub ghost struct EntityView {
    pub state: EntityState,
    pub components: Seq<Component>,
}

impl View for Entity {
    type V = EntityView;

    closed spec fn view(&self) -> EntityView {
        EntityView { state: self.state, components: self.components@ }
    }
}

/// The roster as the behaviors see it: a read-only snapshot of entity
/// models, fixed for the whole tick.
pub open spec fn roster_view(entities: Seq<Entity>) -> Seq<EntityView> {
    entities.map_values(|e: Entity| e@)
}

pub open spec fn zero_vec() -> Vector2 {
    Vector2 { x: 0, y: 0 }
}

/// Input: the external movement intent replaces the pending displacement.
pub open spec fn input_step(s: EntityState, input: Vector2) -> EntityState {
    EntityState { delta_position: input, ..s }
}

/// Collision: commit the pending displacement when the target tile exists
/// and is passable; in every case the displacement is consumed.
pub open spec fn collision_step(s: EntityState, grid: GridView) -> EntityState {
    let target = s.position.spec_add(s.delta_position);
    match grid.get_tile(target) {
        Some(tile) => if tile != Tile::Wall {
            EntityState { position: target, delta_position: zero_vec(), ..s }
        } else {
            EntityState { delta_position: zero_vec(), ..s }
        },
        None => EntityState { delta_position: zero_vec(), ..s },
    }
}

/// One snapshot entry hits when it sits on the scanned cell, belongs to
/// another team, still has health of its own, and the scanned entity has
/// health left to lose.
pub open spec fn combat_hit(s: EntityState, other: EntityState, target: Vector2) -> bool {
    other.position == target && other.team != s.team && other.health > 0 && s.health > 0
}

/// Walk the snapshot in roster order; every hit costs one health point
/// and consumes the pending displacement.
pub open spec fn combat_scan(s: EntityState, target: Vector2, snapshot: Seq<EntityView>) -> EntityState
    decreases snapshot.len(),
{
    if snapshot.len() == 0 {
        s
    } else {
        let s1 = if combat_hit(s, snapshot[0].state, target) {
            EntityState { health: (s.health - 1) as u32, delta_position: zero_vec(), ..s }
        } else {
            s
        };
        combat_scan(s1, target, snapshot.drop_first())
    }
}

/// Combat: an entity without health is marked dead and stops moving;
/// otherwise its prospective cell is scanned against the snapshot.
pub open spec fn combat_step(s: EntityState, snapshot: Seq<EntityView>) -> EntityState {
    if s.health == 0 {
        EntityState { delta_position: zero_vec(), dead: true, ..s }
    } else {
        combat_scan(s, s.position.spec_add(s.delta_position), snapshot)
    }
}

/// Gravity: count a frame; past the threshold, nudge the pending
/// displacement downward and start over.
pub open spec fn gravity_step(g: GravityComponent, s: EntityState) -> (GravityComponent, EntityState) {
    if g.ticker >= g.fall_time {
        (
            GravityComponent { ticker: 0, fall_time: g.fall_time },
            EntityState {
                delta_position: Vector2 {
                    x: s.delta_position.x,
                    y: s.delta_position.y.wrapping_add(1),
                },
                ..s
            },
        )
    } else {
        (GravityComponent { ticker: (g.ticker + 1) as u32, fall_time: g.fall_time }, s)
    }
}

/// The cooldown counts each tick, capped so that it never wraps.
pub open spec fn bumped_cooldown(c: SnakeBodyComponent) -> u32 {
    if c.cool_down < 10000 {
        (c.cool_down + 1) as u32
    } else {
        c.cool_down
    }
}

/// The position of the first food-team entry of the snapshot within
/// Chebyshev distance one of `pos`, in roster order.
pub open spec fn first_adjacent_food(pos: Vector2, snapshot: Seq<EntityView>) -> Option<Vector2>
    decreases snapshot.len(),
{
    if snapshot.len() == 0 {
        None
    } else if snapshot[0].state.team == EntityTeam::Food && pos.spec_within_one_of(
        snapshot[0].state.position,
    ) {
        Some(snapshot[0].state.position)
    } else {
        first_adjacent_food(pos, snapshot.drop_first())
    }
}

pub open spec fn snake_spawn_state(position: Vector2) -> EntityState {
    EntityState {
        position,
        delta_position: zero_vec(),
        health: 1,
        max_health: 1,
        base_color: 0x007b12,
        team: EntityTeam::Snake,
        dead: false,
    }
}

/// A freshly spawned snake entity: it grows further on contact with food
/// and collides with the grid, in that order.
pub open spec fn snake_spawn_view(position: Vector2) -> EntityView {
    EntityView {
        state: snake_spawn_state(position),
        components: seq![
            Component::SnakeBody(SnakeBodyComponent { cool_down: 0 }),
            Component::Grid(GridComponent {}),
        ],
    }
}

/// Snake growth: once the cooldown has passed one hundred frames and a
/// food entity is within reach, reset the cooldown and spawn one snake
/// entity on the food's cell.
pub open spec fn snake_step(
    c: SnakeBodyComponent,
    s: EntityState,
    snapshot: Seq<EntityView>,
) -> (SnakeBodyComponent, Seq<EntityView>) {
    let cd = bumped_cooldown(c);
    match first_adjacent_food(s.position, snapshot) {
        Some(p) => if cd > 100 {
            (SnakeBodyComponent { cool_down: 0 }, seq![snake_spawn_view(p)])
        } else {
            (SnakeBodyComponent { cool_down: cd }, Seq::empty())
        },
        None => (SnakeBodyComponent { cool_down: cd }, Seq::empty()),
    }
}

/// What one component does in one tick: its own next state, the entity
/// state it leaves behind, and the entities it spawns.
pub open spec fn component_step(
    c: Component,
    input: Vector2,
    s: EntityState,
    grid: GridView,
    snapshot: Seq<EntityView>,
) -> (Component, EntityState, Seq<EntityView>) {
    match c {
        Component::Input(_) => (c, input_step(s, input), Seq::empty()),
        Component::Grid(_) => (c, collision_step(s, grid), Seq::empty()),
        Component::Damage(_) => (c, combat_step(s, snapshot), Seq::empty()),
        Component::Gravity(g) => {
            let r = gravity_step(g, s);
            (Component::Gravity(r.0), r.1, Seq::empty())
        },
        Component::SnakeBody(b) => {
            let r = snake_step(b, s, snapshot);
            (Component::SnakeBody(r.0), s, r.1)
        },
    }
}

/// Run a behavior chain in attachment order. Later components observe the
/// mutations earlier ones made to the same entity, while the snapshot
/// stays fixed.
pub open spec fn chain_step(
    cs: Seq<Component>,
    input: Vector2,
    s: EntityState,
    grid: GridView,
    snapshot: Seq<EntityView>,
) -> (Seq<Component>, EntityState, Seq<EntityView>)
    decreases cs.len(),
{
    if cs.len() == 0 {
        (cs, s, Seq::empty())
    } else {
        let head = component_step(cs[0], input, s, grid, snapshot);
        let rest = chain_step(cs.drop_first(), input, head.1, grid, snapshot);
        (seq![head.0] + rest.0, rest.1, head.2 + rest.2)
    }
}

/// The entity as it stands after its chain has run.
pub open spec fn entity_after(
    e: EntityView,
    input: Vector2,
    grid: GridView,
    snapshot: Seq<EntityView>,
) -> EntityView {
    let r = chain_step(e.components, input, e.state, grid, snapshot);
    EntityView { state: r.1, components: r.0 }
}

/// The entities the chain spawned, in chain order.
pub open spec fn entity_spawned(
    e: EntityView,
    input: Vector2,
    grid: GridView,
    snapshot: Seq<EntityView>,
) -> Seq<EntityView> {
    chain_step(e.components, input, e.state, grid, snapshot).2
}

/// One blended color channel: the channel's distance from full white,
/// scaled by the missing-health ratio in truncating integer arithmetic.
/// A channel of an entity at full health (or with no health capacity at
/// all) is left at zero.
pub open spec fn blend_channel(c: u32, health: u32, max_health: u32) -> u32 {
    if max_health == 0 {
        0u32
    } else {
        let missing: int = if health >= max_health {
            0
        } else {
            max_health - health
        };
        (((0xff - (c & 0xff)) * missing) / (max_health as int)) as u32
    }
}

/// The rendered entity color: the three blended channels are packed and
/// added to the base color without clamping, wrapping at the `u32`
/// boundary.
pub open spec fn spec_packed_color(s: EntityState) -> u32 {
    let red = blend_channel((s.base_color >> 16) & 0xff, s.health, s.max_health);
    let green = blend_channel((s.base_color >> 8) & 0xff, s.health, s.max_health);
    let blue = blend_channel(s.base_color & 0xff, s.health, s.max_health);
    ((((red << 16) + (green << 8)) + blue) as u32).wrapping_add(s.base_color)
}

fn blend_channel_exec(c: u32, health: u32, max_health: u32) -> (r: u32)
    ensures
        r == blend_channel(c, health, max_health),
        r <= 0xff,
{
    if max_health == 0 {
        return 0;
    }
    let missing: u64 = if health >= max_health {
        0
    } else {
        (max_health - health) as u64
    };
    let masked: u64 = (c & 0xff) as u64;
    proof {
        let cc = c;
        assert((cc & 0xff) <= 0xff) by (bit_vector);
        assert((0xff - masked as int) * (missing as int) <= 0xff * 0xffff_ffff && 0 <= (0xff
            - masked as int) * (missing as int) && (0xff - masked as int) * (missing as int) / (
        max_health as int) <= 0xff) by (nonlinear_arith)
            requires
                0 <= masked <= 0xff,
                0 <= missing <= max_health,
                missing <= 0xffff_ffff,
                max_health > 0,
        ;
    }
    let scaled: u64 = ((0xffu64 - masked) * missing) / (max_health as u64);
    scaled as u32
}

impl Entity {
    pub fn new(
        pos: Vector2,
        health: u32,
        max_health: u32,
        base_color: u32,
        team: EntityTeam,
        components: Vec<Component>,
    ) -> (e: Entity)
        ensures
            e@ == (EntityView {
                state: EntityState {
                    position: pos,
                    delta_position: zero_vec(),
                    health,
                    max_health,
                    base_color,
                    team,
                    dead: false,
                },
                components: components@,
            }),
    {
        Entity {
            state: EntityState {
                position: pos,
                delta_position: Vector2::new(0, 0),
                health,
                max_health,
                base_color,
                team,
                dead: false,
            },
            components,
        }
    }

    /// One group of five render values: the health-blended color, the
    /// pixel position, and the tile size twice. At full health the color
    /// is the base color itself; at zero health every channel is blended
    /// all the way up to full.
    pub fn draw(&self) -> (out: Vec<u32>)
        ensures
            out@ == seq![
                spec_packed_color(self@.state),
                pixel(self@.state.position.x as int),
                pixel(self@.state.position.y as int),
                TILE_SIZE,
                TILE_SIZE,
            ],
            self@.state.health == self@.state.max_health ==> out@[0] == self@.state.base_color,
            self@.state.health == 0 && self@.state.max_health > 0 && self@.state.base_color
                <= 0xffffff ==> out@[0] == 0xffffff,
    {
        proof {
            if self.state.health == self.state.max_health {
                lemma_full_health_color(self.state);
            }
            if self.state.health == 0 && self.state.max_health > 0 && self.state.base_color
                <= 0xffffff {
                lemma_zero_health_color(self.state);
            }
        }
        let bc = self.state.base_color;
        let red = blend_channel_exec((bc >> 16) & 0xff, self.state.health, self.state.max_health);
        let green = blend_channel_exec((bc >> 8) & 0xff, self.state.health, self.state.max_health);
        let blue = blend_channel_exec(bc & 0xff, self.state.health, self.state.max_health);
        proof {
            let r2 = red;
            let g2 = green;
            assert(r2 <= 0xff ==> (r2 << 16u32) <= 0xff0000) by (bit_vector);
            assert(g2 <= 0xff ==> (g2 << 8u32) <= 0xff00) by (bit_vector);
        }
        let packed = (((red << 16) + (green << 8)) + blue).wrapping_add(self.state.base_color);
        let px = #[verifier::truncate] (self.state.position.x as u32);
        let py = #[verifier::truncate] (self.state.position.y as u32);
        let mut out: Vec<u32> = Vec::new();
        out.push(packed);
        out.push(px.wrapping_mul(TILE_SIZE));
        out.push(py.wrapping_mul(TILE_SIZE));
        out.push(TILE_SIZE);
        out.push(TILE_SIZE);
        proof {
            assert(out@ =~= seq![
                spec_packed_color(self@.state),
                pixel(self@.state.position.x as int),
                pixel(self@.state.position.y as int),
                TILE_SIZE,
                TILE_SIZE,
            ]);
        }
        out
    }

    /// Run this entity's behavior chain in attachment order against the
    /// external input, the shared grid, and the fixed roster snapshot,
    /// returning the entities the chain spawned.
    pub fn process(&mut self, input: &Vector2, grid: &Grid, entities: &Vec<Entity>) -> (spawned:
        Vec<Entity>)
        ensures
            ({
                let r = chain_step(
                    old(self)@.components,
                    *input,
                    old(self)@.state,
                    grid@,
                    roster_view(entities@),
                );
                final(self)@.components == r.0 && final(self)@.state == r.1 && roster_view(
                    spawned@,
                ) == r.2
            }),
    {
        let ghost cs0 = self@.components;
        let ghost s0 = self@.state;
        let ghost snap = roster_view(entities@);
        let ghost gv = grid@;
        let mut spawned: Vec<Entity> = Vec::new();
        let mut i: usize = 0;
        proof {
            assert(cs0.take(0) =~= Seq::<Component>::empty());
            assert(cs0.skip(0) =~= cs0);
            assert(roster_view(spawned@) =~= Seq::<EntityView>::empty());
            lemma_chain_step_len(cs0.take(0), *input, s0, gv, snap);
        }
        while i < self.components.len()
            invariant
                0 <= i <= cs0.len(),
                self.components@.len() == cs0.len(),
                snap == roster_view(entities@),
                gv == grid@,
                ({
                    let r = chain_step(cs0.take(i as int), *input, s0, gv, snap);
                    &&& self.components@ == r.0 + cs0.skip(i as int)
                    &&& self.state == r.1
                    &&& roster_view(spawned@) == r.2
                }),
            decreases cs0.len() - i,
        {
            let ghost r_pre = chain_step(cs0.take(i as int), *input, s0, gv, snap);
            proof {
                lemma_chain_step_len(cs0.take(i as int), *input, s0, gv, snap);
                assert(self.components@[i as int] == cs0.skip(i as int)[0]);
                assert(cs0.skip(i as int)[0] == cs0[i as int]);
            }
            let mut c = self.components[i];
            let mut sp = c.process(input, &mut self.state, grid, entities);
            self.components.set(i, c);
            spawned.append(&mut sp);
            proof {
                let r_head = component_step(cs0[i as int], *input, r_pre.1, gv, snap);
                assert(cs0.take(i as int + 1) =~= cs0.take(i as int) + seq![cs0[i as int]]);
                lemma_chain_step_app(
                    cs0.take(i as int),
                    seq![cs0[i as int]],
                    *input,
                    s0,
                    gv,
                    snap,
                );
                lemma_chain_step_singleton(cs0[i as int], *input, r_pre.1, gv, snap);
                let single = chain_step(seq![cs0[i as int]], *input, r_pre.1, gv, snap);
                let r_post = chain_step(cs0.take(i as int + 1), *input, s0, gv, snap);
                assert(r_post.0 =~= r_pre.0 + seq![r_head.0]);
                assert(r_post.2 =~= r_pre.2 + r_head.2);
                assert(self.components@ =~= r_post.0 + cs0.skip(i as int + 1));
                assert(roster_view(spawned@) =~= r_post.2);
            }
            i = i + 1;
        }
        proof {
            assert(cs0.take(cs0.len() as int) =~= cs0);
            assert(cs0.skip(cs0.len() as int) =~= Seq::<Component>::empty());
            let r = chain_step(cs0, *input, s0, gv, snap);
            lemma_chain_step_len(cs0, *input, s0, gv, snap);
            assert(self.components@ =~= r.0 + Seq::<Component>::empty());
            assert(r.0 + Seq::<Component>::empty() =~= r.0);
        }
        spawned
    }

    pub fn get_position(&self) -> (p: Vector2)
        ensures
            p == self@.state.position,
    {
        self.state.position
    }

    /// The entity's attribute record, by value.
    pub fn get_state(&self) -> (s: EntityState)
        ensures
            s == self@.state,
    {
        self.state
    }
}

impl Clone for Entity {
    fn clone(&self) -> (res: Self)
        ensures
            res@ == self@,
    {
        let mut components: Vec<Component> = Vec::new();
        let mut i: usize = 0;
        while i < self.components.len()
            invariant
                0 <= i <= self.components@.len(),
                components@ == self.components@.take(i as int),
            decreases self.components@.len() - i,
        {
            components.push(self.components[i]);
            proof {
                assert(components@ =~= self.components@.take(i as int + 1));
            }
            i = i + 1;
        }
        proof {
            assert(components@ =~= self.components@);
        }
        Entity { state: self.state, components }
    }
}

pub proof fn lemma_chain_step_len(
    cs: Seq<Component>,
    input: Vector2,
    s: EntityState,
    grid: GridView,
    snapshot: Seq<EntityView>,
)
    ensures
        chain_step(cs, input, s, grid, snapshot).0.len() == cs.len(),
    decreases cs.len(),
{
    if cs.len() > 0 {
        let head = component_step(cs[0], input, s, grid, snapshot);
        lemma_chain_step_len(cs.drop_first(), input, head.1, grid, snapshot);
    }
}

impl InputComponent {
    pub fn new() -> (c: Component)
        ensures
            c == Component::Input(InputComponent {  }),
    {
        Component::Input(InputComponent {  })
    }

    pub fn process(
        &mut self,
        user_input: &Vector2,
        state: &mut EntityState,
        _world: &Grid,
        _entities: &Vec<Entity>,
    ) -> (spawned: Vec<Entity>)
        ensures
            *final(self) == *old(self),
            *final(state) == input_step(*old(state), *user_input),
            spawned@.len() == 0,
    {
        state.delta_position = *user_input;
        Vec::new()
    }
}

impl GridComponent {
    pub fn new() -> (c: Component)
        ensures
            c == Component::Grid(GridComponent {  }),
    {
        Component::Grid(GridComponent {  })
    }

    pub fn process(
        &mut self,
        _user_input: &Vector2,
        state: &mut EntityState,
        world: &Grid,
        _entities: &Vec<Entity>,
    ) -> (spawned: Vec<Entity>)
        ensures
            *final(self) == *old(self),
            *final(state) == collision_step(*old(state), world@),
            spawned@.len() == 0,
    {
        let target = state.position.add(state.delta_position);
        if let Some(tile) = world.get_tile(target) {
            if tile != Tile::Wall {
                state.position = target;
            }
            state.delta_position = Vector2::new(0, 0);
        } else {
            state.delta_position = Vector2::new(0, 0);
        }
        Vec::new()
    }
}

impl EnemyDamageComponent {
    pub fn new() -> (c: Component)
        ensures
            c == Component::Damage(EnemyDamageComponent {  }),
    {
        Component::Damage(EnemyDamageComponent {  })
    }

    pub fn process(
        &mut self,
        _user_input: &Vector2,
        state: &mut EntityState,
        _world: &Grid,
        entities: &Vec<Entity>,
    ) -> (spawned: Vec<Entity>)
        ensures
            *final(self) == *old(self),
            *final(state) == combat_step(*old(state), roster_view(entities@)),
            spawned@.len() == 0,
    {
        let ghost snap = roster_view(entities@);
        let ghost s0 = *state;
        if state.health == 0 {
            state.delta_position = Vector2::new(0, 0);
            state.dead = true;
            return Vec::new();
        }
        let target = state.position.add(state.delta_position);
        let mut i: usize = 0;
        proof {
            assert(snap.skip(0) =~= snap);
        }
        while i < entities.len()
            invariant
                0 <= i <= entities@.len(),
                snap == roster_view(entities@),
                snap.len() == entities@.len(),
                target == s0.position.spec_add(s0.delta_position),
                combat_scan(*state, target, snap.skip(i as int)) == combat_scan(s0, target, snap),
            decreases entities@.len() - i,
        {
            proof {
                assert(snap[i as int] == entities@[i as int]@);
                assert(snap.skip(i as int)[0] == snap[i as int]);
                assert(snap.skip(i as int).drop_first() =~= snap.skip(i as int + 1));
            }
            let ent = &entities[i];
            if ent.state.position == target && ent.state.team != state.team && ent.state.health > 0
                && state.health > 0 {
                state.health = state.health - 1;
                state.delta_position = Vector2::new(0, 0);
            }
            i = i + 1;
        }
        proof {
            assert(snap.skip(snap.len() as int).len() == 0);
        }
        Vec::new()
    }
}

impl GravityComponent {
    pub fn new() -> (c: Component)
        ensures
            c == Component::Gravity(GravityComponent { ticker: 0, fall_time: 30 }),
    {
        Component::Gravity(GravityComponent { ticker: 0, fall_time: 30 })
    }

    pub fn process(
        &mut self,
        _user_input: &Vector2,
        state: &mut EntityState,
        _world: &Grid,
        _entities: &Vec<Entity>,
    ) -> (spawned: Vec<Entity>)
        ensures
            ({
                let r = gravity_step(*old(self), *old(state));
                *final(self) == r.0 && *final(state) == r.1
            }),
            spawned@.len() == 0,
    {
        if self.ticker >= self.fall_time {
            state.delta_position.y = state.delta_position.y.wrapping_add(1);
            self.ticker = 0;
        } else {
            self.ticker = self.ticker + 1;
        }
        Vec::new()
    }
}

impl SnakeBodyComponent {
    pub fn new() -> (c: Component)
        ensures
            c == Component::SnakeBody(SnakeBodyComponent { cool_down: 0 }),
    {
        Component::SnakeBody(SnakeBodyComponent { cool_down: 0 })
    }

    pub fn process(
        &mut self,
        _user_input: &Vector2,
        state: &mut EntityState,
        _world: &Grid,
        entities: &Vec<Entity>,
    ) -> (spawned: Vec<Entity>)
        ensures
            ({
                let r = snake_step(*old(self), *old(state), roster_view(entities@));
                *final(self) == r.0 && roster_view(spawned@) == r.1
            }),
            *final(state) == *old(state),
    {
        let ghost snap = roster_view(entities@);
        if self.cool_down < 10000 {
            self.cool_down = self.cool_down + 1;
        }
        if self.cool_down > 100 {
            let mut i: usize = 0;
            proof {
                assert(snap.skip(0) =~= snap);
            }
            while i < entities.len()
                invariant
                    0 <= i <= entities@.len(),
                    snap == roster_view(entities@),
                    snap.len() == entities@.len(),
                    self.cool_down == bumped_cooldown(*old(self)),
                    self.cool_down > 100,
                    first_adjacent_food(state.position, snap.skip(i as int)) == first_adjacent_food(
                        state.position,
                        snap,
                    ),
                decreases entities@.len() - i,
            {
                proof {
                    assert(snap[i as int] == entities@[i as int]@);
                    assert(snap.skip(i as int)[0] == snap[i as int]);
                    assert(snap.skip(i as int).drop_first() =~= snap.skip(i as int + 1));
                }
                let ent = &entities[i];
                if ent.state.team == EntityTeam::Food && state.position.within_one_of(
                    &ent.state.position,
                ) {
                    proof {
                        assert(first_adjacent_food(state.position, snap.skip(i as int)) == Some(
                            snap[i as int].state.position,
                        ));
                    }
                    self.cool_down = 0;
                    let mut out: Vec<Entity> = Vec::new();
                    out.push(new_snake_entity(ent.state.position));
                    proof {
                        assert(roster_view(out@) =~= seq![
                            snake_spawn_view(entities@[i as int]@.state.position),
                        ]);
                    }
                    return out;
                }
                i = i + 1;
            }
            proof {
                assert(snap.skip(snap.len() as int).len() == 0);
                assert(roster_view(Seq::<Entity>::empty()) =~= Seq::<EntityView>::empty());
            }
        }
        proof {
            assert(roster_view(Seq::<Entity>::empty()) =~= Seq::<EntityView>::empty());
        }
        Vec::new()
    }
}

impl Component {
    /// Dispatch one tick of this component against the entity state it is
    /// attached to, the shared grid, and the fixed roster snapshot.
    pub fn process(
        &mut self,
        user_input: &Vector2,
        state: &mut EntityState,
        world: &Grid,
        entities: &Vec<Entity>,
    ) -> (spawned: Vec<Entity>)
        ensures
            ({
                let r = component_step(
                    *old(self),
                    *user_input,
                    *old(state),
                    world@,
                    roster_view(entities@),
                );
                *final(self) == r.0 && *final(state) == r.1 && roster_view(spawned@) == r.2
            }),
    {
        let ghost snap = roster_view(entities@);
        match self {
            Component::Input(c) => {
                let out = c.process(user_input, state, world, entities);
                proof {
                    assert(roster_view(out@) =~= Seq::<EntityView>::empty());
                }
                out
            },
            Component::Grid(c) => {
                let out = c.process(user_input, state, world, entities);
                proof {
                    assert(roster_view(out@) =~= Seq::<EntityView>::empty());
                }
                out
            },
            Component::Damage(c) => {
                let out = c.process(user_input, state, world, entities);
                proof {
                    assert(roster_view(out@) =~= Seq::<EntityView>::empty());
                }
                out
            },
            Component::Gravity(c) => {
                let out = c.process(user_input, state, world, entities);
                proof {
                    assert(roster_view(out@) =~= Seq::<EntityView>::empty());
                }
                out
            },
            Component::SnakeBody(c) => c.process(user_input, state, world, entities),
        }
    }
}

/// A snake entity as the spawn behavior builds it.
pub fn new_snake_entity(position: Vector2) -> (e: Entity)
    ensures
        e@ == snake_spawn_view(position),
{
    let mut components: Vec<Component> = Vec::new();
    components.push(SnakeBodyComponent::new());
    components.push(GridComponent::new());
    proof {
        assert(components@ =~= snake_spawn_view(position).components);
    }
    let e = Entity::new(position, 1, 1, 0x007b12, EntityTeam::Snake, components);
    proof {
        assert(e@ =~= snake_spawn_view(position));
    }
    e
}

/// Collision always consumes the pending displacement, whether the move
/// was committed, blocked, or out of bounds.
pub proof fn lemma_collision_consumes_delta(s: EntityState, g: GridView)
    ensures
        collision_step(s, g).delta_position == zero_vec(),
{
}

/// A blocked or out-of-range target cell leaves the position unchanged,
/// whatever the grid's size; the displacement is still consumed.
pub proof fn lemma_collision_blocked(s: EntityState, g: GridView)
    requires
        g.get_tile(s.position.spec_add(s.delta_position)) == Some(Tile::Wall) || g.get_tile(
            s.position.spec_add(s.delta_position),
        ) is None,
    ensures
        collision_step(s, g).position == s.position,
        collision_step(s, g).delta_position == zero_vec(),
{
}

/// A passable target cell commits the move.
pub proof fn lemma_collision_commits(s: EntityState, g: GridView)
    requires
        g.get_tile(s.position.spec_add(s.delta_position)) == Some(Tile::Floor),
    ensures
        collision_step(s, g).position == s.position.spec_add(s.delta_position),
        collision_step(s, g).delta_position == zero_vec(),
{
}

/// An entity with no pending displacement is left exactly as it is by
/// collision.
pub proof fn lemma_collision_stationary(s: EntityState, g: GridView)
    requires
        s.delta_position == zero_vec(),
    ensures
        collision_step(s, g) == s,
{
    assert(s.position.spec_add(zero_vec()) == s.position);
}

/// Running collision twice is the same as running it once: the first run
/// consumes the displacement, so the second has nothing left to commit.
pub proof fn lemma_collision_idempotent(s: EntityState, g: GridView)
    ensures
        collision_step(collision_step(s, g), g) == collision_step(s, g),
{
    lemma_collision_consumes_delta(s, g);
    lemma_collision_stationary(collision_step(s, g), g);
}

/// How many snapshot entries sit on the scanned cell with a hostile team
/// and health of their own, regardless of the scanned entity's remaining
/// health.
pub open spec fn hostile_count(team: EntityTeam, target: Vector2, snapshot: Seq<EntityView>) -> int
    decreases snapshot.len(),
{
    if snapshot.len() == 0 {
        0
    } else {
        (if snapshot[0].state.position == target && snapshot[0].state.team != team
            && snapshot[0].state.health > 0 {
            1int
        } else {
            0int
        }) + hostile_count(team, target, snapshot.drop_first())
    }
}

/// The combat scan costs one health point per living hostile co-located
/// entry, stopping at zero, and consumes the displacement exactly when at
/// least one hit lands; nothing else of the state changes.
pub proof fn lemma_combat_scan_counts(s: EntityState, target: Vector2, snapshot: Seq<EntityView>)
    ensures
        hostile_count(s.team, target, snapshot) >= 0,
        ({
            let r = combat_scan(s, target, snapshot);
            let c = hostile_count(s.team, target, snapshot);
            &&& r.health == (if s.health <= c {
                0int
            } else {
                s.health - c
            })
            &&& r.delta_position == (if s.health > 0 && c > 0 {
                zero_vec()
            } else {
                s.delta_position
            })
            &&& r.position == s.position
            &&& r.team == s.team
            &&& r.max_health == s.max_health
            &&& r.base_color == s.base_color
            &&& r.dead == s.dead
        }),
    decreases snapshot.len(),
{
    if snapshot.len() > 0 {
        let s1 = if combat_hit(s, snapshot[0].state, target) {
            EntityState { health: (s.health - 1) as u32, delta_position: zero_vec(), ..s }
        } else {
            s
        };
        lemma_combat_scan_counts(s1, target, snapshot.drop_first());
    }
}

/// One snapshot entry that would feed a snake: a food-team entity within
/// Chebyshev distance one of the given position.
pub open spec fn is_adjacent_food(e: EntityView, pos: Vector2) -> bool {
    e.state.team == EntityTeam::Food && pos.spec_within_one_of(e.state.position)
}

/// The scan finds a food cell exactly when the snapshot holds an
/// adjacent food entity somewhere.
pub proof fn lemma_first_adjacent_food_iff(pos: Vector2, snapshot: Seq<EntityView>)
    ensures
        (first_adjacent_food(pos, snapshot) is Some) <==> (exists|i: int|
            0 <= i < snapshot.len() && is_adjacent_food(#[trigger] snapshot[i], pos)),
    decreases snapshot.len(),
{
    if snapshot.len() == 0 {
    } else if is_adjacent_food(snapshot[0], pos) {
    } else {
        lemma_first_adjacent_food_iff(pos, snapshot.drop_first());
        if exists|i: int| 0 <= i < snapshot.len() && is_adjacent_food(#[trigger] snapshot[i], pos) {
            let i = choose|i: int|
                0 <= i < snapshot.len() && is_adjacent_food(#[trigger] snapshot[i], pos);
            assert(i >= 1);
            assert(is_adjacent_food(snapshot.drop_first()[i - 1], pos));
        }
        if exists|j: int|
            0 <= j < snapshot.drop_first().len() && is_adjacent_food(
                #[trigger] snapshot.drop_first()[j],
                pos,
            ) {
            let j = choose|j: int|
                0 <= j < snapshot.drop_first().len() && is_adjacent_food(
                    #[trigger] snapshot.drop_first()[j],
                    pos,
                );
            assert(is_adjacent_food(snapshot[j + 1], pos));
        }
    }
}

/// The spawn behavior emits at most one entity per tick, and exactly one
/// -- a fresh snake on the found food cell, with the cooldown reset --
/// when the bumped cooldown has passed one hundred and a food entity is
/// within reach; with a cooldown at or below one hundred it only counts
/// the frame.
pub proof fn lemma_snake_spawn_law(
    c: SnakeBodyComponent,
    s: EntityState,
    snapshot: Seq<EntityView>,
)
    ensures
        snake_step(c, s, snapshot).1.len() <= 1,
        ({
            let r = snake_step(c, s, snapshot);
            let cd = bumped_cooldown(c);
            match first_adjacent_food(s.position, snapshot) {
                Some(p) => if cd > 100 {
                    r.0.cool_down == 0 && r.1 == seq![snake_spawn_view(p)]
                } else {
                    r.0.cool_down == cd && r.1.len() == 0
                },
                None => r.0.cool_down == cd && r.1.len() == 0,
            }
        }),
{
}

/// An entity at full health renders exactly its base color.
pub proof fn lemma_full_health_color(s: EntityState)
    requires
        s.health == s.max_health,
    ensures
        spec_packed_color(s) == s.base_color,
{
    let m = s.max_health;
    if m != 0 {
        lemma_mul_div_zero(0xff - ((s.base_color >> 16) & 0xff), m as int);
        lemma_mul_div_zero(0xff - ((s.base_color >> 8) & 0xff), m as int);
        lemma_mul_div_zero(0xff - (s.base_color & 0xff), m as int);
    }
    assert((0u32 << 16) == 0) by (bit_vector);
    assert((0u32 << 8) == 0) by (bit_vector);
}

proof fn lemma_mul_div_zero(a: int, m: int)
    by (nonlinear_arith)
    requires
        m > 0,
    ensures
        (a * 0) / m == 0,
{
}

proof fn lemma_mul_div_cancel(a: int, m: int)
    by (nonlinear_arith)
    requires
        m > 0,
    ensures
        (a * m) / m == a,
{
}

/// An entity with no health left renders pure white whenever its base
/// color fits in twenty-four bits: every channel is blended all the way
/// up to full.
pub proof fn lemma_zero_health_color(s: EntityState)
    requires
        s.health == 0,
        s.max_health > 0,
        s.base_color <= 0xffffff,
    ensures
        spec_packed_color(s) == 0xffffff,
{
    let bc = s.base_color;
    let m = s.max_health;
    assert(((bc >> 16) & 0xff) & 0xff == (bc >> 16) & 0xff && ((bc >> 8) & 0xff) & 0xff == (bc >> 8)
        & 0xff && (bc & 0xff) & 0xff == bc & 0xff && ((bc >> 16) & 0xff) <= 0xff && ((bc >> 8)
        & 0xff) <= 0xff && (bc & 0xff) <= 0xff) by (bit_vector);
    lemma_mul_div_cancel(0xff - ((bc >> 16) & 0xff), m as int);
    lemma_mul_div_cancel(0xff - ((bc >> 8) & 0xff), m as int);
    lemma_mul_div_cancel(0xff - (bc & 0xff), m as int);
    let red = blend_channel((bc >> 16) & 0xff, s.health, s.max_health);
    let green = blend_channel((bc >> 8) & 0xff, s.health, s.max_health);
    let blue = blend_channel(bc & 0xff, s.health, s.max_health);
    assert(red == 0xffu32 - ((bc >> 16) & 0xff));
    assert(green == 0xffu32 - ((bc >> 8) & 0xff));
    assert(blue == 0xffu32 - (bc & 0xff));
    assert((red << 16) <= 0xff0000 && (green << 8) <= 0xff00 && blue <= 0xff && ((red << 16) + (
    green << 8)) + blue == 0xffffffu32 - bc) by (bit_vector)
        requires
            red == 0xffu32 - ((bc >> 16) & 0xff),
            green == 0xffu32 - ((bc >> 8) & 0xff),
            blue == 0xffu32 - (bc & 0xff),
            bc <= 0xffffff,
    ;
}

/// An entity whose chain is input, combat, collision -- the player's --
/// walking into exactly one living hostile entity: it loses exactly one health
/// point, its movement is cancelled (combat consumes the displacement
/// before collision could commit it), and nothing is spawned. This holds
/// for every position, grid, and snapshot.
pub proof fn lemma_combat_cancels_movement(
    e: EntityView,
    input: Vector2,
    g: GridView,
    snapshot: Seq<EntityView>,
)
    requires
        e.components == seq![
            Component::Input(InputComponent {  }),
            Component::Damage(EnemyDamageComponent {  }),
            Component::Grid(GridComponent {  }),
        ],
        e.state.health > 0,
        hostile_count(e.state.team, e.state.position.spec_add(input), snapshot) == 1,
    ensures
        ({
            let r = chain_step(e.components, input, e.state, g, snapshot);
            &&& r.1.health == e.state.health - 1
            &&& r.1.position == e.state.position
            &&& r.1.delta_position == zero_vec()
            &&& r.2.len() == 0
        }),
{
    let c0 = Component::Input(InputComponent {  });
    let c1 = Component::Damage(EnemyDamageComponent {  });
    let c2 = Component::Grid(GridComponent {  });
    assert(e.components =~= seq![c0] + (seq![c1] + seq![c2]));
    lemma_chain_step_app(seq![c0], seq![c1] + seq![c2], input, e.state, g, snapshot);
    lemma_chain_step_singleton(c0, input, e.state, g, snapshot);
    let s1 = input_step(e.state, input);
    lemma_chain_step_app(seq![c1], seq![c2], input, s1, g, snapshot);
    lemma_chain_step_singleton(c1, input, s1, g, snapshot);
    let target = s1.position.spec_add(s1.delta_position);
    lemma_combat_scan_counts(s1, target, snapshot);
    let s2 = combat_step(s1, snapshot);
    assert(s2.health == e.state.health - 1);
    assert(s2.delta_position == zero_vec());
    lemma_chain_step_singleton(c2, input, s2, g, snapshot);
    lemma_collision_stationary(s2, g);
}

/// A snake-chained entity -- spawn behavior, then collision -- whose
/// cooldown has passed one hundred, with a food entity within reach:
/// its chain emits exactly one new snake on the food's cell and resets
/// the cooldown. This holds for every position, grid, and snapshot.
pub proof fn lemma_snake_chain_spawns(
    c: SnakeBodyComponent,
    e: EntityView,
    p: Vector2,
    input: Vector2,
    g: GridView,
    snapshot: Seq<EntityView>,
)
    requires
        e.components == seq![Component::SnakeBody(c), Component::Grid(GridComponent {  })],
        bumped_cooldown(c) > 100,
        first_adjacent_food(e.state.position, snapshot) == Some(p),
    ensures
        ({
            let r = chain_step(e.components, input, e.state, g, snapshot);
            &&& r.2 == seq![snake_spawn_view(p)]
            &&& r.0[0] == Component::SnakeBody(SnakeBodyComponent { cool_down: 0 })
        }),
{
    let c0 = Component::SnakeBody(c);
    let c1 = Component::Grid(GridComponent {  });
    assert(e.components =~= seq![c0] + seq![c1]);
    lemma_chain_step_app(seq![c0], seq![c1], input, e.state, g, snapshot);
    lemma_chain_step_singleton(c0, input, e.state, g, snapshot);
    lemma_chain_step_singleton(c1, input, e.state, g, snapshot);
    let r = chain_step(e.components, input, e.state, g, snapshot);
    assert(r.2 =~= seq![snake_spawn_view(p)]);
    assert(r.0 =~= seq![
        Component::SnakeBody(SnakeBodyComponent { cool_down: 0 }),
        Component::Grid(GridComponent {  }),
    ]);
}

/// The same chain with a cooldown at or below one hundred only counts
/// the frame: nothing is spawned, whether or not food is within reach.
pub proof fn lemma_snake_chain_waits(
    c: SnakeBodyComponent,
    e: EntityView,
    input: Vector2,
    g: GridView,
    snapshot: Seq<EntityView>,
)
    requires
        e.components == seq![Component::SnakeBody(c), Component::Grid(GridComponent {  })],
        bumped_cooldown(c) <= 100,
    ensures
        ({
            let r = chain_step(e.components, input, e.state, g, snapshot);
            &&& r.2.len() == 0
            &&& r.0[0] == Component::SnakeBody(
                SnakeBodyComponent { cool_down: bumped_cooldown(c) },
            )
        }),
{
    let c0 = Component::SnakeBody(c);
    let c1 = Component::Grid(GridComponent {  });
    assert(e.components =~= seq![c0] + seq![c1]);
    lemma_chain_step_app(seq![c0], seq![c1], input, e.state, g, snapshot);
    lemma_chain_step_singleton(c0, input, e.state, g, snapshot);
    lemma_chain_step_singleton(c1, input, e.state, g, snapshot);
}

/// The snapshot of a concatenated roster is the concatenation of the
/// snapshots.
pub proof fn lemma_roster_view_app(a: Seq<Entity>, b: Seq<Entity>)
    ensures
        roster_view(a + b) == roster_view(a) + roster_view(b),
{
    assert(roster_view(a + b) =~= roster_view(a) + roster_view(b));
}

/// A chain of one component does exactly what that component does.
pub proof fn lemma_chain_step_singleton(
    c: Component,
    input: Vector2,
    s: EntityState,
    grid: GridView,
    snapshot: Seq<EntityView>,
)
    ensures
        ({
            let h = component_step(c, input, s, grid, snapshot);
            let r = chain_step(seq![c], input, s, grid, snapshot);
            r.0 == seq![h.0] && r.1 == h.1 && r.2 == h.2
        }),
{
    reveal_with_fuel(chain_step, 2);
    let h = component_step(c, input, s, grid, snapshot);
    let r = chain_step(seq![c], input, s, grid, snapshot);
    assert(seq![c][0] == c);
    assert(seq![c].drop_first() =~= Seq::<Component>::empty());
    let rest = chain_step(seq![c].drop_first(), input, h.1, grid, snapshot);
    assert(rest.0.len() == 0 && rest.1 == h.1 && rest.2.len() == 0);
    assert(r.0 =~= seq![h.0]);
    assert(r.2 =~= h.2);
}

/// Running a chain equals running its first part, then its second part
/// from the state the first part left behind.
pub proof fn lemma_chain_step_app(
    a: Seq<Component>,
    b: Seq<Component>,
    input: Vector2,
    s: EntityState,
    grid: GridView,
    snapshot: Seq<EntityView>,
)
    ensures
        ({
            let whole = chain_step(a + b, input, s, grid, snapshot);
            let ra = chain_step(a, input, s, grid, snapshot);
            let rb = chain_step(b, input, ra.1, grid, snapshot);
            whole.0 == ra.0 + rb.0 && whole.1 == rb.1 && whole.2 == ra.2 + rb.2
        }),
    decreases a.len(),
{
    let whole = chain_step(a + b, input, s, grid, snapshot);
    let ra = chain_step(a, input, s, grid, snapshot);
    let rb = chain_step(b, input, ra.1, grid, snapshot);
    if a.len() == 0 {
        assert(a + b =~= b);
        assert(ra.0 + rb.0 =~= rb.0);
        assert(ra.2 + rb.2 =~= rb.2);
    } else {
        let head = component_step(a[0], input, s, grid, snapshot);
        assert((a + b)[0] == a[0]);
        assert((a + b).drop_first() =~= a.drop_first() + b);
        lemma_chain_step_app(a.drop_first(), b, input, head.1, grid, snapshot);
        let ra1 = chain_step(a.drop_first(), input, head.1, grid, snapshot);
        let rb1 = chain_step(b, input, ra1.1, grid, snapshot);
        assert(seq![head.0] + (ra1.0 + rb1.0) =~= (seq![head.0] + ra1.0) + rb1.0);
        assert(head.2 + (ra1.2 + rb1.2) =~= (head.2 + ra1.2) + rb1.2);
    }
}

} // verus!
