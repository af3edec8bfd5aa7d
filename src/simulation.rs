use vstd::prelude::*;

use vstd::multiset::Multiset;

use crate::agents::{
    clamp, clamped, dir_ok, lemma_disc_in_window, world_ok, Entity, EntityType, ONE_MILLION,
    WORLD_LIMIT,
};
use crate::geometry::{Point, Rect, COORD_LIMIT, SCALE};
use crate::quadtree::{Entry, QuadTree};
use crate::steering::{wrap, EAT_RANGE, FULL_TURN, SENSE_RANGE};

verus! {

broadcast use {vstd::multiset::group_multiset_axioms, vstd::seq_lib::group_to_multiset_ensures};

/// Number of agents and of food items a reset brings.
pub const DEFAULT_POPULATION: usize = 100;

/// Leaf capacity of both spatial indices.
pub const CAPACITY: usize = 4;

/// A food item; once eaten it is left out of every later food index.
#[derive(Clone, Copy, Debug)]
pub struct Food {
    pub pos: Point,
    pub is_eaten: bool,
}

/// Some entry of `agents` lies within eating range of `f`.
pub open spec fn eaten_by(f: Food, agents: Multiset<Entry>) -> bool {
    exists|e: Entry| #[trigger] agents.count(e) > 0 && f.pos.dist2(e.pos) <= EAT_RANGE * EAT_RANGE
}

/// The agent that `spawn_agent` adds for these arguments in `world`.
pub open spec fn spawned(
    world: Rect,
    x: i64,
    y: i64,
    group: EntityType,
    heading: i64,
    dir: Point,
    coop: u32,
    share: u32,
) -> Entity {
    Entity {
        pos: Point {
            x: ((x as int) % (world.w as int)) as i64,
            y: ((y as int) % (world.h as int)) as i64,
        },
        coop: clamped(coop as int, 0, ONE_MILLION as int) as u32,
        share: clamped(share as int, 0, ONE_MILLION as int) as u32,
        heading: ((heading as int) % (FULL_TURN as int)) as i64,
        dir: Point {
            x: clamped(dir.x as int, -SCALE, SCALE as int) as i64,
            y: clamped(dir.y as int, -SCALE, SCALE as int) as i64,
        },
        food_collected: 0,
        group,
    }
}

/// The index entries of a population: agent `i` at its position, numbered `i`.
pub open spec fn agent_entries(s: Seq<Entity>) -> Multiset<Entry>
    decreases s.len(),
{
    if s.len() == 0 {
        Multiset::empty()
    } else {
        agent_entries(s.drop_last()).insert(Entry { pos: s.last().pos, id: (s.len() - 1) as usize })
    }
}

/// The index entries of the food items that are not eaten, each numbered by its
/// place in `s`.
pub open spec fn food_entries(s: Seq<Food>) -> Multiset<Entry>
    decreases s.len(),
{
    if s.len() == 0 {
        Multiset::empty()
    } else if s.last().is_eaten {
        food_entries(s.drop_last())
    } else {
        food_entries(s.drop_last()).insert(Entry { pos: s.last().pos, id: (s.len() - 1) as usize })
    }
}

impl Food {
    pub fn new(x: i64, y: i64) -> (r: Self)
        ensures
            r.pos == (Point { x, y }),
            !r.is_eaten,
    {
        Food { pos: Point { x, y }, is_eaten: false }
    }

    /// Marks the item eaten when some agent of `agents` is within eating range.
    pub fn step(&mut self, agents: &QuadTree)
        requires
            agents.wf(),
            0 <= old(self).pos.x <= WORLD_LIMIT,
            0 <= old(self).pos.y <= WORLD_LIMIT,
        ensures
            final(self).pos == old(self).pos,
            final(self).is_eaten == (old(self).is_eaten || eaten_by(*old(self), agents.contents())),
    {
        let window = Rect {
            x: self.pos.x - SENSE_RANGE,
            y: self.pos.y - SENSE_RANGE,
            w: 2 * SENSE_RANGE + 1,
            h: 2 * SENSE_RANGE + 1,
        };
        let found = agents.query(&window);
        proof {
            agents.lemma_contents_inside();
        }
        let mut near = false;
        let mut i: usize = 0;
        while i < found.len()
            invariant
                agents.wf(),
                0 <= self.pos.x <= WORLD_LIMIT,
                0 <= self.pos.y <= WORLD_LIMIT,
                i <= found.len(),
                forall|e: Entry| #[trigger] found@.to_multiset().count(e) == agents.found(window, e),
                forall|e: Entry| #[trigger] agents.contents().count(e) > 0 ==> agents.region().has(e.pos),
                agents.region().valid(),
                near == exists|k: int| 0 <= k < i && self.pos.dist2(#[trigger] found@[k].pos) <= EAT_RANGE * EAT_RANGE,
            decreases found.len() - i,
        {
            let e = found[i];
            assert(found@.to_multiset().count(e) > 0);
            let d2 = self.pos.distance_squared(&e.pos);
            let reach = EAT_RANGE as u128;
            if d2 <= reach * reach {
                near = true;
            }
            i += 1;
        }
        proof {
            if near {
                let k = choose|k: int| 0 <= k < found.len() && self.pos.dist2(#[trigger] found@[k].pos) <= EAT_RANGE * EAT_RANGE;
                assert(found@.to_multiset().count(found@[k]) > 0);
            }
            if eaten_by(*self, agents.contents()) {
                let e = choose|e: Entry| #[trigger] agents.contents().count(e) > 0 && self.pos.dist2(e.pos) <= EAT_RANGE * EAT_RANGE;
                assert(agents.region().has(e.pos));
                assert(self.pos.dist2(e.pos) <= SENSE_RANGE * SENSE_RANGE);
                lemma_disc_in_window(self.pos, e.pos);
                assert(window.has(e.pos));
                assert(found@.to_multiset().count(e) > 0);
                assert(found@.contains(e));
                let k = choose|k: int| 0 <= k < found.len() && found@[k] == e;
                assert(self.pos.dist2(found@[k].pos) <= EAT_RANGE * EAT_RANGE);
            }
        }
        if near {
            self.is_eaten = true;
        }
    }
}

/// The world: the agents and food items, and the two spatial indices over them.
pub struct Simulation {
    pub is_running: bool,
    pub entity_qt: QuadTree,
    pub entities: Vec<Entity>,
    pub food_qt: QuadTree,
    pub foods: Vec<Food>,
    pub boundary: Rect,
    pub capacity: usize,
    pub debug: bool,
    pub pause: bool,
}

/// An element-for-element copy of `v`.
fn copy_entities(v: &Vec<Entity>) -> (r: Vec<Entity>)
    ensures
        r@ == v@,
{
    let mut r: Vec<Entity> = Vec::new();
    let mut i: usize = 0;
    while i < v.len()
        invariant
            i <= v.len(),
            r@ == v@.subrange(0, i as int),
        decreases v.len() - i,
    {
        r.push(v[i]);
        assert(r@ =~= v@.subrange(0, i + 1));
        i += 1;
    }
    assert(v@.subrange(0, i as int) =~= v@);
    r
}

/// Builds an index holding entry `i` for agent `i`.
fn index_agents(entities: &Vec<Entity>, boundary: Rect) -> (r: QuadTree)
    requires
        boundary.valid(),
        forall|i: int| 0 <= i < entities.len() ==> boundary.has(#[trigger] entities@[i].pos),
    ensures
        r.wf(),
        r.region() == boundary,
        r.cap() == CAPACITY,
        r.contents() == agent_entries(entities@),
{
    let mut t = QuadTree::new(boundary, CAPACITY);
    let mut i: usize = 0;
    while i < entities.len()
        invariant
            i <= entities.len(),
            t.wf(),
            t.region() == boundary,
            t.cap() == CAPACITY,
            forall|i: int| 0 <= i < entities.len() ==> boundary.has(#[trigger] entities@[i].pos),
            t.contents() == agent_entries(entities@.subrange(0, i as int)),
        decreases entities.len() - i,
    {
        assert(entities@.subrange(0, i + 1).drop_last() =~= entities@.subrange(0, i as int));
        assert(boundary.has(entities@[i as int].pos));
        t.insert(entities[i].entry(i));
        i += 1;
    }
    assert(entities@.subrange(0, i as int) =~= entities@);
    t
}

/// Builds an index holding entry `j` for each food item `j` that is not eaten.
fn index_foods(foods: &Vec<Food>, boundary: Rect) -> (r: QuadTree)
    requires
        boundary.valid(),
        forall|i: int| 0 <= i < foods.len() ==> boundary.has(#[trigger] foods@[i].pos),
    ensures
        r.wf(),
        r.region() == boundary,
        r.cap() == CAPACITY,
        r.contents() == food_entries(foods@),
{
    let mut t = QuadTree::new(boundary, CAPACITY);
    let mut i: usize = 0;
    while i < foods.len()
        invariant
            i <= foods.len(),
            t.wf(),
            t.region() == boundary,
            t.cap() == CAPACITY,
            forall|i: int| 0 <= i < foods.len() ==> boundary.has(#[trigger] foods@[i].pos),
            t.contents() == food_entries(foods@.subrange(0, i as int)),
        decreases foods.len() - i,
    {
        assert(foods@.subrange(0, i + 1).drop_last() =~= foods@.subrange(0, i as int));
        assert(boundary.has(foods@[i as int].pos));
        if !foods[i].is_eaten {
            t.insert(Entry { pos: foods[i].pos, id: i });
        }
        i += 1;
    }
    assert(foods@.subrange(0, i as int) =~= foods@);
    t
}

impl Simulation {
    /// The world rectangle, in position units.
    pub open spec fn world(self) -> Rect {
        self.boundary
    }

    pub open spec fn paused(self) -> bool {
        self.pause
    }

    pub open spec fn debugging(self) -> bool {
        self.debug
    }

    pub open spec fn wf(self) -> bool {
        &&& world_ok(self.boundary)
        &&& self.capacity == CAPACITY
        &&& self.entity_qt.wf()
        &&& self.food_qt.wf()
        &&& self.entity_qt.region() == self.boundary
        &&& self.food_qt.region() == self.boundary
        &&& self.entity_qt.cap() == CAPACITY
        &&& self.food_qt.cap() == CAPACITY
        &&& forall|i: int| 0 <= i < self.entities.len() ==> (#[trigger] self.entities@[i]).wf()
            && self.boundary.has(self.entities@[i].pos)
        &&& forall|i: int| 0 <= i < self.foods.len() ==> self.boundary.has(
            #[trigger] self.foods@[i].pos,
        )
    }

    /// An empty world of `w` by `h` world units.
    pub fn new(w: i64, h: i64) -> (r: Self)
        requires
            1 <= w <= WORLD_LIMIT / SCALE,
            1 <= h <= WORLD_LIMIT / SCALE,
        ensures
            r.wf(),
            r.world() == (Rect { x: 0, y: 0, w: (w * SCALE) as i64, h: (h * SCALE) as i64 }),
            r.entities@.len() == 0,
            r.foods@.len() == 0,
            r.entity_qt.contents() =~= Multiset::empty(),
            r.food_qt.contents() =~= Multiset::empty(),
            r.entity_qt.region() == r.world(),
            r.food_qt.region() == r.world(),
            r.entity_qt.cap() == CAPACITY,
            r.food_qt.cap() == CAPACITY,
            !r.entity_qt.is_divided(),
            !r.food_qt.is_divided(),
            !r.is_running,
            !r.paused(),
            !r.debugging(),
    {
        let boundary = Rect { x: 0, y: 0, w: w * SCALE, h: h * SCALE };
        Simulation {
            is_running: false,
            entity_qt: QuadTree::new(boundary, CAPACITY),
            entities: Vec::new(),
            food_qt: QuadTree::new(boundary, CAPACITY),
            foods: Vec::new(),
            boundary,
            capacity: CAPACITY,
            debug: false,
            pause: false,
        }
    }

    pub fn bounds(&self) -> (r: Rect)
        ensures
            r == self.world(),
    {
        self.boundary
    }

    pub fn is_paused(&self) -> (r: bool)
        ensures
            r == self.paused(),
    {
        self.pause
    }

    pub fn is_debug(&self) -> (r: bool)
        ensures
            r == self.debugging(),
    {
        self.debug
    }

    pub fn toggle_pause(&mut self)
        requires
            old(self).wf(),
        ensures
            final(self).wf(),
            final(self).paused() == !old(self).paused(),
            final(self).debugging() == old(self).debugging(),
            final(self).world() == old(self).world(),
            final(self).entity_qt == old(self).entity_qt,
            final(self).food_qt == old(self).food_qt,
            final(self).entities == old(self).entities,
            final(self).foods == old(self).foods,
            final(self).is_running == old(self).is_running,
    {
        self.pause = !self.pause;
    }

    pub fn toggle_debug(&mut self)
        requires
            old(self).wf(),
        ensures
            final(self).wf(),
            final(self).debugging() == !old(self).debugging(),
            final(self).paused() == old(self).paused(),
            final(self).world() == old(self).world(),
            final(self).entity_qt == old(self).entity_qt,
            final(self).food_qt == old(self).food_qt,
            final(self).entities == old(self).entities,
            final(self).foods == old(self).foods,
            final(self).is_running == old(self).is_running,
    {
        self.debug = !self.debug;
    }

    /// Asks the frame loop to stop.
    pub fn terminate(&mut self)
        requires
            old(self).wf(),
        ensures
            final(self).wf(),
            !final(self).is_running,
            final(self).paused() == old(self).paused(),
            final(self).debugging() == old(self).debugging(),
            final(self).world() == old(self).world(),
            final(self).entity_qt == old(self).entity_qt,
            final(self).food_qt == old(self).food_qt,
            final(self).entities == old(self).entities,
            final(self).foods == old(self).foods,
    {
        self.is_running = false;
    }

    /// Adds an agent of class `group` at `(x, y)` facing `heading` microradians
    /// along `dir`. Out-of-range values are brought into range rather than
    /// refused: the position and heading wrap around, the direction components
    /// and the two fractions are clamped.
    pub fn spawn_agent(
        &mut self,
        x: i64,
        y: i64,
        group: EntityType,
        heading: i64,
        dir: Point,
        coop: u32,
        share: u32,
    )
        requires
            old(self).wf(),
            -COORD_LIMIT <= x <= COORD_LIMIT,
            -COORD_LIMIT <= y <= COORD_LIMIT,
            -COORD_LIMIT <= heading <= COORD_LIMIT,
        ensures
            final(self).wf(),
            final(self).entities@ == old(self).entities@.push(
                spawned(old(self).world(), x, y, group, heading, dir, coop, share),
            ),
            final(self).foods == old(self).foods,
            final(self).paused() == old(self).paused(),
            final(self).debugging() == old(self).debugging(),
            final(self).world() == old(self).world(),
            final(self).entity_qt == old(self).entity_qt,
            final(self).food_qt == old(self).food_qt,
            final(self).is_running == old(self).is_running,
    {
        let px = wrap(x, self.boundary.w);
        let py = wrap(y, self.boundary.h);
        let h = wrap(heading, FULL_TURN);
        let d = Point { x: clamp(dir.x, -SCALE, SCALE), y: clamp(dir.y, -SCALE, SCALE) };
        let c = if coop > ONE_MILLION {
            ONE_MILLION
        } else {
            coop
        };
        let sh = if share > ONE_MILLION {
            ONE_MILLION
        } else {
            share
        };
        self.entities.push(Entity::new(px, py, group, h, d, c, sh));
    }

    /// Adds a food item at `(x, y)`, wrapped into the world.
    pub fn spawn_food(&mut self, x: i64, y: i64)
        requires
            old(self).wf(),
            -COORD_LIMIT <= x <= COORD_LIMIT,
            -COORD_LIMIT <= y <= COORD_LIMIT,
        ensures
            final(self).wf(),
            final(self).foods@ == old(self).foods@.push(
                Food {
                    pos: Point {
                        x: ((x as int) % (old(self).world().w as int)) as i64,
                        y: ((y as int) % (old(self).world().h as int)) as i64,
                    },
                    is_eaten: false,
                },
            ),
            final(self).entities == old(self).entities,
            final(self).paused() == old(self).paused(),
            final(self).debugging() == old(self).debugging(),
            final(self).world() == old(self).world(),
            final(self).entity_qt == old(self).entity_qt,
            final(self).food_qt == old(self).food_qt,
            final(self).is_running == old(self).is_running,
    {
        let px = wrap(x, self.boundary.w);
        let py = wrap(y, self.boundary.h);
        self.foods.push(Food::new(px, py));
    }

    /// Removes every agent and food item.
    pub fn clear_population(&mut self)
        requires
            old(self).wf(),
        ensures
            final(self).wf(),
            final(self).entities@.len() == 0,
            final(self).foods@.len() == 0,
            final(self).paused() == old(self).paused(),
            final(self).debugging() == old(self).debugging(),
            final(self).world() == old(self).world(),
            final(self).entity_qt == old(self).entity_qt,
            final(self).food_qt == old(self).food_qt,
            final(self).is_running == old(self).is_running,
    {
        self.entities = Vec::new();
        self.foods = Vec::new();
    }


    /// Replaces the population: every agent and food item is removed, then each
    /// agent of `agents` is added as `spawn_agent` would add it, and a food item
    /// at each point of `foods`.
    pub fn reset_population(&mut self, agents: &Vec<Entity>, foods: &Vec<Point>)
        requires
            old(self).wf(),
            forall|i: int|
                0 <= i < agents.len() ==> {
                    let e = #[trigger] agents@[i];
                    &&& -COORD_LIMIT <= e.pos.x <= COORD_LIMIT
                    &&& -COORD_LIMIT <= e.pos.y <= COORD_LIMIT
                    &&& -COORD_LIMIT <= e.heading <= COORD_LIMIT
                },
            forall|i: int|
                0 <= i < foods.len() ==> (#[trigger] foods@[i]).in_limits(),
        ensures
            final(self).wf(),
            final(self).entities@.len() == agents@.len(),
            forall|i: int|
                0 <= i < agents@.len() ==> {
                    let e = #[trigger] agents@[i];
                    final(self).entities@[i] == spawned(
                        old(self).world(),
                        e.pos.x,
                        e.pos.y,
                        e.group,
                        e.heading,
                        e.dir,
                        e.coop,
                        e.share,
                    )
                },
            final(self).foods@.len() == foods@.len(),
            forall|i: int|
                0 <= i < foods@.len() ==> {
                    let p = #[trigger] foods@[i];
                    final(self).foods@[i] == (Food {
                        pos: Point {
                            x: ((p.x as int) % (old(self).world().w as int)) as i64,
                            y: ((p.y as int) % (old(self).world().h as int)) as i64,
                        },
                        is_eaten: false,
                    })
                },
            final(self).paused() == old(self).paused(),
            final(self).debugging() == old(self).debugging(),
            final(self).world() == old(self).world(),
            final(self).entity_qt == old(self).entity_qt,
            final(self).food_qt == old(self).food_qt,
            final(self).is_running == old(self).is_running,
    {
        self.clear_population();
        let mut i: usize = 0;
        while i < agents.len()
            invariant
                self.wf(),
                i <= agents.len(),
                self.entities@.len() == i,
                self.foods@.len() == 0,
                forall|k: int|
                    0 <= k < agents.len() ==> {
                        let e = #[trigger] agents@[k];
                        &&& -COORD_LIMIT <= e.pos.x <= COORD_LIMIT
                        &&& -COORD_LIMIT <= e.pos.y <= COORD_LIMIT
                        &&& -COORD_LIMIT <= e.heading <= COORD_LIMIT
                    },
                forall|k: int|
                    0 <= k < i ==> {
                        let e = #[trigger] agents@[k];
                        self.entities@[k] == spawned(
                            old(self).world(),
                            e.pos.x,
                            e.pos.y,
                            e.group,
                            e.heading,
                            e.dir,
                            e.coop,
                            e.share,
                        )
                    },
                self.pause == old(self).pause,
                self.debug == old(self).debug,
                self.boundary == old(self).boundary,
                self.entity_qt == old(self).entity_qt,
                self.food_qt == old(self).food_qt,
                self.is_running == old(self).is_running,
            decreases agents.len() - i,
        {
            let e = agents[i];
            self.spawn_agent(e.pos.x, e.pos.y, e.group, e.heading, e.dir, e.coop, e.share);
            i += 1;
        }
        let mut j: usize = 0;
        while j < foods.len()
            invariant
                self.wf(),
                j <= foods.len(),
                self.foods@.len() == j,
                self.entities@.len() == agents.len(),
                forall|k: int| 0 <= k < foods.len() ==> (#[trigger] foods@[k]).in_limits(),
                forall|k: int|
                    0 <= k < agents.len() ==> {
                        let e = #[trigger] agents@[k];
                        self.entities@[k] == spawned(
                            old(self).world(),
                            e.pos.x,
                            e.pos.y,
                            e.group,
                            e.heading,
                            e.dir,
                            e.coop,
                            e.share,
                        )
                    },
                forall|k: int|
                    0 <= k < j ==> {
                        let p = #[trigger] foods@[k];
                        self.foods@[k] == (Food {
                            pos: Point {
                                x: ((p.x as int) % (old(self).world().w as int)) as i64,
                                y: ((p.y as int) % (old(self).world().h as int)) as i64,
                            },
                            is_eaten: false,
                        })
                    },
                self.pause == old(self).pause,
                self.debug == old(self).debug,
                self.boundary == old(self).boundary,
                self.entity_qt == old(self).entity_qt,
                self.food_qt == old(self).food_qt,
                self.is_running == old(self).is_running,
            decreases foods.len() - j,
        {
            let p = foods[j];
            self.spawn_food(p.x, p.y);
            j += 1;
        }
    }

    /// The sensing half of a tick. Rebuilds the agent index from the current
    /// positions; unless paused, every agent then turns toward its nearest
    /// targets as seen in that index and in the food index of the previous tick.
    /// Positions do not change here.
    pub fn steer_all(&mut self)
        requires
            old(self).wf(),
        ensures
            final(self).wf(),
            final(self).entity_qt.contents() == agent_entries(old(self).entities@),
            final(self).entities@.len() == old(self).entities@.len(),
            old(self).paused() ==> final(self).entities@ == old(self).entities@,
            !old(self).paused() ==> forall|i: int|
                0 <= i < old(self).entities@.len() ==> #[trigger] old(self).entities@[i].turned_into(
                    final(self).entities@[i],
                    final(self).entity_qt,
                    old(self).entities@,
                    old(self).food_qt,
                ),
            final(self).foods == old(self).foods,
            final(self).food_qt == old(self).food_qt,
            final(self).paused() == old(self).paused(),
            final(self).debugging() == old(self).debugging(),
            final(self).world() == old(self).world(),
            final(self).entity_qt.region() == old(self).world(),
            final(self).food_qt.region() == old(self).world(),
            final(self).entity_qt.cap() == CAPACITY,
            final(self).food_qt.cap() == CAPACITY,
            final(self).is_running == old(self).is_running,
    {
        self.entity_qt = index_agents(&self.entities, self.boundary);
        if !self.pause {
            let population = copy_entities(&self.entities);
            let mut i: usize = 0;
            while i < self.entities.len()
                invariant
                    self.wf(),
                    !self.pause,
                    i <= self.entities.len(),
                    population@.len() == self.entities@.len(),
                    population@ == old(self).entities@,
                    self.entity_qt.contents() == agent_entries(population@),
                    self.foods == old(self).foods,
                    self.food_qt == old(self).food_qt,
                    self.boundary == old(self).boundary,
                    self.debug == old(self).debug,
                    self.is_running == old(self).is_running,
                    forall|k: int| i <= k < self.entities@.len() ==> self.entities@[k] == population@[k],
                    forall|k: int|
                        0 <= k < i ==> #[trigger] population@[k].turned_into(
                            self.entities@[k],
                            self.entity_qt,
                            population@,
                            self.food_qt,
                        ),
                decreases self.entities.len() - i,
            {
                let mut e = self.entities[i];
                e.turn(&self.entity_qt, &population, &self.food_qt);
                self.entities.set(i, e);
                i += 1;
            }
        }
    }

    /// The moving half of a tick. Unless paused, agent `i` takes `dirs[i]` (the
    /// unit vector of its new heading, scaled by `SCALE`) as its direction and
    /// moves one world unit along it, wrapping around the world's edges; then
    /// every food item within eating range of a moved agent is marked eaten.
    /// Both indices are rebuilt from the resulting state.
    pub fn move_all(&mut self, dirs: &Vec<Point>)
        requires
            old(self).wf(),
            dirs@.len() == old(self).entities@.len(),
            forall|i: int| 0 <= i < dirs@.len() ==> dir_ok(#[trigger] dirs@[i]),
        ensures
            final(self).wf(),
            final(self).entities@.len() == old(self).entities@.len(),
            forall|i: int|
                0 <= i < final(self).entities@.len() ==> old(self).world().has(
                    #[trigger] final(self).entities@[i].pos,
                ),
            old(self).paused() ==> final(self).entities@ == old(self).entities@,
            !old(self).paused() ==> forall|i: int|
                0 <= i < old(self).entities@.len() ==> {
                    let (a, b) = (old(self).entities@[i], #[trigger] final(self).entities@[i]);
                    &&& b.pos.x == (a.pos.x + dirs@[i].x) % (old(self).world().w as int)
                    &&& b.pos.y == (a.pos.y + dirs@[i].y) % (old(self).world().h as int)
                    &&& b.dir == dirs@[i]
                    &&& b.heading == a.heading
                    &&& b.group == a.group
                    &&& b.food_collected == a.food_collected
                    &&& b.coop == a.coop
                    &&& b.share == a.share
                },
            final(self).entity_qt.contents() == agent_entries(final(self).entities@),
            final(self).foods@.len() == old(self).foods@.len(),
            forall|j: int|
                0 <= j < old(self).foods@.len() ==> {
                    let (a, b) = (old(self).foods@[j], #[trigger] final(self).foods@[j]);
                    &&& b.pos == a.pos
                    &&& b.is_eaten == (a.is_eaten || (!old(self).paused() && eaten_by(
                        a,
                        agent_entries(final(self).entities@),
                    )))
                },
            final(self).food_qt.contents() == food_entries(final(self).foods@),
            final(self).paused() == old(self).paused(),
            final(self).debugging() == old(self).debugging(),
            final(self).world() == old(self).world(),
            final(self).entity_qt.region() == old(self).world(),
            final(self).food_qt.region() == old(self).world(),
            final(self).entity_qt.cap() == CAPACITY,
            final(self).food_qt.cap() == CAPACITY,
            final(self).is_running == old(self).is_running,
    {
        if !self.pause {
            let mut i: usize = 0;
            while i < self.entities.len()
                invariant
                    self.wf(),
                    !self.pause,
                    i <= self.entities.len(),
                    dirs@.len() == self.entities@.len(),
                    forall|i: int| 0 <= i < dirs@.len() ==> dir_ok(#[trigger] dirs@[i]),
                    self.entities@.len() == old(self).entities@.len(),
                    forall|k: int| i <= k < self.entities@.len() ==> self.entities@[k] == old(self).entities@[k],
                    forall|k: int|
                        0 <= k < i ==> {
                            let (a, b) = (old(self).entities@[k], #[trigger] self.entities@[k]);
                            &&& b.pos.x == (a.pos.x + dirs@[k].x) % (old(self).world().w as int)
                            &&& b.pos.y == (a.pos.y + dirs@[k].y) % (old(self).world().h as int)
                            &&& b.dir == dirs@[k]
                            &&& b.heading == a.heading
                            &&& b.group == a.group
                            &&& b.food_collected == a.food_collected
                            &&& b.coop == a.coop
                            &&& b.share == a.share
                        },
                    self.foods == old(self).foods,
                    self.boundary == old(self).boundary,
                    self.debug == old(self).debug,
                    self.is_running == old(self).is_running,
                decreases self.entities.len() - i,
            {
                let mut e = self.entities[i];
                assert(self.entities@[i as int].wf());
                e.advance(dirs[i], self.boundary);
                self.entities.set(i, e);
                i += 1;
            }
        }
        self.entity_qt = index_agents(&self.entities, self.boundary);
        let ghost moved = self.entities@;
        if !self.pause {
            let mut j: usize = 0;
            while j < self.foods.len()
                invariant
                    self.wf(),
                    !self.pause,
                    j <= self.foods.len(),
                    self.foods@.len() == old(self).foods@.len(),
                    self.entities@ == moved,
                    self.entity_qt.contents() == agent_entries(self.entities@),
                    forall|k: int| j <= k < self.foods@.len() ==> self.foods@[k] == old(self).foods@[k],
                    forall|k: int|
                        0 <= k < j ==> {
                            let (a, b) = (old(self).foods@[k], #[trigger] self.foods@[k]);
                            &&& b.pos == a.pos
                            &&& b.is_eaten == (a.is_eaten || eaten_by(
                                a,
                                agent_entries(self.entities@),
                            ))
                        },
                    self.boundary == old(self).boundary,
                    self.debug == old(self).debug,
                    self.is_running == old(self).is_running,
                decreases self.foods.len() - j,
            {
                let mut f = self.foods[j];
                assert(self.boundary.has(self.foods@[j as int].pos));
                f.step(&self.entity_qt);
                self.foods.set(j, f);
                j += 1;
            }
        }
        self.food_qt = index_foods(&self.foods, self.boundary);
    }
}

} // verus!
