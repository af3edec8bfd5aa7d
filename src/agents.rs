use vstd::prelude::*;

use vstd::seq_lib::seq_to_set_is_finite;
use vstd::set_lib::{lemma_int_range, lemma_len_subset, set_int_range};

use crate::geometry::{Point, Rect, SCALE};
use crate::quadtree::{Entry, QuadTree};
use crate::steering::{
    norm_angle, steer, turn_amount, turn_sign, turn_size, wrap, FULL_TURN, MAX_TARGETS,
    SENSE_RANGE,
};

verus! {

broadcast use {
    vstd::multiset::group_multiset_axioms,
    vstd::seq_lib::group_to_multiset_ensures,
    seq_to_set_is_finite,
};

/// Largest world extent, in position units.
pub const WORLD_LIMIT: i64 = 100_000_000_000;

/// `coop` and `share` are fractions in `[0, 1]`, counted in millionths.
pub const ONE_MILLION: u32 = 1_000_000;

/// `v` limited to `[lo, hi]`.
pub open spec fn clamped(v: int, lo: int, hi: int) -> int {
    if v < lo {
        lo
    } else if v > hi {
        hi
    } else {
        v
    }
}

/// `v` limited to `[lo, hi]`.
pub fn clamp(v: i64, lo: i64, hi: i64) -> (r: i64)
    requires
        lo <= hi,
    ensures
        r == clamped(v as int, lo as int, hi as int),
{
    if v < lo {
        lo
    } else if v > hi {
        hi
    } else {
        v
    }
}

/// The two behavioural classes of agents.
#[derive(Clone, Copy, Debug, PartialEq, Eq, Structural)]
pub enum EntityType {
    Predator,
    Prey,
}

/// A mobile agent. `heading` is in microradians; `dir` is the unit vector of
/// that heading scaled by `SCALE`, as last supplied by the caller. `coop` and
/// `share` are in millionths.
#[derive(Clone, Copy, Debug)]
pub struct Entity {
    pub pos: Point,
    pub coop: u32,
    pub share: u32,
    pub heading: i64,
    pub dir: Point,
    pub food_collected: u32,
    pub group: EntityType,
}

/// The square an agent at `p` queries before the exact range test: it holds
/// every point within `SENSE_RANGE` of `p` in each coordinate, edges included.
pub open spec fn sense_window(p: Point) -> Rect {
    Rect {
        x: (p.x - SENSE_RANGE) as i64,
        y: (p.y - SENSE_RANGE) as i64,
        w: (2 * SENSE_RANGE + 1) as i64,
        h: (2 * SENSE_RANGE + 1) as i64,
    }
}

/// The square query window holds the whole sensing disc.
pub proof fn lemma_disc_in_window(p: Point, q: Point)
    requires
        p.in_limits(),
        p.dist2(q) <= SENSE_RANGE * SENSE_RANGE,
    ensures
        sense_window(p).has(q),
{
    let (dx, dy) = (q.x - p.x, q.y - p.y);
    assert(-SENSE_RANGE <= dx <= SENSE_RANGE) by (nonlinear_arith)
        requires
            dx * dx + dy * dy <= SENSE_RANGE * SENSE_RANGE,
    ;
    assert(-SENSE_RANGE <= dy <= SENSE_RANGE) by (nonlinear_arith)
        requires
            dx * dx + dy * dy <= SENSE_RANGE * SENSE_RANGE,
    ;
}

/// A world rectangle anchored at the origin.
pub open spec fn world_ok(world: Rect) -> bool {
    &&& world.x == 0
    &&& world.y == 0
    &&& SCALE <= world.w <= WORLD_LIMIT
    &&& SCALE <= world.h <= WORLD_LIMIT
}

/// A direction vector with components in `[-SCALE, SCALE]`.
pub open spec fn dir_ok(d: Point) -> bool {
    -SCALE <= d.x <= SCALE && -SCALE <= d.y <= SCALE
}

/// `idx` picks, without repeats, the `min(MAX_TARGETS, cands.len())` entries of
/// `cands` nearest to `origin`, nearest first.
pub open spec fn nearest_selection(origin: Point, cands: Seq<Entry>, idx: Seq<usize>) -> bool {
    &&& idx.len() == if cands.len() < MAX_TARGETS {
        cands.len()
    } else {
        MAX_TARGETS as nat
    }
    &&& forall|i: int| 0 <= i < idx.len() ==> #[trigger] idx[i] < cands.len()
    &&& forall|i: int, j: int| 0 <= i < j < idx.len() ==> idx[i] != idx[j]
    &&& forall|i: int, j: int|
        0 <= i < j < idx.len() ==> origin.dist2(cands[idx[i] as int].pos) <= origin.dist2(
            cands[idx[j] as int].pos,
        )
    &&& forall|k: int, i: int|
        #![trigger cands[k], idx[i]]
        0 <= k < cands.len() && 0 <= i < idx.len() && !idx.contains(k as usize) ==> origin.dist2(
            cands[idx[i] as int].pos,
        ) <= origin.dist2(cands[k].pos)
}

impl Entity {
    pub open spec fn wf(self) -> bool {
        &&& 0 <= self.pos.x <= WORLD_LIMIT
        &&& 0 <= self.pos.y <= WORLD_LIMIT
        &&& dir_ok(self.dir)
        &&& 0 <= self.heading < FULL_TURN
        &&& self.coop <= ONE_MILLION
        &&& self.share <= ONE_MILLION
    }

    /// `e` lies within the sensing range of the agent (Euclidean distance).
    pub open spec fn sees(self, e: Entry) -> bool {
        self.pos.dist2(e.pos) <= SENSE_RANGE * SENSE_RANGE
    }

    /// `e` is a target for the agent: food for prey, prey for predators.
    pub open spec fn wants(self, e: Entry, population: Seq<Entity>) -> bool {
        self.sees(e) && (self.group == EntityType::Predator ==> (e.id < population.len()
            && population[e.id as int].group == EntityType::Prey))
    }

    pub open spec fn offset(self, e: Entry) -> Point {
        Point { x: (e.pos.x - self.pos.x) as i64, y: (e.pos.y - self.pos.y) as i64 }
    }

    /// The signed turn, in microradians, that target `e` causes.
    pub open spec fn contribution(self, e: Entry) -> int {
        turn_sign(self.dir, self.offset(e)) * turn_size(
            self.pos.dist2(e.pos) as nat,
            self.food_collected as nat,
        )
    }

    /// The summed turn from the targets `cands[idx[0]], cands[idx[1]], ...`.
    pub open spec fn total_turn(self, cands: Seq<Entry>, idx: Seq<usize>) -> int
        decreases idx.len(),
    {
        if idx.len() == 0 {
            0
        } else {
            self.total_turn(cands, idx.drop_last()) + self.contribution(cands[idx.last() as int])
        }
    }

    /// `cands` holds exactly the wanted entries of `tree`, with multiplicity.
    pub open spec fn candidates(
        self,
        tree: QuadTree,
        population: Seq<Entity>,
        cands: Seq<Entry>,
    ) -> bool {
        forall|e: Entry| #[trigger]
            cands.to_multiset().count(e) == if self.wants(e, population) {
                tree.contents().count(e)
            } else {
                0
            }
    }

    /// `after` is this agent once it has turned toward its nearest targets: food
    /// of `foods` for prey, agents of class prey in `agents` for predators.
    pub open spec fn turned_into(
        self,
        after: Entity,
        agents: QuadTree,
        population: Seq<Entity>,
        foods: QuadTree,
    ) -> bool {
        &&& exists|cands: Seq<Entry>, idx: Seq<usize>|
            {
                &&& self.candidates(
                    if self.group == EntityType::Prey {
                        foods
                    } else {
                        agents
                    },
                    population,
                    cands,
                )
                &&& nearest_selection(self.pos, cands, idx)
                &&& after.heading == norm_angle(self.heading + self.total_turn(cands, idx))
            }
        &&& after.pos == self.pos
        &&& after.dir == self.dir
        &&& after.group == self.group
        &&& after.food_collected == self.food_collected
        &&& after.coop == self.coop
        &&& after.share == self.share
    }

    /// An agent at `(x, y)` of class `group`, facing `heading` microradians along
    /// the vector `dir`.
    pub fn new(
        x: i64,
        y: i64,
        group: EntityType,
        heading: i64,
        dir: Point,
        coop: u32,
        share: u32,
    ) -> (r: Self)
        ensures
            r == (Entity {
                pos: Point { x, y },
                coop,
                share,
                heading,
                dir,
                food_collected: 0,
                group,
            }),
    {
        Entity { pos: Point { x, y }, coop, share, heading, dir, food_collected: 0, group }
    }

    /// The agent's entry in a spatial index, numbered `id`.
    pub fn entry(&self, id: usize) -> (r: Entry)
        ensures
            r == (Entry { pos: self.pos, id }),
    {
        Entry { pos: self.pos, id }
    }

    /// The wanted entries of `tree`, taken from a query of the sensing square and
    /// filtered by exact distance and, for predators, by the class of the agent
    /// they stand for.
    pub fn visible(&self, tree: &QuadTree, population: &Vec<Entity>) -> (r: Vec<Entry>)
        requires
            self.wf(),
            tree.wf(),
        ensures
            self.candidates(*tree, population@, r@),
    {
        let window = Rect {
            x: self.pos.x - SENSE_RANGE,
            y: self.pos.y - SENSE_RANGE,
            w: 2 * SENSE_RANGE + 1,
            h: 2 * SENSE_RANGE + 1,
        };
        let found = tree.query(&window);
        proof {
            tree.lemma_contents_inside();
        }
        let mut out: Vec<Entry> = Vec::new();
        let mut i: usize = 0;
        while i < found.len()
            invariant
                self.wf(),
                tree.wf(),
                window == sense_window(self.pos),
                i <= found.len(),
                forall|e: Entry| #[trigger] found@.to_multiset().count(e) == tree.found(window, e),
                forall|e: Entry| #[trigger] tree.contents().count(e) > 0 ==> tree.region().has(e.pos),
                tree.region().valid(),
                forall|e: Entry| #[trigger]
                    out@.to_multiset().count(e) == if self.wants(e, population@) {
                        found@.subrange(0, i as int).to_multiset().count(e)
                    } else {
                        0
                    },
            decreases found.len() - i,
        {
            let e = found[i];
            assert(found@.subrange(0, i + 1) =~= found@.subrange(0, i as int).push(e));
            assert(found@.to_multiset().count(e) > 0);
            assert(tree.region().has(e.pos));
            let d2 = self.pos.distance_squared(&e.pos);
            let range = SENSE_RANGE as u128;
            let keep = if d2 <= range * range {
                match self.group {
                    EntityType::Prey => true,
                    EntityType::Predator => e.id < population.len() && population[e.id].group
                        == EntityType::Prey,
                }
            } else {
                false
            };

            if keep {
                out.push(e);
            }
            i += 1;
        }
        assert(found@.subrange(0, i as int) =~= found@);
        proof {
            assert forall|e: Entry| self.wants(e, population@) implies #[trigger] window.has(e.pos) by {
                lemma_disc_in_window(self.pos, e.pos);
            }
        }
        out
    }

    /// The targets the agent reacts to, nearest first: food of `foods` for prey,
    /// agents of class prey in `agents` for predators, at most `MAX_TARGETS`.
    pub fn targets(&self, agents: &QuadTree, population: &Vec<Entity>, foods: &QuadTree) -> (r: Vec<
        Entry,
    >)
        requires
            self.wf(),
            agents.wf(),
            foods.wf(),
        ensures
            exists|cands: Seq<Entry>, idx: Seq<usize>|
                {
                    &&& self.candidates(
                        if self.group == EntityType::Prey {
                            *foods
                        } else {
                            *agents
                        },
                        population@,
                        cands,
                    )
                    &&& nearest_selection(self.pos, cands, idx)
                    &&& r@.len() == idx.len()
                    &&& forall|i: int| 0 <= i < idx.len() ==> #[trigger] r@[i] == cands[idx[i] as int]
                },
    {
        let cands = match self.group {
            EntityType::Prey => self.visible(foods, population),
            EntityType::Predator => self.visible(agents, population),
        };
        proof {
            assert forall|i: int| 0 <= i < cands.len() implies (#[trigger] cands@[i]).pos.in_limits() by {
                assert(cands@.to_multiset().count(cands@[i]) > 0);
                assert(self.wants(cands@[i], population@));
                lemma_disc_in_window(self.pos, cands@[i].pos);
            }
        }
        let idx = nearest(&self.pos, &cands);
        let mut r: Vec<Entry> = Vec::new();
        let mut k: usize = 0;
        while k < idx.len()
            invariant
                k <= idx.len(),
                r@.len() == k,
                forall|i: int| 0 <= i < idx.len() ==> #[trigger] idx@[i] < cands.len(),
                forall|i: int| 0 <= i < k ==> #[trigger] r@[i] == cands@[idx@[i] as int],
            decreases idx.len() - k,
        {
            r.push(cands[idx[k]]);
            k += 1;
        }
        r
    }

    /// Changes the heading by the summed turn toward the nearest targets: food for
    /// prey, prey for predators, at most `MAX_TARGETS` of them, each turning the
    /// agent toward itself by `turn_size`.
    pub fn turn(&mut self, agents: &QuadTree, population: &Vec<Entity>, foods: &QuadTree)
        requires
            old(self).wf(),
            agents.wf(),
            foods.wf(),
        ensures
            final(self).wf(),
            old(self).turned_into(*final(self), *agents, population@, *foods),
    {
        let cands = match self.group {
            EntityType::Prey => self.visible(foods, population),
            EntityType::Predator => self.visible(agents, population),
        };
        proof {
            assert forall|e: Entry| #[trigger] cands@.to_multiset().count(e) > 0 implies self.sees(e) by {
                assert(self.wants(e, population@));
            }
            assert forall|i: int| 0 <= i < cands.len() implies (#[trigger] cands@[i]).pos.in_limits() by {
                assert(cands@.to_multiset().count(cands@[i]) > 0);
                lemma_disc_in_window(self.pos, cands@[i].pos);
            }
        }
        let idx = nearest(&self.pos, &cands);
        let mut delta: i64 = 0;
        let mut k: usize = 0;
        while k < idx.len()
            invariant
                self.wf(),
                idx.len() <= MAX_TARGETS,
                k <= idx.len(),
                forall|i: int| 0 <= i < idx.len() ==> #[trigger] idx@[i] < cands.len(),
                forall|e: Entry| #[trigger] cands@.to_multiset().count(e) > 0 ==> self.sees(e),
                delta == self.total_turn(cands@, idx@.subrange(0, k as int)),
                -1_000_000_000 * k <= delta <= 1_000_000_000 * k,
            decreases idx.len() - k,
        {
            let t = cands[idx[k]];
            assert(cands@.to_multiset().count(t) > 0);
            assert(self.sees(t));
            proof {
                lemma_disc_in_window(self.pos, t.pos);
            }
            let off = Point { x: t.pos.x - self.pos.x, y: t.pos.y - self.pos.y };
            let d2 = self.pos.distance_squared(&t.pos);
            let sign = steer(&self.dir, &off);
            let size = turn_amount(d2, self.food_collected);
            assert(idx@.subrange(0, k + 1).drop_last() =~= idx@.subrange(0, k as int));
            assert(sign == 1 || sign == -1);
            assert(-1_000_000_000 <= sign * (size as i64) <= 1_000_000_000) by (nonlinear_arith)
                requires
                    sign == 1 || sign == -1,
                    size <= 1_000_000_000,
            ;
            delta = delta + sign * (size as i64);
            k += 1;
        }
        assert(idx@.subrange(0, k as int) =~= idx@);
        self.heading = wrap(self.heading + delta, FULL_TURN);
    }

    /// Stores `dir` as the agent's direction and moves one world unit along it,
    /// wrapping each coordinate into the world.
    pub fn advance(&mut self, dir: Point, world: Rect)
        requires
            old(self).wf(),
            dir_ok(dir),
            world_ok(world),
            world.has(old(self).pos),
        ensures
            final(self).wf(),
            world.has(final(self).pos),
            final(self).pos.x == (old(self).pos.x + dir.x) % (world.w as int),
            final(self).pos.y == (old(self).pos.y + dir.y) % (world.h as int),
            final(self).dir == dir,
            final(self).heading == old(self).heading,
            final(self).group == old(self).group,
            final(self).food_collected == old(self).food_collected,
            final(self).coop == old(self).coop,
            final(self).share == old(self).share,
    {
        self.dir = dir;
        self.pos = Point { x: wrap(self.pos.x + dir.x, world.w), y: wrap(self.pos.y + dir.y, world.h) };
    }
}

/// Whether `v` holds `x`.
fn holds(v: &Vec<usize>, x: usize) -> (r: bool)
    ensures
        r == v@.contains(x),
{
    let mut m: usize = 0;
    while m < v.len()
        invariant
            m <= v.len(),
            forall|i: int| 0 <= i < m ==> v@[i] != x,
        decreases v.len() - m,
    {
        if v[m] == x {
            return true;
        }
        m += 1;
    }
    false
}

/// Fewer indices than `n` leave one of `0..n` out.
proof fn lemma_free_index(r: Seq<usize>, n: int)
    requires
        r.len() < n <= usize::MAX,
    ensures
        exists|k: int| 0 <= k < n && !#[trigger] r.contains(k as usize),
{
    if forall|k: int| 0 <= k < n ==> #[trigger] r.contains(k as usize) {
        let s = r.map_values(|v: usize| v as int);
        assert forall|k: int| #[trigger] set_int_range(0, n).contains(k) implies s.to_set().contains(
            k,
        ) by {
            assert(r.contains(k as usize));
            let i = choose|i: int| 0 <= i < r.len() && r[i] == k as usize;
            assert(s[i] == k);
        }
        lemma_int_range(0, n);
        s.lemma_cardinality_of_set();
        lemma_len_subset(set_int_range(0, n), s.to_set());
    }
}

/// Indices of the (at most `MAX_TARGETS`) entries of `cands` nearest to
/// `origin`, nearest first.
pub fn nearest(origin: &Point, cands: &Vec<Entry>) -> (r: Vec<usize>)
    requires
        origin.in_limits(),
        forall|i: int| 0 <= i < cands.len() ==> (#[trigger] cands@[i]).pos.in_limits(),
    ensures
        nearest_selection(*origin, cands@, r@),
{
    let want: usize = if cands.len() < MAX_TARGETS {
        cands.len()
    } else {
        MAX_TARGETS
    };
    let mut r: Vec<usize> = Vec::new();
    while r.len() < want
        invariant
            origin.in_limits(),
            forall|i: int| 0 <= i < cands.len() ==> (#[trigger] cands@[i]).pos.in_limits(),
            want <= cands.len(),
            want <= MAX_TARGETS,
            r.len() <= want,
            forall|i: int| 0 <= i < r.len() ==> #[trigger] r@[i] < cands.len(),
            forall|i: int, j: int| 0 <= i < j < r.len() ==> r@[i] != r@[j],
            forall|i: int, j: int|
                0 <= i < j < r.len() ==> origin.dist2(cands@[r@[i] as int].pos) <= origin.dist2(
                    cands@[r@[j] as int].pos,
                ),
            forall|k: int, i: int|
                #![trigger cands@[k], r@[i]]
                0 <= k < cands.len() && 0 <= i < r.len() && !r@.contains(k as usize)
                    ==> origin.dist2(cands@[r@[i] as int].pos) <= origin.dist2(cands@[k].pos),
        decreases want - r.len(),
    {
        let mut best: usize = cands.len();
        let mut best_d: u128 = 0;
        let mut j: usize = 0;
        while j < cands.len()
            invariant
                origin.in_limits(),
                forall|i: int| 0 <= i < cands.len() ==> (#[trigger] cands@[i]).pos.in_limits(),
                j <= cands.len(),
                best == cands.len() || (best < j && !r@.contains(best)),
                best < cands.len() ==> best_d == origin.dist2(cands@[best as int].pos),
                best == cands.len() ==> forall|k: int| 0 <= k < j ==> #[trigger] r@.contains(k as usize),
                forall|k: int|
                    0 <= k < j && !r@.contains(k as usize) ==> best_d <= origin.dist2(
                        #[trigger] cands@[k].pos,
                    ),
            decreases cands.len() - j,
        {
            let taken = holds(&r, j);
            if !taken {
                let d = origin.distance_squared(&cands[j].pos);
                if best == cands.len() || d < best_d {
                    best = j;
                    best_d = d;
                }
            }
            j += 1;
        }
        proof {
            lemma_free_index(r@, cands.len() as int);
            let free = choose|k: int| 0 <= k < cands.len() && !#[trigger] r@.contains(k as usize);
            assert(!r@.contains(free as usize));
            assert(best < cands.len());
            assert forall|i: int| 0 <= i < r.len() implies origin.dist2(cands@[r@[i] as int].pos)
                <= #[trigger] origin.dist2(cands@[best as int].pos) by {
                assert(!r@.contains(best));
            }
        }
        let ghost old_r = r@;
        r.push(best);
        proof {
            assert forall|k: int| 0 <= k < cands.len() && !#[trigger] r@.contains(k as usize) implies !old_r.contains(
                k as usize,
            ) && k != best by {
                if old_r.contains(k as usize) {
                    let i = choose|i: int| 0 <= i < old_r.len() && old_r[i] == k as usize;
                    assert(r@[i] == k as usize);
                }
                assert(r@[old_r.len() as int] == best);
            }
        }
    }
    r
}

} // verus!
