use vstd::prelude::*;

use vstd::multiset::Multiset;

use crate::geometry::{lemma_quadrants, Point, Rect};

verus! {

broadcast use {vstd::multiset::group_multiset_axioms, vstd::seq_lib::group_to_multiset_ensures};

/// What the index stores: a position and the number of the record it stands for.
#[derive(Clone, Copy, Debug, PartialEq, Eq, Structural)]
pub struct Entry {
    pub pos: Point,
    pub id: usize,
}

/// The four quadrants of a subdivided node.
pub struct QuadTreeChildren {
    pub nw: QuadTree,
    pub ne: QuadTree,
    pub sw: QuadTree,
    pub se: QuadTree,
}

/// A region quadtree over entries. A leaf keeps its entries in `items`; once a
/// leaf that can still be split would grow past `capacity + 1` entries it hands
/// them all to four children and keeps none itself.
pub struct QuadTree {
    pub boundary: Rect,
    pub capacity: usize,
    pub items: Vec<Entry>,
    pub children: Option<Box<QuadTreeChildren>>,
}

impl QuadTreeChildren {
    /// Everything the four children hold.
    pub open spec fn total(self) -> Multiset<Entry> {
        self.nw.contents().add(self.ne.contents()).add(self.sw.contents()).add(self.se.contents())
    }

    /// The children cover the quadrants of `boundary`, share `capacity` and are
    /// well formed.
    pub open spec fn fits(self, boundary: Rect, capacity: usize) -> bool {
        &&& self.nw.region() == boundary.quad_nw()
        &&& self.ne.region() == boundary.quad_ne()
        &&& self.sw.region() == boundary.quad_sw()
        &&& self.se.region() == boundary.quad_se()
        &&& self.nw.cap() == capacity
        &&& self.ne.cap() == capacity
        &&& self.sw.cap() == capacity
        &&& self.se.cap() == capacity
        &&& self.nw.wf()
        &&& self.ne.wf()
        &&& self.sw.wf()
        &&& self.se.wf()
    }

    /// Four empty leaves covering the quadrants of `boundary`.
    pub fn new(boundary: Rect, capacity: usize) -> (r: Self)
        requires
            boundary.valid(),
        ensures
            r.fits(boundary, capacity),
            r.total() =~= Multiset::empty(),
            r.nw.contents() =~= Multiset::empty(),
            r.ne.contents() =~= Multiset::empty(),
            r.sw.contents() =~= Multiset::empty(),
            r.se.contents() =~= Multiset::empty(),
            !r.nw.is_divided() && !r.ne.is_divided() && !r.sw.is_divided() && !r.se.is_divided(),
            forall|p: Point|
                boundary.has(p) <==> (r.nw.region().has(p) || r.ne.region().has(p)
                    || r.sw.region().has(p) || r.se.region().has(p)),
            forall|p: Point|
                r.nw.region().has(p) ==> !r.ne.region().has(p) && !r.sw.region().has(p)
                    && !r.se.region().has(p),
            forall|p: Point| r.ne.region().has(p) ==> !r.sw.region().has(p) && !r.se.region().has(p),
            forall|p: Point| r.sw.region().has(p) ==> !r.se.region().has(p),
    {
        proof {
            lemma_quadrants(boundary);
        }
        let (a, b, c, d) = boundary.quadrants();
        QuadTreeChildren {
            nw: QuadTree::new(a, capacity),
            ne: QuadTree::new(b, capacity),
            sw: QuadTree::new(c, capacity),
            se: QuadTree::new(d, capacity),
        }
    }
}

impl QuadTree {
    /// The region the node covers.
    pub open spec fn region(self) -> Rect {
        self.boundary
    }

    pub open spec fn cap(self) -> usize {
        self.capacity
    }

    pub open spec fn is_divided(self) -> bool {
        self.children is Some
    }

    /// Number of entries kept directly in this node.
    pub open spec fn held(self) -> nat {
        self.items@.len()
    }

    /// Every entry stored anywhere in the tree, with multiplicity.
    pub open spec fn contents(self) -> Multiset<Entry>
        decreases self,
    {
        match self.children {
            None => self.items@.to_multiset(),
            Some(c) => c.nw.contents().add(c.ne.contents()).add(c.sw.contents()).add(
                c.se.contents(),
            ),
        }
    }

    pub open spec fn wf(self) -> bool
        decreases self,
    {
        &&& self.boundary.valid()
        &&& forall|i: int| 0 <= i < self.items.len() ==> self.boundary.has(#[trigger] self.items@[i].pos)
        &&& match self.children {
            None => self.items.len() <= self.capacity + 1 || !self.boundary.splittable(),
            Some(c) => {
                &&& self.items.len() == 0
                &&& self.boundary.splittable()
                &&& c.nw.boundary == self.boundary.quad_nw()
                &&& c.ne.boundary == self.boundary.quad_ne()
                &&& c.sw.boundary == self.boundary.quad_sw()
                &&& c.se.boundary == self.boundary.quad_se()
                &&& c.nw.capacity == self.capacity
                &&& c.ne.capacity == self.capacity
                &&& c.sw.capacity == self.capacity
                &&& c.se.capacity == self.capacity
                &&& c.nw.wf()
                &&& c.ne.wf()
                &&& c.sw.wf()
                &&& c.se.wf()
            },
        }
    }

    /// Every node that is divided in `self` is divided in `after` too, with
    /// children over the same regions: a split is never undone.
    pub open spec fn keeps_splits(self, after: QuadTree) -> bool
        decreases self,
    {
        match self.children {
            None => true,
            Some(c) => match after.children {
                None => false,
                Some(d) => {
                    &&& c.nw.region() == d.nw.region()
                    &&& c.ne.region() == d.ne.region()
                    &&& c.sw.region() == d.sw.region()
                    &&& c.se.region() == d.se.region()
                    &&& c.nw.keeps_splits(d.nw)
                    &&& c.ne.keeps_splits(d.ne)
                    &&& c.sw.keeps_splits(d.sw)
                    &&& c.se.keeps_splits(d.se)
                },
            },
        }
    }

    /// A tree keeps its own splits.
    pub proof fn lemma_keeps_splits_refl(self)
        ensures
            self.keeps_splits(self),
        decreases self,
    {
        match self.children {
            None => {},
            Some(c) => {
                c.nw.lemma_keeps_splits_refl();
                c.ne.lemma_keeps_splits_refl();
                c.sw.lemma_keeps_splits_refl();
                c.se.lemma_keeps_splits_refl();
            },
        }
    }

    /// How many copies of `e` a query over `range` reports.
    pub open spec fn found(self, range: Rect, e: Entry) -> nat {
        if range.has(e.pos) {
            self.contents().count(e)
        } else {
            0
        }
    }

    /// The contents after inserting `e`: entries outside the region are dropped.
    pub open spec fn after_insert(self, e: Entry) -> Multiset<Entry> {
        if self.region().has(e.pos) {
            self.contents().insert(e)
        } else {
            self.contents()
        }
    }

    /// Every stored entry lies inside the node's region.
    pub proof fn lemma_contents_inside(self)
        requires
            self.wf(),
        ensures
            self.region().valid(),
            forall|e: Entry| #[trigger] self.contents().count(e) > 0 ==> self.region().has(e.pos),
        decreases self,
    {
        match self.children {
            None => {
                assert forall|e: Entry| #[trigger] self.contents().count(e) > 0 implies self.region().has(
                    e.pos,
                ) by {
                    assert(self.contents() == self.items@.to_multiset());
                    assert(self.items@.contains(e));
                    let i = choose|i: int| 0 <= i < self.items@.len() && self.items@[i] == e;
                    assert(self.boundary.has(self.items@[i].pos));
                }
            },
            Some(c) => {
                lemma_quadrants(self.boundary);
                c.nw.lemma_contents_inside();
                c.ne.lemma_contents_inside();
                c.sw.lemma_contents_inside();
                c.se.lemma_contents_inside();
                assert forall|e: Entry| #[trigger] self.contents().count(e) > 0 implies self.region().has(
                    e.pos,
                ) by {
                    assert(self.contents().count(e) == c.nw.contents().count(e) + c.ne.contents().count(e)
                        + c.sw.contents().count(e) + c.se.contents().count(e));
                    assert(self.boundary.has(e.pos));
                }
            },
        }
    }

    /// An empty leaf covering `boundary`.
    pub fn new(boundary: Rect, capacity: usize) -> (r: Self)
        requires
            boundary.valid(),
        ensures
            r.wf(),
            r.region() == boundary,
            r.cap() == capacity,
            r.contents() =~= Multiset::empty(),
            !r.is_divided(),
    {
        let r = QuadTree { boundary, capacity, items: Vec::new(), children: None };
        assert(r.items@ =~= Seq::<Entry>::empty());
        r
    }

    /// Adds `item` to the tree when its position lies in the region and does
    /// nothing otherwise. A full leaf that can still be split subdivides first;
    /// a subdivided node hands the item to each of its four children, and the one
    /// whose quadrant holds the position keeps it.
    pub fn insert(&mut self, item: Entry)
        requires
            old(self).wf(),
        ensures
            final(self).wf(),
            final(self).region() == old(self).region(),
            final(self).cap() == old(self).cap(),
            final(self).contents() =~= old(self).after_insert(item),
            final(self).contents().len() == old(self).contents().len() + if old(self).region().has(
                item.pos,
            ) {
                1int
            } else {
                0int
            },
            !old(self).region().has(item.pos) ==> *final(self) == *old(self),
            old(self).is_divided() ==> final(self).is_divided(),
            old(self).keeps_splits(*final(self)),
            old(self).region().has(item.pos) && old(self).held() > old(self).cap()
                && old(self).region().splittable() ==> final(self).is_divided(),
        decreases old(self).region().size(), 1nat,
    {
        proof {
            old(self).lemma_keeps_splits_refl();
        }
        if self.boundary.contains(&item.pos) {
            let splittable = self.boundary.w >= 2 && self.boundary.h >= 2;
            if self.children.is_none() && (self.items.len() <= self.capacity || !splittable) {
                self.items.push(item);
                assert(forall|i: int|
                    0 <= i < self.items.len() ==> self.boundary.has(#[trigger] self.items@[i].pos));
            } else {
                if self.children.is_none() {
                    self.subdivide();
                }
                proof {
                    lemma_quadrants(self.boundary);
                }
                match self.children.take() {
                    Some(b) => {
                        let mut kids = *b;
                        kids.nw.insert(item);
                        kids.ne.insert(item);
                        kids.sw.insert(item);
                        kids.se.insert(item);
                        self.children = Some(Box::new(kids));
                    },
                    None => {},
                }
            }
        }
    }

    /// Creates the four children and moves every held entry into them.
    fn subdivide(&mut self)
        requires
            old(self).wf(),
            !old(self).is_divided(),
            old(self).region().splittable(),
        ensures
            final(self).wf(),
            final(self).is_divided(),
            final(self).region() == old(self).region(),
            final(self).cap() == old(self).cap(),
            final(self).contents() =~= old(self).contents(),
        decreases old(self).region().size(), 0nat,
    {
        proof {
            lemma_quadrants(self.boundary);
        }
        let mut kids = QuadTreeChildren::new(self.boundary, self.capacity);
        let mut i: usize = 0;
        while i < self.items.len()
            invariant
                self.wf(),
                self.children is None,
                self.boundary.splittable(),
                i <= self.items.len(),
                kids.fits(self.boundary, self.capacity),
                kids.total() =~= self.items@.subrange(0, i as int).to_multiset(),
            decreases self.items.len() - i,
        {
            let e = self.items[i];
            assert(self.boundary.has(self.items@[i as int].pos));
            assert(self.items@.subrange(0, i + 1) =~= self.items@.subrange(0, i as int).push(e));
            kids.nw.insert(e);
            kids.ne.insert(e);
            kids.sw.insert(e);
            kids.se.insert(e);
            i += 1;
        }
        assert(self.items@.subrange(0, i as int) =~= self.items@);
        self.items = Vec::new();
        self.children = Some(Box::new(kids));
    }

    /// Every stored entry whose position lies in `range`, in no particular order.
    pub fn query(&self, range: &Rect) -> (r: Vec<Entry>)
        requires
            self.wf(),
            range.valid(),
        ensures
            forall|e: Entry| #[trigger] r@.to_multiset().count(e) == self.found(*range, e),
        decreases self,
    {
        let mut found: Vec<Entry> = Vec::new();
        if self.boundary.intersects(range) {
            match &self.children {
                Some(kids) => {
                    let mut a = kids.nw.query(range);
                    let mut b = kids.ne.query(range);
                    let mut c = kids.sw.query(range);
                    let mut d = kids.se.query(range);
                    let ghost (sa, sb, sc, sd) = (a@, b@, c@, d@);
                    found.append(&mut a);
                    found.append(&mut b);
                    found.append(&mut c);
                    found.append(&mut d);
                    proof {
                        vstd::seq_lib::lemma_multiset_commutative(sa, sb);
                        vstd::seq_lib::lemma_multiset_commutative(sa + sb, sc);
                        vstd::seq_lib::lemma_multiset_commutative(sa + sb + sc, sd);
                        assert(found@ =~= sa + sb + sc + sd);
                        assert forall|e: Entry| #[trigger]
                            found@.to_multiset().count(e) == self.found(*range, e) by {
                            assert(sa.to_multiset().count(e) == kids.nw.found(*range, e));
                            assert(sb.to_multiset().count(e) == kids.ne.found(*range, e));
                            assert(sc.to_multiset().count(e) == kids.sw.found(*range, e));
                            assert(sd.to_multiset().count(e) == kids.se.found(*range, e));
                        }
                    }
                },
                None => {
                    let mut i: usize = 0;
                    while i < self.items.len()
                        invariant
                            self.wf(),
                            self.children is None,
                            range.valid(),
                            i <= self.items.len(),
                            forall|e: Entry| #[trigger]
                                found@.to_multiset().count(e) == if range.has(e.pos) {
                                    self.items@.subrange(0, i as int).to_multiset().count(e)
                                } else {
                                    0
                                },
                        decreases self.items.len() - i,
                    {
                        let e = self.items[i];
                        assert(self.items@.subrange(0, i + 1) =~= self.items@.subrange(0, i as int).push(e));
                        if range.contains(&e.pos) {
                            found.push(e);
                        }
                        i += 1;
                    }
                    assert(self.items@.subrange(0, i as int) =~= self.items@);
                },
            }
        } else {
            proof {
                self.lemma_contents_inside();
                assert forall|e: Entry| #[trigger] found@.to_multiset().count(e) == self.found(*range, e) by {
                    if range.has(e.pos) && self.contents().count(e) > 0 {
                        crate::geometry::lemma_shared_point_meets(self.boundary, *range, e.pos);
                    }
                }
            }
        }
        found
    }

    /// Whether the node currently has children.
    pub fn divided(&self) -> (r: bool)
        ensures
            r == self.is_divided(),
    {
        self.children.is_some()
    }

    /// The four children of a subdivided node.
    pub fn kids(&self) -> (r: Option<&QuadTreeChildren>)
        requires
            self.wf(),
        ensures
            r.is_some() == self.is_divided(),
            r.is_some() ==> r.unwrap().fits(self.region(), self.cap()),
            r.is_some() ==> r.unwrap().total() == self.contents(),
    {
        match &self.children {
            Some(c) => Some(&**c),
            None => None,
        }
    }

    /// The region the node covers.
    pub fn bounds(&self) -> (r: Rect)
        ensures
            r == self.region(),
            self.wf() ==> r.valid(),
    {
        self.boundary
    }
}

/// Inserting an entry that the tree did not hold makes a query over the whole
/// region report it exactly once when its position lies in the region; an entry
/// whose position lies outside is reported by no query at all.
pub proof fn law_inserted_entry_found_once(before: QuadTree, after: QuadTree, e: Entry, range: Rect)
    requires
        before.wf(),
        after.wf(),
        after.region() == before.region(),
        after.contents() == before.after_insert(e),
        before.contents().count(e) == 0,
    ensures
        before.region().has(e.pos) ==> after.found(after.region(), e) == 1,
        !before.region().has(e.pos) ==> after.found(range, e) == 0,
{
}

/// A query over the whole region reports every stored entry exactly as often as
/// it is stored.
pub proof fn law_query_region_reports_all(t: QuadTree)
    requires
        t.wf(),
    ensures
        forall|e: Entry| #[trigger] t.found(t.region(), e) == t.contents().count(e),
{
    t.lemma_contents_inside();
    assert forall|e: Entry| #[trigger] t.found(t.region(), e) == t.contents().count(e) by {
        if t.contents().count(e) > 0 {
            assert(t.region().has(e.pos));
        }
    }
}

/// What a query reports depends only on the stored entries and the range, not on
/// the capacity or the shape of the tree: it is exactly the entries whose
/// position lies in the range.
pub proof fn law_query_independent_of_shape(t1: QuadTree, t2: QuadTree, range: Rect)
    requires
        t1.wf(),
        t2.wf(),
        t1.contents() == t2.contents(),
    ensures
        forall|e: Entry| #[trigger] t1.found(range, e) == t2.found(range, e),
        forall|e: Entry| range.has(e.pos) ==> #[trigger] t1.found(range, e) == t1.contents().count(e),
        forall|e: Entry| !range.has(e.pos) ==> #[trigger] t1.found(range, e) == 0,
{
}

/// How many of `items` have their position in `region`.
pub open spec fn count_inside(region: Rect, items: Seq<Entry>) -> nat
    decreases items.len(),
{
    if items.len() == 0 {
        0
    } else {
        count_inside(region, items.drop_last()) + if region.has(items.last().pos) {
            1nat
        } else {
            0nat
        }
    }
}

/// The contents of a tree over `region` that held `m`, after `insert` was called
/// with each of `items` in turn.
pub open spec fn insert_all(m: Multiset<Entry>, region: Rect, items: Seq<Entry>) -> Multiset<Entry>
    decreases items.len(),
{
    if items.len() == 0 {
        m
    } else {
        let prev = insert_all(m, region, items.drop_last());
        if region.has(items.last().pos) {
            prev.insert(items.last())
        } else {
            prev
        }
    }
}

/// However deep the tree subdivides, a series of insertions adds exactly one
/// stored entry for each inserted entry whose position lies in the region.
pub proof fn law_count_after_inserts(m: Multiset<Entry>, region: Rect, items: Seq<Entry>)
    ensures
        insert_all(m, region, items).len() == m.len() + count_inside(region, items),
    decreases items.len(),
{
    if items.len() > 0 {
        law_count_after_inserts(m, region, items.drop_last());
    }
}

} // verus!
