//! Quadtree spatial index.
//!
//! A node covers a closed rectangle `xrange` x `yrange`. It either holds at
//! most one entry (a key and a position) or is a router with exactly four
//! children that split its rectangle at the midpoint of each axis. A node
//! whose width or height is at most the leaf floor never splits: a second
//! entry that falls into such a cell is refused, and that refusal is the
//! collision signal.
use vstd::prelude::*;
use crate::geometry::Point;

verus! {

/// A node at most this wide never splits (25 arena units).
pub const LEAF_X_LIMIT: i64 = 25_000;

/// A node at most this tall never splits (18.75 arena units).
pub const LEAF_Y_LIMIT: i64 = 18_750;

/// An entry of the index: the caller's key for an actor, and its position.
pub type Entry = (usize, Point);

/// A rectangle `[lo, hi]` on each axis is at or below the leaf floor.
pub open spec fn leaf_size(xr: (int, int), yr: (int, int)) -> bool {
    xr.1 - xr.0 <= LEAF_X_LIMIT || yr.1 - yr.0 <= LEAF_Y_LIMIT
}

/// Midpoint of a range, rounded down.
pub open spec fn midpoint(r: (int, int)) -> int {
    r.0 + (r.1 - r.0) / 2
}

/// `p` lies in the closed rectangle `xr` x `yr`.
pub open spec fn in_range(xr: (int, int), yr: (int, int), p: Point) -> bool {
    xr.0 <= p.x <= xr.1 && yr.0 <= p.y <= yr.1
}

/// The child a point is routed to: 0 top-left, 1 top-right, 2 bottom-left,
/// 3 bottom-right. A point on a midpoint goes to the left or top child.
pub open spec fn quadrant(xr: (int, int), yr: (int, int), p: Point) -> int {
    (if p.y > midpoint(yr) { 2int } else { 0int }) + (if p.x > midpoint(xr) { 1int } else { 0int })
}

/// The x range of child `q`.
pub open spec fn sub_xrange(xr: (int, int), q: int) -> (int, int) {
    if q == 0 || q == 2 { (xr.0, midpoint(xr)) } else { (midpoint(xr), xr.1) }
}

/// The y range of child `q`.
pub open spec fn sub_yrange(yr: (int, int), q: int) -> (int, int) {
    if q < 2 { (yr.0, midpoint(yr)) } else { (midpoint(yr), yr.1) }
}

/// `p` and `q` end in the same leaf cell when routed down from `xr` x `yr`.
pub open spec fn same_cell(xr: (int, int), yr: (int, int), p: Point, q: Point) -> bool
    decreases (xr.1 - xr.0) + (yr.1 - yr.0),
{
    if leaf_size(xr, yr) {
        true
    } else if quadrant(xr, yr, p) != quadrant(xr, yr, q) {
        false
    } else {
        let k = quadrant(xr, yr, p);
        same_cell(sub_xrange(xr, k), sub_yrange(yr, k), p, q)
    }
}

/// Levels of subdivision below a `w` x `h` rectangle: the depth of the
/// deepest path, whose cells take the larger half at every split.
pub open spec fn levels(w: int, h: int) -> nat
    decreases w + h,
{
    if w <= LEAF_X_LIMIT || h <= LEAF_Y_LIMIT {
        0
    } else {
        1 + levels(w - w / 2, h - h / 2)
    }
}

/// `p` lies in the closed box with corners `lo` and `hi`.
pub open spec fn in_box(lo: Point, hi: Point, p: Point) -> bool {
    lo.x <= p.x <= hi.x && lo.y <= p.y <= hi.y
}

/// `2` to the power `n`.
pub open spec fn pow2(n: nat) -> int
    decreases n,
{
    if n == 0 {
        1
    } else {
        2 * pow2((n - 1) as nat)
    }
}

/// A quadtree node.
pub struct QuadNode {
    pub tl: Option<Box<QuadNode>>,
    pub tr: Option<Box<QuadNode>>,
    pub bl: Option<Box<QuadNode>>,
    pub br: Option<Box<QuadNode>>,
    pub xrange: (i64, i64),
    pub yrange: (i64, i64),
    pub val: Option<Entry>,
}

/// Entries held under an optional child.
pub open spec fn opt_items(n: Option<Box<QuadNode>>) -> Set<Entry>
    decreases n,
{
    match n {
        Some(b) => b.items(),
        None => Set::empty(),
    }
}

/// The rectangle `xr` x `yr` meets the box with corners `lo` and `hi`.
pub open spec fn meets(xr: (int, int), yr: (int, int), lo: Point, hi: Point) -> bool {
    xr.0 <= hi.x && lo.x <= xr.1 && yr.0 <= hi.y && lo.y <= yr.1
}

/// Entries that a box query finds under an optional child.
pub open spec fn opt_found(n: Option<Box<QuadNode>>, lo: Point, hi: Point) -> Set<Entry>
    decreases n,
{
    match n {
        Some(b) => b.found(lo, hi),
        None => Set::empty(),
    }
}

/// Height of an optional child.
pub open spec fn opt_height(n: Option<Box<QuadNode>>) -> nat
    decreases n,
{
    match n {
        Some(b) => b.height(),
        None => 0,
    }
}

/// An optional child is a well-formed child number `k` of a node over `xr` x `yr`.
pub open spec fn child_wf(xr: (int, int), yr: (int, int), n: Option<Box<QuadNode>>, k: int) -> bool
    decreases n,
{
    match n {
        Some(b) => {
            &&& b.xr() == sub_xrange(xr, k)
            &&& b.yr() == sub_yrange(yr, k)
            &&& b.wf()
            &&& forall|e: Entry| #[trigger] b.items().contains(e) ==> quadrant(xr, yr, e.1) == k
        },
        None => false,
    }
}

impl QuadNode {
    pub open spec fn xr(self) -> (int, int) {
        (self.xrange.0 as int, self.xrange.1 as int)
    }

    pub open spec fn yr(self) -> (int, int) {
        (self.yrange.0 as int, self.yrange.1 as int)
    }

    /// Entries held in every node of this subtree whose rectangle meets the
    /// box with corners `lo` and `hi`.
    pub open spec fn found(self, lo: Point, hi: Point) -> Set<Entry>
        decreases self,
    {
        if !meets(self.xr(), self.yr(), lo, hi) {
            Set::empty()
        } else {
            let own = match self.val {
                Some(v) => Set::empty().insert(v),
                None => Set::empty(),
            };
            own + opt_found(self.tl, lo, hi) + opt_found(self.tr, lo, hi) + opt_found(self.bl, lo, hi) + opt_found(
                self.br,
                lo,
                hi,
            )
        }
    }

    /// Number of levels of children below this node.
    pub open spec fn height(self) -> nat
        decreases self,
    {
        if self.unsplit() {
            0
        } else {
            let h0 = opt_height(self.tl);
            let h1 = opt_height(self.tr);
            let h2 = opt_height(self.bl);
            let h3 = opt_height(self.br);
            let a = if h0 > h1 { h0 } else { h1 };
            let b = if h2 > h3 { h2 } else { h3 };
            1 + if a > b { a } else { b }
        }
    }

    /// An insertion at `pos` is accepted: `pos` lies inside the node and no
    /// entry held shares its leaf cell.
    pub open spec fn accepts(self, pos: Point) -> bool {
        in_range(self.xr(), self.yr(), pos) && forall|e: Entry| #[trigger]
            self.items().contains(e) ==> !same_cell(self.xr(), self.yr(), e.1, pos)
    }

    /// The node has no children.
    pub open spec fn unsplit(self) -> bool {
        self.tl.is_none() && self.tr.is_none() && self.bl.is_none() && self.br.is_none()
    }

    /// Entries held under the children.
    pub open spec fn child_items(self) -> Set<Entry>
        decreases self,
    {
        opt_items(self.tl) + opt_items(self.tr) + opt_items(self.bl) + opt_items(self.br)
    }

    /// Every entry held in this subtree.
    pub open spec fn items(self) -> Set<Entry>
        decreases self,
    {
        let own = match self.val {
            Some(v) => Set::empty().insert(v),
            None => Set::empty(),
        };
        own + opt_items(self.tl) + opt_items(self.tr) + opt_items(self.bl) + opt_items(self.br)
    }

    /// The node is a router: four well-formed children that split it.
    pub open spec fn split_wf(self) -> bool
        decreases self,
    {
        &&& !leaf_size(self.xr(), self.yr())
        &&& child_wf(self.xr(), self.yr(), self.tl, 0)
        &&& child_wf(self.xr(), self.yr(), self.tr, 1)
        &&& child_wf(self.xr(), self.yr(), self.bl, 2)
        &&& child_wf(self.xr(), self.yr(), self.br, 3)
    }

    /// Well-formedness: an unsplit node holds at most one entry, inside its
    /// rectangle; a split node holds none itself.
    pub open spec fn wf(self) -> bool
        decreases self,
    {
        if self.unsplit() {
            match self.val {
                Some(v) => in_range(self.xr(), self.yr(), v.1),
                None => true,
            }
        } else {
            &&& self.val.is_none()
            &&& !leaf_size(self.xr(), self.yr())
            &&& child_wf(self.xr(), self.yr(), self.tl, 0)
            &&& child_wf(self.xr(), self.yr(), self.tr, 1)
            &&& child_wf(self.xr(), self.yr(), self.bl, 2)
            &&& child_wf(self.xr(), self.yr(), self.br, 3)
        }
    }
}

/// `levels` grows with the width and the height.
pub proof fn lemma_levels_monotone(w1: int, h1: int, w2: int, h2: int)
    requires
        w1 <= w2,
        h1 <= h2,
    ensures
        levels(w1, h1) <= levels(w2, h2),
    decreases w2 + h2,
{
    if !(w1 <= LEAF_X_LIMIT || h1 <= LEAF_Y_LIMIT) {
        lemma_levels_monotone(w1 - w1 / 2, h1 - h1 / 2, w2 - w2 / 2, h2 - h2 / 2);
    }
}

/// A child of a splittable rectangle has fewer levels below it.
proof fn lemma_child_levels(xr: (int, int), yr: (int, int), k: int)
    requires
        !leaf_size(xr, yr),
        0 <= k < 4,
    ensures
        levels(sub_xrange(xr, k).1 - sub_xrange(xr, k).0, sub_yrange(yr, k).1 - sub_yrange(yr, k).0)
            < levels(xr.1 - xr.0, yr.1 - yr.0),
{
    let w = xr.1 - xr.0;
    let h = yr.1 - yr.0;
    lemma_levels_monotone(
        sub_xrange(xr, k).1 - sub_xrange(xr, k).0,
        sub_yrange(yr, k).1 - sub_yrange(yr, k).0,
        w - w / 2,
        h - h / 2,
    );
}

/// A point inside a splittable rectangle lies inside the child it is routed to.
proof fn lemma_route_in_range(xr: (int, int), yr: (int, int), p: Point)
    requires
        !leaf_size(xr, yr),
        in_range(xr, yr, p),
    ensures
        0 <= quadrant(xr, yr, p) < 4,
        in_range(
            sub_xrange(xr, quadrant(xr, yr, p)),
            sub_yrange(yr, quadrant(xr, yr, p)),
            p,
        ),
{
}

/// Every entry of a well-formed subtree lies inside its rectangle.
pub proof fn lemma_items_in_range(n: QuadNode)
    requires
        n.wf(),
    ensures
        forall|e: Entry| #[trigger] n.items().contains(e) ==> in_range(n.xr(), n.yr(), e.1),
    decreases n,
{
    if n.unsplit() {
        assert forall|e: Entry| #[trigger] n.items().contains(e) implies in_range(n.xr(), n.yr(), e.1) by {
            assert(opt_items(n.tl) == Set::<Entry>::empty());
            assert(opt_items(n.tr) == Set::<Entry>::empty());
            assert(opt_items(n.bl) == Set::<Entry>::empty());
            assert(opt_items(n.br) == Set::<Entry>::empty());
        }
    } else {
        let c0 = n.tl.unwrap();
        let c1 = n.tr.unwrap();
        let c2 = n.bl.unwrap();
        let c3 = n.br.unwrap();
        lemma_items_in_range(*c0);
        lemma_items_in_range(*c1);
        lemma_items_in_range(*c2);
        lemma_items_in_range(*c3);
        assert(opt_items(n.tl) == c0.items());
        assert(opt_items(n.tr) == c1.items());
        assert(opt_items(n.bl) == c2.items());
        assert(opt_items(n.br) == c3.items());
    }
}

impl QuadNode {
    /// Child number `q` (0 top-left, 1 top-right, 2 bottom-left, 3 bottom-right).
    pub open spec fn child(self, q: int) -> Option<Box<QuadNode>> {
        if q == 0 {
            self.tl
        } else if q == 1 {
            self.tr
        } else if q == 2 {
            self.bl
        } else {
            self.br
        }
    }
}

/// Routing to the child that `pos` falls in decides the shared-cell question
/// for every entry under a split node.
proof fn lemma_route_equiv(n: QuadNode, pos: Point)
    requires
        n.split_wf(),
    ensures
        (forall|e: Entry| #[trigger] opt_items(n.child(quadrant(n.xr(), n.yr(), pos))).contains(e)
            ==> !same_cell(
                n.child(quadrant(n.xr(), n.yr(), pos)).unwrap().xr(),
                n.child(quadrant(n.xr(), n.yr(), pos)).unwrap().yr(),
                e.1,
                pos,
            )) == (forall|e: Entry| #[trigger] n.child_items().contains(e) ==> !same_cell(
            n.xr(),
            n.yr(),
            e.1,
            pos,
        )),
{
    let xr = n.xr();
    let yr = n.yr();
    let q = quadrant(xr, yr, pos);
    let c = n.child(q).unwrap();
    assert(opt_items(n.child(q)) == c.items());
    assert(opt_items(n.tl) == n.tl.unwrap().items());
    assert(opt_items(n.tr) == n.tr.unwrap().items());
    assert(opt_items(n.bl) == n.bl.unwrap().items());
    assert(opt_items(n.br) == n.br.unwrap().items());
    assert forall|e: Entry| #[trigger] c.items().contains(e) implies n.child_items().contains(e)
        && same_cell(xr, yr, e.1, pos) == same_cell(c.xr(), c.yr(), e.1, pos) by {
        assert(quadrant(xr, yr, e.1) == q);
    }
    assert forall|e: Entry| #[trigger] n.child_items().contains(e) && !c.items().contains(e) implies
        !same_cell(xr, yr, e.1, pos) by {
        assert(quadrant(xr, yr, e.1) != q);
    }
}

/// Midpoint of `[lo, hi]`, rounded down.
fn mid_of(lo: i64, hi: i64) -> (m: i64)
    requires
        lo <= hi,
    ensures
        m == midpoint((lo as int, hi as int)),
{
    let w: i128 = hi as i128 - lo as i128;
    (lo as i128 + w / 2) as i64
}

impl QuadNode {
    /// An empty node over `xrange` x `yrange`.
    pub fn new(xrange: (i64, i64), yrange: (i64, i64)) -> (r: Box<QuadNode>)
        ensures
            r.wf(),
            r.unsplit(),
            r.xrange == xrange,
            r.yrange == yrange,
            r.val.is_none(),
            r.items() == Set::<Entry>::empty(),
    {
        let r = Box::new(
            QuadNode { tl: None, tr: None, bl: None, br: None, xrange: xrange, yrange: yrange, val: None },
        );
        assert(r.items() =~= Set::<Entry>::empty());
        r
    }

    /// Whether `pos` lies inside this node's rectangle.
    pub fn within_bounds(&self, pos: Point) -> (r: bool)
        ensures
            r == in_range(self.xr(), self.yr(), pos),
    {
        self.xrange.0 <= pos.x && self.xrange.1 >= pos.x && self.yrange.0 <= pos.y && self.yrange.1
            >= pos.y
    }

    /// Whether this node is at or below the leaf floor.
    pub fn is_leaf_node(&self) -> (r: bool)
        ensures
            r == leaf_size(self.xr(), self.yr()),
    {
        let w: i128 = self.xrange.1 as i128 - self.xrange.0 as i128;
        let h: i128 = self.yrange.1 as i128 - self.yrange.0 as i128;
        !(w > LEAF_X_LIMIT as i128) || !(h > LEAF_Y_LIMIT as i128)
    }

    /// The child that `pos` is routed to.
    fn quadrant_of(&self, pos: Point) -> (q: u8)
        requires
            !leaf_size(self.xr(), self.yr()),
        ensures
            q == quadrant(self.xr(), self.yr(), pos),
    {
        let xm = mid_of(self.xrange.0, self.xrange.1);
        let ym = mid_of(self.yrange.0, self.yrange.1);
        let v: u8 = if pos.y > ym { 2 } else { 0 };
        if pos.x > xm { v + 1 } else { v }
    }

    /// Stores an entry in an empty node; refuses when one is already held.
    fn set_value(&mut self, key: usize, pos: Point) -> (r: bool)
        ensures
            r == old(self).val.is_none(),
            final(self).val == (if r { Some((key, pos)) } else { old(self).val }),
            final(self).tl == old(self).tl,
            final(self).tr == old(self).tr,
            final(self).bl == old(self).bl,
            final(self).br == old(self).br,
            final(self).xrange == old(self).xrange,
            final(self).yrange == old(self).yrange,
    {
        match self.val {
            Some(_) => false,
            None => {
                self.val = Some((key, pos));
                true
            },
        }
    }

    /// Splits an unsplit node into four empty children, unless it is at or
    /// below the leaf floor; the held entry, if any, stays where it is.
    fn partition(&mut self) -> (r: bool)
        requires
            old(self).unsplit(),
        ensures
            r == !leaf_size(old(self).xr(), old(self).yr()),
            !r ==> *final(self) == *old(self),
            r ==> final(self).split_wf(),
            r ==> final(self).child_items() == Set::<Entry>::empty(),
            final(self).val == old(self).val,
            final(self).xrange == old(self).xrange,
            final(self).yrange == old(self).yrange,
    {
        if self.is_leaf_node() {
            return false;
        }
        let x_mid = mid_of(self.xrange.0, self.xrange.1);
        let y_mid = mid_of(self.yrange.0, self.yrange.1);
        self.tl = Some(QuadNode::new((self.xrange.0, x_mid), (self.yrange.0, y_mid)));
        self.tr = Some(QuadNode::new((x_mid, self.xrange.1), (self.yrange.0, y_mid)));
        self.bl = Some(QuadNode::new((self.xrange.0, x_mid), (y_mid, self.yrange.1)));
        self.br = Some(QuadNode::new((x_mid, self.xrange.1), (y_mid, self.yrange.1)));
        assert(self.child_items() =~= Set::<Entry>::empty());
        true
    }

    /// Inserts an entry under the child at `child`, which must be present.
    fn insert_into(child: &mut Option<Box<QuadNode>>, key: usize, pos: Point) -> (r: bool)
        requires
            old(child).is_some(),
            old(child).unwrap().wf(),
        ensures
            final(child).is_some(),
            final(child).unwrap().wf(),
            final(child).unwrap().xrange == old(child).unwrap().xrange,
            final(child).unwrap().yrange == old(child).unwrap().yrange,
            r == (in_range(old(child).unwrap().xr(), old(child).unwrap().yr(), pos) && forall|e: Entry|
                #[trigger] old(child).unwrap().items().contains(e) ==> !same_cell(
                    old(child).unwrap().xr(),
                    old(child).unwrap().yr(),
                    e.1,
                    pos,
                )),
            final(child).unwrap().items() == (if r {
                old(child).unwrap().items().insert((key, pos))
            } else {
                old(child).unwrap().items()
            }),
        decreases
            levels(
                old(child).unwrap().xr().1 - old(child).unwrap().xr().0,
                old(child).unwrap().yr().1 - old(child).unwrap().yr().0,
            ),
            2nat,
    {
        let mut c = child.take().unwrap();
        let r = (&mut *c).insert(key, pos);
        *child = Some(c);
        r
    }

    /// Routes an entry to the child that its position falls in.
    fn insert_routed(&mut self, key: usize, pos: Point) -> (r: bool)
        requires
            old(self).split_wf(),
            in_range(old(self).xr(), old(self).yr(), pos),
        ensures
            final(self).split_wf(),
            final(self).val == old(self).val,
            final(self).xrange == old(self).xrange,
            final(self).yrange == old(self).yrange,
            r == forall|e: Entry| #[trigger]
                old(self).child_items().contains(e) ==> !same_cell(
                    old(self).xr(),
                    old(self).yr(),
                    e.1,
                    pos,
                ),
            final(self).child_items() == (if r {
                old(self).child_items().insert((key, pos))
            } else {
                old(self).child_items()
            }),
        decreases levels(old(self).xr().1 - old(self).xr().0, old(self).yr().1 - old(self).yr().0), 0nat,
    {
        let ghost xr = self.xr();
        let ghost yr = self.yr();
        let q = self.quadrant_of(pos);
        proof {
            lemma_route_in_range(xr, yr, pos);
            lemma_child_levels(xr, yr, q as int);
        }
        let ghost old_self = *self;
        proof {
            lemma_route_equiv(old_self, pos);
            assert(opt_items(old_self.tl) == old_self.tl.unwrap().items());
            assert(opt_items(old_self.tr) == old_self.tr.unwrap().items());
            assert(opt_items(old_self.bl) == old_self.bl.unwrap().items());
            assert(opt_items(old_self.br) == old_self.br.unwrap().items());
        }
        let r;
        if q == 0 {
            r = QuadNode::insert_into(&mut self.tl, key, pos);
        } else if q == 1 {
            r = QuadNode::insert_into(&mut self.tr, key, pos);
        } else if q == 2 {
            r = QuadNode::insert_into(&mut self.bl, key, pos);
        } else {
            r = QuadNode::insert_into(&mut self.br, key, pos);
        }
        proof {
            assert(opt_items(self.tl) == self.tl.unwrap().items());
            assert(opt_items(self.tr) == self.tr.unwrap().items());
            assert(opt_items(self.bl) == self.bl.unwrap().items());
            assert(opt_items(self.br) == self.br.unwrap().items());
        }
        if r {
            assert(self.child_items() =~= old_self.child_items().insert((key, pos)));
        } else {
            assert(self.child_items() =~= old_self.child_items());
        }
        r
    }

    /// Inserts an entry. Succeeds when `pos` lies inside this node and no
    /// entry already held shares its leaf cell; a refusal for a shared cell
    /// is the collision signal.
    pub fn insert(&mut self, key: usize, pos: Point) -> (r: bool)
        requires
            old(self).wf(),
        ensures
            final(self).wf(),
            final(self).xrange == old(self).xrange,
            final(self).yrange == old(self).yrange,
            r == old(self).accepts(pos),
            final(self).items() == (if r {
                old(self).items().insert((key, pos))
            } else {
                old(self).items()
            }),
        decreases levels(old(self).xr().1 - old(self).xr().0, old(self).yr().1 - old(self).yr().0), 1nat,
    {
        let ghost old_self = *self;
        if !self.within_bounds(pos) {
            return false;
        }
        if self.tl.is_none() {
            if self.set_value(key, pos) {
                assert(self.items() =~= old_self.items().insert((key, pos)));
                return true;
            }
            let held = self.val.unwrap();
            assert(old_self.items() =~= Set::empty().insert(held));
            if !self.partition() {
                assert(old_self.items().contains(held));
                assert(same_cell(old_self.xr(), old_self.yr(), held.1, pos));
                return false;
            }
            self.val = None;
            let placed = self.insert_routed(held.0, held.1);
            assert(self.child_items() =~= Set::empty().insert(held));
            let r = self.insert_routed(key, pos);
            assert(self.items() =~= self.child_items());
            if r {
                assert(self.items() =~= old_self.items().insert((key, pos)));
            }
            return r;
        }
        assert(old_self.items() =~= old_self.child_items());
        let r = self.insert_routed(key, pos);
        assert(self.items() =~= self.child_items());
        r
    }
}


/// What a concatenation contains is what either part contains.
proof fn lemma_append_contains<T>(a: Seq<T>, b: Seq<T>)
    ensures
        forall|y: T| #[trigger] (a + b).contains(y) <==> (a.contains(y) || b.contains(y)),
{
    assert forall|y: T| #[trigger] (a + b).contains(y) <==> (a.contains(y) || b.contains(y)) by {
        if a.contains(y) {
            let k = choose|k: int| 0 <= k < a.len() && a[k] == y;
            assert((a + b)[k] == y);
        }
        if b.contains(y) {
            let k = choose|k: int| 0 <= k < b.len() && b[k] == y;
            assert((a + b)[a.len() + k] == y);
        }
        if (a + b).contains(y) {
            let k = choose|k: int| 0 <= k < (a + b).len() && (a + b)[k] == y;
            if k < a.len() {
                assert(a[k] == y);
            } else {
                assert(b[k - a.len()] == y);
            }
        }
    }
}

/// A box query finds only entries held, and every entry held whose position
/// lies in the box.
pub proof fn lemma_found(n: QuadNode, lo: Point, hi: Point)
    requires
        n.wf(),
    ensures
        forall|e: Entry| #[trigger] n.found(lo, hi).contains(e) ==> n.items().contains(e),
        forall|e: Entry| #[trigger] n.items().contains(e) && in_box(lo, hi, e.1) ==> n.found(lo, hi).contains(e),
    decreases n,
{
    lemma_items_in_range(n);
    if n.unsplit() {
        assert(opt_found(n.tl, lo, hi) == Set::<Entry>::empty());
        assert(opt_found(n.tr, lo, hi) == Set::<Entry>::empty());
        assert(opt_found(n.bl, lo, hi) == Set::<Entry>::empty());
        assert(opt_found(n.br, lo, hi) == Set::<Entry>::empty());
        assert(opt_items(n.tl) == Set::<Entry>::empty());
        assert(opt_items(n.tr) == Set::<Entry>::empty());
        assert(opt_items(n.bl) == Set::<Entry>::empty());
        assert(opt_items(n.br) == Set::<Entry>::empty());
    } else {
        let c0 = n.tl.unwrap();
        let c1 = n.tr.unwrap();
        let c2 = n.bl.unwrap();
        let c3 = n.br.unwrap();
        lemma_found(*c0, lo, hi);
        lemma_found(*c1, lo, hi);
        lemma_found(*c2, lo, hi);
        lemma_found(*c3, lo, hi);
        assert(opt_items(n.tl) == c0.items());
        assert(opt_items(n.tr) == c1.items());
        assert(opt_items(n.bl) == c2.items());
        assert(opt_items(n.br) == c3.items());
        assert(opt_found(n.tl, lo, hi) == c0.found(lo, hi));
        assert(opt_found(n.tr, lo, hi) == c1.found(lo, hi));
        assert(opt_found(n.bl, lo, hi) == c2.found(lo, hi));
        assert(opt_found(n.br, lo, hi) == c3.found(lo, hi));
    }
}

impl QuadNode {
    /// Appends to `r` the entries that a box query finds under an optional child.
    fn collect_child(c: &Option<Box<QuadNode>>, lo: Point, hi: Point, r: &mut Vec<Entry>)
        requires
            c.is_some() ==> c.unwrap().wf(),
        ensures
            forall|e: Entry| #[trigger] final(r)@.contains(e) <==> (old(r)@.contains(e) || opt_found(*c, lo, hi).contains(e)),
        decreases *c,
    {
        match c {
            Some(b) => {
                let mut found = b.query(lo, hi);
                let ghost before = r@;
                let ghost fs = found@;
                r.append(&mut found);
                proof {
                    lemma_append_contains(before, fs);
                    assert(opt_found(*c, lo, hi) == b.found(lo, hi));
                }
            },
            None => {
                assert(opt_found(*c, lo, hi) == Set::<Entry>::empty());
            },
        }
    }

    /// Box query: the entries held in every node whose rectangle meets the
    /// box with corners `lo` and `hi`. These are entries held, and they
    /// include every entry whose position lies in the box.
    pub fn query(&self, lo: Point, hi: Point) -> (r: Vec<Entry>)
        requires
            self.wf(),
        ensures
            forall|e: Entry| #[trigger] r@.contains(e) <==> self.found(lo, hi).contains(e),
            forall|i: int| 0 <= i < r@.len() ==> self.items().contains(#[trigger] r@[i]),
            forall|e: Entry| #[trigger] self.items().contains(e) && in_box(lo, hi, e.1) ==> r@.contains(e),
        decreases *self,
    {
        let mut r: Vec<Entry> = Vec::new();
        proof {
            lemma_found(*self, lo, hi);
        }
        if self.xrange.0 > hi.x || self.xrange.1 < lo.x || self.yrange.0 > hi.y || self.yrange.1 < lo.y {
            assert(self.found(lo, hi) == Set::<Entry>::empty());
            return r;
        }
        match self.val {
            Some(v) => {
                r.push(v);
                proof {
                    lemma_append_contains(Seq::<Entry>::empty(), seq![v]);
                    assert(r@ == Seq::<Entry>::empty() + seq![v]);
                    assert(seq![v][0] == v);
                }
            },
            None => {},
        }
        QuadNode::collect_child(&self.tl, lo, hi, &mut r);
        QuadNode::collect_child(&self.tr, lo, hi, &mut r);
        QuadNode::collect_child(&self.bl, lo, hi, &mut r);
        QuadNode::collect_child(&self.br, lo, hi, &mut r);
        proof {
            assert forall|i: int| 0 <= i < r@.len() implies self.items().contains(#[trigger] r@[i]) by {
                assert(r@.contains(r@[i]));
                assert(self.found(lo, hi).contains(r@[i]));
            }
        }
        r
    }
}

/// Termination and depth of insertion: the recursion of `QuadNode::insert`
/// descends one level per call and is measured by `levels` of the root
/// rectangle; when the root's area is at most `4^k` leaf areas, that is at
/// most `k` levels.
pub proof fn lemma_depth_bound(w: int, h: int, k: nat)
    requires
        0 <= w,
        0 <= h,
        w * h <= LEAF_X_LIMIT * LEAF_Y_LIMIT * (pow2(k) * pow2(k)),
    ensures
        levels(w, h) <= k,
{
    lemma_pow2_positive(k);
    if w <= LEAF_X_LIMIT * pow2(k) {
        lemma_levels_within(w, h, k, true);
    } else if h <= LEAF_Y_LIMIT * pow2(k) {
        lemma_levels_within(w, h, k, false);
    } else {
        let a = LEAF_X_LIMIT * pow2(k);
        let b = LEAF_Y_LIMIT * pow2(k);
        assert(w * h > a * b) by (nonlinear_arith)
            requires
                w > a,
                h > b,
                a > 0,
                b > 0,
        ;
        assert(a * b == LEAF_X_LIMIT * LEAF_Y_LIMIT * (pow2(k) * pow2(k))) by (nonlinear_arith)
            requires
                a == LEAF_X_LIMIT * pow2(k),
                b == LEAF_Y_LIMIT * pow2(k),
        ;
    }
}

proof fn lemma_pow2_positive(k: nat)
    ensures
        pow2(k) >= 1,
    decreases k,
{
    if k > 0 {
        lemma_pow2_positive((k - 1) as nat);
    }
}

/// A rectangle no wider (or no taller) than `2^k` leaf floors has at most
/// `k` levels below it.
proof fn lemma_levels_within(w: int, h: int, k: nat, by_width: bool)
    requires
        by_width ==> w <= LEAF_X_LIMIT * pow2(k),
        !by_width ==> h <= LEAF_Y_LIMIT * pow2(k),
    ensures
        levels(w, h) <= k,
    decreases k,
{
    if !(w <= LEAF_X_LIMIT || h <= LEAF_Y_LIMIT) {
        if k == 0 {
        } else {
            let k1 = (k - 1) as nat;
            assert(pow2(k) == 2 * pow2(k1));
            lemma_levels_within(w - w / 2, h - h / 2, k1, by_width);
        }
    }
}

/// Two positions that share a leaf cell of a rectangle `2^n` leaf floors on
/// each side are within one leaf floor of each other on each axis.
proof fn lemma_same_cell_close(xr: (int, int), yr: (int, int), n: nat, p: Point, q: Point)
    requires
        xr.1 - xr.0 == LEAF_X_LIMIT * pow2(n),
        yr.1 - yr.0 == LEAF_Y_LIMIT * pow2(n),
        in_range(xr, yr, p),
        in_range(xr, yr, q),
        same_cell(xr, yr, p, q),
    ensures
        -LEAF_X_LIMIT <= p.x - q.x <= LEAF_X_LIMIT,
        -LEAF_Y_LIMIT <= p.y - q.y <= LEAF_Y_LIMIT,
    decreases n,
{
    lemma_pow2_positive(n);
    if n > 0 {
        let n1 = (n - 1) as nat;
        assert(pow2(n) == 2 * pow2(n1));
        lemma_pow2_positive(n1);
        assert(!leaf_size(xr, yr));
        let k = quadrant(xr, yr, p);
        lemma_route_in_range(xr, yr, p);
        lemma_route_in_range(xr, yr, q);
        lemma_same_cell_close(sub_xrange(xr, k), sub_yrange(yr, k), n1, p, q);
    }
}

/// A well-formed tree is no deeper than `levels` of its rectangle.
pub proof fn lemma_height_bound(n: QuadNode)
    requires
        n.wf(),
    ensures
        n.height() <= levels(n.xr().1 - n.xr().0, n.yr().1 - n.yr().0),
    decreases n,
{
    if !n.unsplit() {
        let c0 = n.tl.unwrap();
        let c1 = n.tr.unwrap();
        let c2 = n.bl.unwrap();
        let c3 = n.br.unwrap();
        lemma_height_bound(*c0);
        lemma_height_bound(*c1);
        lemma_height_bound(*c2);
        lemma_height_bound(*c3);
        lemma_child_levels(n.xr(), n.yr(), 0);
        lemma_child_levels(n.xr(), n.yr(), 1);
        lemma_child_levels(n.xr(), n.yr(), 2);
        lemma_child_levels(n.xr(), n.yr(), 3);
        assert(opt_height(n.tl) == c0.height());
        assert(opt_height(n.tr) == c1.height());
        assert(opt_height(n.bl) == c2.height());
        assert(opt_height(n.br) == c3.height());
    }
}

/// Depth of a built tree: a well-formed tree whose rectangle has at most
/// `4^k` leaf areas is at most `k` levels deep.
pub proof fn lemma_tree_depth(n: QuadNode, k: nat)
    requires
        n.wf(),
        0 <= n.xr().1 - n.xr().0,
        0 <= n.yr().1 - n.yr().0,
        (n.xr().1 - n.xr().0) * (n.yr().1 - n.yr().0) <= LEAF_X_LIMIT * LEAF_Y_LIMIT * (pow2(k) * pow2(k)),
    ensures
        n.height() <= k,
{
    lemma_height_bound(n);
    lemma_depth_bound(n.xr().1 - n.xr().0, n.yr().1 - n.yr().0, k);
}

/// Separation: in a tree whose rectangle is `2^n` leaf floors on each side
/// (the arena is `2^5`), a position farther from every held entry than the
/// leaf diagonal is always accepted.
pub proof fn lemma_far_apart_accepted(t: QuadNode, n: nat, pos: Point)
    requires
        t.wf(),
        t.xr().1 - t.xr().0 == LEAF_X_LIMIT * pow2(n),
        t.yr().1 - t.yr().0 == LEAF_Y_LIMIT * pow2(n),
        in_range(t.xr(), t.yr(), pos),
        forall|e: Entry| #[trigger] t.items().contains(e) ==> crate::geometry::dist2(e.1, pos)
            > LEAF_X_LIMIT * LEAF_X_LIMIT + LEAF_Y_LIMIT * LEAF_Y_LIMIT,
    ensures
        t.accepts(pos),
{
    lemma_items_in_range(t);
    assert forall|e: Entry| #[trigger] t.items().contains(e) implies !same_cell(t.xr(), t.yr(), e.1, pos) by {
        if same_cell(t.xr(), t.yr(), e.1, pos) {
            lemma_same_cell_close(t.xr(), t.yr(), n, e.1, pos);
            let dx = e.1.x - pos.x;
            let dy = e.1.y - pos.y;
            assert(dx * dx + dy * dy <= LEAF_X_LIMIT * LEAF_X_LIMIT + LEAF_Y_LIMIT * LEAF_Y_LIMIT) by (nonlinear_arith)
                requires
                    -LEAF_X_LIMIT <= dx <= LEAF_X_LIMIT,
                    -LEAF_Y_LIMIT <= dy <= LEAF_Y_LIMIT,
            ;
        }
    }
}

/// Coincidence: a position that shares a leaf cell with an entry already
/// held is always refused.
pub proof fn lemma_shared_cell_refused(t: QuadNode, e: Entry, pos: Point)
    requires
        t.items().contains(e),
        same_cell(t.xr(), t.yr(), e.1, pos),
    ensures
        !t.accepts(pos),
{
}

} // verus!
