use vstd::prelude::*;

verus! {

broadcast use vstd::seq_lib::group_to_multiset_ensures;

/// A node of a bounding volume hierarchy over the items `0..n` of an
/// aggregate. Leaves hold item indices; `aabb` encloses every item below.
pub struct BVHNode<B> {
    pub next: BVHNodeVariant<B>,
    pub aabb: B,
}

pub enum BVHNodeVariant<B> {
    Leaf(usize),
    DoubleLeaf(usize, usize),
    Branch(Box<BVHNode<B>>, Box<BVHNode<B>>),
}

/// The sort key of `item` on `axis`: its bounding box's center coordinate,
/// encoded so that integer order is the order of the coordinates.
pub open spec fn key(keys: Seq<[u32; 3]>, item: usize, axis: int) -> u32 {
    keys[item as int]@[axis]
}

/// Every item of `s` indexes `keys`.
pub open spec fn in_range(s: Seq<usize>, keys: Seq<[u32; 3]>) -> bool {
    forall|i: int| 0 <= i < s.len() ==> (#[trigger] s[i] as int) < keys.len()
}

/// `s` is in nondecreasing key order on `axis`.
pub open spec fn sorted_on(s: Seq<usize>, keys: Seq<[u32; 3]>, axis: int) -> bool {
    forall|i: int, j: int|
        0 <= i < j < s.len() ==> key(keys, #[trigger] s[i], axis) <= key(keys, #[trigger] s[j], axis)
}

/// Every item of `l` has a key on `axis` no greater than that of any item of `r`.
pub open spec fn separated(l: Seq<usize>, r: Seq<usize>, keys: Seq<[u32; 3]>, axis: int) -> bool {
    forall|x: usize, y: usize|
        l.contains(x) && r.contains(y) ==> key(keys, x, axis) <= key(keys, y, axis)
}

impl<B> BVHNode<B> {
    /// The items at the leaves, left to right.
    pub open spec fn leaves(self) -> Seq<usize>
        decreases self,
    {
        match self.next {
            BVHNodeVariant::Leaf(a) => seq![a],
            BVHNodeVariant::DoubleLeaf(a, b) => seq![a, b],
            BVHNodeVariant::Branch(l, r) => l.leaves() + r.leaves(),
        }
    }

    /// The tree splits its items by their key on axis `depth % 3`, one axis
    /// further at each level: a branch's left items all come before its right
    /// items, and a double leaf is in key order.
    pub open spec fn ordered(self, keys: Seq<[u32; 3]>, depth: nat) -> bool
        decreases self,
    {
        match self.next {
            BVHNodeVariant::Leaf(_) => true,
            BVHNodeVariant::DoubleLeaf(a, b) => key(keys, a, (depth % 3) as int) <= key(keys, b, (depth % 3) as int),
            BVHNodeVariant::Branch(l, r) => {
                &&& separated(l.leaves(), r.leaves(), keys, (depth % 3) as int)
                &&& l.ordered(keys, depth + 1)
                &&& r.ordered(keys, depth + 1)
            },
        }
    }
}

impl<B> BVHNode<B> {
    /// Each node's volume is built from `boxes`: a leaf's is its item's box, a
    /// double leaf's the union of its two items' boxes, and a branch's the
    /// union of its children's volumes.
    pub open spec fn volumes_built<U: Fn(&B, &B) -> B>(self, boxes: Seq<B>, union: U) -> bool
        decreases self,
    {
        match self.next {
            BVHNodeVariant::Leaf(a) => self.aabb == boxes[a as int],
            BVHNodeVariant::DoubleLeaf(a, b) => call_ensures(
                union,
                (&boxes[a as int], &boxes[b as int]),
                self.aabb,
            ),
            BVHNodeVariant::Branch(l, r) => {
                &&& call_ensures(union, (&l.aabb, &r.aabb), self.aabb)
                &&& l.volumes_built(boxes, union)
                &&& r.volumes_built(boxes, union)
            },
        }
    }

    /// The tree's shape: one item makes a leaf, two a double leaf, and three
    /// or more a branch whose left subtree holds the first half, rounded down.
    pub open spec fn split_at_middle(self) -> bool
        decreases self,
    {
        match self.next {
            BVHNodeVariant::Leaf(_) => true,
            BVHNodeVariant::DoubleLeaf(_, _) => true,
            BVHNodeVariant::Branch(l, r) => {
                let n = l.leaves().len() + r.leaves().len();
                &&& n >= 3
                &&& l.leaves().len() == n / 2
                &&& l.split_at_middle()
                &&& r.split_at_middle()
            },
        }
    }
}

proof fn lemma_same_multiset_contains(a: Seq<usize>, b: Seq<usize>, x: usize)
    requires
        a.to_multiset() == b.to_multiset(),
    ensures
        a.contains(x) == b.contains(x),
{
    vstd::seq_lib::to_multiset_contains(a, x);
    vstd::seq_lib::to_multiset_contains(b, x);
}

/// Merges two key-sorted sequences of items into one, taking from `a` first
/// among equal keys.
fn merge(a: Vec<usize>, b: Vec<usize>, keys: &Vec<[u32; 3]>, axis: usize) -> (r: Vec<usize>)
    requires
        axis < 3,
        in_range(a@, keys@),
        in_range(b@, keys@),
        sorted_on(a@, keys@, axis as int),
        sorted_on(b@, keys@, axis as int),
    ensures
        r@.to_multiset() == a@.to_multiset().add(b@.to_multiset()),
        r@.len() == a@.len() + b@.len(),
        in_range(r@, keys@),
        sorted_on(r@, keys@, axis as int),
{
    let mut r: Vec<usize> = Vec::new();
    let mut i: usize = 0;
    let mut j: usize = 0;
    while i < a.len() || j < b.len()
        invariant
            axis < 3,
            in_range(a@, keys@),
            in_range(b@, keys@),
            sorted_on(a@, keys@, axis as int),
            sorted_on(b@, keys@, axis as int),
            i <= a.len(),
            j <= b.len(),
            r@.len() == i + j,
            r@.to_multiset() == a@.subrange(0, i as int).to_multiset().add(
                b@.subrange(0, j as int).to_multiset(),
            ),
            in_range(r@, keys@),
            sorted_on(r@, keys@, axis as int),
            forall|k: int, x: int|
                0 <= k < r@.len() && i <= x < a@.len() ==> key(keys@, #[trigger] r@[k], axis as int)
                    <= key(keys@, #[trigger] a@[x], axis as int),
            forall|k: int, y: int|
                0 <= k < r@.len() && j <= y < b@.len() ==> key(keys@, #[trigger] r@[k], axis as int)
                    <= key(keys@, #[trigger] b@[y], axis as int),
        decreases a.len() + b.len() - i - j,
    {
        let take_a = j >= b.len() || (i < a.len() && keys[a[i]][axis] <= keys[b[j]][axis]);
        let ghost old_r = r@;
        if take_a {
            let x = a[i];
            r.push(x);
            proof {
                assert(a@.subrange(0, i + 1) =~= a@.subrange(0, i as int).push(x));
                vstd::seq_lib::to_multiset_build(old_r, x);
                vstd::seq_lib::to_multiset_build(a@.subrange(0, i as int), x);
                assert(r@ =~= old_r.push(x));
                assert(r@.to_multiset() =~= a@.subrange(0, i + 1).to_multiset().add(
                    b@.subrange(0, j as int).to_multiset(),
                )) by {
                    broadcast use vstd::multiset::group_multiset_axioms;

                }
                assert forall|y: int| j <= y < b@.len() implies key(keys@, x, axis as int) <= key(
                    keys@,
                    #[trigger] b@[y],
                    axis as int,
                ) by {
                    if y > j {
                        assert(key(keys@, b@[j as int], axis as int) <= key(keys@, b@[y], axis as int));
                    }
                }
            }
            i = i + 1;
        } else {
            let y = b[j];
            r.push(y);
            proof {
                assert(b@.subrange(0, j + 1) =~= b@.subrange(0, j as int).push(y));
                vstd::seq_lib::to_multiset_build(old_r, y);
                vstd::seq_lib::to_multiset_build(b@.subrange(0, j as int), y);
                assert(r@ =~= old_r.push(y));
                assert(r@.to_multiset() =~= a@.subrange(0, i as int).to_multiset().add(
                    b@.subrange(0, j + 1).to_multiset(),
                )) by {
                    broadcast use vstd::multiset::group_multiset_axioms;

                }
                assert forall|x: int| i <= x < a@.len() implies key(keys@, y, axis as int) <= key(
                    keys@,
                    #[trigger] a@[x],
                    axis as int,
                ) by {
                    if x > i {
                        assert(key(keys@, a@[i as int], axis as int) <= key(keys@, a@[x], axis as int));
                    }
                }
            }
            j = j + 1;
        }
    }
    assert(a@.subrange(0, i as int) =~= a@);
    assert(b@.subrange(0, j as int) =~= b@);
    r
}

/// Sorts `items` by their keys on `axis` with a merge sort.
fn sort_by_axis(items: Vec<usize>, keys: &Vec<[u32; 3]>, axis: usize) -> (r: Vec<usize>)
    requires
        axis < 3,
        in_range(items@, keys@),
    ensures
        r@.to_multiset() == items@.to_multiset(),
        r@.len() == items@.len(),
        in_range(r@, keys@),
        sorted_on(r@, keys@, axis as int),
    decreases items.len(),
{
    let n = items.len();
    if n <= 1 {
        return items;
    }
    let mut front = items;
    let ghost all = front@;
    let back = front.split_off(n / 2);
    assert(all =~= front@ + back@);
    proof {
        vstd::seq_lib::lemma_multiset_commutative(front@, back@);
        assert(in_range(front@, keys@)) by {
            assert forall|i: int| 0 <= i < front@.len() implies (#[trigger] front@[i] as int) < keys@.len() by {
                assert(front@[i] == all[i]);
            }
        }
        assert(in_range(back@, keys@)) by {
            assert forall|i: int| 0 <= i < back@.len() implies (#[trigger] back@[i] as int) < keys@.len() by {
                assert(back@[i] == all[n / 2 + i]);
            }
        }
    }
    let a = sort_by_axis(front, keys, axis);
    let b = sort_by_axis(back, keys, axis);
    merge(a, b, keys, axis)
}

/// Builds the subtree over `items` at `depth`: sorts them on axis
/// `depth % 3`, makes a leaf of one item, a double leaf of two, and otherwise
/// splits them at the middle and recurses one level deeper.
fn new_helper<B: Copy, U: Fn(&B, &B) -> B>(
    boxes: &Vec<B>,
    keys: &Vec<[u32; 3]>,
    union: &U,
    items: Vec<usize>,
    depth: usize,
) -> (r: BVHNode<B>)
    requires
        boxes.len() == keys.len(),
        forall|a: &B, b: &B| call_requires(*union, (a, b)),
        items.len() > 0,
        in_range(items@, keys@),
        depth + items.len() <= usize::MAX,
    ensures
        r.leaves().to_multiset() == items@.to_multiset(),
        r.leaves().len() == items@.len(),
        r.ordered(keys@, depth as nat),
        r.split_at_middle(),
        r.volumes_built(boxes@, *union),
    decreases items.len(),
{
    let mut items = sort_by_axis(items, keys, depth % 3);
    let ghost sorted = items@;
    let n = items.len();
    if n == 1 {
        let a = items[0];
        assert(items@ =~= seq![a]);
        BVHNode { next: BVHNodeVariant::Leaf(a), aabb: boxes[a] }
    } else if n == 2 {
        let a = items[0];
        let b = items[1];
        assert(items@ =~= seq![a, b]);
        let aabb = union(&boxes[a], &boxes[b]);
        BVHNode { next: BVHNodeVariant::DoubleLeaf(a, b), aabb }
    } else {
        let back = items.split_off(n / 2);
        assert(sorted =~= items@ + back@);
        proof {
            vstd::seq_lib::lemma_multiset_commutative(items@, back@);
        }
        let left = new_helper(boxes, keys, union, items, depth + 1);
        let right = new_helper(boxes, keys, union, back, depth + 1);
        proof {
            vstd::seq_lib::lemma_multiset_commutative(left.leaves(), right.leaves());
            vstd::seq_lib::to_multiset_len(left.leaves() + right.leaves());
            vstd::seq_lib::to_multiset_len(sorted);
            let axis = (depth % 3) as int;
            assert forall|x: usize, y: usize|
                left.leaves().contains(x) && right.leaves().contains(y) implies key(
                keys@,
                x,
                axis,
            ) <= key(keys@, y, axis) by {
                lemma_same_multiset_contains(left.leaves(), items@, x);
                lemma_same_multiset_contains(right.leaves(), back@, y);
                let i = choose|i: int| 0 <= i < items@.len() && items@[i] == x;
                let j = choose|j: int| 0 <= j < back@.len() && back@[j] == y;
                assert(sorted[i] == x);
                assert(sorted[n / 2 + j] == y);
            }
            assert(((depth + 1) as nat) == depth as nat + 1);
        }
        let (la, ra) = (left.aabb, right.aabb);
        let aabb = union(&la, &ra);
        BVHNode { next: BVHNodeVariant::Branch(Box::new(left), Box::new(right)), aabb }
    }
}

/// `h` is a hit that `item_hit` may report for an item at a leaf of `node`.
pub open spec fn reported_by_leaf<B, H, I: Fn(usize) -> Option<H>>(
    node: BVHNode<B>,
    item_hit: I,
    h: H,
) -> bool {
    exists|i: usize| node.leaves().contains(i) && call_ensures(item_hit, (i,), Some(h))
}

/// Item `i` may report a hit.
pub open spec fn can_hit<H, I: Fn(usize) -> Option<H>>(item_hit: I, i: usize) -> bool {
    exists|h: H| call_ensures(item_hit, (i,), Some(h))
}

/// Each item always gives the same answer.
pub open spec fn deterministic<H, I: Fn(usize) -> Option<H>>(item_hit: I) -> bool {
    forall|i: usize, a: Option<H>, b: Option<H>|
        call_ensures(item_hit, (i,), a) && call_ensures(item_hit, (i,), b) ==> a == b
}

/// `closer` puts hit `a` before hit `b`.
pub open spec fn before<H, C: Fn(&H, &H) -> bool>(closer: C, a: H, b: H) -> bool {
    call_ensures(closer, (&a, &b), true)
}

/// `closer` answers the same each time and is a strict weak order: no hit
/// lies before itself, and both "before" and "not before" are transitive.
pub open spec fn strict_weak_order<H, C: Fn(&H, &H) -> bool>(closer: C) -> bool {
    &&& forall|a: H, b: H|
        #[trigger] call_ensures(closer, (&a, &b), false) ==> !before(closer, a, b)
    &&& forall|a: H| !#[trigger] before(closer, a, a)
    &&& forall|a: H, b: H, c: H|
        #[trigger] before(closer, a, b) && #[trigger] before(closer, b, c) ==> before(
            closer,
            a,
            c,
        )
    &&& forall|a: H, b: H, c: H|
        !#[trigger] before(closer, a, b) && !#[trigger] before(closer, b, c) ==> !before(
            closer,
            a,
            c,
        )
}

/// No item of `items` may report a hit before `h`.
pub open spec fn closest_under<H, I: Fn(usize) -> Option<H>, C: Fn(&H, &H) -> bool>(
    items: Seq<usize>,
    item_hit: I,
    closer: C,
    h: H,
) -> bool {
    forall|i: usize, h2: H|
        items.contains(i) && #[trigger] call_ensures(item_hit, (i,), Some(h2)) ==> !before(
            closer,
            h2,
            h,
        )
}

/// What one side of a node's probe gives: a hit that an item of `items`
/// reported; under `complete`, nothing only when no item of `items` may be
/// hit; under `ordered`, a hit with nothing of `items` before it.
spec fn side_ok<H, I: Fn(usize) -> Option<H>, C: Fn(&H, &H) -> bool>(
    items: Seq<usize>,
    res: Option<H>,
    item_hit: I,
    closer: C,
    complete: bool,
    ordered: bool,
) -> bool {
    &&& res matches Some(h) ==> exists|i: usize|
        items.contains(i) && call_ensures(item_hit, (i,), Some(h))
    &&& res is None && complete ==> forall|i: usize|
        #[trigger] items.contains(i) ==> !can_hit(item_hit, i)
    &&& res is Some && ordered ==> closest_under(items, item_hit, closer, res->Some_0)
}

impl<B> BVHNode<B> {
    /// No volume test misses a node with an item below it that may be hit.
    pub open spec fn sound_volumes<H, V: Fn(&B) -> bool, I: Fn(usize) -> Option<H>>(
        self,
        volume_hit: V,
        item_hit: I,
    ) -> bool
        decreases self,
    {
        &&& (exists|i: usize| self.leaves().contains(i) && can_hit(item_hit, i)) ==> forall|out: bool|
            call_ensures(volume_hit, (&self.aabb,), out) ==> out
        &&& match self.next {
            BVHNodeVariant::Branch(l, r) => l.sound_volumes(volume_hit, item_hit)
                && r.sound_volumes(volume_hit, item_hit),
            _ => true,
        }
    }

    /// Probes the hierarchy with one ray. `volume_hit` tests a node's volume,
    /// `item_hit` an item, and `closer(a, b)` says whether hit `a` lies before
    /// hit `b`. A node whose volume is missed reports nothing; otherwise both
    /// children are probed independently and the closer of their hits is
    /// kept.
    ///
    /// Every hit reported is one that some item under the node reported.
    /// Where each item answers the same each time and no volume test misses
    /// a node with an item that may be hit, nothing is reported only when no
    /// item under the node may be hit; and where `closer` is moreover a strict
    /// weak order, no item under the node has a hit before the one reported.
    pub fn hit<H, V, I, C>(&self, volume_hit: &V, item_hit: &I, closer: &C) -> (r: Option<H>) where
        V: Fn(&B) -> bool,
        I: Fn(usize) -> Option<H>,
        C: Fn(&H, &H) -> bool,

        requires
            forall|b: &B| call_requires(*volume_hit, (b,)),
            forall|i: usize| call_requires(*item_hit, (i,)),
            forall|a: &H, b: &H| call_requires(*closer, (a, b)),
        ensures
            r matches Some(h) ==> reported_by_leaf(*self, *item_hit, h),
            r is None && deterministic(*item_hit) && self.sound_volumes(*volume_hit, *item_hit)
                ==> forall|i: usize| #[trigger] self.leaves().contains(i) ==> !can_hit(*item_hit, i),
            r is Some && deterministic(*item_hit) && strict_weak_order(*closer) && self.sound_volumes(
                *volume_hit,
                *item_hit,
            ) ==> closest_under(self.leaves(), *item_hit, *closer, r->Some_0),
        decreases self,
    {
        if !volume_hit(&self.aabb) {
            return None;
        }
        let ghost complete = deterministic(*item_hit) && self.sound_volumes(*volume_hit, *item_hit);
        let ghost ordered = complete && strict_weak_order(*closer);
        let ghost mut ls: Seq<usize> = Seq::empty();
        let ghost mut rs: Seq<usize> = Seq::empty();
        let (left, right) = match &self.next {
            BVHNodeVariant::Leaf(a) => {
                let r = item_hit(*a);
                assert(self.leaves() =~= seq![*a]);
                assert(self.leaves()[0] == *a);
                assert(self.leaves().contains(*a));
                proof {
                    if deterministic(*item_hit) {
                        assert forall|i: usize, h2: H|
                            self.leaves().contains(i) && #[trigger] call_ensures(
                                *item_hit,
                                (i,),
                                Some(h2),
                            ) implies r == Some(h2) by {
                            let k = choose|k: int| 0 <= k < self.leaves().len() && self.leaves()[k] == i;
                            assert(k == 0);
                        }
                        if r is None && can_hit(*item_hit, *a) {
                            let h = choose|h: H| call_ensures(*item_hit, (*a,), Some(h));
                        }
                    }
                }
                return r;
            },
            BVHNodeVariant::DoubleLeaf(a, b) => {
                let (l, r) = (item_hit(*a), item_hit(*b));
                proof {
                    ls = seq![*a];
                    rs = seq![*b];
                    assert(self.leaves() =~= ls + rs);
                    assert(ls[0] == *a && rs[0] == *b);
                    assert(ls.contains(*a) && rs.contains(*b));
                    if deterministic(*item_hit) {
                        if l is None && can_hit(*item_hit, *a) {
                            let h = choose|h: H| call_ensures(*item_hit, (*a,), Some(h));
                        }
                        if r is None && can_hit(*item_hit, *b) {
                            let h = choose|h: H| call_ensures(*item_hit, (*b,), Some(h));
                        }
                        assert forall|i: usize, h2: H|
                            ls.contains(i) && #[trigger] call_ensures(*item_hit, (i,), Some(h2))
                                implies l == Some(h2) by {
                            let k = choose|k: int| 0 <= k < ls.len() && ls[k] == i;
                            assert(k == 0);
                        }
                        assert forall|i: usize, h2: H|
                            rs.contains(i) && #[trigger] call_ensures(*item_hit, (i,), Some(h2))
                                implies r == Some(h2) by {
                            let k = choose|k: int| 0 <= k < rs.len() && rs[k] == i;
                            assert(k == 0);
                        }
                    }
                    assert(side_ok(ls, l, *item_hit, *closer, complete, ordered));
                    assert(side_ok(rs, r, *item_hit, *closer, complete, ordered));
                }
                (l, r)
            },
            BVHNodeVariant::Branch(a, b) => {
                let (l, r) = (a.hit(volume_hit, item_hit, closer), b.hit(volume_hit, item_hit, closer));
                proof {
                    ls = a.leaves();
                    rs = b.leaves();
                    assert(self.leaves() =~= ls + rs);
                    if complete {
                        assert(a.sound_volumes(*volume_hit, *item_hit));
                        assert(b.sound_volumes(*volume_hit, *item_hit));
                    }
                    assert(side_ok(ls, l, *item_hit, *closer, complete, ordered));
                    assert(side_ok(rs, r, *item_hit, *closer, complete, ordered));
                }
                (l, r)
            },
        };
        proof {
            assert(self.leaves() =~= ls + rs);
            assert forall|i: usize| ls.contains(i) implies self.leaves().contains(i) by {
                let k = choose|k: int| 0 <= k < ls.len() && ls[k] == i;
                assert(self.leaves()[k] == i);
            }
            assert forall|i: usize| rs.contains(i) implies self.leaves().contains(i) by {
                let k = choose|k: int| 0 <= k < rs.len() && rs[k] == i;
                assert(self.leaves()[ls.len() + k] == i);
            }
            assert forall|i: usize| self.leaves().contains(i) implies ls.contains(i) || rs.contains(
                i,
            ) by {
                let k = choose|k: int| 0 <= k < self.leaves().len() && self.leaves()[k] == i;
                if k < ls.len() {
                    assert(ls[k] == i);
                } else {
                    assert(rs[k - ls.len()] == i);
                }
            }
            assert(side_ok(ls, left, *item_hit, *closer, complete, ordered));
            assert(side_ok(rs, right, *item_hit, *closer, complete, ordered));
        }
        match (left, right) {
            (None, None) => {
                proof {
                    if complete {
                        assert forall|i: usize| #[trigger]
                            self.leaves().contains(i) implies !can_hit(*item_hit, i) by {
                            if !ls.contains(i) {
                                assert(rs.contains(i));
                            }
                        }
                    }
                }
                None
            },
            (Some(h), None) => Some(h),
            (None, Some(h)) => Some(h),
            (Some(l), Some(r)) => {
                let c = closer(&l, &r);
                proof {
                    if ordered {
                        assert forall|i: usize, h2: H|
                            self.leaves().contains(i) && #[trigger] call_ensures(
                                *item_hit,
                                (i,),
                                Some(h2),
                            ) implies !before(*closer, h2, if c {
                            l
                        } else {
                            r
                        }) by {
                            if ls.contains(i) {
                                assert(!before(*closer, h2, l));
                                if !c {
                                    assert(call_ensures(*closer, (&l, &r), false));
                                    assert(!before(*closer, l, r));
                                }
                            } else {
                                assert(rs.contains(i));
                                assert(!before(*closer, h2, r));
                                if c {
                                    assert(before(*closer, l, r));
                                    if before(*closer, h2, l) {
                                        assert(before(*closer, h2, r));
                                    }
                                }
                            }
                        }
                    }
                }
                if c {
                    Some(l)
                } else {
                    Some(r)
                }
            },
        }
    }
}

/// The volume test passes on `v`: every answer it may give is yes.
pub open spec fn volume_passes<B, V: Fn(&B) -> bool>(volume_hit: V, v: B) -> bool {
    forall|out: bool| call_ensures(volume_hit, (&v,), out) ==> out
}

/// A hierarchy whose volumes were built with `union` never has a volume test
/// miss a node with an item that may be hit, provided that the test passes on
/// the box of every item that may be hit (the item's hits lie in its box and
/// the test is conservative), and that it passes on a union whenever it
/// passes on either part (the union encloses both).
pub proof fn lemma_built_volumes_sound<B, H, U, V, I>(
    node: BVHNode<B>,
    boxes: Seq<B>,
    union: U,
    volume_hit: V,
    item_hit: I,
) where U: Fn(&B, &B) -> B, V: Fn(&B) -> bool, I: Fn(usize) -> Option<H>,

    requires
        node.volumes_built(boxes, union),
        forall|i: usize|
            #[trigger] node.leaves().contains(i) && can_hit(item_hit, i) ==> volume_passes(
                volume_hit,
                boxes[i as int],
            ),
        forall|a: B, b: B, u: B|
            #[trigger] call_ensures(union, (&a, &b), u) && (volume_passes(volume_hit, a)
                || volume_passes(volume_hit, b)) ==> volume_passes(volume_hit, u),
    ensures
        node.sound_volumes(volume_hit, item_hit),
    decreases node,
{
    let s = node.leaves();
    match node.next {
        BVHNodeVariant::Leaf(a) => {
            assert(s =~= seq![a]);
            if exists|i: usize| s.contains(i) && can_hit(item_hit, i) {
                let i = choose|i: usize| s.contains(i) && can_hit(item_hit, i);
                let k = choose|k: int| 0 <= k < s.len() && s[k] == i;
                assert(k == 0);
            }
        },
        BVHNodeVariant::DoubleLeaf(a, b) => {
            assert(s =~= seq![a, b]);
            if exists|i: usize| s.contains(i) && can_hit(item_hit, i) {
                let i = choose|i: usize| s.contains(i) && can_hit(item_hit, i);
                let k = choose|k: int| 0 <= k < s.len() && s[k] == i;
                assert(call_ensures(union, (&boxes[a as int], &boxes[b as int]), node.aabb));
            }
        },
        BVHNodeVariant::Branch(l, r) => {
            let (ls, rs) = (l.leaves(), r.leaves());
            assert(s =~= ls + rs);
            assert forall|i: usize| ls.contains(i) implies s.contains(i) by {
                let k = choose|k: int| 0 <= k < ls.len() && ls[k] == i;
                assert(s[k] == i);
            }
            assert forall|i: usize| rs.contains(i) implies s.contains(i) by {
                let k = choose|k: int| 0 <= k < rs.len() && rs[k] == i;
                assert(s[ls.len() + k] == i);
            }
            lemma_built_volumes_sound(*l, boxes, union, volume_hit, item_hit);
            lemma_built_volumes_sound(*r, boxes, union, volume_hit, item_hit);
            if exists|i: usize| s.contains(i) && can_hit(item_hit, i) {
                let i = choose|i: usize| s.contains(i) && can_hit(item_hit, i);
                let k = choose|k: int| 0 <= k < s.len() && s[k] == i;
                if k < ls.len() {
                    assert(ls[k] == i);
                    assert(ls.contains(i));
                } else {
                    assert(rs[k - ls.len()] == i);
                    assert(rs.contains(i));
                }
                assert(call_ensures(union, (&l.aabb, &r.aabb), node.aabb));
            }
        },
    }
}

/// The items `0..n`.
pub open spec fn all_items(n: nat) -> Seq<usize> {
    Seq::new(n, |i: int| i as usize)
}

impl<B: Copy> BVHNode<B> {
    /// Builds a hierarchy over the items `0..n` of an aggregate, given each
    /// item's bounding volume, the sort keys of its center on the three axes,
    /// and the union of two volumes. Every item stands at exactly one leaf,
    /// and each node's volume is the union of the volumes below it.
    pub fn new<U: Fn(&B, &B) -> B>(boxes: &Vec<B>, keys: &Vec<[u32; 3]>, union: &U) -> (r: BVHNode<B>)
        requires
            boxes.len() == keys.len(),
            keys.len() > 0,
            forall|a: &B, b: &B| call_requires(*union, (a, b)),
        ensures
            r.leaves().to_multiset() == all_items(keys.len() as nat).to_multiset(),
            r.ordered(keys@, 0),
            r.split_at_middle(),
            r.volumes_built(boxes@, *union),
    {
        let n = keys.len();
        let mut items: Vec<usize> = Vec::new();
        let mut i: usize = 0;
        while i < n
            invariant
                i <= n,
                n == keys.len(),
                items@ =~= all_items(i as nat),
            decreases n - i,
        {
            items.push(i);
            i = i + 1;
        }
        new_helper(boxes, keys, union, items, 0)
    }
}

/// A hierarchy built over the items `0..n` holds each of them at exactly one
/// leaf and nothing else: a traversal that descends into every node whose
/// volume the ray meets probes each item once, as a linear scan does.
pub proof fn lemma_each_item_at_one_leaf<B>(node: BVHNode<B>, n: nat)
    requires
        node.leaves().to_multiset() == all_items(n).to_multiset(),
        n <= usize::MAX,
    ensures
        node.leaves().len() == n,
        node.leaves().no_duplicates(),
        forall|x: usize| node.leaves().contains(x) <==> (x as int) < n,
{
    let l = node.leaves();
    let a = all_items(n);
    assert forall|i: int, j: int| 0 <= i < a.len() && 0 <= j < a.len() && i != j implies a[i]
        != a[j] by {
        assert(a[i] == i as usize && a[j] == j as usize);
    }
    a.lemma_multiset_has_no_duplicates();
    assert forall|x: usize| l.to_multiset().contains(x) implies l.to_multiset().count(x) == 1 by {
        assert(a.to_multiset().contains(x));
    }
    l.lemma_multiset_has_no_duplicates_conv();
    vstd::seq_lib::to_multiset_len(l);
    vstd::seq_lib::to_multiset_len(a);
    assert forall|x: usize| l.contains(x) <==> (x as int) < n by {
        lemma_same_multiset_contains(l, a, x);
        if (x as int) < n {
            assert(a[x as int] == x);
        }
    }
}

/// Probing a hierarchy built over the items `0..n` agrees with scanning all
/// of them: nothing is reported exactly when no item may be hit, and a hit
/// reported is one that some item reports, with no item's hit before it
/// (among equally close hits, which one is reported is open). This holds
/// where each item answers the same each time, `closer` is a strict weak
/// order, the volume test passes on the box of every item that may be hit,
/// and it passes on a union whenever it passes on either part. `r` is what
/// `hit` returned on the hierarchy, as its postcondition states it.
pub proof fn lemma_probe_agrees_with_scan<B, H, U, V, I, C>(
    node: BVHNode<B>,
    n: nat,
    boxes: Seq<B>,
    union: U,
    volume_hit: V,
    item_hit: I,
    closer: C,
    r: Option<H>,
) where
    U: Fn(&B, &B) -> B,
    V: Fn(&B) -> bool,
    I: Fn(usize) -> Option<H>,
    C: Fn(&H, &H) -> bool,

    requires
        node.leaves().to_multiset() == all_items(n).to_multiset(),
        n <= usize::MAX,
        node.volumes_built(boxes, union),
        deterministic(item_hit),
        strict_weak_order(closer),
        forall|i: usize|
            (i as int) < n && #[trigger] can_hit(item_hit, i) ==> volume_passes(
                volume_hit,
                boxes[i as int],
            ),
        forall|a: B, b: B, u: B|
            #[trigger] call_ensures(union, (&a, &b), u) && (volume_passes(volume_hit, a)
                || volume_passes(volume_hit, b)) ==> volume_passes(volume_hit, u),
        r matches Some(h) ==> reported_by_leaf(node, item_hit, h),
        r is None && deterministic(item_hit) && node.sound_volumes(volume_hit, item_hit) ==> forall|
            i: usize,
        | #[trigger] node.leaves().contains(i) ==> !can_hit(item_hit, i),
        r is Some && deterministic(item_hit) && strict_weak_order(closer) && node.sound_volumes(
            volume_hit,
            item_hit,
        ) ==> closest_under(node.leaves(), item_hit, closer, r->Some_0),
    ensures
        r is None <==> forall|i: usize| (i as int) < n ==> !#[trigger] can_hit(item_hit, i),
        r is Some ==> exists|i: usize|
            (i as int) < n && #[trigger] call_ensures(item_hit, (i,), Some(r->Some_0)),
        r is Some ==> forall|i: usize, h2: H|
            (i as int) < n && #[trigger] call_ensures(item_hit, (i,), Some(h2)) ==> !before(
                closer,
                h2,
                r->Some_0,
            ),
{
    lemma_each_item_at_one_leaf(node, n);
    assert forall|i: usize|
        #[trigger] node.leaves().contains(i) && can_hit(item_hit, i) implies volume_passes(
        volume_hit,
        boxes[i as int],
    ) by {
        assert((i as int) < n);
    }
    lemma_built_volumes_sound(node, boxes, union, volume_hit, item_hit);
    if r is Some {
        let h = r->Some_0;
        let i = choose|i: usize| node.leaves().contains(i) && call_ensures(item_hit, (i,), Some(h));
        assert((i as int) < n);
        assert(can_hit(item_hit, i));
        assert forall|j: usize, h2: H|
            (j as int) < n && #[trigger] call_ensures(item_hit, (j,), Some(h2)) implies !before(
            closer,
            h2,
            h,
        ) by {
            assert(node.leaves().contains(j));
        }
    } else {
        assert forall|i: usize| (i as int) < n implies !#[trigger] can_hit(item_hit, i) by {
            assert(node.leaves().contains(i));
        }
    }
}

} // verus!
