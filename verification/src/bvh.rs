//! The bounding volume hierarchy: a binary tree of nested boxes.
//!
//! Construction recursively splits a span of objects on a randomly chosen
//! axis; traversal (in the geometry dispatcher) rejects a whole subtree
//! when the ray misses its cached box, and tests the right child against
//! an interval already shrunk to the left child's hit, so a farther hit
//! can never displace a nearer one.

use vstd::prelude::*;
use vstd::seq_lib::lemma_multiset_commutative;
use crate::aabb::AABB;
use crate::hittable::{box_spec, has_box, node_wf, wf, Hittable};
use crate::hittable_list::HittableList;
use crate::rtweekend::random_int;

verus! {

pub struct BvhNode {
    pub left: Box<Hittable>,
    pub right: Box<Hittable>,
    pub bbox: AABB,
    pub time0: i64,
    pub time1: i64,
}

/// What one child of a tree node contributes to the tree's leaves: a
/// nested node is flattened, the empty group a lone span leaves behind
/// contributes nothing, and anything else is a leaf of its own.
pub open spec fn child_leaves(obj: Hittable) -> Seq<Hittable>
    decreases obj, 1int,
{
    match obj {
        Hittable::Node(n) => node_leaves(*n),
        Hittable::List(l) => if l.objects@.len() == 0 {
            Seq::<Hittable>::empty()
        } else {
            seq![obj]
        },
        _ => seq![obj],
    }
}

/// Every object reachable as a leaf of the tree, left to right.
pub open spec fn node_leaves(n: BvhNode) -> Seq<Hittable>
    decreases n, 0int,
{
    child_leaves(*n.left) + child_leaves(*n.right)
}

/// The leaves a whole input sequence stands for.
pub open spec fn leaves_of_seq(objs: Seq<Hittable>) -> Seq<Hittable>
    decreases objs, 0int,
{
    if objs.len() == 0 {
        Seq::<Hittable>::empty()
    } else {
        leaves_of_seq(objs.drop_last()) + child_leaves(objs.last())
    }
}

/// Leaves distribute over concatenation.
pub proof fn lemma_leaves_concat(a: Seq<Hittable>, b: Seq<Hittable>)
    ensures
        leaves_of_seq(a + b) == leaves_of_seq(a) + leaves_of_seq(b),
    decreases b.len(),
{
    if b.len() == 0 {
        assert(a + b =~= a);
        assert(leaves_of_seq(a) + leaves_of_seq(b) =~= leaves_of_seq(a));
    } else {
        lemma_leaves_concat(a, b.drop_last());
        assert((a + b).drop_last() =~= a + b.drop_last());
        assert((a + b).last() == b.last());
        assert(leaves_of_seq(a) + leaves_of_seq(b.drop_last()) + child_leaves(b.last())
            =~= leaves_of_seq(a) + (leaves_of_seq(b.drop_last()) + child_leaves(b.last())));
    }
}

/// Swapping two entries leaves the multiset of leaves unchanged.
pub proof fn lemma_leaves_swap(s: Seq<Hittable>, i: int, j: int)
    requires
        0 <= i < j < s.len(),
    ensures
        leaves_of_seq(s.update(i, s[j]).update(j, s[i])).to_multiset() == leaves_of_seq(
            s,
        ).to_multiset(),
{
    broadcast use vstd::multiset::group_multiset_axioms;

    let sp = s.update(i, s[j]).update(j, s[i]);
    let pa = s.subrange(0, i);
    let pb = s.subrange(i + 1, j);
    let pc = s.subrange(j + 1, s.len() as int);
    let si = seq![s[i]];
    let sj = seq![s[j]];
    assert(s =~= pa + si + pb + sj + pc);
    assert(sp =~= pa + sj + pb + si + pc);
    lemma_leaves_multiset_five(pa, si, pb, sj, pc);
    lemma_leaves_multiset_five(pa, sj, pb, si, pc);
    assert(leaves_of_seq(pa).to_multiset().add(leaves_of_seq(si).to_multiset()).add(
        leaves_of_seq(pb).to_multiset(),
    ).add(leaves_of_seq(sj).to_multiset()).add(leaves_of_seq(pc).to_multiset())
        =~= leaves_of_seq(pa).to_multiset().add(leaves_of_seq(sj).to_multiset()).add(
        leaves_of_seq(pb).to_multiset(),
    ).add(leaves_of_seq(si).to_multiset()).add(leaves_of_seq(pc).to_multiset()));
}

/// The leaves of a five-way concatenation, as a sum of multisets.
proof fn lemma_leaves_multiset_five(
    a: Seq<Hittable>,
    b: Seq<Hittable>,
    c: Seq<Hittable>,
    d: Seq<Hittable>,
    e: Seq<Hittable>,
)
    ensures
        leaves_of_seq(a + b + c + d + e).to_multiset() == leaves_of_seq(a).to_multiset().add(
            leaves_of_seq(b).to_multiset(),
        ).add(leaves_of_seq(c).to_multiset()).add(leaves_of_seq(d).to_multiset()).add(
            leaves_of_seq(e).to_multiset(),
        ),
{
    broadcast use vstd::multiset::group_multiset_axioms;

    lemma_leaves_concat(a + b + c + d, e);
    lemma_leaves_concat(a + b + c, d);
    lemma_leaves_concat(a + b, c);
    lemma_leaves_concat(a, b);
    lemma_multiset_commutative(
        leaves_of_seq(a + b + c + d),
        leaves_of_seq(e),
    );
    lemma_multiset_commutative(
        leaves_of_seq(a + b + c),
        leaves_of_seq(d),
    );
    lemma_multiset_commutative(leaves_of_seq(a + b), leaves_of_seq(c));
    lemma_multiset_commutative(leaves_of_seq(a), leaves_of_seq(b));
}

impl BvhNode {
    /// Build a tree over the given objects, consuming them. Every object
    /// must be well formed and boxable; a span of one becomes a node
    /// whose right child is an empty group.
    #[verifier::rlimit(100)]
    pub fn new(objects: Vec<Hittable>, time0: i64, time1: i64) -> (n: BvhNode)
        requires
            1 <= objects@.len() <= 0x10000,
            forall|i: int|
                0 <= i < objects@.len() ==> wf(#[trigger] objects@[i]) && has_box(objects@[i]),
            -0x100_0000 <= time0 <= time1 <= 0x100_0000,
        ensures
            node_wf(n),
            wf(*n.left),
            wf(*n.right),
            n.time0 == time0,
            n.time1 == time1,
            node_leaves(n).to_multiset() == leaves_of_seq(objects@).to_multiset(),
        decreases objects@.len(),
    {
        let ghost input = objects@;
        let mut objects = objects;
        let axis = random_int(0, 3);
        let object_span = objects.len();
        if object_span == 1 {
            let left = match objects.pop() {
                Option::Some(o) => o,
                Option::None => {
                    proof {
                        assert(false);
                    }
                    Hittable::List(HittableList::new_default())
                },
            };
            let mut box_left = AABB::default_new();
            let ok = left.bounding_box(time0, time1, &mut box_left);
            proof {
                assert(ok);
            }
            let right = Hittable::List(HittableList::new_default());
            proof {
                let e = Seq::<Hittable>::empty();
                assert(crate::hittable::wf_seq(e));
                assert(crate::hittable::room_seq(e) == 0x4000_0000);
                assert(crate::hittable::droom_seq(e) == 0x100_0000);
                assert(crate::hittable::pcap_seq(e) == 0x80_0000_0000_0000);
                assert(crate::hittable::ncap_seq(e) == 0x1_0000);
                assert(crate::hittable::bcap_seq(e) == 0x200_0000);
                assert(wf(right));
                assert(child_leaves(right) =~= Seq::<Hittable>::empty());
                assert(input.drop_last() =~= Seq::<Hittable>::empty());
                assert(leaves_of_seq(Seq::<Hittable>::empty()) =~= Seq::<Hittable>::empty());
                assert(leaves_of_seq(input) == leaves_of_seq(input.drop_last()) + child_leaves(
                    input.last(),
                ));
                assert(left == input.last());
                assert(Seq::<Hittable>::empty() + child_leaves(left) =~= child_leaves(left));
                assert(leaves_of_seq(input) =~= child_leaves(left));
                assert(child_leaves(left) + Seq::<Hittable>::empty() =~= child_leaves(left));
            }
            let out = BvhNode {
                left: Box::new(left),
                right: Box::new(right),
                bbox: box_left,
                time0,
                time1,
            };
            proof {
                assert(node_leaves(out) =~= leaves_of_seq(input));
            }
            out
        } else if object_span == 2 {
            let second = match objects.pop() {
                Option::Some(o) => o,
                Option::None => {
                    proof {
                        assert(false);
                    }
                    Hittable::List(HittableList::new_default())
                },
            };
            let first = match objects.pop() {
                Option::Some(o) => o,
                Option::None => {
                    proof {
                        assert(false);
                    }
                    Hittable::List(HittableList::new_default())
                },
            };
            let first_is_left = BvhNode::box_compare(&first, &second, axis);
            let (left, right) = if first_is_left {
                (first, second)
            } else {
                (second, first)
            };
            let mut box_left = AABB::default_new();
            let mut box_right = AABB::default_new();
            let okl = left.bounding_box(time0, time1, &mut box_left);
            let okr = right.bounding_box(time0, time1, &mut box_right);
            proof {
                assert(okl && okr);
            }
            let out = BvhNode {
                left: Box::new(left),
                right: Box::new(right),
                bbox: AABB::surrounding_box(box_left, box_right),
                time0,
                time1,
            };
            proof {
                broadcast use vstd::multiset::group_multiset_axioms;

                assert(input.drop_last().drop_last() =~= Seq::<Hittable>::empty());
                assert(leaves_of_seq(Seq::<Hittable>::empty()) =~= Seq::<Hittable>::empty());
                assert(second == input.last());
                assert(first == input.drop_last().last());
                assert(leaves_of_seq(input) == leaves_of_seq(input.drop_last()) + child_leaves(
                    input.last(),
                ));
                assert(leaves_of_seq(input.drop_last()) == leaves_of_seq(
                    input.drop_last().drop_last(),
                ) + child_leaves(input.drop_last().last()));
                assert(Seq::<Hittable>::empty() + child_leaves(first) =~= child_leaves(first));
                assert(leaves_of_seq(input) =~= child_leaves(first) + child_leaves(second));
                lemma_multiset_commutative(child_leaves(first), child_leaves(second));
                lemma_multiset_commutative(child_leaves(second), child_leaves(first));
                assert(node_leaves(out).to_multiset() == leaves_of_seq(input).to_multiset());
            }
            out
        } else {
            BvhNode::sort_by_axis(&mut objects, axis);
            let ghost after_sort = objects@;
            let mid = object_span / 2;
            let rest = objects.split_off(mid);
            proof {
                assert(objects@ + rest@ =~= after_sort);
            }
            proof {
                assert(forall|i: int|
                    0 <= i < objects@.len() ==> wf(#[trigger] objects@[i]) && has_box(
                        objects@[i],
                    ));
                assert(forall|i: int|
                    0 <= i < rest@.len() ==> wf(#[trigger] rest@[i]) && has_box(rest@[i]));
            }
            let ghost sorted = objects@ + rest@;
            proof {
                lemma_leaves_concat(objects@, rest@);
                lemma_multiset_commutative(leaves_of_seq(objects@), leaves_of_seq(rest@));
                assert(leaves_of_seq(sorted).to_multiset() == leaves_of_seq(input).to_multiset());
            }
            let ghost first_half = objects@;
            let ghost second_half = rest@;
            let left_node = BvhNode::new(objects, time0, time1);
            let right_node = BvhNode::new(rest, time0, time1);
            let bl = left_node.bbox;
            let br = right_node.bbox;
            let left = Hittable::Node(Box::new(left_node));
            let right = Hittable::Node(Box::new(right_node));
            let out = BvhNode {
                left: Box::new(left),
                right: Box::new(right),
                bbox: AABB::surrounding_box(bl, br),
                time0,
                time1,
            };
            proof {
                broadcast use vstd::multiset::group_multiset_axioms;

                assert(child_leaves(left) == node_leaves(left_node));
                assert(child_leaves(right) == node_leaves(right_node));
                lemma_multiset_commutative(child_leaves(left), child_leaves(right));
                assert(node_leaves(out).to_multiset() == leaves_of_seq(first_half).to_multiset()
                    .add(leaves_of_seq(second_half).to_multiset()));
                assert(node_leaves(out).to_multiset() == leaves_of_seq(input).to_multiset());
            }
            out
        }
    }

    /// Build a tree from a whole group, consuming it.
    pub fn new_(list: HittableList, time0: i64, time1: i64) -> (n: BvhNode)
        requires
            1 <= list.objects@.len() <= 0x10000,
            forall|i: int|
                0 <= i < list.objects@.len() ==> wf(#[trigger] list.objects@[i]) && has_box(
                    list.objects@[i],
                ),
            -0x100_0000 <= time0 <= time1 <= 0x100_0000,
        ensures
            node_wf(n),
            wf(*n.left),
            wf(*n.right),
            node_leaves(n).to_multiset() == leaves_of_seq(list.objects@).to_multiset(),
    {
        BvhNode::new(list.objects, time0, time1)
    }

    /// Order two objects by the chosen axis of their bounding boxes'
    /// minimum corners (taken over a degenerate time window, as the
    /// comparator used during construction).
    pub fn box_compare(a: &Hittable, b: &Hittable, axis: i32) -> (r: bool)
        requires
            wf(*a),
            wf(*b),
            has_box(*a),
            has_box(*b),
            0 <= axis <= 2,
        ensures
            axis == 0 ==> r == (box_spec(*a, 0, 0).minimum.x < box_spec(*b, 0, 0).minimum.x),
            axis == 1 ==> r == (box_spec(*a, 0, 0).minimum.y < box_spec(*b, 0, 0).minimum.y),
            axis == 2 ==> r == (box_spec(*a, 0, 0).minimum.z < box_spec(*b, 0, 0).minimum.z),
    {
        let mut boxa = AABB::default_new();
        let mut boxb = AABB::default_new();
        let oka = a.bounding_box(0, 0, &mut boxa);
        let okb = b.bounding_box(0, 0, &mut boxb);
        proof {
            assert(oka && okb);
        }
        if axis == 0 {
            boxa.min().x < boxb.min().x
        } else if axis == 1 {
            boxa.min().y < boxb.min().y
        } else {
            boxa.min().z < boxb.min().z
        }
    }

    pub fn box_x_compare(a: &Hittable, b: &Hittable) -> (r: bool)
        requires
            wf(*a),
            wf(*b),
            has_box(*a),
            has_box(*b),
        ensures
            r == (box_spec(*a, 0, 0).minimum.x < box_spec(*b, 0, 0).minimum.x),
    {
        BvhNode::box_compare(a, b, 0)
    }

    pub fn box_y_compare(a: &Hittable, b: &Hittable) -> (r: bool)
        requires
            wf(*a),
            wf(*b),
            has_box(*a),
            has_box(*b),
        ensures
            r == (box_spec(*a, 0, 0).minimum.y < box_spec(*b, 0, 0).minimum.y),
    {
        BvhNode::box_compare(a, b, 1)
    }

    pub fn box_z_compare(a: &Hittable, b: &Hittable) -> (r: bool)
        requires
            wf(*a),
            wf(*b),
            has_box(*a),
            has_box(*b),
        ensures
            r == (box_spec(*a, 0, 0).minimum.z < box_spec(*b, 0, 0).minimum.z),
    {
        BvhNode::box_compare(a, b, 2)
    }

    /// Selection sort on the comparator; the contents stay the same
    /// well-formed, boxable objects, only reordered.
    fn sort_by_axis(objects: &mut Vec<Hittable>, axis: i32)
        requires
            0 <= axis <= 2,
            old(objects)@.len() <= 0x10000,
            forall|i: int|
                0 <= i < old(objects)@.len() ==> wf(#[trigger] old(objects)@[i]) && has_box(
                    old(objects)@[i],
                ),
        ensures
            final(objects)@.len() == old(objects)@.len(),
            forall|i: int|
                0 <= i < final(objects)@.len() ==> wf(#[trigger] final(objects)@[i]) && has_box(
                    final(objects)@[i],
                ),
            leaves_of_seq(final(objects)@).to_multiset() == leaves_of_seq(
                old(objects)@,
            ).to_multiset(),
    {
        let n = objects.len();
        let mut i: usize = 0;
        while i < n
            invariant
                0 <= axis <= 2,
                n == objects@.len(),
                n <= 0x10000,
                0 <= i <= n,
                forall|k: int|
                    0 <= k < objects@.len() ==> wf(#[trigger] objects@[k]) && has_box(objects@[k]),
                leaves_of_seq(objects@).to_multiset() == leaves_of_seq(
                    old(objects)@,
                ).to_multiset(),
            decreases n - i,
        {
            let mut best: usize = i;
            let mut j: usize = i + 1;
            while j < n
                invariant
                    0 <= axis <= 2,
                    n == objects@.len(),
                    i < n,
                    i <= best < n,
                    i < j <= n,
                    forall|k: int|
                        0 <= k < objects@.len() ==> wf(#[trigger] objects@[k]) && has_box(
                            objects@[k],
                        ),
                decreases n - j,
            {
                if BvhNode::box_compare(&objects[j], &objects[best], axis) {
                    best = j;
                }
                j = j + 1;
            }
            if best != i {
                BvhNode::swap_objects(objects, i, best);
            }
            i = i + 1;
        }
    }

    /// Swap two entries by removing and reinserting them.
    fn swap_objects(objects: &mut Vec<Hittable>, i: usize, j: usize)
        requires
            i < j,
            j < old(objects)@.len(),
            forall|k: int|
                0 <= k < old(objects)@.len() ==> wf(#[trigger] old(objects)@[k]) && has_box(
                    old(objects)@[k],
                ),
        ensures
            final(objects)@.len() == old(objects)@.len(),
            forall|k: int|
                0 <= k < final(objects)@.len() ==> wf(#[trigger] final(objects)@[k]) && has_box(
                    final(objects)@[k],
                ),
            final(objects)@ == old(objects)@.update(i as int, old(objects)@[j as int]).update(
                j as int,
                old(objects)@[i as int],
            ),
            leaves_of_seq(final(objects)@).to_multiset() == leaves_of_seq(
                old(objects)@,
            ).to_multiset(),
    {
        let ghost orig = objects@;
        let b = objects.remove(j);
        let a = objects.remove(i);
        objects.insert(i, b);
        objects.insert(j, a);
        proof {
            assert(objects@ =~= orig.update(i as int, orig[j as int]).update(
                j as int,
                orig[i as int],
            ));
            lemma_leaves_swap(orig, i as int, j as int);
        }
    }
}

} // verus!
