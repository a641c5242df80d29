//! A binary tree of boxes over a scene, for rays that miss most of it.

use crate::hittable::{
    bounded_by_its_box, later, lemma_scan_finds_nothing, nearest_hit, reach, Aabb,
    BoundingBoxError, Hittable, HittableList,
};
use crate::material::HitRecord;
use crate::scalar::ordered;
use crate::vector::Ray;
use vstd::arithmetic::power2::{lemma2_to64, lemma_pow2_unfold, pow2};
use vstd::prelude::*;

verus! {

/// A subtree: one object in its box, or two subtrees in the box around both.
pub enum BvhNode<'a, H: Hittable> {
    Leaf { object: &'a H, bounds: Aabb<H::Num> },
    Branch { left: Box<BvhNode<'a, H>>, right: Box<BvhNode<'a, H>>, bounds: Aabb<H::Num> },
}

impl<'a, H: Hittable> BvhNode<'a, H> {
    /// The box of the subtree.
    pub open spec fn spec_bounds(self) -> Aabb<H::Num> {
        match self {
            BvhNode::Leaf { bounds, .. } => bounds,
            BvhNode::Branch { bounds, .. } => bounds,
        }
    }

    pub fn bounds(&self) -> (r: Aabb<H::Num>)
        ensures
            r == self.spec_bounds(),
    {
        match self {
            BvhNode::Leaf { bounds, .. } => *bounds,
            BvhNode::Branch { bounds, .. } => *bounds,
        }
    }

    /// The objects under the subtree, from left to right.
    pub open spec fn objects(self) -> Seq<H>
        decreases self,
    {
        match self {
            BvhNode::Leaf { object, .. } => seq![*object],
            BvhNode::Branch { left, right, .. } => left.objects() + right.objects(),
        }
    }

    /// Every box is the one it should be: a leaf's is the box its object
    /// reports for the interval from `time0` to `time1`, a branch's is the
    /// box around the boxes of its two subtrees.
    pub open spec fn well_formed(self, time0: H::Num, time1: H::Num) -> bool
        decreases self,
    {
        match self {
            BvhNode::Leaf { object, bounds } => object.bounding_box_spec(time0, time1) == Some(
                bounds,
            ),
            BvhNode::Branch { left, right, bounds } => {
                &&& left.well_formed(time0, time1)
                &&& right.well_formed(time0, time1)
                &&& bounds == left.spec_bounds().spec_surrounding(right.spec_bounds())
            },
        }
    }

    /// What a search of the subtree finds: nothing where the ray misses the
    /// box; else the object's own answer at a leaf, and at a branch the
    /// answer of the right subtree, searched only below the hit of the left
    /// one, where it has one, else the answer of the left subtree.
    pub open spec fn hit_spec(self, ray: Ray<H::Num>, t_min: H::Num, t_max: H::Num) -> Option<
        HitRecord<'a, H::Mat>,
    >
        decreases self,
    {
        if !self.spec_bounds().hit_spec(ray, t_min, t_max) {
            None
        } else {
            match self {
                BvhNode::Leaf { object, .. } => object.hit_spec(ray, t_min, t_max),
                BvhNode::Branch { left, right, .. } => {
                    let first = left.hit_spec(ray, t_min, t_max);
                    later(first, right.hit_spec(ray, t_min, reach(first, t_max)))
                },
            }
        }
    }

    pub fn hit(&self, ray: &Ray<H::Num>, t_min: H::Num, t_max: H::Num) -> (r: Option<
        HitRecord<'a, H::Mat>,
    >)
        ensures
            r == self.hit_spec(*ray, t_min, t_max),
        decreases self,
    {
        match self {
            BvhNode::Leaf { object, bounds } => {
                if !bounds.hit(ray, t_min, t_max) {
                    return None;
                }
                object.hit(ray, t_min, t_max)
            },
            BvhNode::Branch { left, right, bounds } => {
                if !bounds.hit(ray, t_min, t_max) {
                    return None;
                }
                match left.hit(ray, t_min, t_max) {
                    None => right.hit(ray, t_min, t_max),
                    Some(first) => match right.hit(ray, t_min, first.t) {
                        None => Some(first),
                        Some(second) => Some(second),
                    },
                }
            },
        }
    }

    /// Boxes that bound: wherever `ray` misses the box of a subtree on an
    /// interval that starts at `t_min`, a scan of the objects under it finds
    /// nothing on that interval.
    pub open spec fn encloses(self, ray: Ray<H::Num>, t_min: H::Num) -> bool
        decreases self,
    {
        &&& forall|t_max: H::Num|
            !self.spec_bounds().hit_spec(ray, t_min, t_max) ==> (#[trigger] nearest_hit(
                self.objects(),
                ray,
                t_min,
                t_max,
            )) is None
        &&& match self {
            BvhNode::Leaf { .. } => true,
            BvhNode::Branch { left, right, .. } => left.encloses(ray, t_min) && right.encloses(
                ray,
                t_min,
            ),
        }
    }

    /// The tree over `objects`, which holds at least one: a leaf for a single
    /// object, else a branch over the first half and the rest. `None` where
    /// an object has no box.
    pub open spec fn spec_grow(objects: Seq<H>, time0: H::Num, time1: H::Num) -> Option<Self>
        recommends
            objects.len() >= 1,
        decreases objects.len(),
    {
        if objects.len() <= 1 {
            match objects[0].bounding_box_spec(time0, time1) {
                Some(bounds) => Some(BvhNode::Leaf { object: &objects[0], bounds }),
                None => None,
            }
        } else {
            let mid = objects.len() / 2;
            match Self::spec_grow(objects.take(mid as int), time0, time1) {
                None => None,
                Some(left) => match Self::spec_grow(objects.skip(mid as int), time0, time1) {
                    None => None,
                    Some(right) => Some(
                        BvhNode::Branch {
                            left: Box::new(left),
                            right: Box::new(right),
                            bounds: left.spec_bounds().spec_surrounding(right.spec_bounds()),
                        },
                    ),
                },
            }
        }
    }

    /// Builds the subtree over the objects from index `lo` up to, not
    /// including, index `hi`.
    pub fn grow(objects: &'a Vec<H>, lo: usize, hi: usize, time0: H::Num, time1: H::Num) -> (r:
        Result<Self, BoundingBoxError>)
        requires
            lo < hi <= objects.len(),
        ensures
            r.ok() == Self::spec_grow(objects@.subrange(lo as int, hi as int), time0, time1),
        decreases hi - lo,
    {
        let ghost part = objects@.subrange(lo as int, hi as int);
        if hi - lo == 1 {
            assert(part[0] == objects@[lo as int]);
            let bounds = objects[lo].bounding_box(time0, time1)?;
            Ok(BvhNode::Leaf { object: &objects[lo], bounds })
        } else {
            let mid = lo + (hi - lo) / 2;
            proof {
                assert(part.take((part.len() / 2) as int) =~= objects@.subrange(
                    lo as int,
                    mid as int,
                ));
                assert(part.skip((part.len() / 2) as int) =~= objects@.subrange(
                    mid as int,
                    hi as int,
                ));
            }
            let left = Self::grow(objects, lo, mid, time0, time1)?;
            let right = Self::grow(objects, mid, hi, time0, time1)?;
            let bounds = left.bounds().surrounding(&right.bounds());
            Ok(BvhNode::Branch { left: Box::new(left), right: Box::new(right), bounds })
        }
    }
}

/// Whether every object of `objects` has a box for the interval from `time0`
/// to `time1`.
pub open spec fn all_bounded<H: Hittable>(objects: Seq<H>, time0: H::Num, time1: H::Num) -> bool {
    forall|i: int|
        0 <= i < objects.len() ==> (#[trigger] objects[i]).bounding_box_spec(time0, time1) is Some
}

/// A scan of two lists, one after the other, is a scan of the first followed
/// by a scan of the second that looks only below what the first one found.
pub proof fn lemma_scan_in_two<H: Hittable>(
    front: Seq<H>,
    back: Seq<H>,
    ray: Ray<H::Num>,
    t_min: H::Num,
    t_max: H::Num,
)
    ensures
        nearest_hit::<H>(front + back, ray, t_min, t_max) == ({
            let first = nearest_hit::<H>(front, ray, t_min, t_max);
            later(first, nearest_hit::<H>(back, ray, t_min, reach(first, t_max)))
        }),
    decreases front.len(),
{
    if front.len() == 0 {
        assert(front + back =~= back);
    } else {
        let head = (front + back)[0].hit_spec(ray, t_min, t_max);
        assert((front + back)[0] == front[0]);
        assert((front + back).skip(1) =~= front.skip(1) + back);
        lemma_scan_in_two::<H>(front.skip(1), back, ray, t_min, reach(head, t_max));
    }
}

impl<'a, H: Hittable> BvhNode<'a, H> {
    /// A tree grows exactly where every object has a box; it then holds the
    /// objects in their order, and every box in it is the one it should be.
    pub proof fn lemma_grown(objects: Seq<H>, time0: H::Num, time1: H::Num)
        requires
            objects.len() >= 1,
        ensures
            Self::spec_grow(objects, time0, time1) is Some <==> all_bounded(objects, time0, time1),
            match Self::spec_grow(objects, time0, time1) {
                Some(tree) => tree.objects() == objects && tree.well_formed(time0, time1),
                None => true,
            },
        decreases objects.len(),
    {
        if objects.len() == 1 {
            match Self::spec_grow(objects, time0, time1) {
                Some(tree) => {
                    assert(tree.objects() =~= objects);
                },
                None => {},
            }
        } else {
            let mid = (objects.len() / 2) as int;
            let front = objects.take(mid);
            let back = objects.skip(mid);
            Self::lemma_grown(front, time0, time1);
            Self::lemma_grown(back, time0, time1);
            assert(front + back =~= objects);
            if all_bounded(objects, time0, time1) {
                assert forall|i: int| 0 <= i < front.len() implies (#[trigger] front[i]).bounding_box_spec(
                    time0,
                    time1,
                ) is Some by {
                    assert(front[i] == objects[i]);
                }
                assert forall|i: int| 0 <= i < back.len() implies (#[trigger] back[i]).bounding_box_spec(
                    time0,
                    time1,
                ) is Some by {
                    assert(back[i] == objects[i + mid]);
                }
            }
            if all_bounded(front, time0, time1) && all_bounded(back, time0, time1) {
                assert forall|i: int| 0 <= i < objects.len() implies (
                #[trigger] objects[i]).bounding_box_spec(time0, time1) is Some by {
                    if i < mid {
                        assert(objects[i] == front[i]);
                    } else {
                        assert(objects[i] == back[i - mid]);
                    }
                }
            }
        }
    }

    /// The number of branches on the longest way down from the root of the
    /// subtree to a leaf.
    pub open spec fn height(self) -> nat
        decreases self,
    {
        match self {
            BvhNode::Leaf { .. } => 0,
            BvhNode::Branch { left, right, .. } => {
                if left.height() < right.height() {
                    right.height() + 1
                } else {
                    left.height() + 1
                }
            },
        }
    }

    /// A grown tree is as shallow as a binary tree over its objects can be:
    /// over one object it is a leaf, and over `n` objects, two or more, a ray
    /// passes at most `h` branches on its way down, where `2^h <= 2n - 2`.
    pub proof fn lemma_grown_is_shallow(objects: Seq<H>, time0: H::Num, time1: H::Num)
        requires
            objects.len() >= 1,
        ensures
            match Self::spec_grow(objects, time0, time1) {
                Some(tree) => if objects.len() == 1 {
                    tree.height() == 0
                } else {
                    pow2(tree.height()) <= 2 * objects.len() - 2
                },
                None => true,
            },
        decreases objects.len(),
    {
        if objects.len() > 1 {
            let mid = (objects.len() / 2) as int;
            let front = objects.take(mid);
            let back = objects.skip(mid);
            Self::lemma_grown_is_shallow(front, time0, time1);
            Self::lemma_grown_is_shallow(back, time0, time1);
            match Self::spec_grow(objects, time0, time1) {
                Some(tree) => {
                    let left = Self::spec_grow(front, time0, time1).unwrap();
                    let right = Self::spec_grow(back, time0, time1).unwrap();
                    lemma2_to64();
                    lemma_pow2_unfold(left.height() + 1);
                    lemma_pow2_unfold(right.height() + 1);
                },
                None => {},
            }
        }
    }

    /// Among ordered numbers the box of a subtree holds the box of every
    /// object under it.
    pub proof fn lemma_box_holds_all(self, time0: H::Num, time1: H::Num, i: int)
        requires
            ordered::<H::Num>(),
            self.well_formed(time0, time1),
            0 <= i < self.objects().len(),
        ensures
            match self.objects()[i].bounding_box_spec(time0, time1) {
                Some(inner) => self.spec_bounds().holds(inner),
                None => false,
            },
        decreases self,
    {
        match self {
            BvhNode::Leaf { bounds, .. } => {},
            BvhNode::Branch { left, right, bounds } => {
                left.spec_bounds().lemma_surrounding_holds_both(right.spec_bounds());
                if i < left.objects().len() {
                    left.lemma_box_holds_all(time0, time1, i);
                    let inner = left.objects()[i].bounding_box_spec(time0, time1).unwrap();
                    bounds.lemma_holds_is_transitive(left.spec_bounds(), inner);
                } else {
                    let k = i - left.objects().len();
                    right.lemma_box_holds_all(time0, time1, k);
                    let inner = right.objects()[k].bounding_box_spec(time0, time1).unwrap();
                    bounds.lemma_holds_is_transitive(right.spec_bounds(), inner);
                }
            },
        }
    }

    /// The boxes of a well-formed subtree bound, provided that every object
    /// is bounded by the box it reports, that the numbers are ordered, and
    /// that the box test is monotone.
    pub proof fn lemma_boxes_enclose(self, time0: H::Num, time1: H::Num, ray: Ray<H::Num>, t_min: H::Num)
        requires
            self.well_formed(time0, time1),
            ordered::<H::Num>(),
            Aabb::test_is_monotone(ray, t_min),
            forall|i: int|
                0 <= i < self.objects().len() ==> bounded_by_its_box(
                    #[trigger] self.objects()[i],
                    time0,
                    time1,
                    ray,
                    t_min,
                ),
        ensures
            self.encloses(ray, t_min),
        decreases self,
    {
        let objects = self.objects();
        assert forall|t_max: H::Num| !self.spec_bounds().hit_spec(ray, t_min, t_max) implies (
        #[trigger] nearest_hit(objects, ray, t_min, t_max)) is None by {
            assert forall|i: int| 0 <= i < objects.len() implies (#[trigger] objects[i]).hit_spec(
                ray,
                t_min,
                t_max,
            ) is None by {
                self.lemma_box_holds_all(time0, time1, i);
                let inner = objects[i].bounding_box_spec(time0, time1).unwrap();
                assert(bounded_by_its_box(objects[i], time0, time1, ray, t_min));
                assert(self.spec_bounds().holds(inner));
                assert(!inner.hit_spec(ray, t_min, t_max));
            }
            lemma_scan_finds_nothing(objects, ray, t_min, t_max);
        }
        match self {
            BvhNode::Leaf { .. } => {},
            BvhNode::Branch { left, right, .. } => {
                assert forall|i: int| 0 <= i < left.objects().len() implies bounded_by_its_box(
                    #[trigger] left.objects()[i],
                    time0,
                    time1,
                    ray,
                    t_min,
                ) by {
                    assert(left.objects()[i] == objects[i]);
                }
                assert forall|i: int| 0 <= i < right.objects().len() implies bounded_by_its_box(
                    #[trigger] right.objects()[i],
                    time0,
                    time1,
                    ray,
                    t_min,
                ) by {
                    assert(right.objects()[i] == objects[i + left.objects().len()]);
                }
                left.lemma_boxes_enclose(time0, time1, ray, t_min);
                right.lemma_boxes_enclose(time0, time1, ray, t_min);
            },
        }
    }

    /// Searching the tree finds what scanning its objects finds, on every
    /// interval that starts at `t_min`, provided that the boxes bound.
    pub proof fn lemma_search_is_scan(self, ray: Ray<H::Num>, t_min: H::Num, t_max: H::Num)
        requires
            self.encloses(ray, t_min),
        ensures
            self.hit_spec(ray, t_min, t_max) == nearest_hit::<H>(
                self.objects(),
                ray,
                t_min,
                t_max,
            ),
        decreases self,
    {
        let scanned = nearest_hit::<H>(self.objects(), ray, t_min, t_max);
        if !self.spec_bounds().hit_spec(ray, t_min, t_max) {
            assert(scanned is None);
        } else {
            match self {
                BvhNode::Leaf { object, .. } => {
                    let own = object.hit_spec(ray, t_min, t_max);
                    let rest = self.objects().skip(1);
                    assert(rest.len() == 0);
                    assert(self.objects()[0] == *object);
                    assert(nearest_hit::<H>(rest, ray, t_min, reach(own, t_max)) is None);
                    assert(scanned == own);
                },
                BvhNode::Branch { left, right, .. } => {
                    left.lemma_search_is_scan(ray, t_min, t_max);
                    let first = left.hit_spec(ray, t_min, t_max);
                    right.lemma_search_is_scan(ray, t_min, reach(first, t_max));
                    lemma_scan_in_two::<H>(left.objects(), right.objects(), ray, t_min, t_max);
                    assert(self.objects() == left.objects() + right.objects());
                },
            }
        }
    }
}

/// A scene arranged as a tree of boxes. A ray that misses a box is not tested
/// against anything inside it.
pub struct Bvh<'a, H: Hittable> {
    pub root: Option<BvhNode<'a, H>>,
}

impl<'a, H: Hittable> Bvh<'a, H> {
    /// The objects of the scene, in the order of the list it was built over.
    pub open spec fn objects(self) -> Seq<H> {
        match self.root {
            Some(node) => node.objects(),
            None => Seq::empty(),
        }
    }

    /// Every box in the tree is the one it should be for the interval from
    /// `time0` to `time1`.
    pub open spec fn well_formed(self, time0: H::Num, time1: H::Num) -> bool {
        match self.root {
            Some(node) => node.well_formed(time0, time1),
            None => true,
        }
    }

    /// The boxes bound, as far as `ray` and intervals from `t_min` can tell.
    pub open spec fn encloses(self, ray: Ray<H::Num>, t_min: H::Num) -> bool {
        match self.root {
            Some(node) => node.encloses(ray, t_min),
            None => true,
        }
    }

    /// The tree over `objects`: empty for an empty scene, and an error where
    /// an object has no box.
    pub open spec fn spec_new(objects: Seq<H>, time0: H::Num, time1: H::Num) -> Result<
        Self,
        BoundingBoxError,
    > {
        if objects.len() == 0 {
            Ok(Bvh { root: None })
        } else {
            match BvhNode::spec_grow(objects, time0, time1) {
                Some(node) => Ok(Bvh { root: Some(node) }),
                None => Err(BoundingBoxError),
            }
        }
    }

    /// Arranges `world` as a tree of boxes that hold for every moment from
    /// `time0` to `time1`. Fails, and builds nothing, exactly where an object
    /// of `world` has no box.
    pub fn new(world: &'a HittableList<H>, time0: H::Num, time1: H::Num) -> (r: Result<
        Self,
        BoundingBoxError,
    >)
        ensures
            r == Self::spec_new(world@, time0, time1),
            r is Ok <==> all_bounded(world@, time0, time1),
            match r {
                Ok(tree) => tree.objects() == world@ && tree.well_formed(time0, time1),
                Err(_) => true,
            },
    {
        let n = world.objects.len();
        proof {
            Self::lemma_built(world@, time0, time1);
        }
        if n == 0 {
            return Ok(Bvh { root: None });
        }
        proof {
            assert(world@.subrange(0, n as int) =~= world@);
        }
        match BvhNode::grow(&world.objects, 0, n, time0, time1) {
            Ok(node) => Ok(Bvh { root: Some(node) }),
            Err(e) => Err(e),
        }
    }

    /// A tree can be built exactly where every object has a box; it then
    /// holds the objects in their order, and every box in it is the one it
    /// should be.
    pub proof fn lemma_built(objects: Seq<H>, time0: H::Num, time1: H::Num)
        ensures
            Self::spec_new(objects, time0, time1) is Ok <==> all_bounded(objects, time0, time1),
            match Self::spec_new(objects, time0, time1) {
                Ok(tree) => tree.objects() == objects && tree.well_formed(time0, time1),
                Err(_) => true,
            },
    {
        if objects.len() == 0 {
            assert(Bvh::<'a, H> { root: None }.objects() =~= objects);
        } else {
            BvhNode::<'a, H>::lemma_grown(objects, time0, time1);
        }
    }

    /// Among ordered numbers the box at the root of a built tree holds the
    /// box of every object of the scene, for the whole interval of time.
    pub proof fn lemma_root_holds_all(objects: Seq<H>, time0: H::Num, time1: H::Num, i: int)
        requires
            ordered::<H::Num>(),
            Self::spec_new(objects, time0, time1) is Ok,
            0 <= i < objects.len(),
        ensures
            match (
                Self::spec_new(objects, time0, time1).unwrap().root,
                objects[i].bounding_box_spec(time0, time1),
            ) {
                (Some(root), Some(inner)) => root.spec_bounds().holds(inner),
                _ => false,
            },
    {
        Self::lemma_built(objects, time0, time1);
        let tree = Self::spec_new(objects, time0, time1).unwrap();
        tree.root.unwrap().lemma_box_holds_all(time0, time1, i);
    }

    /// Searching the tree finds what scanning the scene finds, provided that
    /// the boxes bound.
    pub proof fn lemma_search_is_scan(self, ray: Ray<H::Num>, t_min: H::Num, t_max: H::Num)
        requires
            self.encloses(ray, t_min),
        ensures
            self.hit_spec(ray, t_min, t_max) == nearest_hit::<H>(
                self.objects(),
                ray,
                t_min,
                t_max,
            ),
    {
        match self.root {
            Some(node) => node.lemma_search_is_scan(ray, t_min, t_max),
            None => {},
        }
    }

    /// Over a scene in which every object has a box and is bounded by it,
    /// the tree answers a ray as the list does: the same hit or none, on
    /// every interval. This holds among ordered numbers with a monotone box
    /// test, as exact arithmetic has them; rounding can break it for a ray
    /// that grazes a box.
    pub proof fn lemma_tree_agrees_with_list(
        objects: Seq<H>,
        time0: H::Num,
        time1: H::Num,
        ray: Ray<H::Num>,
        t_min: H::Num,
        t_max: H::Num,
    )
        requires
            all_bounded(objects, time0, time1),
            forall|i: int|
                0 <= i < objects.len() ==> bounded_by_its_box(
                    #[trigger] objects[i],
                    time0,
                    time1,
                    ray,
                    t_min,
                ),
            ordered::<H::Num>(),
            Aabb::test_is_monotone(ray, t_min),
        ensures
            Self::spec_new(objects, time0, time1) is Ok,
            Self::spec_new(objects, time0, time1).unwrap().hit_spec(ray, t_min, t_max)
                == nearest_hit::<H>(objects, ray, t_min, t_max),
    {
        Self::lemma_built(objects, time0, time1);
        let tree = Self::spec_new(objects, time0, time1).unwrap();
        match tree.root {
            Some(node) => {
                node.lemma_boxes_enclose(time0, time1, ray, t_min);
            },
            None => {},
        }
        tree.lemma_search_is_scan(ray, t_min, t_max);
    }
}

impl<'a, H: Hittable> Hittable for Bvh<'a, H> {
    type Num = H::Num;

    type Mat = H::Mat;

    open spec fn hit_spec(&self, ray: Ray<H::Num>, t_min: H::Num, t_max: H::Num) -> Option<
        HitRecord<'_, H::Mat>,
    > {
        match self.root {
            Some(node) => node.hit_spec(ray, t_min, t_max),
            None => None,
        }
    }

    fn hit(&self, ray: &Ray<H::Num>, t_min: H::Num, t_max: H::Num) -> (r: Option<
        HitRecord<'_, H::Mat>,
    >) {
        match &self.root {
            Some(node) => node.hit(ray, t_min, t_max),
            None => None,
        }
    }

    /// The box at the root; an empty tree has none.
    open spec fn bounding_box_spec(&self, time0: H::Num, time1: H::Num) -> Option<Aabb<H::Num>> {
        match self.root {
            Some(node) => Some(node.spec_bounds()),
            None => None,
        }
    }

    fn bounding_box(&self, _time0: H::Num, _time1: H::Num) -> (r: Result<
        Aabb<H::Num>,
        BoundingBoxError,
    >) {
        match &self.root {
            Some(node) => Ok(node.bounds()),
            None => Err(BoundingBoxError),
        }
    }
}

/// The two ways to hold a scene while it is rendered: as the plain list, or
/// as the tree built over it.
pub enum HittableListOptions<'a, H: Hittable> {
    HittableList(&'a HittableList<H>),
    Bvh(&'a Bvh<'a, H>),
}

impl<'a, H: Hittable> HittableListOptions<'a, H> {
    /// The tree where one could be built, else the list.
    pub open spec fn spec_choose_from(
        bvh: Result<Bvh<'a, H>, BoundingBoxError>,
        list: HittableList<H>,
    ) -> Self {
        match bvh {
            Ok(tree) => HittableListOptions::Bvh(&tree),
            Err(_) => HittableListOptions::HittableList(&list),
        }
    }

    /// Chooses the tree where building it succeeded, and the list where it
    /// failed.
    pub fn choose_from(bvh: &'a Result<Bvh<'a, H>, BoundingBoxError>, list: &'a HittableList<H>) -> (r:
        Self)
        ensures
            r == Self::spec_choose_from(*bvh, *list),
    {
        match bvh {
            Ok(tree) => HittableListOptions::Bvh(tree),
            Err(_) => HittableListOptions::HittableList(list),
        }
    }
}

impl<'a, H: Hittable> Hittable for HittableListOptions<'a, H> {
    type Num = H::Num;

    type Mat = H::Mat;

    open spec fn hit_spec(&self, ray: Ray<H::Num>, t_min: H::Num, t_max: H::Num) -> Option<
        HitRecord<'_, H::Mat>,
    > {
        match self {
            HittableListOptions::HittableList(list) => list.hit_spec(ray, t_min, t_max),
            HittableListOptions::Bvh(tree) => tree.hit_spec(ray, t_min, t_max),
        }
    }

    fn hit(&self, ray: &Ray<H::Num>, t_min: H::Num, t_max: H::Num) -> (r: Option<
        HitRecord<'_, H::Mat>,
    >) {
        match self {
            HittableListOptions::HittableList(list) => list.hit(ray, t_min, t_max),
            HittableListOptions::Bvh(tree) => tree.hit(ray, t_min, t_max),
        }
    }

    open spec fn bounding_box_spec(&self, time0: H::Num, time1: H::Num) -> Option<Aabb<H::Num>> {
        match self {
            HittableListOptions::HittableList(list) => list.bounding_box_spec(time0, time1),
            HittableListOptions::Bvh(tree) => tree.bounding_box_spec(time0, time1),
        }
    }

    fn bounding_box(&self, time0: H::Num, time1: H::Num) -> (r: Result<
        Aabb<H::Num>,
        BoundingBoxError,
    >) {
        match self {
            HittableListOptions::HittableList(list) => list.bounding_box(time0, time1),
            HittableListOptions::Bvh(tree) => tree.bounding_box(time0, time1),
        }
    }
}

} // verus!
