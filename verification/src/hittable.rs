//! Things a ray can hit, and a scene as a list of them.

use crate::material::{HitRecord, Material};
use crate::scalar::{
    lemma_less_is_irreflexive, lemma_less_is_transitive, one, ordered, zero, Scalar,
};
use crate::vector::{Point, Ray};
use vstd::prelude::*;

verus! {

/// An object has no finite box around it.
#[derive(Clone, Copy, Debug, PartialEq, Eq)]
pub struct BoundingBoxError;

/// An axis-aligned box, given by its two extreme corners.
#[derive(Clone, Copy, Debug, PartialEq)]
pub struct Aabb<S> {
    pub min: Point<S>,
    pub max: Point<S>,
}

/// The smaller of two numbers; `a` where neither is below the other.
pub open spec fn spec_lower<S: Scalar>(a: S, b: S) -> S {
    if b.spec_less(a) {
        b
    } else {
        a
    }
}

pub fn lower<S: Scalar>(a: S, b: S) -> (r: S)
    ensures
        r == spec_lower(a, b),
{
    if b.less(a) {
        b
    } else {
        a
    }
}

/// The larger of two numbers; `a` where neither is below the other.
pub open spec fn spec_upper<S: Scalar>(a: S, b: S) -> S {
    if a.spec_less(b) {
        b
    } else {
        a
    }
}

pub fn upper<S: Scalar>(a: S, b: S) -> (r: S)
    ensures
        r == spec_upper(a, b),
{
    if a.less(b) {
        b
    } else {
        a
    }
}

impl<S: Scalar> Aabb<S> {
    pub fn new(min: Point<S>, max: Point<S>) -> (r: Self)
        ensures
            r == (Aabb { min, max }),
    {
        Aabb { min, max }
    }

    /// The part of the interval (`t_min`, `t_max`) during which `ray` is
    /// between the box's two faces across `axis`, or `None` where it is empty.
    pub open spec fn spec_clip(self, ray: Ray<S>, axis: u8, t_min: S, t_max: S) -> Option<(S, S)> {
        let inv = one::<S>().spec_over(ray.direction.spec_axis(axis));
        let t0 = self.min.spec_axis(axis).spec_minus(ray.origin.spec_axis(axis)).spec_times(inv);
        let t1 = self.max.spec_axis(axis).spec_minus(ray.origin.spec_axis(axis)).spec_times(inv);
        let near = if inv.spec_less(zero()) {
            t1
        } else {
            t0
        };
        let far = if inv.spec_less(zero()) {
            t0
        } else {
            t1
        };
        let lo = spec_upper(t_min, near);
        let hi = spec_lower(t_max, far);
        if lo.spec_less(hi) {
            Some((lo, hi))
        } else {
            None
        }
    }

    pub fn clip(&self, ray: &Ray<S>, axis: u8, t_min: S, t_max: S) -> (r: Option<(S, S)>)
        ensures
            r == self.spec_clip(*ray, axis, t_min, t_max),
    {
        let inv = S::from_u16(1).over(ray.direction.axis(axis));
        let t0 = self.min.axis(axis).minus(ray.origin.axis(axis)).times(inv);
        let t1 = self.max.axis(axis).minus(ray.origin.axis(axis)).times(inv);
        let backwards = inv.less(S::from_u16(0));
        let near = if backwards {
            t1
        } else {
            t0
        };
        let far = if backwards {
            t0
        } else {
            t1
        };
        let lo = upper(t_min, near);
        let hi = lower(t_max, far);
        if lo.less(hi) {
            Some((lo, hi))
        } else {
            None
        }
    }

    /// Whether `ray` is inside the box at some distance in (`t_min`, `t_max`):
    /// the interval survives being clipped by the three pairs of faces in turn.
    pub open spec fn hit_spec(self, ray: Ray<S>, t_min: S, t_max: S) -> bool {
        match self.spec_clip(ray, 0, t_min, t_max) {
            None => false,
            Some((a0, b0)) => match self.spec_clip(ray, 1, a0, b0) {
                None => false,
                Some((a1, b1)) => self.spec_clip(ray, 2, a1, b1) is Some,
            },
        }
    }

    pub fn hit(&self, ray: &Ray<S>, t_min: S, t_max: S) -> (r: bool)
        ensures
            r == self.hit_spec(*ray, t_min, t_max),
    {
        match self.clip(ray, 0, t_min, t_max) {
            None => false,
            Some((a0, b0)) => match self.clip(ray, 1, a0, b0) {
                None => false,
                Some((a1, b1)) => self.clip(ray, 2, a1, b1).is_some(),
            },
        }
    }

    /// `inner` sticks out of the box on no axis.
    pub open spec fn holds(self, inner: Self) -> bool {
        &&& !inner.min.x.spec_less(self.min.x)
        &&& !inner.min.y.spec_less(self.min.y)
        &&& !inner.min.z.spec_less(self.min.z)
        &&& !self.max.x.spec_less(inner.max.x)
        &&& !self.max.y.spec_less(inner.max.y)
        &&& !self.max.z.spec_less(inner.max.z)
    }

    /// Among ordered numbers the box around two boxes holds both.
    pub proof fn lemma_surrounding_holds_both(self, other: Self)
        requires
            ordered::<S>(),
        ensures
            self.spec_surrounding(other).holds(self),
            self.spec_surrounding(other).holds(other),
    {
    }

    /// Among ordered numbers a box holds what a box inside it holds.
    pub proof fn lemma_holds_is_transitive(self, middle: Self, inner: Self)
        requires
            ordered::<S>(),
            self.holds(middle),
            middle.holds(inner),
        ensures
            self.holds(inner),
    {
    }

    /// The test of `ray` against a box never fails where it succeeds against
    /// a box inside it, on intervals that start at `t_min`. This is so in
    /// exact arithmetic; rounding can break it.
    pub open spec fn test_is_monotone(ray: Ray<S>, t_min: S) -> bool {
        forall|outer: Self, inner: Self, t_max: S|
            #![trigger outer.holds(inner), inner.hit_spec(ray, t_min, t_max)]
            outer.holds(inner) && inner.hit_spec(ray, t_min, t_max) ==> outer.hit_spec(
                ray,
                t_min,
                t_max,
            )
    }

    /// The smallest box around two boxes.
    pub open spec fn spec_surrounding(self, other: Self) -> Self {
        Aabb {
            min: Point {
                x: spec_lower(self.min.x, other.min.x),
                y: spec_lower(self.min.y, other.min.y),
                z: spec_lower(self.min.z, other.min.z),
            },
            max: Point {
                x: spec_upper(self.max.x, other.max.x),
                y: spec_upper(self.max.y, other.max.y),
                z: spec_upper(self.max.z, other.max.z),
            },
        }
    }

    pub fn surrounding(&self, other: &Self) -> (r: Self)
        ensures
            r == self.spec_surrounding(*other),
    {
        Aabb {
            min: Point {
                x: lower(self.min.x, other.min.x),
                y: lower(self.min.y, other.min.y),
                z: lower(self.min.z, other.min.z),
            },
            max: Point {
                x: upper(self.max.x, other.max.x),
                y: upper(self.max.y, other.max.y),
                z: upper(self.max.z, other.max.z),
            },
        }
    }
}

/// Anything a ray can be tested against. Both questions have one answer for
/// given arguments, named by `hit_spec` and `bounding_box_spec`.
pub trait Hittable {
    type Num: Scalar;

    type Mat: Material<Num = Self::Num>;

    spec fn hit_spec(&self, ray: Ray<Self::Num>, t_min: Self::Num, t_max: Self::Num) -> Option<
        HitRecord<'_, Self::Mat>,
    >;

    /// Where `ray` meets the object at a distance in (`t_min`, `t_max`), if it
    /// does.
    fn hit(&self, ray: &Ray<Self::Num>, t_min: Self::Num, t_max: Self::Num) -> (r: Option<
        HitRecord<'_, Self::Mat>,
    >)
        ensures
            r == self.hit_spec(*ray, t_min, t_max),
    ;

    spec fn bounding_box_spec(&self, time0: Self::Num, time1: Self::Num) -> Option<Aabb<Self::Num>>;

    /// A box that holds the object at every moment from `time0` to `time1`,
    /// or the error where it has none.
    fn bounding_box(&self, time0: Self::Num, time1: Self::Num) -> (r: Result<
        Aabb<Self::Num>,
        BoundingBoxError,
    >)
        ensures
            r.ok() == self.bounding_box_spec(time0, time1),
    ;
}

/// The later of two answers: `second` where it is a hit, else `first`.
pub open spec fn later<T>(first: Option<T>, second: Option<T>) -> Option<T> {
    if second is Some {
        second
    } else {
        first
    }
}

/// How far a search still has to look after `found`: up to that hit, or up
/// to `t_max` where nothing was found.
pub open spec fn reach<'a, M: Material>(found: Option<HitRecord<'a, M>>, t_max: M::Num) -> M::Num {
    match found {
        Some(h) => h.t,
        None => t_max,
    }
}

/// The hit that a scan of `objects` from first to last ends with, each object
/// being asked only for hits below the one held so far. A later object
/// replaces an earlier one only where it reports a hit within that shrunken
/// interval.
pub open spec fn nearest_hit<'a, H: Hittable>(
    objects: Seq<H>,
    ray: Ray<H::Num>,
    t_min: H::Num,
    t_max: H::Num,
) -> Option<HitRecord<'a, H::Mat>>
    decreases objects.len(),
{
    if objects.len() == 0 {
        None
    } else {
        let first = objects[0].hit_spec(ray, t_min, t_max);
        later(first, nearest_hit(objects.skip(1), ray, t_min, reach(first, t_max)))
    }
}

/// `object` answers as a query for the nearest hit should, as far as `ray`
/// can tell on intervals that start at `t_min`: a hit lies below the end of
/// the interval it was asked for, and it stays the answer when the interval
/// is cut short behind it.
pub open spec fn answers_nearest<H: Hittable>(object: H, ray: Ray<H::Num>, t_min: H::Num) -> bool {
    &&& forall|t_max: H::Num|
        match #[trigger] object.hit_spec(ray, t_min, t_max) {
            Some(h) => h.t.spec_less(t_max),
            None => true,
        }
    &&& forall|t_max: H::Num, cut: H::Num|
        #![trigger object.hit_spec(ray, t_min, t_max), object.hit_spec(ray, t_min, cut)]
        match object.hit_spec(ray, t_min, t_max) {
            Some(h) => h.t.spec_less(cut) && !t_max.spec_less(cut) ==> object.hit_spec(
                ray,
                t_min,
                cut,
            ) == Some(h),
            None => true,
        }
}

/// Every object of `objects` answers as a query for the nearest hit should.
pub open spec fn all_answer_nearest<H: Hittable>(
    objects: Seq<H>,
    ray: Ray<H::Num>,
    t_min: H::Num,
) -> bool {
    forall|k: int| 0 <= k < objects.len() ==> answers_nearest(#[trigger] objects[k], ray, t_min)
}

/// What a scan finds lies below the end of the interval.
pub proof fn lemma_scan_stays_below<H: Hittable>(
    objects: Seq<H>,
    ray: Ray<H::Num>,
    t_min: H::Num,
    t_max: H::Num,
)
    requires
        ordered::<H::Num>(),
        all_answer_nearest(objects, ray, t_min),
    ensures
        match nearest_hit(objects, ray, t_min, t_max) {
            Some(best) => best.t.spec_less(t_max),
            None => true,
        },
    decreases objects.len(),
{
    if objects.len() > 0 {
        let first = objects[0].hit_spec(ray, t_min, t_max);
        let rest = objects.skip(1);
        assert(answers_nearest(objects[0], ray, t_min));
        assert forall|k: int| 0 <= k < rest.len() implies answers_nearest(
            #[trigger] rest[k],
            ray,
            t_min,
        ) by {
            assert(rest[k] == objects[k + 1]);
        }
        lemma_scan_stays_below(rest, ray, t_min, reach(first, t_max));
        match (first, nearest_hit(rest, ray, t_min, reach(first, t_max))) {
            (Some(h), Some(best)) => {
                lemma_less_is_transitive(best.t, h.t, t_max);
            },
            _ => {},
        }
    }
}

/// A scan finds a nearest hit: whatever an object reports on the whole
/// interval, the scan finds something, and nothing that is farther. This
/// holds among ordered numbers for objects that answer as a query for the
/// nearest hit should.
pub proof fn lemma_scan_finds_the_nearest<H: Hittable>(
    objects: Seq<H>,
    ray: Ray<H::Num>,
    t_min: H::Num,
    t_max: H::Num,
    i: int,
)
    requires
        ordered::<H::Num>(),
        all_answer_nearest(objects, ray, t_min),
        0 <= i < objects.len(),
        objects[i].hit_spec(ray, t_min, t_max) is Some,
    ensures
        match nearest_hit(objects, ray, t_min, t_max) {
            Some(best) => !objects[i].hit_spec(ray, t_min, t_max).unwrap().t.spec_less(best.t),
            None => false,
        },
{
    let own = objects[i].hit_spec(ray, t_min, t_max).unwrap();
    assert(answers_nearest(objects[i], ray, t_min));
    assert(own.t.spec_less(t_max));
    assert(!t_max.spec_less(t_max));
    lemma_scan_beats(objects, ray, t_min, t_max, t_max, i);
}

/// The step of `lemma_scan_finds_the_nearest`: a scan that looks only below
/// `cut` finds nothing farther than a hit below `cut` that an object reports
/// on the whole interval.
proof fn lemma_scan_beats<H: Hittable>(
    objects: Seq<H>,
    ray: Ray<H::Num>,
    t_min: H::Num,
    t_max: H::Num,
    cut: H::Num,
    i: int,
)
    requires
        ordered::<H::Num>(),
        all_answer_nearest(objects, ray, t_min),
        0 <= i < objects.len(),
        !t_max.spec_less(cut),
        objects[i].hit_spec(ray, t_min, t_max) is Some,
        objects[i].hit_spec(ray, t_min, t_max).unwrap().t.spec_less(cut),
    ensures
        match nearest_hit(objects, ray, t_min, cut) {
            Some(best) => !objects[i].hit_spec(ray, t_min, t_max).unwrap().t.spec_less(best.t),
            None => false,
        },
    decreases objects.len(),
{
    let own = objects[i].hit_spec(ray, t_min, t_max).unwrap();
    let first = objects[0].hit_spec(ray, t_min, cut);
    let rest = objects.skip(1);
    let below = reach(first, cut);
    let found = nearest_hit(rest, ray, t_min, below);
    assert(answers_nearest(objects[0], ray, t_min));
    assert(answers_nearest(objects[i], ray, t_min));
    assert forall|k: int| 0 <= k < rest.len() implies answers_nearest(
        #[trigger] rest[k],
        ray,
        t_min,
    ) by {
        assert(rest[k] == objects[k + 1]);
    }
    lemma_scan_stays_below(rest, ray, t_min, below);
    if i == 0 {
        // cut short behind its own hit, the first object still reports it
        assert(first == Some(own));
        match found {
            Some(best) => {
                assert(best.t.spec_less(own.t));
            },
            None => {
                lemma_less_is_irreflexive(own.t);
            },
        }
    } else {
        assert(rest[i - 1] == objects[i]);
        // `below` is not above `cut`, which is not above `t_max`
        match first {
            Some(h) => {
                assert(h.t.spec_less(cut));
                assert(!cut.spec_less(h.t));
                assert(!t_max.spec_less(cut) && !cut.spec_less(h.t) ==> !t_max.spec_less(h.t));
            },
            None => {},
        }
        assert(!t_max.spec_less(below));
        if own.t.spec_less(below) {
            lemma_scan_beats(rest, ray, t_min, t_max, below, i - 1);
        } else {
            // the first object has a hit that is not farther
            let h = first.unwrap();
            match found {
                Some(best) => {
                    assert(best.t.spec_less(h.t));
                    assert(!h.t.spec_less(best.t));
                    assert(!own.t.spec_less(h.t) && !h.t.spec_less(best.t) ==> !own.t.spec_less(
                        best.t,
                    ));
                },
                None => {},
            }
        }
    }
}

/// A scan finds nothing exactly where no object reports a hit.
pub proof fn lemma_scan_finds_nothing<H: Hittable>(
    objects: Seq<H>,
    ray: Ray<H::Num>,
    t_min: H::Num,
    t_max: H::Num,
)
    ensures
        nearest_hit(objects, ray, t_min, t_max) is None <==> forall|i: int|
            0 <= i < objects.len() ==> (#[trigger] objects[i]).hit_spec(ray, t_min, t_max) is None,
    decreases objects.len(),
{
    if objects.len() > 0 {
        let rest = objects.skip(1);
        lemma_scan_finds_nothing(rest, ray, t_min, t_max);
        if objects[0].hit_spec(ray, t_min, t_max) is None {
            if nearest_hit(rest, ray, t_min, t_max) is None {
                assert forall|i: int| 0 <= i < objects.len() implies (#[trigger] objects[i]).hit_spec(
                    ray,
                    t_min,
                    t_max,
                ) is None by {
                    if i > 0 {
                        assert(objects[i] == rest[i - 1]);
                    }
                }
            } else {
                let k = choose|k: int|
                    0 <= k < rest.len() && !((#[trigger] rest[k]).hit_spec(ray, t_min, t_max) is None);
                assert(objects[k + 1] == rest[k]);
            }
        }
    }
}

/// The box that `object` reports bounds it, as far as `ray` can tell on
/// intervals that start at `t_min`: where the ray misses the box, it misses
/// the object. An object without a box has nothing to answer for.
pub open spec fn bounded_by_its_box<H: Hittable>(
    object: H,
    time0: H::Num,
    time1: H::Num,
    ray: Ray<H::Num>,
    t_min: H::Num,
) -> bool {
    match object.bounding_box_spec(time0, time1) {
        Some(bounds) => forall|t_max: H::Num|
            !bounds.hit_spec(ray, t_min, t_max) ==> (#[trigger] object.hit_spec(
                ray,
                t_min,
                t_max,
            )) is None,
        None => true,
    }
}

/// A scene: objects in the order in which they were added.
#[derive(Clone, Debug)]
pub struct HittableList<H> {
    pub objects: Vec<H>,
}

impl<H> View for HittableList<H> {
    type V = Seq<H>;

    open spec fn view(&self) -> Seq<H> {
        self.objects@
    }
}

impl<H: Hittable> HittableList<H> {
    /// A scene with nothing in it.
    pub fn new() -> (r: Self)
        ensures
            r@ == Seq::<H>::empty(),
    {
        HittableList { objects: Vec::new() }
    }

    /// Adds `object` behind the others.
    pub fn add(&mut self, object: H)
        ensures
            final(self)@ == old(self)@.push(object),
    {
        self.objects.push(object);
    }
}

impl<H: Hittable> Hittable for HittableList<H> {
    type Num = H::Num;

    type Mat = H::Mat;

    open spec fn hit_spec(&self, ray: Ray<H::Num>, t_min: H::Num, t_max: H::Num) -> Option<
        HitRecord<'_, H::Mat>,
    > {
        nearest_hit(self@, ray, t_min, t_max)
    }

    fn hit(&self, ray: &Ray<H::Num>, t_min: H::Num, t_max: H::Num) -> (r: Option<
        HitRecord<'_, H::Mat>,
    >) {
        let mut found: Option<HitRecord<'_, H::Mat>> = None;
        let mut closest = t_max;
        let mut i: usize = 0;
        proof {
            assert(self@.skip(0) =~= self@);
        }
        while i < self.objects.len()
            invariant
                i <= self.objects.len(),
                closest == reach(found, t_max),
                nearest_hit(self@, *ray, t_min, t_max) == later(
                    found,
                    nearest_hit(self@.skip(i as int), *ray, t_min, closest),
                ),
            decreases self.objects.len() - i,
        {
            proof {
                assert(self@.skip(i as int).skip(1) =~= self@.skip(i + 1));
            }
            if let Some(h) = self.objects[i].hit(ray, t_min, closest) {
                closest = h.t;
                found = Some(h);
            }
            i += 1;
        }
        found
    }

    /// A scene has a box where it holds an object and every object has one:
    /// the box around them all.
    open spec fn bounding_box_spec(&self, time0: H::Num, time1: H::Num) -> Option<Aabb<H::Num>> {
        common_box(self@, time0, time1)
    }

    fn bounding_box(&self, time0: H::Num, time1: H::Num) -> (r: Result<
        Aabb<H::Num>,
        BoundingBoxError,
    >) {
        let n = self.objects.len();
        if n == 0 {
            return Err(BoundingBoxError);
        }
        let mut i: usize = n - 1;
        let mut around = match self.objects[i].bounding_box(time0, time1) {
            Ok(b) => b,
            Err(e) => {
                proof {
                    lemma_no_box_without_all(self@, time0, time1, i as int);
                }
                return Err(e);
            },
        };
        assert(self@.skip(i as int).len() == 1);
        assert(self@.skip(i as int)[0] == self@[i as int]);
        while i > 0
            invariant
                i < n,
                n == self@.len(),
                common_box(self@.skip(i as int), time0, time1) == Some(around),
            decreases i,
        {
            i -= 1;
            proof {
                assert(self@.skip(i as int).skip(1) =~= self@.skip(i + 1));
                assert(self@.skip(i as int)[0] == self@[i as int]);
            }
            match self.objects[i].bounding_box(time0, time1) {
                Ok(b) => {
                    around = b.surrounding(&around);
                },
                Err(e) => {
                    proof {
                        lemma_no_box_without_all(self@, time0, time1, i as int);
                    }
                    return Err(e);
                },
            }
        }
        assert(self@.skip(0) =~= self@);
        Ok(around)
    }
}

/// The box around every object of `objects`, built up from the last one:
/// `None` where there is no object or where one of them has no box.
pub open spec fn common_box<H: Hittable>(objects: Seq<H>, time0: H::Num, time1: H::Num) -> Option<
    Aabb<H::Num>,
>
    decreases objects.len(),
{
    if objects.len() == 0 {
        None
    } else {
        match objects[0].bounding_box_spec(time0, time1) {
            None => None,
            Some(b) => if objects.len() == 1 {
                Some(b)
            } else {
                match common_box(objects.skip(1), time0, time1) {
                    None => None,
                    Some(rest) => Some(b.spec_surrounding(rest)),
                }
            },
        }
    }
}

/// One object without a box leaves the scene without one.
pub proof fn lemma_no_box_without_all<H: Hittable>(
    objects: Seq<H>,
    time0: H::Num,
    time1: H::Num,
    i: int,
)
    requires
        0 <= i < objects.len(),
        objects[i].bounding_box_spec(time0, time1) is None,
    ensures
        common_box(objects, time0, time1) is None,
    decreases objects.len(),
{
    if i > 0 {
        assert(objects.skip(1)[i - 1] == objects[i]);
        lemma_no_box_without_all(objects.skip(1), time0, time1, i - 1);
    }
}

} // verus!
