//! The aggregate of hittable objects: nearest-valid-hit selection.

use vstd::prelude::*;

use crate::fixed::{DMAX, OMAX, TMAX};
use crate::hittable::{hit_matches, s_hittable_hit, HitRecord, HitV, Hittable};
use crate::interval::{s_surrounds, Interval, IntervalV};
use crate::ray::{Ray, RayV};
use crate::vec3::{approx_unit, fits, s_dot};

verus! {

/// Of a best hit so far and a candidate, the one with the strictly
/// smaller parameter; the incumbent wins ties.
pub open spec fn s_closer(best: Option<HitV>, cur: Option<HitV>) -> Option<HitV> {
    match cur {
        Option::None => best,
        Option::Some(c) => match best {
            Option::None => Option::Some(c),
            Option::Some(b) => if c.t < b.t {
                Option::Some(c)
            } else {
                Option::Some(b)
            },
        },
    }
}

/// The nearest hit among the first `n` members.
pub open spec fn s_list_hit_prefix(
    objs: Seq<Hittable>,
    ray: RayV,
    ray_t: IntervalV,
    n: int,
) -> Option<HitV>
    decreases n,
{
    if n <= 0 {
        Option::None
    } else {
        s_closer(
            s_list_hit_prefix(objs, ray, ray_t, n - 1),
            s_hittable_hit(objs[n - 1], ray, ray_t),
        )
    }
}

/// The nearest hit among all members.
pub open spec fn s_list_hit(objs: Seq<Hittable>, ray: RayV, ray_t: IntervalV) -> Option<HitV> {
    s_list_hit_prefix(objs, ray, ray_t, objs.len() as int)
}

/// An unordered collection of hittable objects, reporting the
/// nearest valid hit among its members.
pub struct HittableList {
    objects: Vec<Hittable>,
}

impl View for HittableList {
    type V = Seq<Hittable>;

    closed spec fn view(&self) -> Seq<Hittable> {
        self.objects@
    }
}

/// Every member of a scene is geometrically valid.
pub open spec fn s_world_wf(objs: Seq<Hittable>) -> bool {
    forall|i: int| 0 <= i < objs.len() ==> (#[trigger] objs[i]).wf()
}

/// A reported nearest hit is some member's hit.
pub proof fn lemma_list_hit_member(objs: Seq<Hittable>, ray: RayV, ray_t: IntervalV, n: int, h: HitV)
    requires
        0 <= n <= objs.len(),
        s_list_hit_prefix(objs, ray, ray_t, n) == Option::Some(h),
    ensures
        exists|i: int|
            0 <= i < n && s_hittable_hit(#[trigger] objs[i], ray, ray_t) == Option::Some(h),
    decreases n,
{
    if n > 0 {
        let rest = s_list_hit_prefix(objs, ray, ray_t, n - 1);
        let cur = s_hittable_hit(objs[n - 1], ray, ray_t);
        if cur == Option::Some(h) {
        } else {
            match cur {
                Option::None => {
                    lemma_list_hit_member(objs, ray, ray_t, n - 1, h);
                },
                Option::Some(c) => {
                    assert(rest == Option::Some(h) || s_closer(rest, cur) == cur);
                    lemma_list_hit_member(objs, ray, ray_t, n - 1, h);
                },
            }
        }
    }
}

/// In a valid scene, the material of a reported nearest hit is valid.
pub proof fn lemma_list_hit_material_wf(objs: Seq<Hittable>, ray: RayV, ray_t: IntervalV, h: HitV)
    requires
        s_world_wf(objs),
        s_list_hit(objs, ray, ray_t) == Option::Some(h),
    ensures
        h.material.wf(),
{
    lemma_list_hit_member(objs, ray, ray_t, objs.len() as int, h);
    let i = choose|i: int|
        0 <= i < objs.len() && s_hittable_hit(#[trigger] objs[i], ray, ray_t) == Option::Some(h);
    match objs[i] {
        Hittable::Sphere(s) => {
            crate::objects::sphere::lemma_sphere_hit_material(s, ray, ray_t, h);
        },
    }
}

impl HittableList {
    /// Every member is geometrically valid.
    pub open spec fn wf(self) -> bool {
        s_world_wf(self@)
    }

    pub fn new() -> (r: Self)
        ensures
            r@ == Seq::<Hittable>::empty(),
    {
        Self { objects: Vec::new() }
    }

    pub fn add(&mut self, hittable: Hittable)
        ensures
            final(self)@ == old(self)@.push(hittable),
    {
        self.objects.push(hittable);
    }

    pub fn clear(&mut self)
        ensures
            final(self)@ == Seq::<Hittable>::empty(),
    {
        self.objects.clear();
    }

    /// Return the hit with the smallest parameter among all members'
    /// hits, or nothing if no member is hit: the globally nearest
    /// valid intersection.
    pub fn hit(&self, ray: Ray, ray_t: Interval) -> (r: Option<HitRecord>)
        requires
            self.wf(),
            fits(ray@.orig, OMAX as int),
            fits(ray@.dir, DMAX as int),
        ensures
            hit_matches(r, s_list_hit(self@, ray@, ray_t@)),
            r matches Some(h) ==> {
                &&& s_surrounds(ray_t@, h@.t)
                &&& approx_unit(h@.normal)
                &&& s_dot(ray@.dir, h@.normal) <= 0
                &&& fits(h@.point, OMAX as int)
                &&& -TMAX <= h@.t <= TMAX
                &&& h@.material.wf()
            },
            r matches Some(h) ==> exists|j: int|
                0 <= j < self@.len() && s_hittable_hit(#[trigger] self@[j], ray@, ray_t@)
                    == Option::Some(h@),
            r matches Some(h) ==> forall|j: int|
                0 <= j < self@.len() ==> match s_hittable_hit(#[trigger] self@[j], ray@, ray_t@) {
                    Option::Some(g) => h@.t <= g.t,
                    Option::None => true,
                },
            r is None ==> forall|j: int|
                0 <= j < self@.len() ==> s_hittable_hit(#[trigger] self@[j], ray@, ray_t@)
                    is None,
    {
        let mut best: Option<HitRecord> = None;
        let mut i: usize = 0;
        while i < self.objects.len()
            invariant
                0 <= i <= self.objects.len(),
                self.wf(),
                fits(ray@.orig, OMAX as int),
                fits(ray@.dir, DMAX as int),
                hit_matches(best, s_list_hit_prefix(self@, ray@, ray_t@, i as int)),
                best matches Some(h) ==> {
                    &&& s_surrounds(ray_t@, h@.t)
                    &&& approx_unit(h@.normal)
                    &&& s_dot(ray@.dir, h@.normal) <= 0
                    &&& fits(h@.point, OMAX as int)
                    &&& -TMAX <= h@.t <= TMAX
                    &&& h@.material.wf()
                },
                best matches Some(h) ==> exists|j: int|
                    0 <= j < i && s_hittable_hit(#[trigger] self@[j], ray@, ray_t@)
                        == Option::Some(h@),
                best matches Some(h) ==> forall|j: int|
                    0 <= j < i ==> match s_hittable_hit(#[trigger] self@[j], ray@, ray_t@) {
                        Option::Some(g) => h@.t <= g.t,
                        Option::None => true,
                    },
                best is None ==> forall|j: int|
                    0 <= j < i ==> s_hittable_hit(#[trigger] self@[j], ray@, ray_t@) is None,
            decreases self.objects.len() - i,
        {
            let cur: Option<HitRecord> = self.objects[i].hit(ray, ray_t);
            match cur {
                Option::Some(c) => {
                    let replace: bool = match &best {
                        Option::None => true,
                        Option::Some(b) => c.t < b.t,
                    };
                    if replace {
                        best = Some(c);
                    }
                },
                Option::None => {},
            }
            i = i + 1;
        }
        best
    }
}

} // verus!
