
//! Hit records and the scene aggregate that reduces to the nearest hit.
use vstd::prelude::*;
use crate::material::Material;
use crate::ray::Ray;
use crate::sphere::{lemma_hit_narrowed, sphere_hit, Sphere};
use crate::vec3::Vec3;

verus! {

/// Where a ray meets a surface: the ray parameter, the point, the unit
/// outward normal there, and the surface's material.
#[derive(Clone, Copy, Debug, PartialEq, Eq, Structural)]
pub struct HitRecord {
    pub t: i64,
    pub p: Vec3,
    pub normal: Vec3,
    pub material: Material,
}

impl HitRecord {
    pub open spec fn wf(self) -> bool {
        self.p.wf() && self.normal.wf() && self.material.wf()
    }
}

/// Anything a ray can hit.
pub trait Hitable {
    /// The object is well formed.
    spec fn valid(&self) -> bool;

    /// The hit that `hit` reports.
    spec fn hit_spec(&self, ray: Ray, t_min: int, t_max: int) -> Option<HitRecord>;

    /// The nearest hit with parameter strictly between `t_min` and `t_max`.
    fn hit(&self, ray: &Ray, t_min: i64, t_max: i64) -> (r: Option<HitRecord>)
        requires
            self.valid(),
            ray.wf(),
        ensures
            r == self.hit_spec(*ray, t_min as int, t_max as int),
            r matches Some(h) ==> h.wf() && t_min < h.t < t_max,
    ;
}

/// The scene's answer: each object in turn is searched below the nearest
/// parameter found so far, and a hit replaces the current best.
pub open spec fn scene_hit(s: Seq<Sphere>, ray: Ray, t_min: int, t_max: int) -> Option<HitRecord>
    decreases s.len(),
{
    if s.len() == 0 {
        None
    } else {
        let prev = scene_hit(s.drop_last(), ray, t_min, t_max);
        let bound = match prev {
            Some(h) => h.t as int,
            None => t_max,
        };
        match sphere_hit(s.last(), ray, t_min, bound) {
            Some(h) => Some(h),
            None => prev,
        }
    }
}

/// The objects of a scene, in the order they were added.
pub struct HitableList {
    pub list: Vec<Sphere>,
}

impl HitableList {
    pub open spec fn wf(&self) -> bool {
        forall|i: int| 0 <= i < self.list@.len() ==> #[trigger] self.list@[i].wf()
    }

    pub fn new(list: Vec<Sphere>) -> (r: HitableList)
        requires
            forall|i: int| 0 <= i < list@.len() ==> #[trigger] list@[i].wf(),
        ensures
            r.list@ == list@,
            r.wf(),
    {
        HitableList { list }
    }

    /// Adds an object to the scene.
    pub fn push(&mut self, s: Sphere)
        requires
            old(self).wf(),
            s.wf(),
        ensures
            final(self).list@ == old(self).list@.push(s),
            final(self).wf(),
    {
        self.list.push(s);
    }
}

impl Hitable for HitableList {
    open spec fn valid(&self) -> bool {
        self.wf()
    }

    /// The nearest hit over all objects.
    open spec fn hit_spec(&self, ray: Ray, t_min: int, t_max: int) -> Option<HitRecord> {
        scene_hit(self.list@, ray, t_min, t_max)
    }

    fn hit(&self, ray: &Ray, t_min: i64, t_max: i64) -> (r: Option<HitRecord>) {
        let mut closest_so_far: i64 = t_max;
        let mut hit_anything: Option<HitRecord> = None;
        let mut i: usize = 0;
        while i < self.list.len()
            invariant
                self.wf(),
                ray.wf(),
                i <= self.list@.len(),
                hit_anything == scene_hit(self.list@.take(i as int), *ray, t_min as int, t_max as int),
                closest_so_far == (match hit_anything {
                    Some(h) => h.t,
                    None => t_max,
                }),
                hit_anything matches Some(h) ==> h.wf() && t_min < h.t < t_max,
            decreases self.list@.len() - i,
        {
            assert(self.list@.take(i as int + 1).drop_last() == self.list@.take(i as int));
            if let Some(h) = self.list[i].hit(ray, t_min, closest_so_far) {
                closest_so_far = h.t;
                hit_anything = Some(h);
            }
            i = i + 1;
        }
        assert(self.list@.take(self.list@.len() as int) == self.list@);
        hit_anything
    }
}

/// The scene reports the nearest crossing: it misses exactly when every
/// object misses, and otherwise its hit is one object's own hit and no object
/// is crossed at a smaller parameter.
pub proof fn lemma_scene_nearest(s: Seq<Sphere>, ray: Ray, t_min: i64, t_max: i64)
    ensures
        scene_hit(s, ray, t_min as int, t_max as int) is None <==> forall|i: int|
            0 <= i < s.len() ==> #[trigger] sphere_hit(s[i], ray, t_min as int, t_max as int) is None,
        scene_hit(s, ray, t_min as int, t_max as int) matches Some(h) ==> {
            &&& exists|i: int|
                0 <= i < s.len() && #[trigger] sphere_hit(s[i], ray, t_min as int, t_max as int)
                    == Some(h)
            &&& forall|j: int|
                0 <= j < s.len() ==> (#[trigger] sphere_hit(s[j], ray, t_min as int, t_max as int) matches Some(g)
                    ==> h.t <= g.t)
            &&& t_min < h.t < t_max
        },
    decreases s.len(),
{
    if s.len() > 0 {
        let init = s.drop_last();
        lemma_scene_nearest(init, ray, t_min, t_max);
        let prev = scene_hit(init, ray, t_min as int, t_max as int);
        let bound = match prev {
            Some(h) => h.t as int,
            None => t_max as int,
        };
        let last = s.last();
        lemma_hit_narrowed(last, ray, t_min as int, t_max as int, bound);
        assert forall|j: int| 0 <= j < init.len() implies init[j] == s[j] by {}
        let n = s.len() - 1;
        assert(s[n] == last);
        match sphere_hit(last, ray, t_min as int, bound) {
            Some(h) => {
                assert(sphere_hit(s[n], ray, t_min as int, t_max as int) == Some(h));
            },
            None => {
                if let Some(h) = prev {
                    let i = choose|i: int|
                        0 <= i < init.len() && #[trigger] sphere_hit(init[i], ray, t_min as int, t_max as int)
                            == Some(h);
                    assert(sphere_hit(s[i], ray, t_min as int, t_max as int) == Some(h));
                }
            },
        }
    }
}

} // verus!
