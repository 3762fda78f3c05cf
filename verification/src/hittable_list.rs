//! The scene aggregate: an ordered list of owned spheres.  The scan keeps
//! the closest valid hit, shrinking the search window as it goes, so the
//! result is the globally nearest intersection.

use vstd::prelude::*;

use crate::fixed::fx_ok;
use crate::hittable::HitRecord;
use crate::ray3::Ray3;
use crate::sphere::Sphere;

verus! {

/// The full set of renderable surfaces.
pub struct HittableList {
    pub objects: Vec<Sphere>,
}

impl HittableList {
    /// Every owned surface is well formed.
    pub open spec fn wf(self) -> bool {
        forall|i: int| 0 <= i < self.objects@.len() ==> self.objects@[i].wf()
    }

    /// The scan, one surface at a time: each success replaces the best
    /// record and tightens the window's upper end to its parameter.
    pub open spec fn scan_s(
        objs: Seq<Sphere>,
        ray: Ray3,
        t_min: i64,
        closest: i64,
        best: Option<HitRecord>,
    ) -> Option<HitRecord>
        decreases objs.len(),
    {
        if objs.len() == 0 {
            best
        } else {
            match objs[0].hit_s(ray, t_min, closest) {
                Some(h) => Self::scan_s(objs.skip(1), ray, t_min, h.t, Some(h)),
                None => Self::scan_s(objs.skip(1), ray, t_min, closest, best),
            }
        }
    }

    /// What `hit` returns: the scan started with an empty best record and
    /// the full window.
    pub open spec fn hit_list_s(self, ray: Ray3, t_min: i64, t_max: i64) -> Option<HitRecord> {
        Self::scan_s(self.objects@, ray, t_min, t_max, None)
    }

    /// An empty scene.
    pub fn new() -> (r: HittableList)
        ensures
            r.objects@.len() == 0,
            r.wf(),
    {
        HittableList { objects: Vec::new() }
    }

    /// Hand a surface over to the scene.
    pub fn add(&mut self, s: Sphere)
        requires
            old(self).wf(),
            s.wf(),
        ensures
            final(self).objects@ == old(self).objects@.push(s),
            final(self).wf(),
    {
        self.objects.push(s);
    }

    /// The closest hit over all surfaces within `[t_min, t_max]`.
    pub fn hit(&self, ray: &Ray3, t_min: i64, t_max: i64) -> (r: Option<HitRecord>)
        requires
            self.wf(),
            ray.wf(),
            fx_ok(t_min),
            fx_ok(t_max),
        ensures
            r == self.hit_list_s(*ray, t_min, t_max),
            (r matches Some(h) ==> h.wf() && h.opposes(*ray) && t_min <= h.t <= t_max),
            r is Some ==> ray.direction.len2_raw_s() >= crate::fixed::SCALE as int,
            r is None ==> (forall|i: int|
                0 <= i < self.objects@.len() ==> #[trigger] self.objects@[i].hit_s(
                    *ray,
                    t_min,
                    t_max,
                ) is None),
            (r matches Some(h) ==> (forall|i: int|
                0 <= i < self.objects@.len() ==> (#[trigger] self.objects@[i].hit_s(
                    *ray,
                    t_min,
                    t_max,
                ) matches Some(hi) ==> h.t <= hi.t))),
    {
        proof {
            lemma_scan_closest(self.objects@, *ray, t_min, t_max, None);
        }
        let mut best: Option<HitRecord> = None;
        let mut closest: i64 = t_max;
        let n: usize = self.objects.len();
        let mut i: usize = 0;
        proof {
            assert(self.objects@.skip(0) =~= self.objects@);
        }
        while i < n
            invariant
                i <= n,
                n == self.objects@.len(),
                self.wf(),
                ray.wf(),
                fx_ok(t_min),
                fx_ok(t_max),
                fx_ok(closest),
                closest <= t_max,
                Self::scan_s(self.objects@.skip(i as int), *ray, t_min, closest, best)
                    == self.hit_list_s(*ray, t_min, t_max),
                (best matches Some(h) ==> h.wf() && h.opposes(*ray) && t_min <= h.t <= t_max
                    && closest == h.t),
                best is Some ==> ray.direction.len2_raw_s() >= crate::fixed::SCALE as int,
                (best is None ==> closest == t_max),
            decreases n - i,
        {
            let s: &Sphere = &self.objects[i];
            let res: Option<HitRecord> = s.hit(ray, t_min, closest);
            proof {
                assert(self.objects@.skip(i as int)[0] == self.objects@[i as int]);
                assert(self.objects@.skip(i as int).skip(1) =~= self.objects@.skip(i as int + 1));
            }
            match res {
                Some(h) => {
                    closest = h.t;
                    best = Some(h);
                },
                None => {},
            }
            i += 1;
        }
        best
    }
}

/// The scan already holding a best record never loses it, a scan that
/// comes back empty means every surface missed the window it was given,
/// and a successful scan's parameter is a lower bound on every surface's
/// hit over that window: the aggregate really returns the closest hit.
#[verifier::rlimit(100)]
proof fn lemma_scan_closest(
    objs: Seq<Sphere>,
    ray: Ray3,
    t_min: i64,
    closest: i64,
    best: Option<HitRecord>,
)
    requires
        forall|i: int| 0 <= i < objs.len() ==> (#[trigger] objs[i]).wf(),
        ray.wf(),
        fx_ok(t_min),
        fx_ok(closest),
        (best matches Some(b) ==> closest <= b.t),
    ensures
        best is Some ==> HittableList::scan_s(objs, ray, t_min, closest, best) is Some,
        HittableList::scan_s(objs, ray, t_min, closest, best) is None ==> best is None && (forall|
            i: int,
        |
            0 <= i < objs.len() ==> #[trigger] objs[i].hit_s(ray, t_min, closest) is None),
        (HittableList::scan_s(objs, ray, t_min, closest, best) matches Some(h) ==> (forall|
            i: int,
        |
            0 <= i < objs.len() ==> (#[trigger] objs[i].hit_s(ray, t_min, closest) matches Some(
                hi,
            ) ==> h.t <= hi.t)) && (best matches Some(b) ==> h.t <= b.t) && (h.t <= closest || (
        best matches Some(b2) && h.t == b2.t))),
    decreases objs.len(),
{
    if objs.len() == 0 {
        return ;
    }
    let rest = objs.skip(1);
    assert(forall|i: int| 0 <= i < rest.len() ==> rest[i] == objs[i + 1]);
    match objs[0].hit_s(ray, t_min, closest) {
        Some(hx) => {
            assert(t_min <= hx.t <= closest);
            assert(fx_ok(hx.t));
            lemma_scan_closest(rest, ray, t_min, hx.t, Some(hx));
            let res = HittableList::scan_s(objs, ray, t_min, closest, best);
            assert(res == HittableList::scan_s(rest, ray, t_min, hx.t, Some(hx)));
            let h = res->Some_0;
            assert(h.t <= hx.t);
            assert forall|i: int|
                0 <= i < objs.len() implies (#[trigger] objs[i].hit_s(ray, t_min, closest) matches
                Some(hi) ==> h.t <= hi.t) by {
                if i == 0 {
                } else {
                    crate::sphere::lemma_hit_narrow(objs[i], ray, t_min, closest, hx.t);
                    assert(objs[i] == rest[i - 1]);
                }
            }
        },
        None => {
            lemma_scan_closest(rest, ray, t_min, closest, best);
            let res = HittableList::scan_s(objs, ray, t_min, closest, best);
            assert(res == HittableList::scan_s(rest, ray, t_min, closest, best));
            assert forall|i: int|
                0 <= i < objs.len() && res is None implies #[trigger] objs[i].hit_s(
                    ray,
                    t_min,
                    closest,
                ) is None by {
                if i > 0 {
                    assert(objs[i] == rest[i - 1]);
                }
            }
            if res is Some {
                let h = res->Some_0;
                assert forall|i: int|
                    0 <= i < objs.len() implies (#[trigger] objs[i].hit_s(
                        ray,
                        t_min,
                        closest,
                    ) matches Some(hi) ==> h.t <= hi.t) by {
                    if i > 0 {
                        assert(objs[i] == rest[i - 1]);
                    }
                }
            }
        },
    }
}

/// The scan of a two-sphere scene, in the given order: when both spheres
/// are struck on the full window, the nearer parameter wins.
proof fn lemma_scan_two(
    sa: Sphere,
    sb: Sphere,
    ray: Ray3,
    t_min: i64,
    t_max: i64,
    ha: HitRecord,
    hb: HitRecord,
)
    requires
        sa.wf(),
        sb.wf(),
        ray.wf(),
        fx_ok(t_min),
        fx_ok(t_max),
        sa.hit_s(ray, t_min, t_max) == Some(ha),
        sb.hit_s(ray, t_min, t_max) == Some(hb),
    ensures
        (HittableList::scan_s(seq![sa, sb], ray, t_min, t_max, None) matches Some(h) && h.t == (
        if ha.t <= hb.t {
            ha.t
        } else {
            hb.t
        })),
{
    let objs = seq![sa, sb];
    assert(objs[0] == sa);
    assert(objs.skip(1) =~= seq![sb]);
    assert(seq![sb][0] == sb);
    assert(seq![sb].skip(1) =~= Seq::<Sphere>::empty());
    assert(ha.t <= t_max);
    crate::sphere::lemma_hit_narrow(sb, ray, t_min, t_max, ha.t);
    assert(HittableList::scan_s(objs, ray, t_min, t_max, None) == HittableList::scan_s(
        seq![sb],
        ray,
        t_min,
        ha.t,
        Some(ha),
    ));
    if hb.t <= ha.t {
        assert(sb.hit_s(ray, t_min, ha.t) == Some(hb));
        assert(HittableList::scan_s(Seq::<Sphere>::empty(), ray, t_min, hb.t, Some(hb)) == Some(
            hb,
        ));
        assert(HittableList::scan_s(seq![sb], ray, t_min, ha.t, Some(ha)) == Some(hb));
    } else {
        assert(sb.hit_s(ray, t_min, ha.t) is None);
        assert(HittableList::scan_s(Seq::<Sphere>::empty(), ray, t_min, ha.t, Some(ha)) == Some(
            ha,
        ));
        assert(HittableList::scan_s(seq![sb], ray, t_min, ha.t, Some(ha)) == Some(ha));
    }
}

/// Closest-hit selection: with two overlapping spheres both struck by the
/// ray inside the window, the aggregate reports the intersection with the
/// smaller parameter, whichever order the spheres were added in.
pub proof fn lemma_closest_hit_two(
    s1: Sphere,
    s2: Sphere,
    ray: Ray3,
    t_min: i64,
    t_max: i64,
    h1: HitRecord,
    h2: HitRecord,
)
    requires
        s1.wf(),
        s2.wf(),
        ray.wf(),
        fx_ok(t_min),
        fx_ok(t_max),
        s1.hit_s(ray, t_min, t_max) == Some(h1),
        s2.hit_s(ray, t_min, t_max) == Some(h2),
    ensures
        (HittableList::scan_s(seq![s1, s2], ray, t_min, t_max, None) matches Some(h) && h.t == (
        if h1.t <= h2.t {
            h1.t
        } else {
            h2.t
        })),
        (HittableList::scan_s(seq![s2, s1], ray, t_min, t_max, None) matches Some(h) && h.t == (
        if h1.t <= h2.t {
            h1.t
        } else {
            h2.t
        })),
{
    lemma_scan_two(s1, s2, ray, t_min, t_max, h1, h2);
    lemma_scan_two(s2, s1, ray, t_min, t_max, h2, h1);
}

} // verus!
