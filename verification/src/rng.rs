//! A deterministic pseudo-random source, threaded explicitly through every
//! routine that samples: a fixed seed reproduces the whole image.  Every
//! draw is pinned exactly as a function of the generator state, so callers
//! can reason about forced draws as well as about ranges.

use vstd::prelude::*;

use crate::fixed::{fx_ok, SCALE};
use crate::vec3::Vec3;

verus! {

/// A 64-bit linear congruential generator.
#[derive(Clone, Copy, PartialEq, Eq, Structural, Debug)]
pub struct Rng64 {
    pub state: u64,
}

/// The next generator state: `state * A + C` modulo `2^64`.
pub open spec fn lcg_next_s(state: u64) -> u64 {
    ((((state as int) * 6364136223846793005) + 1442695040888963407) % 18446744073709551616) as u64
}

/// The value a `[min, max)` draw yields from a given state.
pub open spec fn range_draw_s(state: u64, min: i64, max: i64) -> i64
    recommends
        min < max,
{
    ((min as int) + ((lcg_next_s(state) as int) % ((max as int) - (min as int)))) as i64
}

/// One candidate point for unit-sphere sampling: three consecutive
/// component draws in `[-1, 1)`.
pub open spec fn sphere_attempt_s(state: u64) -> Vec3 {
    (Vec3 {
        x: range_draw_s(state, (-(SCALE as int)) as i64, SCALE),
        y: range_draw_s(lcg_next_s(state), (-(SCALE as int)) as i64, SCALE),
        z: range_draw_s(lcg_next_s(lcg_next_s(state)), (-(SCALE as int)) as i64, SCALE),
    })
}

/// The state after the three draws of one sphere attempt.
pub open spec fn state3_s(state: u64) -> u64 {
    lcg_next_s(lcg_next_s(lcg_next_s(state)))
}

/// The point and final state that rejection sampling in the unit sphere
/// produces: keep drawing candidates until one falls strictly inside, or
/// the bounded budget runs out and a fixed interior point is used.
pub open spec fn in_sphere_s(state: u64, fuel: nat) -> (Vec3, u64)
    decreases fuel,
{
    if fuel == 0 {
        ((Vec3 { x: 32768i64, y: 0i64, z: 0i64 }), state)
    } else {
        let p = sphere_attempt_s(state);
        if p.len2_raw_s() < (SCALE as int) * (SCALE as int) {
            (p, state3_s(state))
        } else {
            in_sphere_s(state3_s(state), (fuel - 1) as nat)
        }
    }
}

/// One candidate point for unit-disk sampling: two component draws in
/// `[-1, 1)` and a zero third component.
pub open spec fn disk_attempt_s(state: u64) -> Vec3 {
    (Vec3 {
        x: range_draw_s(state, (-(SCALE as int)) as i64, SCALE),
        y: range_draw_s(lcg_next_s(state), (-(SCALE as int)) as i64, SCALE),
        z: 0i64,
    })
}

/// The state after the two draws of one disk attempt.
pub open spec fn state2_s(state: u64) -> u64 {
    lcg_next_s(lcg_next_s(state))
}

/// The point and final state that rejection sampling in the unit disk
/// produces.
pub open spec fn in_disk_s(state: u64, fuel: nat) -> (Vec3, u64)
    decreases fuel,
{
    if fuel == 0 {
        ((Vec3 { x: 32768i64, y: 0i64, z: 0i64 }), state)
    } else {
        let p = disk_attempt_s(state);
        if p.len2_raw_s() < (SCALE as int) * (SCALE as int) {
            (p, state2_s(state))
        } else {
            in_disk_s(state2_s(state), (fuel - 1) as nat)
        }
    }
}

impl Rng64 {
    /// Start from a seed.
    pub fn new(seed: u64) -> (r: Rng64)
        ensures
            r.state == seed,
    {
        Rng64 { state: seed }
    }

    /// Advance and return the new raw state.
    pub fn next_raw(&mut self) -> (r: u64)
        ensures
            final(self).state == lcg_next_s(old(self).state),
            r == final(self).state,
    {
        let p: u128 = (self.state as u128) * 6364136223846793005;
        let s: u128 = (p + 1442695040888963407) % 18446744073709551616;
        self.state = s as u64;
        self.state
    }

    /// A uniform fixed-point draw in `[0, 1)`.
    pub fn next_unit(&mut self) -> (r: i64)
        ensures
            r as int == (lcg_next_s(old(self).state) as int) % (SCALE as int),
            final(self).state == lcg_next_s(old(self).state),
            0 <= r < SCALE,
            fx_ok(r),
    {
        let v: u64 = self.next_raw();
        (v % 65536) as i64
    }

    /// A uniform fixed-point draw in `[min, max)`.
    pub fn next_range(&mut self, min: i64, max: i64) -> (r: i64)
        requires
            fx_ok(min),
            fx_ok(max),
            min < max,
        ensures
            r == range_draw_s(old(self).state, min, max),
            final(self).state == lcg_next_s(old(self).state),
            min <= r < max,
            fx_ok(r),
    {
        let span: u64 = ((max as i128) - (min as i128)) as u64;
        let v: u64 = self.next_raw() % span;
        let r: i64 = ((min as i128) + (v as i128)) as i64;
        r
    }

    /// A random point strictly inside the unit sphere: rejection sampling
    /// with a bounded number of tries and a safe fallback.
    pub fn in_unit_sphere(&mut self) -> (r: Vec3)
        ensures
            r == in_sphere_s(old(self).state, 16).0,
            final(self).state == in_sphere_s(old(self).state, 16).1,
            r.wf(),
            r.len2_raw_s() < (SCALE as int) * (SCALE as int),
    {
        let mut tries: u32 = 0;
        while tries < 16
            invariant
                tries <= 16,
                in_sphere_s(old(self).state, 16) == in_sphere_s(
                    self.state,
                    (16 - tries) as nat,
                ),
            decreases 16 - tries,
        {
            let ghost s0: u64 = self.state;
            let p: Vec3 = Vec3::new(
                self.next_range(-SCALE, SCALE),
                self.next_range(-SCALE, SCALE),
                self.next_range(-SCALE, SCALE),
            );
            proof {
                assert(p == sphere_attempt_s(s0));
                assert(self.state == state3_s(s0));
            }
            let l2: i128 = p.len2_raw();
            if l2 < 4294967296 {
                return p;
            }
            tries = tries + 1;
        }
        Vec3::new(32768, 0, 0)
    }

    /// A random point strictly inside the unit disk of the lens plane
    /// (`z == 0`).
    pub fn in_unit_disk(&mut self) -> (r: Vec3)
        ensures
            r == in_disk_s(old(self).state, 16).0,
            final(self).state == in_disk_s(old(self).state, 16).1,
            r.wf(),
            r.z == 0,
            r.len2_raw_s() < (SCALE as int) * (SCALE as int),
    {
        let mut tries: u32 = 0;
        while tries < 16
            invariant
                tries <= 16,
                in_disk_s(old(self).state, 16) == in_disk_s(self.state, (16 - tries) as nat),
            decreases 16 - tries,
        {
            let ghost s0: u64 = self.state;
            let p: Vec3 = Vec3::new(
                self.next_range(-SCALE, SCALE),
                self.next_range(-SCALE, SCALE),
                0,
            );
            proof {
                assert(p == disk_attempt_s(s0));
                assert(self.state == state2_s(s0));
            }
            let l2: i128 = p.len2_raw();
            if l2 < 4294967296 {
                return p;
            }
            tries = tries + 1;
        }
        Vec3::new(32768, 0, 0)
    }
}

} // verus!
