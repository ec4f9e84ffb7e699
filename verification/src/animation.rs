//! Zoom state and the eased transition between zoom levels.

use vstd::prelude::*;
use crate::fixed::{SCALE, lemma_lerp_between, lerp, lerp_spec};

verus! {

/// Smallest zoom factor.
pub const MIN_ZOOM: i64 = 1000;

/// Largest zoom factor.
pub const MAX_ZOOM: i64 = 4000;

/// Change of the zoom factor for one step in or out.
pub const ZOOM_STEP: i64 = 200;

/// A request that would move the target by less than this is ignored.
pub const ZOOM_EPSILON: i64 = 10;

/// Length of a transition, in milliseconds.
pub const ANIMATION_DURATION: u64 = 300;

/// Quadratic ease-in-out of a progress between 0 and 1: `2t²` in the first
/// half, `1 - (2 - 2t)² / 2` in the second.
pub open spec fn ease_spec(t: int) -> int {
    if t < SCALE / 2 {
        (2 * t * t) / SCALE as int
    } else {
        SCALE - ((2 * SCALE - 2 * t) * (2 * SCALE - 2 * t)) / (2 * SCALE)
    }
}

/// Easing maps fractions to fractions.
pub proof fn lemma_ease_range(t: int)
    requires
        0 <= t <= SCALE,
    ensures
        0 <= ease_spec(t) <= SCALE,
{
    if t < 500 {
        assert(0 <= (2 * t * t) / 1000 <= 1000) by (nonlinear_arith)
            requires
                0 <= t < 500,
        ;
    } else {
        let u = 2000 - 2 * t;
        assert(0 <= (u * u) / 2000 <= 1000) by (nonlinear_arith)
            requires
                0 <= u <= 1000,
        ;
    }
}

/// Easing leaves the start, the middle and the end where they are.
pub proof fn law_ease_fixed_points()
    ensures
        ease_spec(0) == 0,
        ease_spec(SCALE / 2) == SCALE / 2,
        ease_spec(SCALE as int) == SCALE,
{
    assert((2 * 0 * 0) / 1000 == 0int) by (nonlinear_arith);
    assert(((2000 - 1000) * (2000 - 1000)) / 2000 == 500int) by (nonlinear_arith);
    assert(((2000 - 2000) * (2000 - 2000)) / 2000 == 0int) by (nonlinear_arith);
}

/// Easing is slower than linear in the first half, faster in the second,
/// and never runs backward.
pub proof fn law_ease_shape(s: int, t: int)
    requires
        0 <= s <= t <= SCALE,
    ensures
        ease_spec(s) <= ease_spec(t),
        t < SCALE / 2 ==> ease_spec(t) <= t,
        t >= SCALE / 2 ==> ease_spec(t) >= t,
{
    if t < 500 {
        assert((2 * s * s) / 1000 <= (2 * t * t) / 1000 <= t) by (nonlinear_arith)
            requires
                0 <= s <= t < 500,
        ;
    } else {
        let u = 2000 - 2 * t;
        assert((u * u) / 2000 <= 1000 - t && (u * u) / 2000 <= 500) by (nonlinear_arith)
            requires
                u == 2000 - 2 * t,
                500 <= t <= 1000,
        ;
        if s < 500 {
            assert((2 * s * s) / 1000 <= 500) by (nonlinear_arith)
                requires
                    0 <= s < 500,
            ;
        } else {
            let v = 2000 - 2 * s;
            assert((u * u) / 2000 <= (v * v) / 2000) by (nonlinear_arith)
                requires
                    0 <= u <= v,
            ;
        }
    }
}

/// Quadratic ease-in-out of a progress between 0 and 1.
pub fn ease_in_out_quad(t: i64) -> (eased: i64)
    requires
        0 <= t <= SCALE,
    ensures
        eased == ease_spec(t as int),
        0 <= eased <= SCALE,
{
    proof {
        lemma_ease_range(t as int);
    }
    if t < SCALE / 2 {
        assert(0 <= 2 * t * t <= 2 * 500 * 500) by (nonlinear_arith)
            requires
                0 <= t < 500,
        ;
        (2 * t * t) / SCALE
    } else {
        let u: i64 = 2 * SCALE - 2 * t;
        assert(0 <= u * u <= 1000 * 1000) by (nonlinear_arith)
            requires
                0 <= u <= 1000,
        ;
        SCALE - (u * u) / (2 * SCALE)
    }
}

/// A zoom factor brought into the allowed range.
pub open spec fn clamp_zoom(zoom: int) -> int {
    if zoom < MIN_ZOOM {
        MIN_ZOOM as int
    } else if zoom > MAX_ZOOM {
        MAX_ZOOM as int
    } else {
        zoom
    }
}

/// The target after a request to change it by `delta`: the clamped sum,
/// unless that is less than `ZOOM_EPSILON` away from the present target.
pub open spec fn next_target(target: int, delta: int) -> int {
    let wanted = clamp_zoom(target + delta);
    if -ZOOM_EPSILON < wanted - target < ZOOM_EPSILON {
        target
    } else {
        wanted
    }
}

/// The target after `count` requests to change it by `delta` each.
pub open spec fn target_after(target: int, delta: int, count: nat) -> int
    decreases count,
{
    if count == 0 {
        target
    } else {
        next_target(target_after(target, delta, (count - 1) as nat), delta)
    }
}

/// Fraction of the transition that has passed at time `now`.
pub open spec fn progress_spec(start_time: int, duration: int, now: int) -> int {
    if now <= start_time {
        0
    } else if now - start_time >= duration {
        SCALE as int
    } else {
        ((now - start_time) * SCALE) / duration
    }
}

/// The zoom factors and the clock of the running transition.
#[derive(Debug, Clone, Copy, PartialEq, Eq)]
pub struct AnimationState {
    /// The zoom factor that is on screen.
    pub current_zoom: i64,
    /// The zoom factor that the transition ends at.
    pub target_zoom: i64,
    /// Whether a transition is running.
    pub animating: bool,
    /// When the running transition began, in milliseconds.
    pub start_time: u64,
    /// Length of a transition, in milliseconds.
    pub duration: u64,
}

impl AnimationState {
    /// Both zoom factors are in range, they agree while nothing moves, and
    /// a transition takes time.
    pub open spec fn wf(self) -> bool {
        &&& MIN_ZOOM <= self.current_zoom <= MAX_ZOOM
        &&& MIN_ZOOM <= self.target_zoom <= MAX_ZOOM
        &&& !self.animating ==> self.current_zoom == self.target_zoom
        &&& self.duration > 0
    }

    /// At rest at the smallest zoom.
    pub fn new() -> (state: AnimationState)
        ensures
            state.wf(),
            state.current_zoom == MIN_ZOOM,
            state.target_zoom == MIN_ZOOM,
            !state.animating,
            state.start_time == 0,
            state.duration == ANIMATION_DURATION,
    {
        AnimationState {
            current_zoom: MIN_ZOOM,
            target_zoom: MIN_ZOOM,
            animating: false,
            start_time: 0,
            duration: ANIMATION_DURATION,
        }
    }

    /// The target that a request to change the zoom by `delta` leads to.
    pub fn requested_target(&self, delta: i64) -> (target: i64)
        requires
            self.wf(),
        ensures
            target == next_target(self.target_zoom as int, delta as int),
            MIN_ZOOM <= target <= MAX_ZOOM,
    {
        let wanted: i64 = if delta >= MAX_ZOOM - self.target_zoom {
            MAX_ZOOM
        } else if delta <= MIN_ZOOM - self.target_zoom {
            MIN_ZOOM
        } else {
            self.target_zoom + delta
        };
        let change: i64 = wanted - self.target_zoom;
        if -ZOOM_EPSILON < change && change < ZOOM_EPSILON {
            self.target_zoom
        } else {
            wanted
        }
    }

    /// Asks for the zoom to change by `delta`. Where that moves the target,
    /// a transition toward the new target begins at `now`, from the zoom
    /// that is on screen; the result tells whether it did.
    pub fn request_zoom(&mut self, delta: i64, now: u64) -> (changed: bool)
        requires
            old(self).wf(),
        ensures
            final(self).wf(),
            final(self).target_zoom == next_target(old(self).target_zoom as int, delta as int),
            changed == (final(self).target_zoom != old(self).target_zoom),
            final(self).current_zoom == old(self).current_zoom,
            final(self).duration == old(self).duration,
            changed ==> final(self).animating && final(self).start_time == now,
            !changed ==> *final(self) == *old(self),
    {
        let target: i64 = self.requested_target(delta);
        if target == self.target_zoom {
            return false;
        }
        self.target_zoom = target;
        self.animating = true;
        self.start_time = now;
        true
    }

    /// Fraction of the transition that has passed at time `now`.
    pub fn progress(&self, now: u64) -> (p: i64)
        requires
            self.duration > 0,
        ensures
            p == progress_spec(self.start_time as int, self.duration as int, now as int),
            0 <= p <= SCALE,
    {
        if now <= self.start_time {
            return 0;
        }
        let elapsed: u64 = now - self.start_time;
        if elapsed >= self.duration {
            return SCALE;
        }
        assert((elapsed * 1000) / (self.duration as int) < 1000) by (nonlinear_arith)
            requires
                0 <= elapsed < self.duration,
        ;
        let scaled: u128 = ((elapsed as u128) * 1000) / (self.duration as u128);
        scaled as i64
    }

    /// Advances the transition to time `now`. At rest nothing changes and
    /// the result is `None`. Otherwise the zoom on screen moves toward the
    /// target by the eased progress, which is returned; once the whole
    /// duration has passed the zoom is the target and the state is at rest.
    pub fn tick(&mut self, now: u64) -> (eased: Option<i64>)
        requires
            old(self).wf(),
        ensures
            final(self).wf(),
            final(self).target_zoom == old(self).target_zoom,
            final(self).start_time == old(self).start_time,
            final(self).duration == old(self).duration,
            !old(self).animating ==> eased is None && *final(self) == *old(self),
            eased matches Some(e) ==> 0 <= e <= SCALE,
            old(self).current_zoom <= old(self).target_zoom ==> {
                &&& old(self).current_zoom <= final(self).current_zoom
                &&& final(self).current_zoom <= old(self).target_zoom
            },
            old(self).current_zoom >= old(self).target_zoom ==> {
                &&& old(self).current_zoom >= final(self).current_zoom
                &&& final(self).current_zoom >= old(self).target_zoom
            },
            old(self).animating ==> {
                let p = progress_spec(
                    old(self).start_time as int,
                    old(self).duration as int,
                    now as int,
                );
                &&& eased == Some(ease_spec(p) as i64)
                &&& final(self).animating == (p < SCALE)
                &&& p < SCALE ==> final(self).current_zoom == lerp_spec(
                    old(self).current_zoom as int,
                    old(self).target_zoom as int,
                    ease_spec(p),
                )
                &&& p >= SCALE ==> final(self).current_zoom == old(self).target_zoom
            },
    {
        if !self.animating {
            return None;
        }
        let p: i64 = self.progress(now);
        let eased: i64 = ease_in_out_quad(p);
        proof {
            lemma_lerp_between(self.current_zoom as int, self.target_zoom as int, eased as int);
        }
        self.current_zoom = lerp(self.current_zoom, self.target_zoom, eased);
        if p >= SCALE {
            self.animating = false;
            self.current_zoom = self.target_zoom;
        }
        Some(eased)
    }
}

/// Once the duration of a transition has passed, its progress is complete
/// and so is the eased progress.
pub proof fn law_transition_ends(start_time: int, duration: int, now: int)
    requires
        duration > 0,
        now >= start_time + duration,
    ensures
        progress_spec(start_time, duration, now) == SCALE,
        ease_spec(progress_spec(start_time, duration, now)) == SCALE,
{
    law_ease_fixed_points();
}

/// Requests in one direction never carry the target out of the range from
/// `MIN_ZOOM` to `MAX_ZOOM`, never move it backward, and move it by the
/// whole of `delta` each time as long as that stays in range. Once the
/// range is exhausted the target is at the end of the range, or less than
/// `ZOOM_EPSILON` short of it.
pub proof fn law_zoom_converges(target: int, delta: int, count: nat)
    requires
        MIN_ZOOM <= target <= MAX_ZOOM,
        delta >= ZOOM_EPSILON || delta <= -ZOOM_EPSILON,
    ensures
        MIN_ZOOM <= target_after(target, delta, count) <= MAX_ZOOM,
        delta > 0 ==> target <= target_after(target, delta, count),
        delta < 0 ==> target >= target_after(target, delta, count),
        MIN_ZOOM <= target + count * delta <= MAX_ZOOM ==> target_after(target, delta, count)
            == target + count * delta,
        target + count * delta > MAX_ZOOM ==> MAX_ZOOM - ZOOM_EPSILON < target_after(
            target,
            delta,
            count,
        ),
        target + count * delta < MIN_ZOOM ==> target_after(target, delta, count) < MIN_ZOOM
            + ZOOM_EPSILON,
    decreases count,
{
    if count > 0 {
        law_zoom_converges(target, delta, (count - 1) as nat);
        let before = target_after(target, delta, (count - 1) as nat);
        assert(count * delta == (count - 1) * delta + delta) by (nonlinear_arith);
        assert(delta > 0 ==> (count - 1) * delta >= 0) by (nonlinear_arith)
            requires
                count >= 1,
        ;
        assert(delta < 0 ==> (count - 1) * delta <= 0) by (nonlinear_arith)
            requires
                count >= 1,
        ;
    } else {
        assert(count * delta == 0) by (nonlinear_arith)
            requires
                count == 0,
        ;
    }
}

} // verus!
