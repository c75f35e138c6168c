use vstd::prelude::*;

use crate::geometry::{coord_ok, Segment};

verus! {

/// Animated positions are snapped to multiples of this many field units.
pub const QUANTUM: i64 = 10;

/// One step of the snake, animated over time. Times are in milliseconds.
pub struct Animation {
    pub start_time: u64,
    pub duration: u64,
    pub start_position: Vec<Segment>,
    pub end_position: Vec<Segment>,
    pub is_paused: bool,
    pub pause_start_time: u64,
    pub pause_total: u64,
}

/// The mathematical model of an `Animation`.
pub struct AnimationView {
    pub start_time: nat,
    pub duration: nat,
    pub start_position: Seq<Segment>,
    pub end_position: Seq<Segment>,
    pub is_paused: bool,
    pub pause_start_time: nat,
    pub pause_total: nat,
}

impl View for Animation {
    type V = AnimationView;

    open spec fn view(&self) -> AnimationView {
        AnimationView {
            start_time: self.start_time as nat,
            duration: self.duration as nat,
            start_position: self.start_position@,
            end_position: self.end_position@,
            is_paused: self.is_paused,
            pause_start_time: self.pause_start_time as nat,
            pause_total: self.pause_total as nat,
        }
    }
}

impl AnimationView {
    /// A positive duration, and a head at both ends within the limits.
    pub open spec fn wf(self) -> bool {
        &&& self.duration > 0
        &&& self.start_position.len() >= 1
        &&& self.start_position.len() == self.end_position.len()
        &&& self.start_position[0].in_limits()
        &&& self.end_position[0].in_limits()
        &&& self.pause_total <= u64::MAX
    }

    /// Milliseconds of progress at time `now`: the time since the start less
    /// the time spent paused, frozen while paused, and never negative.
    pub open spec fn elapsed_at(self, now: nat) -> nat {
        let base: int = if self.is_paused {
            self.pause_start_time as int
        } else {
            now as int
        };
        let e = base - self.start_time - self.pause_total;
        if e > 0 {
            e as nat
        } else {
            0
        }
    }

    pub open spec fn done_at(self, now: nat) -> bool {
        self.elapsed_at(now) >= self.duration
    }

    /// Pausing records the time once; it does nothing while paused.
    pub open spec fn paused_at(self, now: nat) -> AnimationView {
        if self.is_paused {
            self
        } else {
            AnimationView { is_paused: true, pause_start_time: now, ..self }
        }
    }

    /// Resuming adds the time spent paused to the total; it does nothing
    /// while running.
    pub open spec fn resumed_at(self, now: nat) -> AnimationView {
        if !self.is_paused {
            self
        } else {
            let gap: int = if now >= self.pause_start_time {
                now - self.pause_start_time
            } else {
                0
            };
            let total: int = if self.pause_total + gap <= u64::MAX {
                self.pause_total + gap
            } else {
                u64::MAX as int
            };
            AnimationView { is_paused: false, pause_total: total as nat, ..self }
        }
    }

    /// The progress used for interpolation, clamped to the duration.
    pub open spec fn progress_at(self, now: nat) -> nat {
        if self.elapsed_at(now) <= self.duration {
            self.elapsed_at(now)
        } else {
            self.duration
        }
    }

    /// The rendered head position at time `now`.
    pub open spec fn interpolate_at(self, now: nat) -> Segment {
        let t = self.progress_at(now) as int;
        let d = self.duration as int;
        let s = self.start_position[0];
        let e = self.end_position[0];
        Segment {
            x: snap(lerp(s.x as int, e.x as int, t, d)) as i64,
            y: snap(lerp(s.y as int, e.y as int, t, d)) as i64,
        }
    }
}

/// Linear interpolation from `s` to `e` at progress `t` of `d`, rounded down.
pub open spec fn lerp(s: int, e: int, t: int, d: int) -> int {
    s + (e - s) * t / d
}

/// Rounds to the nearest multiple of the quantum, halves upwards.
pub open spec fn snap(v: int) -> int {
    ((v + (QUANTUM as int) / 2) / (QUANTUM as int)) * (QUANTUM as int)
}

proof fn lemma_lerp_between(s: int, e: int, t: int, d: int)
    requires
        0 <= t <= d,
        d > 0,
    ensures
        s <= e ==> s <= lerp(s, e, t, d) <= e,
        e < s ==> e <= lerp(s, e, t, d) <= s,
{
    let delta = e - s;
    vstd::arithmetic::div_mod::lemma_div_multiples_vanish(delta, d);
    assert((d * delta) / d == delta);
    assert(delta * d == d * delta) by (nonlinear_arith);
    vstd::arithmetic::div_mod::lemma_div_multiples_vanish(0, d);
    assert(d * 0 == 0);
    if delta >= 0 {
        assert(0 <= delta * t <= delta * d) by (nonlinear_arith)
            requires
                delta >= 0,
                0 <= t <= d,
        ;
        vstd::arithmetic::div_mod::lemma_div_is_ordered(0, delta * t, d);
        vstd::arithmetic::div_mod::lemma_div_is_ordered(delta * t, delta * d, d);
    } else {
        assert(delta * d <= delta * t <= 0) by (nonlinear_arith)
            requires
                delta < 0,
                0 <= t <= d,
        ;
        vstd::arithmetic::div_mod::lemma_div_is_ordered(delta * t, 0, d);
        vstd::arithmetic::div_mod::lemma_div_is_ordered(delta * d, delta * t, d);
    }
}

proof fn lemma_snap_close(v: int)
    ensures
        v - 5 < snap(v) <= v + 5,
{
    vstd::arithmetic::div_mod::lemma_fundamental_div_mod(v + 5, 10);
    vstd::arithmetic::div_mod::lemma_mod_bound(v + 5, 10);
}

proof fn lemma_snap_multiple(v: int)
    requires
        v % (QUANTUM as int) == 0,
    ensures
        snap(v) == v,
{
    vstd::arithmetic::div_mod::lemma_fundamental_div_mod(v, 10);
    let k = v / 10;
    vstd::arithmetic::div_mod::lemma_fundamental_div_mod_converse(v + 5, 10, k, 5);
}

/// One coordinate of the rendered head: interpolated, then snapped.
fn interpolate_coord(s: i64, e: i64, t: u64, d: u64) -> (r: i64)
    requires
        coord_ok(s as int),
        coord_ok(e as int),
        t <= d,
        d > 0,
    ensures
        r == snap(lerp(s as int, e as int, t as int, d as int)),
        -crate::geometry::COORD_LIMIT - 5 <= r <= crate::geometry::COORD_LIMIT + 5,
{
    proof {
        lemma_lerp_between(s as int, e as int, t as int, d as int);
        lemma_snap_close(lerp(s as int, e as int, t as int, d as int));
    }
    let delta: i128 = (e as i128) - (s as i128);
    assert(-4_000_000_000 <= delta <= 4_000_000_000);
    assert(-4_000_000_000 * 0x1_0000_0000_0000_0000 <= delta * (t as int)
        <= 4_000_000_000 * 0x1_0000_0000_0000_0000) by (nonlinear_arith)
        requires
            -4_000_000_000 <= delta <= 4_000_000_000,
            0 <= t <= 0xffff_ffff_ffff_ffff,
    ;
    let scaled: i128 = delta * (t as i128);
    let moved: i128 = match scaled.checked_div_euclid(d as i128) {
        Some(q) => q,
        None => 0,
    };
    assert(moved as int == (scaled as int) / (d as int));
    let v: i128 = (s as i128) + moved;
    let half: i128 = (QUANTUM / 2) as i128;
    let q: i128 = match (v + half).checked_div_euclid(QUANTUM as i128) {
        Some(q) => q,
        None => 0,
    };
    assert(q as int == (v + 5) / 10);
    (q * (QUANTUM as i128)) as i64
}

impl Animation {
    /// Starts an animation at `now`, running.
    pub fn new(now: u64, duration: u64, start_position: Vec<Segment>, end_position: Vec<Segment>) -> (r:
        Animation)
        requires
            duration > 0,
            start_position@.len() >= 1,
            start_position@.len() == end_position@.len(),
            start_position@[0].in_limits(),
            end_position@[0].in_limits(),
        ensures
            r@ == (AnimationView {
                start_time: now as nat,
                duration: duration as nat,
                start_position: start_position@,
                end_position: end_position@,
                is_paused: false,
                pause_start_time: 0,
                pause_total: 0,
            }),
            r@.wf(),
    {
        Animation {
            start_time: now,
            duration,
            start_position,
            end_position,
            is_paused: false,
            pause_start_time: 0,
            pause_total: 0,
        }
    }

    /// Milliseconds of progress at time `now`, not counting time paused.
    pub fn elapsed(&self, now: u64) -> (r: u64)
        ensures
            r == self@.elapsed_at(now as nat),
    {
        let base = if self.is_paused {
            self.pause_start_time
        } else {
            now
        };
        if base > self.start_time && base - self.start_time > self.pause_total {
            base - self.start_time - self.pause_total
        } else {
            0
        }
    }

    /// Whether the animation has run its full duration at time `now`.
    pub fn done(&self, now: u64) -> (r: bool)
        ensures
            r == self@.done_at(now as nat),
    {
        self.elapsed(now) >= self.duration
    }

    /// Freezes progress from `now` on; does nothing while already paused.
    pub fn pause(&mut self, now: u64)
        ensures
            final(self)@ == old(self)@.paused_at(now as nat),
    {
        if self.is_paused {
            return ;
        }
        self.pause_start_time = now;
        self.is_paused = true;
    }

    /// Lets progress run again, not counting the time spent paused.
    pub fn resume(&mut self, now: u64)
        ensures
            final(self)@ == old(self)@.resumed_at(now as nat),
    {
        if !self.is_paused {
            return ;
        }
        let gap = if now >= self.pause_start_time {
            now - self.pause_start_time
        } else {
            0
        };
        self.pause_total = self.pause_total.saturating_add(gap);
        self.is_paused = false;
    }

    /// The head's rendered position at time `now`: moved from the start
    /// towards the end in proportion to the progress, then snapped.
    pub fn interpolate(&self, now: u64) -> (r: Segment)
        requires
            self@.wf(),
        ensures
            r == self@.interpolate_at(now as nat),
    {
        let e = self.elapsed(now);
        let t = if e <= self.duration {
            e
        } else {
            self.duration
        };
        let s = self.start_position[0];
        let f = self.end_position[0];
        let x = interpolate_coord(s.x, f.x, t, self.duration);
        let y = interpolate_coord(s.y, f.y, t, self.duration);
        Segment { x, y }
    }
}

/// The rendered head lies within half a quantum of the box spanned by the
/// start and end of the head's move.
pub proof fn lemma_interpolation_bounds(a: AnimationView, now: nat)
    requires
        a.wf(),
    ensures
        ({
            let s = a.start_position[0];
            let e = a.end_position[0];
            let r = a.interpolate_at(now);
            &&& (s.x <= e.x ==> s.x - 5 < r.x <= e.x + 5)
            &&& (e.x < s.x ==> e.x - 5 < r.x <= s.x + 5)
            &&& (s.y <= e.y ==> s.y - 5 < r.y <= e.y + 5)
            &&& (e.y < s.y ==> e.y - 5 < r.y <= s.y + 5)
        }),
{
    let s = a.start_position[0];
    let e = a.end_position[0];
    let t = a.progress_at(now) as int;
    let d = a.duration as int;
    lemma_lerp_between(s.x as int, e.x as int, t, d);
    lemma_lerp_between(s.y as int, e.y as int, t, d);
    lemma_snap_close(lerp(s.x as int, e.x as int, t, d));
    lemma_snap_close(lerp(s.y as int, e.y as int, t, d));
}

/// An animation shows its start position at no progress and its end
/// position once its duration has passed, where both lie on the quantum.
pub proof fn lemma_interpolation_endpoints(a: AnimationView, now: nat)
    requires
        a.wf(),
        (a.start_position[0].x as int) % (QUANTUM as int) == 0,
        (a.start_position[0].y as int) % (QUANTUM as int) == 0,
        (a.end_position[0].x as int) % (QUANTUM as int) == 0,
        (a.end_position[0].y as int) % (QUANTUM as int) == 0,
    ensures
        a.elapsed_at(now) == 0 ==> a.interpolate_at(now) == a.start_position[0],
        a.done_at(now) ==> a.interpolate_at(now) == a.end_position[0],
{
    let s = a.start_position[0];
    let e = a.end_position[0];
    let d = a.duration as int;
    if a.elapsed_at(now) == 0 {
        vstd::arithmetic::div_mod::lemma_div_multiples_vanish(0, d);
        assert((e.x - s.x) * 0 == 0);
        assert((e.y - s.y) * 0 == 0);
        assert(d * 0 == 0);
        lemma_snap_multiple(s.x as int);
        lemma_snap_multiple(s.y as int);
    }
    if a.done_at(now) {
        vstd::arithmetic::div_mod::lemma_div_multiples_vanish(e.x - s.x, d);
        vstd::arithmetic::div_mod::lemma_div_multiples_vanish(e.y - s.y, d);
        assert((e.x - s.x) * d == d * (e.x - s.x)) by (nonlinear_arith);
        assert((e.y - s.y) * d == d * (e.y - s.y)) by (nonlinear_arith);
        lemma_snap_multiple(e.x as int);
        lemma_snap_multiple(e.y as int);
    }
}

/// Time spent paused does not count: after pausing at `p` and resuming at
/// `r`, progress at any later time equals the progress the animation would
/// have made had it kept running and been started `r - p` later.
pub proof fn lemma_pause_does_not_count(a: AnimationView, p: nat, r: nat, t: nat)
    requires
        !a.is_paused,
        p <= r <= t,
        a.pause_total + (r - p) <= u64::MAX,
    ensures
        a.paused_at(p).elapsed_at(t) == a.elapsed_at(p),
        a.paused_at(p).resumed_at(r).pause_total == a.pause_total + (r - p),
        a.paused_at(p).resumed_at(r).elapsed_at(r) == a.elapsed_at(p),
        a.paused_at(p).resumed_at(r).elapsed_at(t) == a.elapsed_at((t - (r - p)) as nat),
{
}

} // verus!
