//! The animation clock: it turns a fixed tick rate into the delays between
//! the frames of the output, which are whole units of 10 ms.
//!
//! The delay of a frame is measured from the last emitted time, which lies on
//! the 10 ms grid, not from the time of the frame before. What one frame
//! loses by rounding the next one gets back, so the delays never drift from
//! the ticks by more than one unit.
use vstd::prelude::*;
use vstd::arithmetic::div_mod::{lemma_fundamental_div_mod, lemma_fundamental_div_mod_converse};

verus! {

/// Microseconds in one delay unit.
pub const UNIT_US: u64 = 10_000;

/// Milliseconds in one delay unit.
pub const UNIT_MS: u64 = 10;

/// Microseconds in one second.
pub const SECOND_US: u32 = 1_000_000;

/// The time of frame `frame`, in microseconds: frames are counted from 1,
/// and frame 0 is the start.
pub open spec fn frame_time(interval: int, frame: int) -> int {
    frame * interval
}

/// The time emitted up to frame `frame`, in milliseconds: the frame's time,
/// rounded down to the grid of 10 ms.
pub open spec fn emitted_ms(interval: int, frame: int) -> int {
    (frame_time(interval, frame) / (UNIT_US as int)) * UNIT_MS
}

/// The delay of frame `frame` in units of 10 ms: the time from what was
/// emitted up to the frame before until this frame, rounded down.
pub open spec fn delay_units(interval: int, frame: int) -> int {
    (frame_time(interval, frame) - emitted_ms(interval, frame - 1) * 1000) / (UNIT_US as int)
}

/// Largest delay that the output format can store.
pub const MAX_DELAY: u64 = 65_535;

/// The delay of frame `frame` as the output stores it: a delay beyond
/// `MAX_DELAY` is stored as `MAX_DELAY`.
pub open spec fn stored_delay(interval: int, frame: int) -> int {
    if delay_units(interval, frame) > MAX_DELAY {
        MAX_DELAY as int
    } else {
        delay_units(interval, frame)
    }
}

/// The clock of a recording.
#[derive(Clone, Copy, Debug, PartialEq, Eq, Structural)]
pub struct AnimationClock {
    /// Time between two frames, in microseconds.
    pub frame_interval: u32,
    /// The time emitted so far, in milliseconds: a multiple of 10.
    pub last_emitted_ms: u64,
    /// Number of frames emitted so far.
    pub frame: u32,
}

impl AnimationClock {
    /// The clock's invariant: the emitted time is that of the current frame,
    /// rounded down to the grid.
    pub open spec fn wf(self) -> bool {
        self.last_emitted_ms == emitted_ms(self.frame_interval as int, self.frame as int)
    }

    /// A clock at the start, with the given time between frames in
    /// microseconds.
    pub fn new(frame_interval: u32) -> (clock: AnimationClock)
        ensures
            clock == (AnimationClock { frame_interval, last_emitted_ms: 0, frame: 0 }),
            clock.wf(),
    {
        assert(0int * (frame_interval as int) == 0);
        AnimationClock { frame_interval, last_emitted_ms: 0, frame: 0 }
    }

    /// A clock at the start for `fps` frames per second, where `fps` is not
    /// zero: the time between frames is the `fps`-th part of a second,
    /// rounded down to whole microseconds.
    pub fn from_fps(fps: u32) -> (r: Option<AnimationClock>)
        ensures
            fps == 0 ==> r.is_none(),
            fps > 0 ==> r == Some(
                AnimationClock {
                    frame_interval: (SECOND_US / fps) as u32,
                    last_emitted_ms: 0,
                    frame: 0,
                },
            ) && r.unwrap().wf(),
    {
        if fps == 0 {
            None
        } else {
            Some(AnimationClock::new(SECOND_US / fps))
        }
    }

    /// Advances to the next frame and returns its delay in units of 10 ms.
    pub fn next_delay(&mut self) -> (delay: u64)
        requires
            old(self).wf(),
            old(self).frame < u32::MAX,
        ensures
            final(self).frame == old(self).frame + 1,
            final(self).frame_interval == old(self).frame_interval,
            delay == delay_units(final(self).frame_interval as int, final(self).frame as int),
            final(self).last_emitted_ms == emitted_ms(
                final(self).frame_interval as int,
                final(self).frame as int,
            ),
            final(self).wf(),
    {
        let frame: u32 = self.frame + 1;
        proof {
            let i = self.frame_interval as int;
            let f = self.frame as int;
            assert(0 <= f * i <= (f + 1) * i <= 0xffff_ffff * 0xffff_ffff) by (nonlinear_arith)
                requires
                    0 <= f < 0xffff_ffff,
                    0 <= i <= 0xffff_ffff,
            ;
            lemma_fundamental_div_mod(f * i, UNIT_US as int);
            assert(((f * i) / (UNIT_US as int)) * 10 * 1000 == (UNIT_US as int) * ((f * i) / (
            UNIT_US as int)));
        }
        let now: u64 = frame as u64 * self.frame_interval as u64;
        let delay: u64 = (now - self.last_emitted_ms * 1000) / UNIT_US;
        self.last_emitted_ms = (now / UNIT_US) * UNIT_MS;
        self.frame = frame;
        delay
    }

    /// Advances to the next frame and returns its delay as the output stores
    /// it, in 16 bits.
    pub fn next_stored_delay(&mut self) -> (delay: u16)
        requires
            old(self).wf(),
            old(self).frame < u32::MAX,
        ensures
            final(self).frame == old(self).frame + 1,
            final(self).frame_interval == old(self).frame_interval,
            delay == stored_delay(final(self).frame_interval as int, final(self).frame as int),
            final(self).last_emitted_ms == emitted_ms(
                final(self).frame_interval as int,
                final(self).frame as int,
            ),
            final(self).wf(),
    {
        let exact: u64 = self.next_delay();
        if exact > MAX_DELAY {
            65_535
        } else {
            exact as u16
        }
    }
}

/// Every emitted time lies on the grid of 10 ms and never runs ahead of the
/// frame's time nor falls 10 ms behind it: the clock does not drift.
pub proof fn lemma_no_drift(interval: int, frame: int)
    requires
        0 <= interval,
        0 <= frame,
    ensures
        emitted_ms(interval, frame) % 10 == 0,
        0 <= frame_time(interval, frame) - emitted_ms(interval, frame) * 1000 < 10_000,
{
    let t = frame_time(interval, frame);
    let q = t / (UNIT_US as int);
    lemma_fundamental_div_mod(t, UNIT_US as int);
    assert(emitted_ms(interval, frame) == q * 10);
    lemma_fundamental_div_mod_converse(q * 10, 10, q, 0);
}

/// The delay of a frame is the number of grid points that its time has
/// passed since the frame before. So the delays of the first `frame` frames
/// add up to the time of the last of them in whole units, and each delay is
/// at least zero.
pub proof fn lemma_delay_counts_grid(interval: int, frame: int)
    requires
        0 <= interval,
        1 <= frame,
    ensures
        delay_units(interval, frame) == frame_time(interval, frame) / 10_000 - frame_time(
            interval,
            frame - 1,
        ) / 10_000,
        delay_units(interval, frame) >= 0,
        emitted_ms(interval, frame) == emitted_ms(interval, frame - 1) + 10 * delay_units(
            interval,
            frame,
        ),
{
    let now = frame_time(interval, frame);
    let before = frame_time(interval, frame - 1);
    let u = UNIT_US as int;
    assert(now == before + interval) by (nonlinear_arith)
        requires
            now == frame * interval,
            before == (frame - 1) * interval,
    ;
    let qb = before / u;
    let qn = now / u;
    lemma_fundamental_div_mod(before, u);
    lemma_fundamental_div_mod(now, u);
    let rest = now - qb * u;
    assert(emitted_ms(interval, frame - 1) * 1000 == qb * u);
    assert(rest == (qn - qb) * u + now % u) by (nonlinear_arith)
        requires
            rest == now - qb * u,
            now == u * qn + now % u,
    ;
    lemma_fundamental_div_mod_converse(rest, u, qn - qb, now % u);
    assert(qn >= qb) by (nonlinear_arith)
        requires
            now >= before,
            before == u * qb + before % u,
            now == u * qn + now % u,
            0 <= before % u < u,
            0 <= now % u < u,
            u > 0,
    ;
}

/// Timing quantization: where the time between frames is a whole number of
/// units, every frame has that number as its delay, and the emitted time is
/// the frame's time exactly. At 10 frames per second every delay is 10.
pub proof fn lemma_steady_delay(interval: int, frame: int)
    requires
        0 <= interval,
        interval % 10_000 == 0,
        1 <= frame,
    ensures
        delay_units(interval, frame) == interval / 10_000,
        emitted_ms(interval, frame) * 1000 == frame_time(interval, frame),
        interval == 100_000 ==> delay_units(interval, frame) == 10,
{
    let u = UNIT_US as int;
    let per = interval / u;
    lemma_fundamental_div_mod(interval, u);
    assert(interval == per * u);
    let now = frame_time(interval, frame);
    let before = frame_time(interval, frame - 1);
    assert(now == (frame * per) * u && before == ((frame - 1) * per) * u && frame * per == (frame
        - 1) * per + per) by (nonlinear_arith)
        requires
            now == frame * interval,
            before == (frame - 1) * interval,
            interval == per * u,
    ;
    lemma_fundamental_div_mod_converse(now, u, frame * per, 0);
    lemma_fundamental_div_mod_converse(before, u, (frame - 1) * per, 0);
    lemma_delay_counts_grid(interval, frame);
}

} // verus!
