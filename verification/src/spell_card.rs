//! The projectile pattern: a rectangular field from whose center a burst of
//! projectiles is spawned on every tick, moved along straight lines, and
//! dropped once it has left the field.
use vstd::prelude::*;
use crate::fixed::{div_toward_zero, step_length, wrap_angle, quotient_toward_zero, wrap};
use crate::fixed::{FULL_TURN, MAX_LENGTH, UNIT};

verus! {

/// Largest deviation of `dx * dx + dy * dy` from `UNIT * UNIT` that a
/// direction may show: what rounding each component of a true unit vector to a
/// neighbouring integer can cause.
pub const UNIT_TOLERANCE: i64 = 3_000_000;

/// Whether `(dx, dy)` is a unit vector, up to the rounding of its components.
pub open spec fn unit_vector(dx: int, dy: int) -> bool {
    &&& -(UNIT as int) <= dx <= UNIT
    &&& -(UNIT as int) <= dy <= UNIT
    &&& UNIT * UNIT - UNIT_TOLERANCE <= dx * dx + dy * dy <= UNIT * UNIT + UNIT_TOLERANCE
}

/// A direction of flight: the cosine and the sine of an angle, in millionths.
#[derive(Clone, Copy, Debug, PartialEq, Eq, Structural)]
pub struct Direction {
    pub dx: i64,
    pub dy: i64,
}

impl Direction {
    /// Whether this direction is a unit vector, up to rounding.
    pub open spec fn is_unit(self) -> bool {
        unit_vector(self.dx as int, self.dy as int)
    }

    /// Makes a direction of two components, if they form a unit vector up to
    /// rounding.
    pub fn new(dx: i64, dy: i64) -> (r: Option<Direction>)
        ensures
            r == (if unit_vector(dx as int, dy as int) {
                Some(Direction { dx, dy })
            } else {
                None
            }),
    {
        if dx < -UNIT || dx > UNIT || dy < -UNIT || dy > UNIT {
            return None;
        }
        assert(0 <= dx * dx <= UNIT * UNIT) by (nonlinear_arith)
            requires
                -UNIT <= dx <= UNIT,
        ;
        assert(0 <= dy * dy <= UNIT * UNIT) by (nonlinear_arith)
            requires
                -UNIT <= dy <= UNIT,
        ;
        let norm: i64 = dx * dx + dy * dy;
        if norm < UNIT * UNIT - UNIT_TOLERANCE || norm > UNIT * UNIT + UNIT_TOLERANCE {
            None
        } else {
            Some(Direction { dx, dy })
        }
    }
}

/// One projectile: its center `(x, y)` in the field, in millionths of a
/// pixel, and its direction of flight `(dx, dy)`.
#[derive(Clone, Copy, Debug, PartialEq, Eq, Structural)]
pub struct Bullet {
    pub x: i64,
    pub y: i64,
    pub dx: i64,
    pub dy: i64,
}

impl Bullet {
    /// The projectile one tick later, flying `speed` per tick.
    pub open spec fn advanced(self, speed: int) -> Bullet {
        Bullet {
            x: (self.x + step_length(self.dx as int, speed)) as i64,
            y: (self.y + step_length(self.dy as int, speed)) as i64,
            dx: self.dx,
            dy: self.dy,
        }
    }
}

/// A corner of a quad in normalized device coordinates, in millionths: the
/// field's left edge is at `x == -UNIT`, its right edge at `x == UNIT`, its
/// top edge at `y == UNIT` and its bottom edge at `y == -UNIT`.
#[derive(Clone, Copy, Debug, PartialEq, Eq, Structural)]
pub struct Vertex {
    pub x: i64,
    pub y: i64,
}

/// The four corners of a projectile's bounding box, in the order of a
/// triangle strip.
#[derive(Clone, Copy, Debug, PartialEq, Eq, Structural)]
pub struct Quad {
    pub left_top: Vertex,
    pub right_top: Vertex,
    pub left_bottom: Vertex,
    pub right_bottom: Vertex,
}

impl Quad {
    /// The eight coordinates in the order in which they are packed into the
    /// geometry buffer: `x` then `y` of the left top, the right top, the left
    /// bottom and the right bottom corner.
    pub open spec fn packed(self) -> Seq<i64> {
        seq![
            self.left_top.x,
            self.left_top.y,
            self.right_top.x,
            self.right_top.y,
            self.left_bottom.x,
            self.left_bottom.y,
            self.right_bottom.x,
            self.right_bottom.y,
        ]
    }

    /// The eight coordinates in packing order.
    pub fn coordinates(&self) -> (r: [i64; 8])
        ensures
            r@ == self.packed(),
    {
        let r = [
            self.left_top.x,
            self.left_top.y,
            self.right_top.x,
            self.right_top.y,
            self.left_bottom.x,
            self.left_bottom.y,
            self.right_bottom.x,
            self.right_bottom.y,
        ];
        assert(r@ =~= self.packed());
        r
    }
}

/// Whether a field of `width` by `height`, a number of ways, a speed and the
/// half extents of a projectile are within the library's limits: the field is
/// not empty, there is at least one way, the half extents are not negative,
/// and no length exceeds `MAX_LENGTH`.
pub open spec fn within_limits(
    width: int,
    height: int,
    ways: int,
    speed_per_frame: int,
    half_bullet_width: int,
    half_bullet_height: int,
) -> bool {
    &&& 0 < width <= MAX_LENGTH
    &&& 0 < height <= MAX_LENGTH
    &&& 0 <= half_bullet_width <= MAX_LENGTH
    &&& 0 <= half_bullet_height <= MAX_LENGTH
    &&& -(MAX_LENGTH as int) <= speed_per_frame <= MAX_LENGTH
    &&& 1 <= ways
}

/// The pattern's state as a mathematical value.
pub ghost struct RegionState {
    pub width: int,
    pub height: int,
    pub ways: nat,
    pub speed_per_frame: int,
    pub angle: int,
    pub a_angle: int,
    pub a_a_angle: int,
    pub bullets: Seq<Bullet>,
    pub half_bullet_width: int,
    pub half_bullet_height: int,
}

impl RegionState {
    /// Whether the bounding box of a projectile centered at `(x, y)` reaches
    /// into the field: the test that decides which projectiles stay.
    pub open spec fn in_sight(self, x: int, y: int) -> bool {
        !(x + self.half_bullet_width <= 0 || x - self.half_bullet_width >= self.width
            || y + self.half_bullet_height <= 0 || y - self.half_bullet_height >= self.height)
    }

    /// Whether `b` may be among the live projectiles: it is in sight and its
    /// direction is a unit vector.
    pub open spec fn live(self, b: Bullet) -> bool {
        &&& self.in_sight(b.x as int, b.y as int)
        &&& unit_vector(b.dx as int, b.dy as int)
    }

    /// Whether the field, the half extents and the speed are within the
    /// library's limits.
    pub open spec fn sized(self) -> bool {
        within_limits(
            self.width,
            self.height,
            self.ways as int,
            self.speed_per_frame,
            self.half_bullet_width,
            self.half_bullet_height,
        )
    }

    /// The state of a new pattern: no projectiles, angular velocity zero,
    /// and the given angle reduced to `[0, FULL_TURN)`.
    pub open spec fn initial(
        width: int,
        height: int,
        ways: nat,
        speed_per_frame: int,
        angle: int,
        a_a_angle: int,
        half_bullet_width: int,
        half_bullet_height: int,
    ) -> RegionState {
        RegionState {
            width,
            height,
            ways,
            speed_per_frame,
            angle: wrap_angle(angle),
            a_angle: 0,
            a_a_angle,
            bullets: Seq::empty(),
            half_bullet_width,
            half_bullet_height,
        }
    }

    /// The invariant of the pattern: its sizes are within limits, the angle
    /// and the angular velocity lie in `[0, FULL_TURN)`, and every projectile
    /// is live.
    pub open spec fn wf(self) -> bool {
        &&& self.sized()
        &&& 0 <= self.angle < FULL_TURN
        &&& 0 <= self.a_angle < FULL_TURN
        &&& forall|i: int| 0 <= i < self.bullets.len() ==> self.live(#[trigger] self.bullets[i])
    }

    /// The angle at which the `k`-th projectile of the next burst is spawned:
    /// the base angle plus `k` times the `ways`-th part of a full turn.
    pub open spec fn spawn_angle(self, k: int) -> int {
        self.angle + (k * FULL_TURN) / (self.ways as int)
    }

    /// The projectiles that a burst with the given directions adds: one for
    /// each direction, in that order, all at the center of the field.
    pub open spec fn spawned(self, directions: Seq<Direction>) -> Seq<Bullet> {
        Seq::new(
            directions.len(),
            |k: int|
                Bullet {
                    x: (self.width / 2) as i64,
                    y: (self.height / 2) as i64,
                    dx: directions[k].dx,
                    dy: directions[k].dy,
                },
        )
    }

    /// The test of `in_sight` on a projectile's center, as a predicate.
    pub open spec fn sight(self) -> spec_fn(Bullet) -> bool {
        |b: Bullet| self.in_sight(b.x as int, b.y as int)
    }

    /// The projectiles before they move: the old ones, then the new burst.
    pub open spec fn burst(self, directions: Seq<Direction>) -> Seq<Bullet> {
        self.bullets + self.spawned(directions)
    }

    /// All projectiles, old and newly spawned, after they have moved.
    pub open spec fn moved(self, directions: Seq<Direction>) -> Seq<Bullet> {
        Seq::new(
            self.burst(directions).len(),
            |i: int| self.burst(directions)[i].advanced(self.speed_per_frame),
        )
    }

    /// The horizontal device coordinate of the field position `px`:
    /// `2 * px / width - 1`, in millionths, rounded toward zero.
    pub open spec fn ndc_x(self, px: int) -> int {
        div_toward_zero((2 * px - self.width) * UNIT, self.width)
    }

    /// The vertical device coordinate of the field position `py`:
    /// `1 - 2 * py / height`, in millionths, rounded toward zero. The field's
    /// top is up.
    pub open spec fn ndc_y(self, py: int) -> int {
        div_toward_zero((self.height - 2 * py) * UNIT, self.height)
    }

    /// The corner at the field position `(px, py)` in device coordinates.
    pub open spec fn corner(self, px: int, py: int) -> Vertex {
        Vertex { x: self.ndc_x(px) as i64, y: self.ndc_y(py) as i64 }
    }

    /// The quad of a box centered at `(x, y)` with half extents `hw` and `hh`.
    pub open spec fn quad(self, x: int, y: int, hw: int, hh: int) -> Quad {
        Quad {
            left_top: self.corner(x - hw, y - hh),
            right_top: self.corner(x + hw, y - hh),
            left_bottom: self.corner(x - hw, y + hh),
            right_bottom: self.corner(x + hw, y + hh),
        }
    }

    /// The state one tick later, if the burst is spawned with `directions`:
    /// the projectiles are spawned, all are moved, those out of sight are
    /// dropped in place, then the angular velocity and the angle advance.
    pub open spec fn step(self, directions: Seq<Direction>) -> RegionState {
        let velocity = wrap_angle(self.a_angle + self.a_a_angle);
        RegionState {
            angle: wrap_angle(self.angle + velocity),
            a_angle: velocity,
            bullets: self.moved(directions).filter(self.sight()),
            ..self
        }
    }
}

impl RegionState {
    /// Whether `directions` can be the burst of one tick: one unit vector for
    /// each way.
    pub open spec fn fits(self, directions: Seq<Direction>) -> bool {
        &&& directions.len() == self.ways
        &&& forall|k: int| 0 <= k < directions.len() ==> (#[trigger] directions[k]).is_unit()
    }

    /// The state after one tick for each element of `bursts`, in order.
    pub open spec fn run(self, bursts: Seq<Seq<Direction>>) -> RegionState
        decreases bursts.len(),
    {
        if bursts.len() == 0 {
            self
        } else {
            self.run(bursts.drop_last()).step(bursts.last())
        }
    }
}

/// The pattern: a field of `width` by `height`, from whose center `ways`
/// projectiles are spawned on every tick.
pub struct GameRegion {
    pub width: i64,
    pub height: i64,
    pub ways: u32,
    pub speed_per_frame: i64,
    pub angle: i64,
    pub a_angle: i64,
    pub a_a_angle: i64,
    pub bullets: Vec<Bullet>,
    pub half_bullet_width: i64,
    pub half_bullet_height: i64,
}

impl View for GameRegion {
    type V = RegionState;

    open spec fn view(&self) -> RegionState {
        RegionState {
            width: self.width as int,
            height: self.height as int,
            ways: self.ways as nat,
            speed_per_frame: self.speed_per_frame as int,
            angle: self.angle as int,
            a_angle: self.a_angle as int,
            a_a_angle: self.a_a_angle as int,
            bullets: self.bullets@,
            half_bullet_width: self.half_bullet_width as int,
            half_bullet_height: self.half_bullet_height as int,
        }
    }
}

/// Filtering one element more either appends that element or changes nothing.
proof fn lemma_filter_take_next<A>(s: Seq<A>, p: spec_fn(A) -> bool, r: int)
    requires
        0 <= r < s.len(),
    ensures
        s.take(r + 1).filter(p) == (if p(s[r]) {
            s.take(r).filter(p).push(s[r])
        } else {
            s.take(r).filter(p)
        }),
{
    reveal(Seq::filter);
    assert(s.take(r + 1).drop_last() =~= s.take(r));
}

/// A step along one axis is never longer than the speed.
pub proof fn lemma_step_bounded(d: int, speed: int)
    requires
        -(UNIT as int) <= d <= UNIT,
    ensures
        speed >= 0 ==> -speed <= step_length(d, speed) <= speed,
        speed <= 0 ==> speed <= step_length(d, speed) <= -speed,
{
    let u = UNIT as int;
    let reach = if speed >= 0 { speed } else { -speed };
    let p = d * speed;
    let bound = u * reach;
    assert(-bound <= p <= bound) by (nonlinear_arith)
        requires
            -u <= d <= u,
            reach == speed || reach == -speed,
            reach >= 0,
            p == d * speed,
            bound == u * reach,
    ;
    let n = if p >= 0 { p } else { -p };
    assert(0 <= n / u <= reach) by (nonlinear_arith)
        requires
            0 <= n <= bound,
            bound == u * reach,
            u > 0,
    ;
}

/// A quotient is no further from zero than what is divided.
proof fn lemma_quotient_bounded(a: int, b: int)
    requires
        b > 0,
    ensures
        a >= 0 ==> 0 <= div_toward_zero(a, b) <= a,
        a <= 0 ==> a <= div_toward_zero(a, b) <= 0,
{
    let n = if a >= 0 { a } else { -a };
    assert(0 <= n / b <= n) by (nonlinear_arith)
        requires
            n >= 0,
            b > 0,
    ;
}

impl GameRegion {
    /// Makes a pattern without projectiles and with angular velocity zero.
    /// The initial angle is reduced to `[0, FULL_TURN)`. Returns `None` where
    /// a size is outside the library's limits.
    pub fn new(
        width: i64,
        height: i64,
        ways: u32,
        speed_per_frame: i64,
        angle: i64,
        a_a_angle: i64,
        half_bullet_width: i64,
        half_bullet_height: i64,
    ) -> (r: Option<GameRegion>)
        ensures
            r.is_some() <==> within_limits(
                width as int,
                height as int,
                ways as int,
                speed_per_frame as int,
                half_bullet_width as int,
                half_bullet_height as int,
            ),
            r.is_some() ==> r.unwrap()@.wf() && r.unwrap()@ == RegionState::initial(
                width as int,
                height as int,
                ways as nat,
                speed_per_frame as int,
                angle as int,
                a_a_angle as int,
                half_bullet_width as int,
                half_bullet_height as int,
            ),
    {
        if width <= 0 || width > MAX_LENGTH || height <= 0 || height > MAX_LENGTH {
            return None;
        }
        if half_bullet_width < 0 || half_bullet_width > MAX_LENGTH || half_bullet_height < 0
            || half_bullet_height > MAX_LENGTH {
            return None;
        }
        if speed_per_frame < -MAX_LENGTH || speed_per_frame > MAX_LENGTH || ways < 1 {
            return None;
        }
        let region = GameRegion {
            width,
            height,
            ways,
            speed_per_frame,
            angle: wrap(angle),
            a_angle: 0,
            a_a_angle,
            bullets: Vec::new(),
            half_bullet_width,
            half_bullet_height,
        };
        assert(region.bullets@ =~= Seq::<Bullet>::empty());
        Some(region)
    }

    /// Whether the pattern meets its invariant.
    pub fn is_valid(&self) -> (r: bool)
        ensures
            r == self@.wf(),
    {
        if self.width <= 0 || self.width > MAX_LENGTH || self.height <= 0 || self.height
            > MAX_LENGTH {
            return false;
        }
        if self.half_bullet_width < 0 || self.half_bullet_width > MAX_LENGTH
            || self.half_bullet_height < 0 || self.half_bullet_height > MAX_LENGTH {
            return false;
        }
        if self.speed_per_frame < -MAX_LENGTH || self.speed_per_frame > MAX_LENGTH || self.ways
            < 1 {
            return false;
        }
        if self.angle < 0 || self.angle >= FULL_TURN || self.a_angle < 0 || self.a_angle
            >= FULL_TURN {
            return false;
        }
        let mut i: usize = 0;
        while i < self.bullets.len()
            invariant
                self@.sized(),
                0 <= self.angle < FULL_TURN,
                0 <= self.a_angle < FULL_TURN,
                0 <= i <= self.bullets@.len(),
                forall|j: int| 0 <= j < i ==> self@.live(#[trigger] self@.bullets[j]),
            decreases self.bullets@.len() - i,
        {
            let b = self.bullets[i];
            if b.x < -3 * MAX_LENGTH || b.x > 3 * MAX_LENGTH || b.y < -3 * MAX_LENGTH || b.y > 3
                * MAX_LENGTH {
                assert(!self@.live(self@.bullets[i as int]));
                return false;
            }
            if !self.in_sight(&b) || Direction::new(b.dx, b.dy).is_none() {
                assert(!self@.live(self@.bullets[i as int]));
                return false;
            }
            i += 1;
        }
        true
    }

    /// The angles at which the next tick spawns its burst, one for each way,
    /// in the order of spawning. They start at the pattern's angle, divide
    /// the full turn evenly, and are not reduced.
    pub fn spawn_angles(&self) -> (angles: Vec<i64>)
        requires
            self@.wf(),
        ensures
            angles@.len() == self@.ways,
            forall|k: int| 0 <= k < angles@.len() ==> #[trigger] angles@[k] == self@.spawn_angle(k),
    {
        let mut angles: Vec<i64> = Vec::new();
        let mut k: u32 = 0;
        while k < self.ways
            invariant
                self@.wf(),
                0 <= k <= self.ways,
                angles@.len() == k,
                forall|j: int| 0 <= j < k ==> #[trigger] angles@[j] == self@.spawn_angle(j),
            decreases self.ways - k,
        {
            let turn: i64 = FULL_TURN;
            let ways: i64 = self.ways as i64;
            let part: i64 = k as i64;
            assert(0 <= part * turn <= 4294967295 * 360_000_000) by (nonlinear_arith)
                requires
                    0 <= part <= 4294967295,
                    turn == 360_000_000,
            ;
            let offset: i64 = (part * turn) / ways;
            assert(0 <= offset <= part * turn) by (nonlinear_arith)
                requires
                    offset == (part * turn) / (ways as int),
                    ways >= 1,
                    part * turn >= 0,
            ;
            angles.push(self.angle + offset);
            k += 1;
        }
        angles
    }

    /// The corner at the field position `(px, py)` in device coordinates.
    fn corner(&self, px: i64, py: i64) -> (v: Vertex)
        requires
            self@.sized(),
            -3 * MAX_LENGTH <= px <= 3 * MAX_LENGTH,
            -3 * MAX_LENGTH <= py <= 3 * MAX_LENGTH,
        ensures
            v == self@.corner(px as int, py as int),
    {
        let across: i64 = 2 * px - self.width;
        let up: i64 = self.height - 2 * py;
        proof {
            let u = UNIT as int;
            let m = MAX_LENGTH as int;
            assert(-7 * m * u <= across * u <= 7 * m * u) by (nonlinear_arith)
                requires
                    -7 * m <= across <= 7 * m,
                    u >= 0,
            ;
            assert(-7 * m * u <= up * u <= 7 * m * u) by (nonlinear_arith)
                requires
                    -7 * m <= up <= 7 * m,
                    u >= 0,
            ;
            lemma_quotient_bounded(across * u, self.width as int);
            lemma_quotient_bounded(up * u, self.height as int);
        }
        Vertex {
            x: quotient_toward_zero(across * UNIT, self.width),
            y: quotient_toward_zero(up * UNIT, self.height),
        }
    }

    /// The quad of a box centered at `(x, y)` with the given half extents.
    fn quad(&self, x: i64, y: i64, half_width: i64, half_height: i64) -> (q: Quad)
        requires
            self@.sized(),
            -2 * MAX_LENGTH <= x <= 2 * MAX_LENGTH,
            -2 * MAX_LENGTH <= y <= 2 * MAX_LENGTH,
            0 <= half_width <= MAX_LENGTH,
            0 <= half_height <= MAX_LENGTH,
        ensures
            q == self@.quad(x as int, y as int, half_width as int, half_height as int),
    {
        Quad {
            left_top: self.corner(x - half_width, y - half_height),
            right_top: self.corner(x + half_width, y - half_height),
            left_bottom: self.corner(x - half_width, y + half_height),
            right_bottom: self.corner(x + half_width, y + half_height),
        }
    }

    /// The quad that draws `bullet`: the corners of its bounding box, left
    /// top, right top, left bottom, right bottom, in device coordinates.
    pub fn upload(&self, bullet: &Bullet) -> (q: Quad)
        requires
            self@.sized(),
            self@.in_sight(bullet.x as int, bullet.y as int),
        ensures
            q == self@.quad(
                bullet.x as int,
                bullet.y as int,
                self@.half_bullet_width,
                self@.half_bullet_height,
            ),
    {
        self.quad(bullet.x, bullet.y, self.half_bullet_width, self.half_bullet_height)
    }

    /// The quad of the marker at the center of the field, whose half extents
    /// are given.
    pub fn center_quad(&self, half_width: i64, half_height: i64) -> (q: Quad)
        requires
            self@.sized(),
            0 <= half_width <= MAX_LENGTH,
            0 <= half_height <= MAX_LENGTH,
        ensures
            q == self@.quad(
                self@.width / 2,
                self@.height / 2,
                half_width as int,
                half_height as int,
            ),
    {
        self.quad(self.width / 2, self.height / 2, half_width, half_height)
    }

    /// Whether the bounding box of `bullet` reaches into the field.
    pub fn in_sight(&self, bullet: &Bullet) -> (r: bool)
        requires
            self@.sized(),
            -3 * MAX_LENGTH <= bullet.x <= 3 * MAX_LENGTH,
            -3 * MAX_LENGTH <= bullet.y <= 3 * MAX_LENGTH,
        ensures
            r == self@.in_sight(bullet.x as int, bullet.y as int),
    {
        !(bullet.x + self.half_bullet_width <= 0 || bullet.x - self.half_bullet_width
            >= self.width || bullet.y + self.half_bullet_height <= 0 || bullet.y
            - self.half_bullet_height >= self.height)
    }

    /// Moves `bullet` by one tick's flight.
    fn advance(&self, bullet: Bullet) -> (r: Bullet)
        requires
            self@.sized(),
            unit_vector(bullet.dx as int, bullet.dy as int),
            -2 * MAX_LENGTH <= bullet.x <= 2 * MAX_LENGTH,
            -2 * MAX_LENGTH <= bullet.y <= 2 * MAX_LENGTH,
        ensures
            r == bullet.advanced(self@.speed_per_frame),
            -3 * MAX_LENGTH <= r.x <= 3 * MAX_LENGTH,
            -3 * MAX_LENGTH <= r.y <= 3 * MAX_LENGTH,
    {
        proof {
            lemma_step_bounded(bullet.dx as int, self.speed_per_frame as int);
            lemma_step_bounded(bullet.dy as int, self.speed_per_frame as int);
            let u = UNIT as int;
            let m = MAX_LENGTH as int;
            let v = self.speed_per_frame as int;
            let dx = bullet.dx as int;
            let dy = bullet.dy as int;
            assert(-u * m <= dx * v <= u * m) by (nonlinear_arith)
                requires
                    -u <= dx <= u,
                    -m <= v <= m,
                    u >= 0,
                    m >= 0,
            ;
            assert(-u * m <= dy * v <= u * m) by (nonlinear_arith)
                requires
                    -u <= dy <= u,
                    -m <= v <= m,
                    u >= 0,
                    m >= 0,
            ;
        }
        let step_x: i64 = quotient_toward_zero(bullet.dx * self.speed_per_frame, UNIT);
        let step_y: i64 = quotient_toward_zero(bullet.dy * self.speed_per_frame, UNIT);
        Bullet { x: bullet.x + step_x, y: bullet.y + step_y, dx: bullet.dx, dy: bullet.dy }
    }

    /// Advances the pattern by one tick. `directions` holds, for each way `k`,
    /// the cosine and sine of the `k`-th spawn angle. The burst is spawned at
    /// the center, every projectile moves by one step, those whose bounding
    /// box no longer reaches into the field are removed without reordering
    /// the others, and the angular velocity and the angle advance and wrap.
    pub fn tick(&mut self, directions: &Vec<Direction>)
        requires
            old(self)@.wf(),
            old(self)@.fits(directions@),
        ensures
            final(self)@ == old(self)@.step(directions@),
            final(self)@.wf(),
            final(self)@.bullets.len() <= old(self)@.bullets.len() + old(self)@.ways,
    {
        let ghost before = self@;
        let ghost burst = before.burst(directions@);
        let ghost moved = before.moved(directions@);
        let center_x: i64 = self.width / 2;
        let center_y: i64 = self.height / 2;
        let mut k: usize = 0;
        while k < directions.len()
            invariant
                0 <= k <= directions@.len(),
                self@ == (RegionState { bullets: self.bullets@, ..before }),
                self.bullets@ == before.bullets + before.spawned(directions@).take(k as int),
                center_x == before.width / 2,
                center_y == before.height / 2,
            decreases directions@.len() - k,
        {
            let d = directions[k];
            self.bullets.push(Bullet { x: center_x, y: center_y, dx: d.dx, dy: d.dy });
            proof {
                let sp = before.spawned(directions@);
                assert(sp.take(k + 1) =~= sp.take(k as int).push(sp[k as int]));
                assert(self.bullets@ =~= before.bullets + sp.take(k + 1));
            }
            k += 1;
        }
        proof {
            let sp = before.spawned(directions@);
            assert(sp.take(k as int) =~= sp);
            assert(self.bullets@ == burst);
        }
        let n: usize = self.bullets.len();
        let mut kept: usize = 0;
        let mut next: usize = 0;
        while next < n
            invariant
                0 <= kept <= next <= n,
                n == burst.len(),
                moved.len() == n,
                before.wf(),
                burst == before.burst(directions@),
                moved == before.moved(directions@),
                forall|k: int| 0 <= k < directions@.len() ==> (#[trigger] directions@[k]).is_unit(),
                self@ == (RegionState { bullets: self.bullets@, ..before }),
                self.bullets@.len() == n,
                self.bullets@.take(kept as int) == moved.take(next as int).filter(before.sight()),
                forall|j: int| next <= j < n ==> self.bullets@[j] == burst[j],
                forall|j: int| 0 <= j < kept ==> before.live(#[trigger] self.bullets@[j]),
            decreases n - next,
        {
            let bullet = self.bullets[next];
            proof {
                if next < before.bullets.len() {
                    assert(burst[next as int] == before.bullets[next as int]);
                    assert(before.live(before.bullets[next as int]));
                } else {
                    let j = next - before.bullets.len();
                    assert(burst[next as int] == before.spawned(directions@)[j]);
                    assert(directions@[j].is_unit());
                }
                lemma_filter_take_next(moved, before.sight(), next as int);
            }
            let flown = self.advance(bullet);
            assert(flown == moved[next as int]);
            let ghost prior = self.bullets@;
            if self.in_sight(&flown) {
                self.bullets.set(kept, flown);
                proof {
                    assert(self.bullets@.take(kept + 1) =~= prior.take(kept as int).push(flown));
                }
                kept += 1;
            }
            next += 1;
        }
        self.bullets.truncate(kept);
        proof {
            assert(moved.take(n as int) =~= moved);
            assert(self.bullets@ =~= moved.filter(before.sight()));
            vstd::arithmetic::div_mod::lemma_add_mod_noop_right(
                before.a_angle,
                before.a_a_angle,
                FULL_TURN as int,
            );
            moved.lemma_filter_len(before.sight());
        }
        let velocity: i64 = wrap(self.a_angle + wrap(self.a_a_angle));
        self.a_angle = velocity;
        self.angle = wrap(self.angle + velocity);
    }
}

/// Wrap invariant and culling invariant, for every number of ticks: from a
/// state that meets the pattern's invariant, any run of ticks ends in a state
/// that meets it. So the angle and the angular velocity lie in
/// `[0, FULL_TURN)`, and the bounding box of every projectile reaches into
/// the field.
pub proof fn lemma_run_keeps_invariant(start: RegionState, bursts: Seq<Seq<Direction>>)
    requires
        start.wf(),
        forall|t: int| 0 <= t < bursts.len() ==> start.fits(#[trigger] bursts[t]),
    ensures
        start.run(bursts).wf(),
        0 <= start.run(bursts).angle < FULL_TURN,
        0 <= start.run(bursts).a_angle < FULL_TURN,
        start.run(bursts).ways == start.ways,
        forall|i: int|
            0 <= i < start.run(bursts).bullets.len() ==> start.run(bursts).in_sight(
                (#[trigger] start.run(bursts).bullets[i]).x as int,
                start.run(bursts).bullets[i].y as int,
            ),
    decreases bursts.len(),
{
    if bursts.len() > 0 {
        lemma_run_keeps_invariant(start, bursts.drop_last());
        lemma_step_keeps_invariant(start.run(bursts.drop_last()), bursts.last());
    }
}

/// One tick keeps the pattern's invariant and leaves the configuration as
/// it is.
pub proof fn lemma_step_keeps_invariant(state: RegionState, directions: Seq<Direction>)
    requires
        state.wf(),
        state.fits(directions),
    ensures
        state.step(directions).wf(),
        state.step(directions) == (RegionState {
            angle: state.step(directions).angle,
            a_angle: state.step(directions).a_angle,
            bullets: state.step(directions).bullets,
            ..state
        }),
{
    let next = state.step(directions);
    let moved = state.moved(directions);
    assert forall|i: int| 0 <= i < next.bullets.len() implies next.live(
        #[trigger] next.bullets[i],
    ) by {
        moved.lemma_filter_pred(state.sight(), i);
        moved.lemma_filter_contains_rev(state.sight(), next.bullets[i]);
        let j = choose|j: int| 0 <= j < moved.len() && moved[j] == next.bullets[i];
        let b = state.burst(directions)[j];
        if j < state.bullets.len() {
            assert(b == state.bullets[j]);
            assert(state.live(state.bullets[j]));
        } else {
            assert(b == state.spawned(directions)[j - state.bullets.len()]);
            assert(directions[j - state.bullets.len()].is_unit());
        }
    }
}

/// Population bound: a run of `t` ticks adds at most `ways * t` projectiles.
/// A pattern that starts without projectiles holds at most `ways * t` of them
/// after `t` ticks.
pub proof fn lemma_population_bound(start: RegionState, bursts: Seq<Seq<Direction>>)
    requires
        start.wf(),
        forall|t: int| 0 <= t < bursts.len() ==> start.fits(#[trigger] bursts[t]),
    ensures
        0 <= start.run(bursts).bullets.len() <= start.bullets.len() + start.ways * bursts.len(),
    decreases bursts.len(),
{
    if bursts.len() > 0 {
        let earlier = start.run(bursts.drop_last());
        lemma_population_bound(start, bursts.drop_last());
        lemma_run_keeps_invariant(start, bursts.drop_last());
        earlier.moved(bursts.last()).lemma_filter_len(earlier.sight());
        assert(start.ways * bursts.len() == start.ways * (bursts.len() - 1) + start.ways)
            by (nonlinear_arith);
    } else {
        assert(start.ways * bursts.len() == 0) by (nonlinear_arith)
            requires
                bursts.len() == 0,
        ;
    }
}

/// Culling is exact: after a tick, the bounding box of every projectile that
/// is left reaches into the field and the projectile is one of those that
/// moved; and no moved projectile whose bounding box reaches into the field
/// is missing. So what was removed was out of sight at that tick.
pub proof fn lemma_cull_exact(state: RegionState, directions: Seq<Direction>)
    ensures
        forall|i: int|
            0 <= i < state.step(directions).bullets.len() ==> {
                &&& state.in_sight(
                    (#[trigger] state.step(directions).bullets[i]).x as int,
                    state.step(directions).bullets[i].y as int,
                )
                &&& state.moved(directions).contains(state.step(directions).bullets[i])
            },
        forall|j: int|
            0 <= j < state.moved(directions).len() && state.in_sight(
                (#[trigger] state.moved(directions)[j]).x as int,
                state.moved(directions)[j].y as int,
            ) ==> state.step(directions).bullets.contains(state.moved(directions)[j]),
{
    let moved = state.moved(directions);
    let left = state.step(directions).bullets;
    assert forall|i: int| 0 <= i < left.len() implies state.in_sight(
        (#[trigger] left[i]).x as int,
        left[i].y as int,
    ) && moved.contains(left[i]) by {
        moved.lemma_filter_pred(state.sight(), i);
        moved.lemma_filter_contains_rev(state.sight(), left[i]);
    }
    assert forall|j: int|
        0 <= j < moved.len() && state.in_sight(
            (#[trigger] moved[j]).x as int,
            moved[j].y as int,
        ) implies left.contains(moved[j]) by {
        moved.lemma_filter_contains(state.sight(), j);
    }
}

/// Determinism: the state after a run of ticks is a function of the state
/// before it and of the bursts. Two patterns with equal states that are given
/// equal bursts hold the same projectiles, at the same places and in the same
/// order, after any number of ticks.
pub proof fn lemma_run_deterministic(
    a: RegionState,
    b: RegionState,
    bursts_a: Seq<Seq<Direction>>,
    bursts_b: Seq<Seq<Direction>>,
)
    requires
        a.width == b.width,
        a.height == b.height,
        a.ways == b.ways,
        a.speed_per_frame == b.speed_per_frame,
        a.angle == b.angle,
        a.a_angle == b.a_angle,
        a.a_a_angle == b.a_a_angle,
        a.half_bullet_width == b.half_bullet_width,
        a.half_bullet_height == b.half_bullet_height,
        a.bullets.len() == b.bullets.len(),
        forall|i: int| 0 <= i < a.bullets.len() ==> a.bullets[i] == b.bullets[i],
        bursts_a.len() == bursts_b.len(),
        forall|t: int|
            0 <= t < bursts_a.len() ==> (#[trigger] bursts_a[t]).len() == bursts_b[t].len(),
        forall|t: int, k: int|
            0 <= t < bursts_a.len() && 0 <= k < bursts_a[t].len() ==> bursts_a[t][k]
                == bursts_b[t][k],
    ensures
        a.run(bursts_a) == b.run(bursts_b),
{
    assert(a.bullets =~= b.bullets);
    assert(bursts_a =~~= bursts_b);
}

} // verus!
