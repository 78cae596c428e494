//! Drawing an unbounded number of quads through a geometry buffer that holds
//! only `capacity` of them: how the projectiles are cut into batches, in which
//! order the batches are processed, and in which order the quads are drawn.
//!
//! The projectiles are numbered by age: 0 is the oldest. The newest is drawn
//! first and the oldest last, whatever the capacity, so that under src-over
//! blending an older projectile lies on top of a younger one.
use vstd::prelude::*;
use vstd::arithmetic::div_mod::{lemma_div_plus_one, lemma_fundamental_div_mod};

verus! {

/// Vertices of one quad in the geometry buffer.
pub const QUAD_VERTICES: u32 = 4;

/// Bytes of one quad in the geometry buffer: four vertices of two 32-bit
/// coordinates each, without padding.
pub const QUAD_BYTES: u64 = 32;

/// Largest slot whose vertices can be numbered with 32 bits.
pub const MAX_SLOT: u32 = 1_073_741_822;

/// What a render pass does to the canvas before it draws.
#[derive(Clone, Copy, Debug, PartialEq, Eq, Structural)]
pub enum LoadMode {
    /// Fill the canvas with the background color.
    Clear,
    /// Keep what the canvas holds.
    Load,
}

/// One batch: the projectiles `lower..upper`, which are uploaded to the
/// buffer slots `0..upper - lower` and drawn in one render pass.
#[derive(Clone, Copy, Debug, PartialEq, Eq, Structural)]
pub struct Batch {
    pub lower: usize,
    pub upper: usize,
    pub load: LoadMode,
}

/// Number of batches for `n` projectiles: `n / capacity`, rounded up.
pub open spec fn num_batches(n: int, capacity: int) -> int
    recommends
        capacity > 0,
{
    (n + capacity - 1) / capacity
}

/// First projectile of batch `b`.
pub open spec fn batch_lower(b: int, capacity: int) -> int {
    b * capacity
}

/// End of batch `b`: the first projectile after it.
pub open spec fn batch_upper(n: int, b: int, capacity: int) -> int {
    if (b + 1) * capacity < n {
        (b + 1) * capacity
    } else {
        n
    }
}

/// What the `i`-th pass of a frame does to the canvas before it draws,
/// counting from 0: only the first pass clears it.
pub open spec fn pass_load(i: int) -> LoadMode {
    if i == 0 {
        LoadMode::Clear
    } else {
        LoadMode::Load
    }
}

/// The batch that is processed as the `i`-th, counting from 0: batches are
/// processed from the last to the first.
pub open spec fn pass(n: int, capacity: int, i: int) -> Batch {
    let b = num_batches(n, capacity) - 1 - i;
    Batch {
        lower: batch_lower(b, capacity) as usize,
        upper: batch_upper(n, b, capacity) as usize,
        load: pass_load(i),
    }
}

/// The projectiles `lower..upper` in the order in which one pass draws them:
/// from the last buffer slot down to slot 0.
pub open spec fn batch_draws(lower: int, upper: int) -> Seq<int> {
    Seq::new((upper - lower) as nat, |i: int| upper - 1 - i)
}

/// The projectiles that the first `passes` passes draw, in drawing order.
pub open spec fn draws_through(n: int, capacity: int, passes: int) -> Seq<int>
    decreases passes,
{
    if passes <= 0 {
        Seq::empty()
    } else {
        let b = num_batches(n, capacity) - passes;
        draws_through(n, capacity, passes - 1) + batch_draws(
            batch_lower(b, capacity),
            batch_upper(n, b, capacity),
        )
    }
}

/// The projectiles in the order in which a frame draws them: batch by batch
/// from the last to the first, and within a batch from the last slot to the
/// first.
pub open spec fn draw_sequence(n: int, capacity: int) -> Seq<int> {
    draws_through(n, capacity, num_batches(n, capacity))
}

/// The numbers below `n`, from the largest down to 0: youngest first.
pub open spec fn youngest_first(n: int) -> Seq<int> {
    Seq::new(n as nat, |i: int| n - 1 - i)
}

/// The canvas after the quads of `draws` have been blended onto `canvas`, one
/// after the other. `blend(c, i)` is the canvas `c` with projectile `i`
/// blended over it.
pub open spec fn composite<P>(canvas: P, draws: Seq<int>, blend: spec_fn(P, int) -> P) -> P
    decreases draws.len(),
{
    if draws.len() == 0 {
        canvas
    } else {
        blend(composite(canvas, draws.drop_last(), blend), draws.last())
    }
}

/// The canvas after the first `passes` passes of a frame. `previous` is what
/// the canvas held before the frame, `background` the cleared canvas.
pub open spec fn canvas_after<P>(
    previous: P,
    background: P,
    n: int,
    capacity: int,
    passes: int,
    blend: spec_fn(P, int) -> P,
) -> P
    decreases passes,
{
    if passes <= 0 {
        previous
    } else {
        let before = canvas_after(previous, background, n, capacity, passes - 1, blend);
        let b = num_batches(n, capacity) - passes;
        let start = if pass_load(passes - 1) == LoadMode::Clear {
            background
        } else {
            before
        };
        composite(
            start,
            batch_draws(batch_lower(b, capacity), batch_upper(n, b, capacity)),
            blend,
        )
    }
}

/// The canvas at the end of a frame: after all passes, the anchor quad is
/// drawn last, onto what the canvas then holds.
pub open spec fn frame_canvas<P>(
    previous: P,
    background: P,
    n: int,
    capacity: int,
    blend: spec_fn(P, int) -> P,
    anchor: spec_fn(P) -> P,
) -> P {
    anchor(canvas_after(previous, background, n, capacity, num_batches(n, capacity), blend))
}

/// The batches tile `0..n`: there are none exactly if there is no projectile;
/// every batch starts below `n`, is not empty and holds at most `capacity`
/// projectiles; each ends where the next begins, and the last ends at `n`.
pub proof fn lemma_batches_tile(n: int, capacity: int)
    requires
        0 <= n,
        0 < capacity,
    ensures
        0 <= num_batches(n, capacity) <= n,
        num_batches(n, capacity) == 0 <==> n == 0,
        forall|b: int|
            0 <= b < num_batches(n, capacity) ==> {
                &&& 0 <= #[trigger] batch_lower(b, capacity) < batch_upper(n, b, capacity) <= n
                &&& batch_upper(n, b, capacity) - batch_lower(b, capacity) <= capacity
            },
        forall|b: int|
            0 <= b < num_batches(n, capacity) - 1 ==> #[trigger] batch_upper(n, b, capacity)
                == batch_lower(b + 1, capacity),
        n > 0 ==> batch_upper(n, num_batches(n, capacity) - 1, capacity) == n,
{
    let k = num_batches(n, capacity);
    let x = n + capacity - 1;
    lemma_fundamental_div_mod(x, capacity);
    assert(0 <= x % capacity < capacity);
    assert(x == capacity * k + x % capacity);
    assert(k >= 0 && k <= n) by (nonlinear_arith)
        requires
            x == capacity * k + x % capacity,
            0 <= x % capacity < capacity,
            x == n + capacity - 1,
            capacity > 0,
            n >= 0,
    ;
    assert(n <= k * capacity < n + capacity) by (nonlinear_arith)
        requires
            x == capacity * k + x % capacity,
            0 <= x % capacity < capacity,
            x == n + capacity - 1,
    ;
    assert forall|b: int| 0 <= b < k implies {
        &&& 0 <= #[trigger] batch_lower(b, capacity) < batch_upper(n, b, capacity) <= n
        &&& batch_upper(n, b, capacity) - batch_lower(b, capacity) <= capacity
    } by {
        assert(0 <= b * capacity && b * capacity + capacity <= k * capacity && (b + 1) * capacity
            == b * capacity + capacity) by (nonlinear_arith)
            requires
                0 <= b < k,
                capacity > 0,
        ;
    }
    assert forall|b: int| 0 <= b < k - 1 implies #[trigger] batch_upper(n, b, capacity)
        == batch_lower(b + 1, capacity) by {
        assert((b + 1) * capacity + capacity <= k * capacity) by (nonlinear_arith)
            requires
                0 <= b < k - 1,
                capacity > 0,
        ;
    }
    if n > 0 {
        assert((k - 1 + 1) * capacity == k * capacity);
    }
}

/// What the first `passes` passes draw are the youngest projectiles, youngest
/// first, down to the start of the batch processed last.
proof fn lemma_draws_through(n: int, capacity: int, passes: int)
    requires
        0 <= n,
        0 < capacity,
        0 <= passes <= num_batches(n, capacity),
    ensures
        draws_through(n, capacity, passes) == youngest_first(n).take(
            n - (if passes == 0 {
                n
            } else {
                batch_lower(num_batches(n, capacity) - passes, capacity)
            }),
        ),
    decreases passes,
{
    lemma_batches_tile(n, capacity);
    let k = num_batches(n, capacity);
    if passes == 0 {
        assert(draws_through(n, capacity, passes) =~= youngest_first(n).take(0));
    } else {
        lemma_draws_through(n, capacity, passes - 1);
        let b = k - passes;
        let lower = batch_lower(b, capacity);
        let upper = batch_upper(n, b, capacity);
        if passes == 1 {
            assert(upper == n);
        } else {
            assert(upper == batch_lower(b + 1, capacity));
        }
        assert(draws_through(n, capacity, passes - 1) == youngest_first(n).take(n - upper));
        assert(draws_through(n, capacity, passes) =~= youngest_first(n).take(n - lower));
    }
}

/// The drawing order is youngest first, whatever the capacity.
pub proof fn lemma_draw_sequence(n: int, capacity: int)
    requires
        0 <= n,
        0 < capacity,
    ensures
        draw_sequence(n, capacity) == youngest_first(n),
{
    lemma_batches_tile(n, capacity);
    let k = num_batches(n, capacity);
    lemma_draws_through(n, capacity, k);
    if k > 0 {
        assert(batch_lower(0, capacity) == 0);
    }
    assert(youngest_first(n).take(n) =~= youngest_first(n));
}

/// Number of batches for `n` projectiles.
pub fn count_batches(n: usize, capacity: usize) -> (count: usize)
    requires
        capacity > 0,
    ensures
        count == num_batches(n as int, capacity as int),
{
    if n == 0 {
        proof {
            lemma_batches_tile(0, capacity as int);
        }
        0
    } else {
        proof {
            lemma_div_plus_one(n - 1, capacity as int);
            lemma_batches_tile(n as int, capacity as int);
        }
        (n - 1) / capacity + 1
    }
}

/// The batches of a frame with `n` projectiles in the order in which they are
/// processed: from the last batch to the first. Only the first pass clears
/// the canvas; without projectiles there is no batch and nothing is cleared.
pub fn plan_batches(n: usize, capacity: usize) -> (plan: Vec<Batch>)
    requires
        capacity > 0,
    ensures
        plan@.len() == num_batches(n as int, capacity as int),
        forall|i: int|
            0 <= i < plan@.len() ==> #[trigger] plan@[i] == pass(n as int, capacity as int, i),
        forall|i: int|
            0 <= i < plan@.len() ==> {
                &&& (#[trigger] plan@[i]).lower < plan@[i].upper <= n
                &&& plan@[i].upper - plan@[i].lower <= capacity
            },
{
    let count = count_batches(n, capacity);
    let mut plan: Vec<Batch> = Vec::new();
    let mut b: usize = count;
    proof {
        lemma_batches_tile(n as int, capacity as int);
    }
    while b > 0
        invariant
            capacity > 0,
            0 <= b <= count,
            count == num_batches(n as int, capacity as int),
            plan@.len() == count - b,
            forall|i: int|
                0 <= i < plan@.len() ==> #[trigger] plan@[i] == pass(
                    n as int,
                    capacity as int,
                    i,
                ),
            forall|i: int|
                0 <= i < plan@.len() ==> {
                    &&& (#[trigger] plan@[i]).lower < plan@[i].upper <= n
                    &&& plan@[i].upper - plan@[i].lower <= capacity
                },
        decreases b,
    {
        b -= 1;
        proof {
            lemma_batches_tile(n as int, capacity as int);
            assert(0 <= batch_lower(b as int, capacity as int) < n);
            assert((b + 1) * capacity == b * capacity + capacity) by (nonlinear_arith);
        }
        let lower: usize = b * capacity;
        let upper: usize = if n - lower > capacity {
            lower + capacity
        } else {
            n
        };
        let load = if b == count - 1 {
            LoadMode::Clear
        } else {
            LoadMode::Load
        };
        plan.push(Batch { lower, upper, load });
    }
    plan
}

/// Byte offset of a buffer slot in the geometry buffer.
pub fn slot_offset(slot: u32) -> (offset: u64)
    ensures
        offset == slot * QUAD_BYTES,
{
    slot as u64 * QUAD_BYTES
}

/// The vertices of a buffer slot: the first, and the one after the last.
pub fn slot_vertices(slot: u32) -> (range: (u32, u32))
    requires
        slot <= MAX_SLOT,
    ensures
        range.0 == slot * QUAD_VERTICES,
        range.1 == slot * QUAD_VERTICES + QUAD_VERTICES,
{
    (slot * QUAD_VERTICES, slot * QUAD_VERTICES + QUAD_VERTICES)
}

/// The buffer slots of a batch of `count` projectiles in the order in which
/// its pass draws them: from the last, which holds the youngest, down to 0.
pub fn draw_slots(count: usize) -> (slots: Vec<usize>)
    ensures
        slots@.len() == count,
        forall|i: int| 0 <= i < count ==> #[trigger] slots@[i] == count - 1 - i,
{
    let mut slots: Vec<usize> = Vec::new();
    let mut slot: usize = count;
    while slot > 0
        invariant
            0 <= slot <= count,
            slots@.len() == count - slot,
            forall|i: int| 0 <= i < slots@.len() ==> #[trigger] slots@[i] == count - 1 - i,
        decreases slot,
    {
        slot -= 1;
        slots.push(slot);
    }
    slots
}

/// The full drawing order of a frame with `n` projectiles: for each batch in
/// processing order, its projectiles from the last slot to the first. It is
/// `n - 1, n - 2, .., 0` for every capacity.
pub fn draw_order(n: usize, capacity: usize) -> (order: Vec<usize>)
    requires
        capacity > 0,
    ensures
        order@.len() == n,
        forall|i: int| 0 <= i < n ==> #[trigger] order@[i] == n - 1 - i,
        forall|i: int|
            0 <= i < n ==> #[trigger] order@[i] == draw_sequence(n as int, capacity as int)[i],
{
    let plan = plan_batches(n, capacity);
    let mut order: Vec<usize> = Vec::new();
    let mut i: usize = 0;
    let mut frontier: usize = n;
    proof {
        lemma_batches_tile(n as int, capacity as int);
        lemma_draw_sequence(n as int, capacity as int);
    }
    while i < plan.len()
        invariant
            capacity > 0,
            0 <= i <= plan@.len(),
            plan@.len() == num_batches(n as int, capacity as int),
            forall|j: int|
                0 <= j < plan@.len() ==> #[trigger] plan@[j] == pass(
                    n as int,
                    capacity as int,
                    j,
                ),
            frontier <= n,
            i < plan@.len() ==> frontier == plan@[i as int].upper,
            i == plan@.len() ==> frontier == 0,
            order@.len() == n - frontier,
            forall|j: int| 0 <= j < order@.len() ==> #[trigger] order@[j] == n - 1 - j,
        decreases plan@.len() - i,
    {
        let batch = plan[i];
        proof {
            lemma_batches_tile(n as int, capacity as int);
            let b = num_batches(n as int, capacity as int) - 1 - i;
            assert(batch == pass(n as int, capacity as int, i as int));
            assert(0 <= batch_lower(b, capacity as int) < n);
            if i + 1 < plan@.len() {
                assert(plan@[i + 1] == pass(n as int, capacity as int, i + 1));
                assert(batch_upper(n as int, b - 1, capacity as int) == batch_lower(
                    b,
                    capacity as int,
                ));
            } else {
                assert(b == 0);
                assert(batch_lower(0, capacity as int) == 0);
            }
        }
        let slots = draw_slots(batch.upper - batch.lower);
        let mut s: usize = 0;
        while s < slots.len()
            invariant
                0 <= s <= slots@.len(),
                slots@.len() == batch.upper - batch.lower,
                forall|j: int|
                    0 <= j < slots@.len() ==> #[trigger] slots@[j] == slots@.len() - 1 - j,
                batch.lower <= batch.upper <= n,
                order@.len() == n - batch.upper + s,
                forall|j: int| 0 <= j < order@.len() ==> #[trigger] order@[j] == n - 1 - j,
            decreases slots@.len() - s,
        {
            order.push(batch.lower + slots[s]);
            s += 1;
        }
        frontier = batch.lower;
        i += 1;
    }
    order
}

/// Blending two runs of quads one after the other is blending their
/// concatenation.
pub proof fn lemma_composite_concat<P>(
    canvas: P,
    first: Seq<int>,
    second: Seq<int>,
    blend: spec_fn(P, int) -> P,
)
    ensures
        composite(canvas, first + second, blend) == composite(
            composite(canvas, first, blend),
            second,
            blend,
        ),
    decreases second.len(),
{
    if second.len() == 0 {
        assert(first + second =~= first);
    } else {
        lemma_composite_concat(canvas, first, second.drop_last(), blend);
        assert((first + second).drop_last() =~= first + second.drop_last());
    }
}

/// After at least one pass the canvas is the background with the quads drawn
/// so far blended over it, in drawing order.
proof fn lemma_canvas_after<P>(
    previous: P,
    background: P,
    n: int,
    capacity: int,
    passes: int,
    blend: spec_fn(P, int) -> P,
)
    requires
        0 <= n,
        0 < capacity,
        1 <= passes <= num_batches(n, capacity),
    ensures
        canvas_after(previous, background, n, capacity, passes, blend) == composite(
            background,
            draws_through(n, capacity, passes),
            blend,
        ),
    decreases passes,
{
    let b = num_batches(n, capacity) - passes;
    let draws = batch_draws(batch_lower(b, capacity), batch_upper(n, b, capacity));
    if passes == 1 {
        assert(draws_through(n, capacity, 0) =~= Seq::<int>::empty());
        assert(draws_through(n, capacity, 1) =~= draws);
    } else {
        lemma_canvas_after(previous, background, n, capacity, passes - 1, blend);
        lemma_composite_concat(
            background,
            draws_through(n, capacity, passes - 1),
            draws,
            blend,
        );
    }
}

/// The canvas at the end of a frame is the background (or, without
/// projectiles, what the canvas held before) with all projectiles blended
/// over it from the youngest to the oldest, and the anchor on top.
pub proof fn lemma_frame_canvas<P>(
    previous: P,
    background: P,
    n: int,
    capacity: int,
    blend: spec_fn(P, int) -> P,
    anchor: spec_fn(P) -> P,
)
    requires
        0 <= n,
        0 < capacity,
    ensures
        frame_canvas(previous, background, n, capacity, blend, anchor) == anchor(
            composite(
                if n > 0 {
                    background
                } else {
                    previous
                },
                youngest_first(n),
                blend,
            ),
        ),
{
    lemma_batches_tile(n, capacity);
    lemma_draw_sequence(n, capacity);
    if n > 0 {
        lemma_canvas_after(previous, background, n, capacity, num_batches(n, capacity), blend);
    } else {
        assert(youngest_first(n) =~= Seq::<int>::empty());
    }
}

/// Batch invariance: the drawing order and the canvas at the end of a frame
/// do not depend on the capacity of the geometry buffer.
pub proof fn lemma_capacity_invariance<P>(
    previous: P,
    background: P,
    n: int,
    first: int,
    second: int,
    blend: spec_fn(P, int) -> P,
    anchor: spec_fn(P) -> P,
)
    requires
        0 <= n,
        0 < first,
        0 < second,
    ensures
        draw_sequence(n, first) == draw_sequence(n, second),
        frame_canvas(previous, background, n, first, blend, anchor) == frame_canvas(
            previous,
            background,
            n,
            second,
            blend,
            anchor,
        ),
{
    lemma_draw_sequence(n, first);
    lemma_draw_sequence(n, second);
    lemma_frame_canvas(previous, background, n, first, blend, anchor);
    lemma_frame_canvas(previous, background, n, second, blend, anchor);
}

/// Age ordering: of two projectiles, the younger is drawn before the older,
/// whatever the capacity. Each projectile is drawn exactly once, at the place
/// that its age gives it.
pub proof fn lemma_older_drawn_later(n: int, capacity: int, older: int, younger: int)
    requires
        0 < capacity,
        0 <= older < younger < n,
    ensures
        draw_sequence(n, capacity).len() == n,
        draw_sequence(n, capacity)[n - 1 - younger] == younger,
        draw_sequence(n, capacity)[n - 1 - older] == older,
        n - 1 - younger < n - 1 - older,
        forall|i: int, j: int|
            0 <= i < j < n ==> draw_sequence(n, capacity)[i] != draw_sequence(n, capacity)[j],
{
    lemma_draw_sequence(n, capacity);
}

/// Age ordering on the canvas: with two projectiles, the frame is the
/// background with the younger blended over it, then the older blended over
/// that, then the anchor.
pub proof fn lemma_older_on_top<P>(
    previous: P,
    background: P,
    capacity: int,
    blend: spec_fn(P, int) -> P,
    anchor: spec_fn(P) -> P,
)
    requires
        0 < capacity,
    ensures
        frame_canvas(previous, background, 2, capacity, blend, anchor) == anchor(
            blend(blend(background, 1), 0),
        ),
{
    lemma_frame_canvas(previous, background, 2, capacity, blend, anchor);
    let draws = youngest_first(2);
    assert(draws.drop_last() =~= seq![1int]);
    assert(draws.drop_last().drop_last() =~= Seq::<int>::empty());
    assert(composite(background, draws.drop_last().drop_last(), blend) == background);
    assert(composite(background, draws.drop_last(), blend) == blend(background, 1));
    assert(draws.last() == 0);
}

} // verus!
