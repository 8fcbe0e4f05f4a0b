use vstd::prelude::*;
use crate::math_utils::{Point, dist_sq, lemma_square_bound};
use crate::random::{RandomDeterministic, chacha20_u64_at, advance};

verus! {

/// Margin added to the sampling radius, so that candidates never sit exactly
/// on the forbidden boundary: a hundredth of a world unit.
pub const EPSILON: u32 = 10;

/// One full turn, as the fraction unit of `sweep_turn`.
pub const TURN: u64 = 0x1_0000_0000;

/// Squared Euclidean distance between two points.
pub fn distance_squared(p1: &Point, p2: &Point) -> (r: u128)
    ensures
        r as int == dist_sq(*p1, *p2),
{
    let dx: i128 = p2.x as i128 - p1.x as i128;
    let dy: i128 = p2.y as i128 - p1.y as i128;
    proof {
        lemma_square_bound(dx as int);
        lemma_square_bound(dy as int);
    }
    let sum: i128 = dx * dx + dy * dy;
    sum as u128
}

/// Direction of attempt `attempt` out of `nb_attempts`, as a fraction of a
/// turn in units of 2^-32: the seed's fraction (its upper 32 bits) plus
/// `attempt / nb_attempts` of a turn, modulo a whole turn.
pub open spec fn sweep_turn(seed_word: u64, attempt: nat, nb_attempts: nat) -> int {
    (seed_word as int / TURN as int + (attempt * TURN as int) / (nb_attempts as int)) % (TURN as int)
}

/// `near` moved by `offset`, when the result is representable.
pub open spec fn shifted(near: Point, offset: Point) -> Option<Point> {
    let x = near.x + offset.x;
    let y = near.y + offset.y;
    if i32::MIN <= x <= i32::MAX && i32::MIN <= y <= i32::MAX {
        Some(Point { x: x as i32, y: y as i32 })
    } else {
        None
    }
}

/// `c` lies at least `ring` away from every point of `existing`.
pub open spec fn far_from_all(existing: Seq<Point>, c: Point, ring: int) -> bool {
    forall|i: int| 0 <= i < existing.len() ==> dist_sq(#[trigger] existing[i], c) >= ring * ring
}

/// The candidate made of `near` and `offset` is acceptable.
pub open spec fn acceptable(existing: Seq<Point>, near: Point, offset: Point, ring: int) -> bool {
    match shifted(near, offset) {
        Some(c) => far_from_all(existing, c, ring),
        None => false,
    }
}

/// The first acceptable candidate, in the order of the offsets.
pub open spec fn first_candidate(
    existing: Seq<Point>,
    near: Point,
    offsets: Seq<Point>,
    ring: int,
) -> Option<Point>
    decreases offsets.len(),
{
    if offsets.len() == 0 {
        None
    } else if acceptable(existing, near, offsets[0], ring) {
        shifted(near, offsets[0])
    } else {
        first_candidate(existing, near, offsets.drop_first(), ring)
    }
}

/// What `first_candidate` finds respects the distance to every existing point.
pub proof fn lemma_first_candidate_far(existing: Seq<Point>, near: Point, offsets: Seq<Point>, ring: int)
    ensures
        first_candidate(existing, near, offsets, ring) matches Some(p) ==> far_from_all(
            existing,
            p,
            ring,
        ),
    decreases offsets.len(),
{
    if offsets.len() > 0 && !acceptable(existing, near, offsets[0], ring) {
        lemma_first_candidate_far(existing, near, offsets.drop_first(), ring);
    }
}

/// Radius of the sampling ring for a minimum distance `radius`.
pub open spec fn ring_of(radius: u32) -> int {
    radius + EPSILON
}

/// Blue-noise sampler: proposes a point near a reference point and at least a
/// given radius away from every existing point.
#[derive(Clone, Copy, Debug)]
pub struct Poisson {}

impl Poisson {
    pub fn new() -> (r: Poisson)
        ensures
            r == (Poisson {}),
    {
        Poisson {}
    }

    /// The directions of a sweep of `nb_attempts` attempts for the sampler seed
    /// `seed_word`, each as a fraction of a turn in units of 2^-32.
    pub fn sweep_turns(&self, seed_word: u64, nb_attempts: u32) -> (r: Vec<u32>)
        ensures
            r@.len() == nb_attempts,
            forall|k: int|
                0 <= k < nb_attempts ==> #[trigger] r@[k] as int == sweep_turn(
                    seed_word,
                    k as nat,
                    nb_attempts as nat,
                ),
    {
        let base: u64 = seed_word / TURN;
        let mut r: Vec<u32> = Vec::new();
        let mut k: u32 = 0;
        while k < nb_attempts
            invariant
                k <= nb_attempts,
                base == seed_word / TURN,
                r@.len() == k,
                forall|j: int|
                    0 <= j < k ==> #[trigger] r@[j] as int == sweep_turn(
                        seed_word,
                        j as nat,
                        nb_attempts as nat,
                    ),
            decreases nb_attempts - k,
        {
            let scaled: u64 = k as u64 * TURN;
            let step: u64 = scaled / nb_attempts as u64;
            proof {
                assert(base < TURN) by (nonlinear_arith)
                    requires base == seed_word as int / TURN as int, seed_word < 0x1_0000_0000_0000_0000int;
                assert(step < TURN) by (nonlinear_arith)
                    requires step == scaled as int / (nb_attempts as int), scaled == k * TURN, k < nb_attempts;
            }
            let turn: u64 = (base + step) % TURN;
            r.push(turn as u32);
            k = k + 1;
        }
        r
    }

    /// Draws the sampler seed from `random` (one 64-bit value) and returns the
    /// directions of the sweep.
    pub fn sweep(&self, random: &mut RandomDeterministic, nb_attempts: u32) -> (r: Vec<u32>)
        ensures
            final(random).seed == old(random).seed,
            final(random).word_pos == advance(old(random).word_pos, 2),
            r@.len() == nb_attempts,
            forall|k: int|
                0 <= k < nb_attempts ==> #[trigger] r@[k] as int == sweep_turn(
                    chacha20_u64_at(old(random).seed, old(random).word_pos),
                    k as nat,
                    nb_attempts as nat,
                ),
    {
        let seed_word = random.next_u64();
        self.sweep_turns(seed_word, nb_attempts)
    }

    /// The first candidate `near_point + offsets[k]`, in the order of the
    /// offsets, whose distance to every existing point is at least
    /// `radius + EPSILON`; `None` when every candidate is rejected.
    pub fn compute_new_position(
        &self,
        existing_points: &Vec<Point>,
        near_point: &Point,
        radius: u32,
        offsets: &Vec<Point>,
    ) -> (r: Option<Point>)
        ensures
            r == first_candidate(existing_points@, *near_point, offsets@, ring_of(radius)),
            r matches Some(p) ==> far_from_all(existing_points@, p, ring_of(radius)),
    {
        let ring: u128 = radius as u128 + EPSILON as u128;
        proof {
            assert(ring * ring < 0x4_0000_0000_0000_0000) by (nonlinear_arith)
                requires ring < 0x2_0000_0000;
        }
        let ring_sq: u128 = ring * ring;
        let mut k: usize = 0;
        proof {
            assert(offsets@.subrange(0, offsets@.len() as int) =~= offsets@);
        }
        while k < offsets.len()
            invariant
                k <= offsets@.len(),
                ring == ring_of(radius),
                ring_sq == ring * ring,
                first_candidate(existing_points@, *near_point, offsets@, ring_of(radius))
                    == first_candidate(
                    existing_points@,
                    *near_point,
                    offsets@.subrange(k as int, offsets@.len() as int),
                    ring_of(radius),
                ),
            decreases offsets@.len() - k,
        {
            let offset = offsets[k];
            let x: i64 = near_point.x as i64 + offset.x as i64;
            let y: i64 = near_point.y as i64 + offset.y as i64;
            if i32::MIN as i64 <= x && x <= i32::MAX as i64 && i32::MIN as i64 <= y && y
                <= i32::MAX as i64 {
                let candidate = Point { x: x as i32, y: y as i32 };
                let mut is_correct = true;
                let mut i: usize = 0;
                while i < existing_points.len() && is_correct
                    invariant
                        i <= existing_points@.len(),
                        ring_sq == ring_of(radius) * ring_of(radius),
                        forall|m: int|
                            0 <= m < i ==> dist_sq(#[trigger] existing_points@[m], candidate)
                                >= ring_sq,
                        !is_correct ==> i < existing_points@.len() && dist_sq(
                            existing_points@[i as int],
                            candidate,
                        ) < ring_sq,
                    decreases existing_points@.len() - i + (if is_correct { 1int } else { 0 }),
                {
                    if distance_squared(&existing_points[i], &candidate) < ring_sq {
                        is_correct = false;
                    } else {
                        i = i + 1;
                    }
                }
                assert(shifted(*near_point, offsets@[k as int]) == Some(candidate));
                let ghost rest = offsets@.subrange(k as int, offsets@.len() as int);
                assert(rest[0] == offsets@[k as int]);
                if is_correct {
                    assert(far_from_all(existing_points@, candidate, ring_of(radius)));
                    return Some(candidate);
                }
                assert(!far_from_all(existing_points@, candidate, ring_of(radius)));
            }
            proof {
                let rest = offsets@.subrange(k as int, offsets@.len() as int);
                assert(rest[0] == offsets@[k as int]);
                assert(rest.drop_first() =~= offsets@.subrange(k + 1, offsets@.len() as int));
            }
            k = k + 1;
        }
        proof {
            assert(offsets@.subrange(k as int, offsets@.len() as int).len() == 0);
        }
        None
    }
}

} // verus!
