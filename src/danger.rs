use vstd::prelude::*;
use crate::math_utils::{
    Point, dist_sq, sqrt_floor, div_toward_zero, clamp_i64, clamp_i32, isqrt, divide_toward_zero,
    saturate_i64, saturate_i32, lemma_coordinate_below_root,
};
use crate::map_graph::{MapDef, RoomId, RoomView};
use crate::poisson::distance_squared;

verus! {

/// Radius of a hazard when it appears: one world unit.
pub const INITIAL_DANGER_SIZE: u64 = 1_000;

/// Distance from a danger room at which its hazard appears: thirty world units.
pub const DANGER_OFFSET: i64 = 30_000;

/// Length of a unit vector in the direction computation.
pub const UNIT: i64 = 1_048_576;

/// The speed multiplier that stands for 1.0, in millionths.
pub const SPEED_ONE: u64 = 1_000_000;

/// A growing circular hazard. `size` is its radius and
/// `radius_increase_per_second` its base growth, per second.
#[derive(Clone, Copy, Debug, PartialEq, Eq, Structural)]
pub struct DangerZone {
    pub position: Point,
    pub size: u64,
    pub radius_increase_per_second: u32,
}

/// Multiplier of every hazard's growth, in millionths.
#[derive(Clone, Copy, Debug, PartialEq, Eq, Structural)]
pub struct DangerSpeedModifier {
    pub multiplier: u64,
}

/// A request for a new hazard.
#[derive(Clone, Copy, Debug, PartialEq, Eq, Structural)]
pub struct SpawnDangerZoneCommand {
    pub position: Point,
    pub radius_increase_per_second: u32,
}

/// The radius `size` after `dt_ms` milliseconds of growth at `rate` per
/// second scaled by `multiplier` millionths, rounded down and saturated.
pub open spec fn grown(size: u64, dt_ms: u32, rate: u32, multiplier: u64) -> int {
    let v = size + (dt_ms * rate * multiplier) / 1_000_000_000int;
    if v > u64::MAX {
        u64::MAX as int
    } else {
        v
    }
}

/// The multiplier after `dt_ms` milliseconds of speed-up at `gain` millionths
/// per second, rounded down and saturated.
pub open spec fn sped_up(multiplier: u64, dt_ms: u32, gain: u64) -> int {
    let v = multiplier + (dt_ms * gain) / 1000int;
    if v > u64::MAX {
        u64::MAX as int
    } else {
        v
    }
}

/// The player at `player` stands inside some hazard.
pub open spec fn inside_some(player: Point, zones: Seq<DangerZone>) -> bool {
    exists|i: int|
        0 <= i < zones.len() && dist_sq(player, #[trigger] zones[i].position) < zones[i].size
            * zones[i].size
}

/// The hazard a command asks for, at its initial size.
#[allow(non_snake_case)]
pub fn SpawnDangerZone(command: &SpawnDangerZoneCommand) -> (r: DangerZone)
    ensures
        r == (DangerZone {
            position: command.position,
            size: INITIAL_DANGER_SIZE,
            radius_increase_per_second: command.radius_increase_per_second,
        }),
{
    DangerZone {
        position: command.position,
        size: INITIAL_DANGER_SIZE,
        radius_increase_per_second: command.radius_increase_per_second,
    }
}

/// Grows every hazard by `dt_ms` milliseconds (see `grown`).
pub fn grow_danger_zone(
    zones: &mut Vec<DangerZone>,
    dt_ms: u32,
    danger_speed_modifier: &DangerSpeedModifier,
)
    ensures
        final(zones)@.len() == old(zones)@.len(),
        forall|i: int|
            0 <= i < old(zones)@.len() ==> #[trigger] final(zones)@[i] == (DangerZone {
                size: grown(
                    old(zones)@[i].size,
                    dt_ms,
                    old(zones)@[i].radius_increase_per_second,
                    danger_speed_modifier.multiplier,
                ) as u64,
                ..old(zones)@[i]
            }),
{
    let mult = danger_speed_modifier.multiplier;
    let mut i: usize = 0;
    while i < zones.len()
        invariant
            i <= zones@.len(),
            zones@.len() == old(zones)@.len(),
            mult == danger_speed_modifier.multiplier,
            forall|j: int|
                i <= j < zones@.len() ==> #[trigger] zones@[j] == old(zones)@[j],
            forall|j: int|
                0 <= j < i ==> #[trigger] zones@[j] == (DangerZone {
                    size: grown(
                        old(zones)@[j].size,
                        dt_ms,
                        old(zones)@[j].radius_increase_per_second,
                        mult,
                    ) as u64,
                    ..old(zones)@[j]
                }),
        decreases zones@.len() - i,
    {
        let zone = zones[i];
        proof {
            assert(dt_ms * zone.radius_increase_per_second < 0x1_0000_0000_0000_0000) by (nonlinear_arith)
                requires dt_ms < 0x1_0000_0000, zone.radius_increase_per_second < 0x1_0000_0000;
        }
        let base: u128 = dt_ms as u128 * zone.radius_increase_per_second as u128;
        proof {
            assert(base * mult < 0x1_0000_0000_0000_0000_0000_0000_0000_0000) by (nonlinear_arith)
                requires
                    base == dt_ms * zone.radius_increase_per_second,
                    dt_ms < 0x1_0000_0000,
                    zone.radius_increase_per_second < 0x1_0000_0000,
                    mult < 0x1_0000_0000_0000_0000,
            ;
        }
        let increase: u128 = base * mult as u128 / 1_000_000_000;
        let total: u128 = zone.size as u128 + increase;
        let size: u64 = if total > u64::MAX as u128 {
            u64::MAX
        } else {
            total as u64
        };
        zones.set(i, DangerZone { size, ..zone });
        i = i + 1;
    }
}

/// Speeds every hazard up by `dt_ms` milliseconds at `gain` millionths per
/// second (see `sped_up`).
pub fn danger_zone_grow_speedup(
    danger_speed_modifier: &mut DangerSpeedModifier,
    dt_ms: u32,
    gain: u64,
)
    ensures
        final(danger_speed_modifier).multiplier == sped_up(
            old(danger_speed_modifier).multiplier,
            dt_ms,
            gain,
        ),
{
    proof {
        assert(dt_ms * gain < 0x1_0000_0000_0000_0000_0000_0000) by (nonlinear_arith)
            requires dt_ms < 0x1_0000_0000, gain < 0x1_0000_0000_0000_0000;
    }
    let increase: u128 = dt_ms as u128 * gain as u128 / 1000;
    let total: u128 = danger_speed_modifier.multiplier as u128 + increase;
    danger_speed_modifier.multiplier = if total > u64::MAX as u128 {
        u64::MAX
    } else {
        total as u64
    };
}

/// The player at `player` stands inside some hazard.
pub fn check_player_death(player: &Point, zones: &Vec<DangerZone>) -> (r: bool)
    ensures
        r == inside_some(*player, zones@),
{
    let mut i: usize = 0;
    while i < zones.len()
        invariant
            i <= zones@.len(),
            forall|j: int|
                0 <= j < i ==> !(dist_sq(*player, #[trigger] zones@[j].position)
                    < zones@[j].size * zones@[j].size),
        decreases zones@.len() - i,
    {
        let zone = &zones[i];
        let size: u128 = zone.size as u128;
        proof {
            assert(size * size < 0x1_0000_0000_0000_0000_0000_0000_0000_0000) by (nonlinear_arith)
                requires size < 0x1_0000_0000_0000_0000;
        }
        if distance_squared(player, &zone.position) < size * size {
            assert(dist_sq(*player, zones@[i as int].position) < zones@[i as int].size
                * zones@[i as int].size);
            return true;
        }
        i = i + 1;
    }
    false
}

/// Unit vector from `from` toward `to`, scaled by `UNIT`, each coordinate
/// rounded toward zero; zero when the points coincide.
pub open spec fn unit_toward(from: Point, to: Point) -> (int, int) {
    let len = sqrt_floor(dist_sq(from, to) as nat);
    if len == 0 {
        (0, 0)
    } else {
        (
            div_toward_zero((to.x - from.x) * UNIT, len as int),
            div_toward_zero((to.y - from.y) * UNIT, len as int),
        )
    }
}

/// Sum of the unit vectors from `from` toward the rooms `conns`, in order,
/// each partial sum saturated to `i64`.
pub open spec fn direction_sum(rooms: Seq<RoomView>, from: Point, conns: Seq<RoomId>) -> (
    int,
    int,
)
    decreases conns.len(),
{
    if conns.len() == 0 {
        (0, 0)
    } else {
        let s = direction_sum(rooms, from, conns.drop_last());
        let u = unit_toward(from, rooms[conns.last().0 as int].position);
        (clamp_i64(s.0 + u.0), clamp_i64(s.1 + u.1))
    }
}

/// `v` rescaled to length `DANGER_OFFSET`, each coordinate rounded toward
/// zero; zero for the zero vector.
pub open spec fn offset_along(v: (int, int)) -> (int, int) {
    let len = sqrt_floor((v.0 * v.0 + v.1 * v.1) as nat);
    if len == 0 {
        (0, 0)
    } else {
        (
            div_toward_zero(v.0 * DANGER_OFFSET, len as int),
            div_toward_zero(v.1 * DANGER_OFFSET, len as int),
        )
    }
}

/// Where the hazard of danger room `id` appears: `DANGER_OFFSET` away from
/// the room, along the sum of the directions toward its connected rooms.
pub open spec fn danger_spawn_position(rooms: Seq<RoomView>, id: int) -> Point {
    let room = rooms[id];
    let o = offset_along(direction_sum(rooms, room.position, room.connections));
    Point {
        x: clamp_i32(room.position.x + o.0) as i32,
        y: clamp_i32(room.position.y + o.1) as i32,
    }
}

fn unit_vector(from: &Point, to: &Point) -> (r: (i64, i64))
    ensures
        (r.0 as int, r.1 as int) == unit_toward(*from, *to),
        -0x20_0000_0000_0000 < r.0 < 0x20_0000_0000_0000,
        -0x20_0000_0000_0000 < r.1 < 0x20_0000_0000_0000,
{
    let len = isqrt(distance_squared(from, to));
    if len == 0 {
        return (0, 0);
    }
    let dx: i128 = to.x as i128 - from.x as i128;
    let dy: i128 = to.y as i128 - from.y as i128;
    let ux = divide_toward_zero(dx * UNIT as i128, len);
    let uy = divide_toward_zero(dy * UNIT as i128, len);
    proof {
        assert(-0x20_0000_0000_0000 < dx * UNIT < 0x20_0000_0000_0000) by (nonlinear_arith)
            requires -0x1_0000_0000 < dx < 0x1_0000_0000;
        assert(-0x20_0000_0000_0000 < dy * UNIT < 0x20_0000_0000_0000) by (nonlinear_arith)
            requires -0x1_0000_0000 < dy < 0x1_0000_0000;
        assert(-0x20_0000_0000_0000 < ux < 0x20_0000_0000_0000) by (nonlinear_arith)
            requires
                ux == div_toward_zero(dx * UNIT, len as int),
                len >= 1,
                -0x20_0000_0000_0000 < dx * UNIT < 0x20_0000_0000_0000,
        ;
        assert(-0x20_0000_0000_0000 < uy < 0x20_0000_0000_0000) by (nonlinear_arith)
            requires
                uy == div_toward_zero(dy * UNIT, len as int),
                len >= 1,
                -0x20_0000_0000_0000 < dy * UNIT < 0x20_0000_0000_0000,
        ;
    }
    (ux as i64, uy as i64)
}

/// Where the hazard of danger room `id` appears (see `danger_spawn_position`).
pub fn danger_position(map: &MapDef, id: RoomId) -> (r: Point)
    requires
        map.wf(),
        id.0 < map@.len(),
    ensures
        r == danger_spawn_position(map@, id.0 as int),
{
    let ghost rooms = map@;
    let room = &map.rooms[id.0];
    let from = room.position;
    let ghost conns = rooms[id.0 as int].connections;
    assert(room.connections@ == conns);
    let mut sx: i64 = 0;
    let mut sy: i64 = 0;
    let mut k: usize = 0;
    proof {
        assert(conns.take(0) =~= Seq::<RoomId>::empty());
    }
    while k < room.connections.len()
        invariant
            map.wf(),
            rooms == map@,
            id.0 < rooms.len(),
            room@ == rooms[id.0 as int],
            conns == room.connections@,
            from == room.position,
            k <= conns.len(),
            (sx as int, sy as int) == direction_sum(rooms, from, conns.take(k as int)),
        decreases conns.len() - k,
    {
        let c = room.connections[k];
        proof {
            assert(conns[k as int] == c);
            assert(rooms[id.0 as int].connections[k as int] == c);
            assert(c.0 < rooms.len());
            assert(conns.take(k + 1).drop_last() =~= conns.take(k as int));
            assert(conns.take(k + 1).last() == c);
        }
        let u = unit_vector(&from, &map.rooms[c.0].position);
        sx = saturate_i64(sx as i128 + u.0 as i128);
        sy = saturate_i64(sy as i128 + u.1 as i128);
        k = k + 1;
    }
    proof {
        assert(conns.take(k as int) =~= conns);
        lemma_square_bound_i64(sx as int);
        lemma_square_bound_i64(sy as int);
    }
    let norm_sq: u128 = (sx as i128 * sx as i128) as u128 + (sy as i128 * sy as i128) as u128;
    let len = isqrt(norm_sq);
    let (ox, oy): (i64, i64) = if len == 0 {
        (0, 0)
    } else {
        proof {
            lemma_coordinate_below_root(sx as int, norm_sq as nat, len as nat);
            lemma_coordinate_below_root(sy as int, norm_sq as nat, len as nat);
            assert(sx * sx <= norm_sq);
        }
        let ox = divide_toward_zero(sx as i128 * DANGER_OFFSET as i128, len);
        let oy = divide_toward_zero(sy as i128 * DANGER_OFFSET as i128, len);
        proof {
            lemma_offset_bound(sx as int, len as int, ox as int);
            lemma_offset_bound(sy as int, len as int, oy as int);
        }
        (ox as i64, oy as i64)
    };
    Point {
        x: saturate_i32(from.x as i64 + ox),
        y: saturate_i32(from.y as i64 + oy),
    }
}

proof fn lemma_square_bound_i64(v: int)
    requires
        i64::MIN <= v <= i64::MAX,
    ensures
        0 <= v * v <= 0x4000_0000_0000_0000_0000_0000_0000_0000,
{
    assert(0 <= v * v <= 0x4000_0000_0000_0000_0000_0000_0000_0000) by (nonlinear_arith)
        requires -0x8000_0000_0000_0000 <= v <= 0x7fff_ffff_ffff_ffff;
}

proof fn lemma_offset_bound(s: int, len: int, o: int)
    requires
        len >= 1,
        -len <= s <= len,
        o == div_toward_zero(s * DANGER_OFFSET, len),
    ensures
        -DANGER_OFFSET <= o <= DANGER_OFFSET,
{
    if s >= 0 {
        assert(s * DANGER_OFFSET <= len * DANGER_OFFSET) by (nonlinear_arith)
            requires s <= len;
        assert((s * DANGER_OFFSET) / len <= DANGER_OFFSET) by (nonlinear_arith)
            requires s * DANGER_OFFSET <= len * DANGER_OFFSET, len >= 1, s >= 0;
        assert((s * DANGER_OFFSET) / len >= 0) by (nonlinear_arith)
            requires len >= 1, s >= 0;
    } else {
        assert((-s) * DANGER_OFFSET <= len * DANGER_OFFSET) by (nonlinear_arith)
            requires -s <= len;
        assert(((-s) * DANGER_OFFSET) / len <= DANGER_OFFSET) by (nonlinear_arith)
            requires (-s) * DANGER_OFFSET <= len * DANGER_OFFSET, len >= 1, s < 0;
        assert(((-s) * DANGER_OFFSET) / len >= 0) by (nonlinear_arith)
            requires len >= 1, s < 0;
        assert(-(s * DANGER_OFFSET) == (-s) * DANGER_OFFSET);
    }
}

} // verus!
