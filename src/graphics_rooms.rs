use vstd::prelude::*;
use crate::map_graph::{MapDef, RoomId, RoomType, linked, reachable, is_path, lemma_map_connected};

verus! {

/// How often reachability is recomputed, in milliseconds.
pub const REACHABILITY_PERIOD: u64 = 200;

/// What a room's display last showed.
#[derive(Clone, Copy, Debug, PartialEq, Eq, Structural)]
pub struct RoomGraphic {
    pub is_reachable: bool,
}

impl RoomGraphic {
    /// Records the room's reachability; tells whether the display must change.
    #[allow(non_snake_case)]
    pub fn updateReachability(&mut self, is_reachable: bool) -> (changed: bool)
        ensures
            changed == (old(self).is_reachable != is_reachable),
            final(self).is_reachable == is_reachable,
    {
        if self.is_reachable == is_reachable {
            return false;
        }
        self.is_reachable = is_reachable;
        true
    }
}

/// Accumulates frame times and fires once a period has gone by.
#[derive(Clone, Copy, Debug, PartialEq, Eq, Structural)]
pub struct ReachabilityTimer {
    pub elapsed: u64,
}

impl ReachabilityTimer {
    pub fn new() -> (r: ReachabilityTimer)
        ensures
            r.elapsed == 0,
    {
        ReachabilityTimer { elapsed: 0 }
    }

    /// Adds `dt_ms`; fires, and starts over, once `REACHABILITY_PERIOD` is
    /// reached.
    pub fn tick(&mut self, dt_ms: u64) -> (fire: bool)
        ensures
            ({
                let total = old(self).elapsed + dt_ms;
                &&& fire == (total >= REACHABILITY_PERIOD)
                &&& final(self).elapsed == (if fire {
                    0
                } else {
                    total
                })
            }),
    {
        let total = self.elapsed.saturating_add(dt_ms);
        if total < REACHABILITY_PERIOD {
            self.elapsed = total;
            return false;
        }
        self.elapsed = 0;
        true
    }
}

/// For each room, whether it is adjacent to room `current`.
pub fn reachable_rooms(map: &MapDef, current: RoomId) -> (r: Vec<bool>)
    requires
        current.0 < map@.len(),
    ensures
        r@.len() == map@.len(),
        forall|i: int|
            0 <= i < map@.len() ==> #[trigger] r@[i] == map@[current.0 as int].connections.contains(
                RoomId(i as usize),
            ),
{
    let conns = &map.rooms[current.0].connections;
    let ghost cs = map@[current.0 as int].connections;
    assert(conns@ == cs);
    let mut r: Vec<bool> = Vec::new();
    let mut i: usize = 0;
    while i < map.rooms.len()
        invariant
            i <= map@.len(),
            conns@ == cs,
            cs == map@[current.0 as int].connections,
            r@.len() == i,
            forall|j: int| 0 <= j < i ==> #[trigger] r@[j] == cs.contains(RoomId(j as usize)),
        decreases map@.len() - i,
    {
        let mut found = false;
        let mut k: usize = 0;
        while k < conns.len()
            invariant
                k <= cs.len(),
                conns@ == cs,
                found == (exists|m: int| 0 <= m < k && cs[m] == RoomId(i as usize)),
            decreases cs.len() - k,
        {
            if conns[k] == RoomId(i) {
                found = true;
            }
            k = k + 1;
        }
        r.push(found);
        i = i + 1;
    }
    r
}

/// The material a room is drawn with.
#[derive(Clone, Copy, Debug, PartialEq, Eq, Structural)]
pub enum RoomMaterial {
    White,
    Orange,
    Green,
    Fuchsia,
    Gray,
}

/// Rooms out of reach are gray; reachable ones show their type.
pub open spec fn material_of(is_reachable: bool, room_type: RoomType) -> RoomMaterial {
    if !is_reachable {
        RoomMaterial::Gray
    } else {
        match room_type {
            RoomType::Safe => RoomMaterial::White,
            RoomType::Danger => RoomMaterial::Orange,
            RoomType::Coins => RoomMaterial::Green,
            RoomType::Price(_) => RoomMaterial::Fuchsia,
        }
    }
}

/// The material of a room (see `material_of`).
pub fn room_material(is_reachable: bool, room_type: RoomType) -> (r: RoomMaterial)
    ensures
        r == material_of(is_reachable, room_type),
{
    if !is_reachable {
        return RoomMaterial::Gray;
    }
    match room_type {
        RoomType::Safe => RoomMaterial::White,
        RoomType::Danger => RoomMaterial::Orange,
        RoomType::Coins => RoomMaterial::Green,
        RoomType::Price(_) => RoomMaterial::Fuchsia,
    }
}

/// Room `order[k]` is linked to a room that comes before it in `order`.
pub open spec fn linked_to_earlier(
    rooms: Seq<crate::map_graph::RoomView>,
    order: Seq<RoomId>,
    k: int,
) -> bool {
    exists|j: int| 0 <= j < k && linked(rooms, order[j].0 as int, order[k].0 as int)
}

fn holds(ids: &Vec<RoomId>, id: RoomId) -> (r: bool)
    ensures
        r == ids@.contains(id),
{
    let mut k: usize = 0;
    while k < ids.len()
        invariant
            k <= ids@.len(),
            forall|m: int| 0 <= m < k ==> ids@[m] != id,
        decreases ids@.len() - k,
    {
        if ids[k] == id {
            return true;
        }
        k = k + 1;
    }
    false
}

/// Rooms in the order they are first drawn: breadth first from the root,
/// each room's connections in their order. Every room appears exactly
/// once, the root first, and every later room is linked to a room drawn
/// before it (`linked_to_earlier`).
pub fn display_order(map: &MapDef) -> (r: Vec<RoomId>)
    requires
        map.wf(),
    ensures
        r@.len() >= 1,
        r@[0] == RoomId(0),
        r@.no_duplicates(),
        forall|k: int| 0 <= k < r@.len() ==> (#[trigger] r@[k]).0 < map@.len(),
        forall|i: int| 0 <= i < map@.len() ==> #[trigger] r@.contains(RoomId(i as usize)),
        forall|k: int| 0 < k < r@.len() ==> #[trigger] linked_to_earlier(map@, r@, k),
{
    let ghost rooms = map@;
    let n = map.rooms.len();
    let mut queue: Vec<RoomId> = Vec::new();
    queue.push(RoomId(0));
    let ghost mut parent: Seq<int> = seq![0int];
    let mut index: usize = 0;
    while index < queue.len()
        invariant
            map.wf(),
            rooms == map@,
            n == rooms.len(),
            index <= queue@.len(),
            queue@.len() >= 1,
            queue@[0] == RoomId(0),
            queue@.no_duplicates(),
            parent.len() == queue@.len(),
            forall|k: int| 0 <= k < queue@.len() ==> (#[trigger] queue@[k]).0 < rooms.len(),
            forall|j: int, m: int|
                0 <= j < index && 0 <= m < rooms[queue@[j].0 as int].connections.len()
                    ==> queue@.contains(#[trigger] rooms[queue@[j].0 as int].connections[m]),
            forall|k: int|
                0 < k < queue@.len() ==> 0 <= #[trigger] parent[k] < k && linked(
                    rooms,
                    queue@[parent[k]].0 as int,
                    queue@[k].0 as int,
                ),
        decreases rooms.len() + 1 - index,
    {
        let current = queue[index];
        let conns = &map.rooms[current.0].connections;
        let ghost cs = rooms[current.0 as int].connections;
        assert(conns@ == cs);
        let mut m: usize = 0;
        while m < conns.len()
            invariant
                map.wf(),
                rooms == map@,
                conns@ == cs,
                cs == rooms[current.0 as int].connections,
                current == queue@[index as int],
                index < queue@.len(),
                m <= cs.len(),
                queue@[0] == RoomId(0),
                queue@.no_duplicates(),
                parent.len() == queue@.len(),
                forall|k: int| 0 <= k < queue@.len() ==> (#[trigger] queue@[k]).0 < rooms.len(),
                forall|j: int, m2: int|
                    0 <= j < index && 0 <= m2 < rooms[queue@[j].0 as int].connections.len()
                        ==> queue@.contains(#[trigger] rooms[queue@[j].0 as int].connections[m2]),
                forall|m2: int| 0 <= m2 < m ==> queue@.contains(#[trigger] cs[m2]),
                forall|k: int|
                    0 < k < queue@.len() ==> 0 <= #[trigger] parent[k] < k && linked(
                        rooms,
                        queue@[parent[k]].0 as int,
                        queue@[k].0 as int,
                    ),
            decreases cs.len() - m,
        {
            let c = conns[m];
            proof {
                assert(rooms[current.0 as int].connections[m as int] == c);
            }
            if !holds(&queue, c) {
                let ghost before = queue@;
                let ghost parent0 = parent;
                queue.push(c);
                proof {
                    parent = parent.push(index as int);
                    assert(linked(rooms, current.0 as int, c.0 as int)) by {
                        assert(cs[m as int] == c);
                    }
                    assert forall|k: int|
                        0 < k < queue@.len() implies 0 <= #[trigger] parent[k] < k && linked(
                            rooms,
                            queue@[parent[k]].0 as int,
                            queue@[k].0 as int,
                        ) by {
                        if k < before.len() {
                            assert(parent[k] == parent0[k]);
                            assert(queue@[k] == before[k]);
                            assert(queue@[parent0[k]] == before[parent0[k]]);
                        } else {
                            assert(queue@[index as int] == current);
                        }
                    }
                    assert forall|j: int, m2: int|
                        0 <= j < index && 0 <= m2 < rooms[queue@[j].0 as int].connections.len()
                            implies queue@.contains(
                            #[trigger] rooms[queue@[j].0 as int].connections[m2],
                        ) by {
                        assert(queue@[j] == before[j]);
                        let x = rooms[queue@[j].0 as int].connections[m2];
                        assert(before.contains(x));
                        let w = choose|w: int| 0 <= w < before.len() && before[w] == x;
                        assert(queue@[w] == x);
                    }
                    assert forall|m2: int| 0 <= m2 <= m implies queue@.contains(
                        #[trigger] cs[m2],
                    ) by {
                        if m2 < m {
                            let w = choose|w: int| 0 <= w < before.len() && before[w] == cs[m2];
                            assert(queue@[w] == cs[m2]);
                        } else {
                            assert(queue@[before.len() as int] == cs[m2]);
                        }
                    }
                }
            }
            m = m + 1;
        }
        proof {
            assert forall|j: int, m2: int|
                0 <= j < index + 1 && 0 <= m2 < rooms[queue@[j].0 as int].connections.len()
                    implies queue@.contains(#[trigger] rooms[queue@[j].0 as int].connections[m2]) by {
                if j == index {
                    assert(cs[m2] == rooms[queue@[j].0 as int].connections[m2]);
                }
            }
            lemma_distinct_bounded(queue@, rooms.len());
        }
        index = index + 1;
    }
    proof {
        lemma_map_connected(map);
        assert forall|i: int| 0 <= i < rooms.len() implies #[trigger] queue@.contains(
            RoomId(i as usize),
        ) by {
            assert(reachable(rooms, 0, i));
            let path = choose|path: Seq<int>| is_path(rooms, path) && path[0] == 0 && path.last() == i;
            assert(queue@[0] == RoomId(path[0] as usize));
            lemma_closed_queue_holds_path(rooms, queue@, path, path.len() - 1);
        }
        lemma_parents_give_links(rooms, queue@, parent);
    }
    queue
}

proof fn lemma_parents_give_links(
    rooms: Seq<crate::map_graph::RoomView>,
    order: Seq<RoomId>,
    parent: Seq<int>,
)
    requires
        parent.len() == order.len(),
        forall|k: int|
            0 < k < order.len() ==> 0 <= #[trigger] parent[k] < k && linked(
                rooms,
                order[parent[k]].0 as int,
                order[k].0 as int,
            ),
    ensures
        forall|k: int| 0 < k < order.len() ==> #[trigger] linked_to_earlier(rooms, order, k),
{
    assert forall|k: int| 0 < k < order.len() implies #[trigger] linked_to_earlier(
        rooms,
        order,
        k,
    ) by {
        let j = parent[k];
        assert(0 <= j < k && linked(rooms, order[j].0 as int, order[k].0 as int));
    }
}

/// Distinct room ids below `n` are at most `n` in number.
proof fn lemma_distinct_bounded(ids: Seq<RoomId>, n: nat)
    requires
        n <= usize::MAX,
        ids.no_duplicates(),
        forall|k: int| 0 <= k < ids.len() ==> (#[trigger] ids[k]).0 < n,
    ensures
        ids.len() <= n,
{
    let s = ids.to_set();
    ids.unique_seq_to_set();
    let range = Set::new(|r: RoomId| r.0 < n);
    assert(s.subset_of(range));
    lemma_room_id_range_finite(n);
    vstd::set_lib::lemma_len_subset(s, range);
}

/// The ids below `n` form a set of `n` elements.
proof fn lemma_room_id_range_finite(n: nat)
    requires
        n <= usize::MAX,
    ensures
        Set::new(|r: RoomId| r.0 < n).finite(),
        Set::new(|r: RoomId| r.0 < n).len() == n,
    decreases n,
{
    let range = Set::new(|r: RoomId| r.0 < n);
    if n == 0 {
        assert(range =~= Set::empty());
    } else {
        lemma_room_id_range_finite((n - 1) as nat);
        let smaller = Set::new(|r: RoomId| r.0 < (n - 1) as nat);
        let top = RoomId((n - 1) as usize);
        assert(range =~= smaller.insert(top));
        assert(!smaller.contains(top));
    }
}

/// A queue closed under connections that holds the start of a path holds
/// every room of it.
proof fn lemma_closed_queue_holds_path(
    rooms: Seq<crate::map_graph::RoomView>,
    queue: Seq<RoomId>,
    path: Seq<int>,
    t: int,
)
    requires
        rooms.len() <= usize::MAX,
        is_path(rooms, path),
        0 <= t < path.len(),
        queue.contains(RoomId(path[0] as usize)),
        forall|j: int, m: int|
            0 <= j < queue.len() && 0 <= m < rooms[queue[j].0 as int].connections.len()
                ==> queue.contains(#[trigger] rooms[queue[j].0 as int].connections[m]),
        forall|k: int| 0 <= k < queue.len() ==> (#[trigger] queue[k]).0 < rooms.len(),
    ensures
        queue.contains(RoomId(path[t] as usize)),
    decreases t,
{
    if t > 0 {
        lemma_closed_queue_holds_path(rooms, queue, path, t - 1);
        let prev = path[t - 1];
        assert(linked(rooms, prev, path[t]));
        let j = choose|j: int| 0 <= j < queue.len() && queue[j] == RoomId(prev as usize);
        let m = choose|m: int|
            0 <= m < rooms[prev].connections.len() && rooms[prev].connections[m] == RoomId(
                path[t] as usize,
            );
        assert(0 <= prev < rooms.len());
        assert(queue[j].0 as int == prev);
        assert(rooms[queue[j].0 as int].connections[m] == RoomId(path[t] as usize));
    }
}

} // verus!
