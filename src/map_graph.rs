use vstd::prelude::*;
use crate::math_utils::{Point, dist_sq, lemma_dist_sq_bounds};
use crate::poisson::{
    Poisson, distance_squared, far_from_all, first_candidate, ring_of, lemma_first_candidate_far,
};

verus! {

/// Minimum distance between two rooms: forty world units.
pub const MIN_DISTANCE_BETWEEN_ROOMS: u32 = 40_000;

/// Radius of the ring on which new rooms are sampled.
pub const SAMPLING_RING: u32 = MIN_DISTANCE_BETWEEN_ROOMS + crate::poisson::EPSILON;

/// A new room is also linked to its nearest other room when that room lies
/// closer than this: one and a half times the minimum distance.
pub const LINK_DISTANCE: u128 = 60_000;

/// Handle of a room: the number of rooms that existed when it was created.
#[derive(Clone, Copy, Debug, PartialEq, Eq, Structural, Hash)]
pub struct RoomId(pub usize);

/// What happens when the player enters a room.
#[derive(Clone, Copy, Debug, PartialEq, Eq, Structural)]
pub enum RoomType {
    Danger,
    Safe,
    Coins,
    Price(u32),
}

impl Default for RoomType {
    fn default() -> (r: RoomType)
        ensures
            r == RoomType::Safe,
    {
        RoomType::Safe
    }
}

/// An encounter that blocks entry into its room while `hp` is positive.
#[derive(Clone, Copy, Debug, PartialEq, Eq, Structural)]
pub struct Battle {
    pub hp: u32,
    pub attack: u32,
}

/// A node of the map.
#[derive(Debug)]
pub struct Room {
    /// Adjacent rooms, in the order the links were made.
    pub connections: Vec<RoomId>,
    pub position: Point,
    pub room_type: RoomType,
    pub battle: Option<Battle>,
    /// The room's battle changed since its display was last refreshed.
    pub is_dirty: bool,
}

/// Mathematical model of a room.
pub struct RoomView {
    pub connections: Seq<RoomId>,
    pub position: Point,
    pub room_type: RoomType,
    pub battle: Option<Battle>,
    pub is_dirty: bool,
}

impl View for Room {
    type V = RoomView;

    open spec fn view(&self) -> RoomView {
        RoomView {
            connections: self.connections@,
            position: self.position,
            room_type: self.room_type,
            battle: self.battle,
            is_dirty: self.is_dirty,
        }
    }
}

/// The room graph; a room's id is its index.
#[derive(Debug)]
pub struct MapDef {
    pub rooms: Vec<Room>,
}

impl View for MapDef {
    type V = Seq<RoomView>;

    open spec fn view(&self) -> Seq<RoomView> {
        self.rooms@.map_values(|r: Room| r@)
    }
}

/// Room `i` lists room `j` among its connections.
pub open spec fn linked(rooms: Seq<RoomView>, i: int, j: int) -> bool {
    rooms[i].connections.contains(RoomId(j as usize))
}

/// Positions of the rooms, by id.
pub open spec fn positions(rooms: Seq<RoomView>) -> Seq<Point> {
    rooms.map_values(|r: RoomView| r.position)
}

/// Every connection names another existing room, which links back.
pub open spec fn links_valid(rooms: Seq<RoomView>) -> bool {
    forall|i: int, k: int|
        0 <= i < rooms.len() && 0 <= k < rooms[i].connections.len() ==> {
            let c = (#[trigger] rooms[i].connections[k]).0 as int;
            &&& 0 <= c < rooms.len()
            &&& c != i
            &&& linked(rooms, c, i)
        }
}

/// Every room but the root was linked first to a room created before it.
pub open spec fn parents_valid(rooms: Seq<RoomView>) -> bool {
    forall|i: int|
        0 < i < rooms.len() ==> (#[trigger] rooms[i].connections).len() > 0
            && rooms[i].connections[0].0 < i
}

/// Any two rooms lie at least the minimum distance apart.
pub open spec fn spaced(rooms: Seq<RoomView>) -> bool {
    forall|i: int, j: int|
        0 <= i < rooms.len() && 0 <= j < rooms.len() && i != j ==> dist_sq(
            #[trigger] rooms[i].position,
            #[trigger] rooms[j].position,
        ) >= MIN_DISTANCE_BETWEEN_ROOMS * MIN_DISTANCE_BETWEEN_ROOMS
}

/// Well-formed room graph: the root exists, links are valid and symmetric,
/// each room hangs from an older one, and rooms are spaced.
pub open spec fn graph_wf(rooms: Seq<RoomView>) -> bool {
    &&& rooms.len() >= 1
    &&& links_valid(rooms)
    &&& parents_valid(rooms)
    &&& spaced(rooms)
}

/// `i` is the index of the point nearest to `p` among those unequal to
/// `excluded`, the first such index when several are equally near.
pub open spec fn is_closest(points: Seq<Point>, p: Point, excluded: Point, i: int) -> bool {
    &&& 0 <= i < points.len()
    &&& points[i] != excluded
    &&& forall|k: int|
        0 <= k < points.len() && points[k] != excluded ==> dist_sq(#[trigger] points[k], p)
            >= dist_sq(points[i], p)
    &&& forall|k: int|
        0 <= k < i && points[k] != excluded ==> dist_sq(#[trigger] points[k], p) > dist_sq(
            points[i],
            p,
        )
}

/// The room, other than `from`, that a new room at `p` created from `from`
/// gets a second link to: the nearest one, when it is closer than
/// `LINK_DISTANCE`.
pub open spec fn relink_target(rooms: Seq<RoomView>, from: int, p: Point) -> Option<int> {
    let pts = positions(rooms);
    if exists|i: int|
        is_closest(pts, p, rooms[from].position, i) && dist_sq(pts[i], p) < LINK_DISTANCE
            * LINK_DISTANCE {
        Some(
            choose|i: int|
                is_closest(pts, p, rooms[from].position, i) && dist_sq(pts[i], p)
                    < LINK_DISTANCE * LINK_DISTANCE,
        )
    } else {
        None
    }
}

/// `r` with `id` appended to its connections.
pub open spec fn appended(r: RoomView, id: RoomId) -> RoomView {
    RoomView { connections: r.connections.push(id), ..r }
}

/// The rooms after a room at `position` is created from room `from`.
pub open spec fn inserted(
    rooms: Seq<RoomView>,
    from: int,
    position: Point,
    room_type: RoomType,
    battle: Option<Battle>,
) -> Seq<RoomView> {
    let new_id = RoomId(rooms.len() as usize);
    let base = rooms.update(from, appended(rooms[from], new_id));
    let fresh = RoomView {
        connections: seq![RoomId(from as usize)],
        position,
        room_type,
        battle,
        is_dirty: battle is Some,
    };
    match relink_target(rooms, from, position) {
        None => base.push(fresh),
        Some(c) => base.update(c, appended(base[c], new_id)).push(
            RoomView { connections: fresh.connections.push(RoomId(c as usize)), ..fresh },
        ),
    }
}

pub proof fn lemma_closest_unique(points: Seq<Point>, p: Point, excluded: Point, i: int, j: int)
    requires
        is_closest(points, p, excluded, i),
        is_closest(points, p, excluded, j),
    ensures
        i == j,
{
    if i < j {
        assert(dist_sq(points[i], p) > dist_sq(points[j], p));
    } else if j < i {
        assert(dist_sq(points[j], p) > dist_sq(points[i], p));
    }
}

/// Index and squared distance of the point of `existing_points` nearest to
/// `ref_point`, leaving out the points equal to `excluded`; the first such
/// point when several are equally near.
pub fn find_closest(existing_points: &Vec<Point>, ref_point: &Point, excluded: &Point) -> (r:
    Option<(usize, u128)>)
    ensures
        r is None <==> forall|k: int|
            0 <= k < existing_points@.len() ==> #[trigger] existing_points@[k] == *excluded,
        r matches Some((i, d)) ==> is_closest(existing_points@, *ref_point, *excluded, i as int)
            && d == dist_sq(existing_points@[i as int], *ref_point),
{
    let mut best: Option<(usize, u128)> = None;
    let mut k: usize = 0;
    while k < existing_points.len()
        invariant
            k <= existing_points@.len(),
            best is None <==> forall|m: int|
                0 <= m < k ==> #[trigger] existing_points@[m] == *excluded,
            best matches Some((i, d)) ==> i < k && existing_points@[i as int] != *excluded && d
                == dist_sq(existing_points@[i as int], *ref_point) && (forall|m: int|
                0 <= m < k && existing_points@[m] != *excluded ==> dist_sq(
                    #[trigger] existing_points@[m],
                    *ref_point,
                ) >= d) && (forall|m: int|
                0 <= m < i && existing_points@[m] != *excluded ==> dist_sq(
                    #[trigger] existing_points@[m],
                    *ref_point,
                ) > d),
        decreases existing_points@.len() - k,
    {
        let p = existing_points[k];
        if p != *excluded {
            let d = distance_squared(&p, ref_point);
            match best {
                None => {
                    best = Some((k, d));
                },
                Some((_, bd)) => {
                    if d < bd {
                        best = Some((k, d));
                    }
                },
            }
        }
        k = k + 1;
    }
    best
}


/// What `inserted` keeps and adds, room by room.
proof fn lemma_inserted_shape(
    rooms: Seq<RoomView>,
    from: int,
    position: Point,
    room_type: RoomType,
    battle: Option<Battle>,
)
    requires
        0 <= from < rooms.len(),
        rooms.len() + 1 < usize::MAX,
    ensures
        ({
            let n = rooms.len() as int;
            let r2 = inserted(rooms, from, position, room_type, battle);
            let t = relink_target(rooms, from, position);
            &&& r2.len() == n + 1
            &&& t matches Some(c) ==> 0 <= c < n && c != from
            &&& forall|i: int|
                #![trigger r2[i]]
                0 <= i < n ==> {
                    &&& r2[i].position == rooms[i].position
                    &&& r2[i].room_type == rooms[i].room_type
                    &&& r2[i].battle == rooms[i].battle
                    &&& r2[i].is_dirty == rooms[i].is_dirty
                    &&& r2[i].connections.len() >= rooms[i].connections.len()
                    &&& forall|k: int|
                        0 <= k < rooms[i].connections.len() ==> r2[i].connections[k]
                            == rooms[i].connections[k]
                    &&& forall|k: int|
                        rooms[i].connections.len() <= k < r2[i].connections.len()
                            ==> r2[i].connections[k] == RoomId(n as usize)
                    &&& (i == from || t == Some(i)) ==> r2[i].connections.contains(
                        RoomId(n as usize),
                    )
                    &&& (r2[i].connections.len() > rooms[i].connections.len()) ==> (i == from
                        || t == Some(i))
                }
            &&& r2[n].position == position
            &&& r2[n].room_type == room_type
            &&& r2[n].battle == battle
            &&& r2[n].is_dirty == (battle is Some)
            &&& r2[n].connections[0] == RoomId(from as usize)
            &&& r2[n].connections.len() >= 1
            &&& forall|k: int|
                0 <= k < r2[n].connections.len() ==> (r2[n].connections[k] == RoomId(
                    from as usize,
                ) || t == Some(r2[n].connections[k].0 as int))
            &&& t matches Some(c) ==> r2[n].connections.contains(RoomId(c as usize))
        }),
{
    let n = rooms.len() as int;
    let new_id = RoomId(n as usize);
    let r2 = inserted(rooms, from, position, room_type, battle);
    let t = relink_target(rooms, from, position);
    let pts = positions(rooms);
    if let Some(c) = t {
        let w = choose|i: int|
            is_closest(pts, position, rooms[from].position, i) && dist_sq(pts[i], position)
                < LINK_DISTANCE * LINK_DISTANCE;
        assert(c == w);
        assert(pts[c] == rooms[c].position);
        assert(pts[from] == rooms[from].position);
        assert(0 <= c < n && c != from);
        assert(r2[n].connections[1] == RoomId(c as usize));
    }
    let base = rooms.update(from, appended(rooms[from], new_id));
    assert(r2[n].connections[0] == RoomId(from as usize));
    assert forall|i: int|
        #![trigger r2[i]]
        0 <= i < n implies {
            &&& forall|k: int|
                rooms[i].connections.len() <= k < r2[i].connections.len()
                    ==> r2[i].connections[k] == RoomId(n as usize)
            &&& (i == from || t == Some(i)) ==> r2[i].connections.contains(RoomId(n as usize))
        } by {
        if i == from {
            assert(base[i].connections[base[i].connections.len() - 1] == new_id);
        }
        if t == Some(i) {
            assert(r2[i].connections[r2[i].connections.len() - 1] == new_id);
        }
    }
}

proof fn lemma_inserted_links(
    rooms: Seq<RoomView>,
    from: int,
    position: Point,
    room_type: RoomType,
    battle: Option<Battle>,
)
    requires
        graph_wf(rooms),
        0 <= from < rooms.len(),
        rooms.len() + 1 < usize::MAX,
    ensures
        links_valid(inserted(rooms, from, position, room_type, battle)),
{
    let n = rooms.len() as int;
    let r2 = inserted(rooms, from, position, room_type, battle);
    let t = relink_target(rooms, from, position);
    lemma_inserted_shape(rooms, from, position, room_type, battle);
    assert forall|i: int, k: int|
        0 <= i < r2.len() && 0 <= k < r2[i].connections.len() implies {
            let c = (#[trigger] r2[i].connections[k]).0 as int;
            &&& 0 <= c < r2.len()
            &&& c != i
            &&& linked(r2, c, i)
        } by {
        let c = r2[i].connections[k].0 as int;
        if i < n {
            if k < rooms[i].connections.len() {
                assert(rooms[i].connections[k] == r2[i].connections[k]);
                assert(linked(rooms, c, i));
                let m = choose|m: int|
                    0 <= m < rooms[c].connections.len() && rooms[c].connections[m] == RoomId(
                        i as usize,
                    );
                assert(r2[c].connections[m] == RoomId(i as usize));
            } else {
                assert(r2[i].connections[k] == RoomId(n as usize));
                assert(c == n);
                if i == from {
                    assert(r2[n].connections[0] == RoomId(i as usize));
                } else {
                    assert(t == Some(i));
                }
            }
        } else {
            assert(i == n);
            if r2[n].connections[k] == RoomId(from as usize) {
                assert(c == from);
            } else {
                assert(t == Some(c));
            }
        }
    }
}

/// Creating a room keeps the graph well formed, provided the new position
/// respects the minimum distance.
proof fn lemma_inserted_wf(
    rooms: Seq<RoomView>,
    from: int,
    position: Point,
    room_type: RoomType,
    battle: Option<Battle>,
)
    requires
        graph_wf(rooms),
        0 <= from < rooms.len(),
        rooms.len() + 1 < usize::MAX,
        far_from_all(positions(rooms), position, MIN_DISTANCE_BETWEEN_ROOMS as int),
    ensures
        graph_wf(inserted(rooms, from, position, room_type, battle)),
{
    let n = rooms.len() as int;
    let r2 = inserted(rooms, from, position, room_type, battle);
    lemma_inserted_shape(rooms, from, position, room_type, battle);
    lemma_inserted_links(rooms, from, position, room_type, battle);
    assert forall|i: int| 0 < i < r2.len() implies (#[trigger] r2[i].connections).len() > 0
        && r2[i].connections[0].0 < i by {
        if i < n {
            assert(rooms[i].connections.len() > 0);
            assert(r2[i].connections[0] == rooms[i].connections[0]);
        }
    }
    assert forall|i: int, j: int|
        0 <= i < r2.len() && 0 <= j < r2.len() && i != j implies dist_sq(
        #[trigger] r2[i].position,
        #[trigger] r2[j].position,
    ) >= MIN_DISTANCE_BETWEEN_ROOMS * MIN_DISTANCE_BETWEEN_ROOMS by {
        if i == n {
            assert(positions(rooms)[j] == rooms[j].position);
            lemma_dist_sq_bounds(r2[i].position, r2[j].position);
        } else if j == n {
            assert(positions(rooms)[i] == rooms[i].position);
        } else {
            assert(r2[i].position == rooms[i].position);
            assert(r2[j].position == rooms[j].position);
        }
    }
}

/// The graph conditions depend only on links and positions.
proof fn lemma_wf_same_layout(a: Seq<RoomView>, b: Seq<RoomView>)
    requires
        graph_wf(a),
        a.len() == b.len(),
        forall|i: int|
            0 <= i < a.len() ==> (#[trigger] b[i]).connections == a[i].connections
                && b[i].position == a[i].position,
    ensures
        graph_wf(b),
{
    assert forall|i: int, k: int|
        0 <= i < b.len() && 0 <= k < b[i].connections.len() implies {
            let c = (#[trigger] b[i].connections[k]).0 as int;
            &&& 0 <= c < b.len()
            &&& c != i
            &&& linked(b, c, i)
        } by {
        assert(a[i].connections[k] == b[i].connections[k]);
        let c = b[i].connections[k].0 as int;
        assert(b[c].connections == a[c].connections);
    }
    assert forall|i: int| 0 < i < b.len() implies (#[trigger] b[i].connections).len() > 0
        && b[i].connections[0].0 < i by {
        assert(a[i].connections == b[i].connections);
    }
    assert forall|i: int, j: int|
        0 <= i < b.len() && 0 <= j < b.len() && i != j implies dist_sq(
        #[trigger] b[i].position,
        #[trigger] b[j].position,
    ) >= MIN_DISTANCE_BETWEEN_ROOMS * MIN_DISTANCE_BETWEEN_ROOMS by {
        assert(a[i].position == b[i].position && a[j].position == b[j].position);
    }
}

impl MapDef {
    pub open spec fn wf(&self) -> bool {
        graph_wf(self@)
    }

    /// A map made of its root room, safe, at `root`.
    pub fn new(root: Point) -> (r: MapDef)
        ensures
            r.wf(),
            r@.len() == 1,
            r@[0].position == root,
            r@[0].connections.len() == 0,
            r@[0].room_type == RoomType::Safe,
            r@[0].battle is None,
            !r@[0].is_dirty,
    {
        let mut rooms: Vec<Room> = Vec::new();
        rooms.push(
            Room {
                connections: Vec::new(),
                position: root,
                room_type: RoomType::Safe,
                battle: None,
                is_dirty: false,
            },
        );
        let r = MapDef { rooms };
        assert(r@[0].connections.len() == 0);
        r
    }

    pub fn len(&self) -> (r: usize)
        ensures
            r == self@.len(),
    {
        self.rooms.len()
    }

    /// Positions of the rooms, by id.
    pub fn positions(&self) -> (r: Vec<Point>)
        ensures
            r@ == positions(self@),
    {
        let mut r: Vec<Point> = Vec::new();
        let mut i: usize = 0;
        while i < self.rooms.len()
            invariant
                i <= self.rooms@.len(),
                r@ == positions(self@).take(i as int),
            decreases self.rooms@.len() - i,
        {
            r.push(self.rooms[i].position);
            i = i + 1;
            assert(r@ =~= positions(self@).take(i as int));
        }
        assert(r@ =~= positions(self@));
        r
    }

    /// Creates a room at `position`, linked to `from`, and also to the
    /// nearest room other than `from` when that one is closer than
    /// `LINK_DISTANCE`. The new room's id is the former number of rooms.
    pub fn insert_room(
        &mut self,
        from: RoomId,
        position: Point,
        room_type: RoomType,
        battle: Option<Battle>,
    ) -> (r: RoomId)
        requires
            old(self).wf(),
            from.0 < old(self)@.len(),
            old(self)@.len() + 1 < usize::MAX,
            far_from_all(positions(old(self)@), position, MIN_DISTANCE_BETWEEN_ROOMS as int),
        ensures
            final(self).wf(),
            r == RoomId(old(self)@.len() as usize),
            final(self)@ == inserted(old(self)@, from.0 as int, position, room_type, battle),
    {
        let ghost rooms0 = self@;
        let new_id = RoomId(self.rooms.len());
        let existing = self.positions();
        let origin = self.rooms[from.0].position;
        let closest = find_closest(&existing, &position, &origin);
        self.rooms[from.0].connections.push(new_id);
        let mut connections: Vec<RoomId> = Vec::new();
        connections.push(from);
        let ghost t = relink_target(rooms0, from.0 as int, position);
        proof {
            assert(existing@[from.0 as int] == origin);
        }
        match closest {
            Some((c, d)) => {
                proof {
                    if d < LINK_DISTANCE * LINK_DISTANCE {
                        assert(is_closest(positions(rooms0), position, origin, c as int) && dist_sq(
                            positions(rooms0)[c as int],
                            position,
                        ) < LINK_DISTANCE * LINK_DISTANCE);
                        let w = choose|i: int|
                            is_closest(positions(rooms0), position, origin, i) && dist_sq(
                                positions(rooms0)[i],
                                position,
                            ) < LINK_DISTANCE * LINK_DISTANCE;
                        lemma_closest_unique(positions(rooms0), position, origin, c as int, w);
                        assert(t == Some(c as int));
                    } else {
                        assert forall|i: int|
                            !(is_closest(positions(rooms0), position, origin, i) && dist_sq(
                                positions(rooms0)[i],
                                position,
                            ) < LINK_DISTANCE * LINK_DISTANCE) by {
                            if is_closest(positions(rooms0), position, origin, i) {
                                lemma_closest_unique(
                                    positions(rooms0),
                                    position,
                                    origin,
                                    c as int,
                                    i,
                                );
                            }
                        }
                        assert(t is None);
                    }
                }
                if d < LINK_DISTANCE * LINK_DISTANCE {
                    self.rooms[c].connections.push(new_id);
                    connections.push(RoomId(c));
                }
            },
            None => {
                proof {
                    assert forall|i: int|
                        !(is_closest(positions(rooms0), position, origin, i) && dist_sq(
                            positions(rooms0)[i],
                            position,
                        ) < LINK_DISTANCE * LINK_DISTANCE) by {
                        if is_closest(positions(rooms0), position, origin, i) {
                            assert(existing@[i] == origin);
                        }
                    }
                    assert(t is None);
                }
            },
        }
        let is_dirty = battle.is_some();
        self.rooms.push(Room { connections, position, room_type, battle, is_dirty });
        proof {
            let expected = inserted(rooms0, from.0 as int, position, room_type, battle);
            lemma_inserted_shape(rooms0, from.0 as int, position, room_type, battle);
            assert(self@.len() == expected.len());
            assert forall|i: int| 0 <= i < self@.len() implies #[trigger] self@[i] == expected[i] by {
                assert(self@[i].connections =~= expected[i].connections);
            }
            assert(self@ =~= expected);
            lemma_inserted_wf(rooms0, from.0 as int, position, room_type, battle);
        }
        new_id
    }

    /// Sets the type, battle and dirty mark of room `id`; its links and
    /// position stay.
    pub fn set_room_state(
        &mut self,
        id: RoomId,
        room_type: RoomType,
        battle: Option<Battle>,
        is_dirty: bool,
    )
        requires
            old(self).wf(),
            id.0 < old(self)@.len(),
        ensures
            final(self).wf(),
            final(self)@ == old(self)@.update(
                id.0 as int,
                RoomView { room_type, battle, is_dirty, ..old(self)@[id.0 as int] },
            ),
    {
        let ghost before = self@;
        self.rooms[id.0].room_type = room_type;
        self.rooms[id.0].battle = battle;
        self.rooms[id.0].is_dirty = is_dirty;
        proof {
            let expected = before.update(
                id.0 as int,
                RoomView { room_type, battle, is_dirty, ..before[id.0 as int] },
            );
            assert forall|i: int| 0 <= i < self@.len() implies #[trigger] self@[i] == expected[i] by {
                assert(self@[i].connections =~= expected[i].connections);
            }
            assert(self@ =~= expected);
            lemma_wf_same_layout(before, self@);
        }
    }

    /// Position of room `from` when it exists.
    pub fn room_position(&self, from: RoomId) -> (r: Option<Point>)
        ensures
            r == (if from.0 < self@.len() {
                Some(self@[from.0 as int].position)
            } else {
                None
            }),
    {
        if from.0 < self.rooms.len() {
            Some(self.rooms[from.0].position)
        } else {
            None
        }
    }

    /// Grows the map from room `from`: samples a position around it with
    /// the candidate `offsets` (see `Poisson::compute_new_position`) and
    /// inserts a room there with `insert_room`. Nothing changes when `from`
    /// names no room, when every candidate is rejected, or when no id is
    /// left for a new room.
    pub fn create_room(
        &mut self,
        from: RoomId,
        room_type: RoomType,
        battle: Option<Battle>,
        offsets: &Vec<Point>,
    ) -> (r: Option<RoomId>)
        requires
            old(self).wf(),
        ensures
            final(self).wf(),
            ({
                let n = old(self)@.len();
                let found = if from.0 < n {
                    first_candidate(
                        positions(old(self)@),
                        old(self)@[from.0 as int].position,
                        offsets@,
                        ring_of(MIN_DISTANCE_BETWEEN_ROOMS),
                    )
                } else {
                    None
                };
                if from.0 < n && n + 1 < usize::MAX && found is Some {
                    &&& r == Some(RoomId(n as usize))
                    &&& final(self)@ == inserted(
                        old(self)@,
                        from.0 as int,
                        found.unwrap(),
                        room_type,
                        battle,
                    )
                } else {
                    &&& r is None
                    &&& final(self)@ == old(self)@
                }
            }),
    {
        if from.0 >= self.rooms.len() || self.rooms.len() >= usize::MAX - 1 {
            return None;
        }
        let poisson = Poisson::new();
        let existing_points = self.positions();
        let ref_point = self.rooms[from.0].position;
        match poisson.compute_new_position(
            &existing_points,
            &ref_point,
            MIN_DISTANCE_BETWEEN_ROOMS,
            offsets,
        ) {
            Some(new_position) => {
                proof {
                    let ring = ring_of(MIN_DISTANCE_BETWEEN_ROOMS);
                    assert(ring * ring >= MIN_DISTANCE_BETWEEN_ROOMS * MIN_DISTANCE_BETWEEN_ROOMS)
                        by (nonlinear_arith)
                        requires ring >= MIN_DISTANCE_BETWEEN_ROOMS;
                }
                Some(self.insert_room(from, new_position, room_type, battle))
            },
            None => None,
        }
    }
}

/// A walk along connections: consecutive rooms are linked.
pub open spec fn is_path(rooms: Seq<RoomView>, path: Seq<int>) -> bool {
    &&& path.len() >= 1
    &&& forall|k: int| 0 <= k < path.len() ==> 0 <= #[trigger] path[k] < rooms.len()
    &&& forall|k: int| 0 <= k < path.len() - 1 ==> linked(rooms, #[trigger] path[k], path[k + 1])
}

/// Room `to` can be reached from room `from` along connections.
pub open spec fn reachable(rooms: Seq<RoomView>, from: int, to: int) -> bool {
    exists|path: Seq<int>| is_path(rooms, path) && path[0] == from && path.last() == to
}

proof fn lemma_reachable_from_root(rooms: Seq<RoomView>, i: int)
    requires
        graph_wf(rooms),
        0 <= i < rooms.len(),
    ensures
        reachable(rooms, 0, i),
    decreases i,
{
    if i == 0 {
        let path = seq![0int];
        assert(is_path(rooms, path));
        assert(path[0] == 0 && path.last() == 0);
    } else {
        let p = rooms[i].connections[0].0 as int;
        assert(0 <= p < rooms.len() && linked(rooms, p, i));
        lemma_reachable_from_root(rooms, p);
        let path = choose|path: Seq<int>|
            is_path(rooms, path) && path[0] == 0 && path.last() == p;
        let longer = path.push(i);
        assert forall|k: int| 0 <= k < longer.len() - 1 implies linked(
            rooms,
            #[trigger] longer[k],
            longer[k + 1],
        ) by {
            if k < path.len() - 1 {
                assert(longer[k] == path[k] && longer[k + 1] == path[k + 1]);
            }
        }
        assert(is_path(rooms, longer));
        assert(longer[0] == 0 && longer.last() == i);
        assert(is_path(rooms, longer) && longer[0] == 0 && longer.last() == i);
    }
}

/// Connectivity: in a well-formed map every room can be reached from the
/// root along connections.
pub proof fn lemma_map_connected(map: &MapDef)
    requires
        map.wf(),
    ensures
        forall|i: int| 0 <= i < map@.len() ==> #[trigger] reachable(map@, 0, i),
{
    assert forall|i: int| 0 <= i < map@.len() implies #[trigger] reachable(map@, 0, i) by {
        lemma_reachable_from_root(map@, i);
    }
}

/// Minimum distance: in a well-formed map any two rooms lie at least
/// `MIN_DISTANCE_BETWEEN_ROOMS` apart.
pub proof fn lemma_map_spaced(map: &MapDef)
    requires
        map.wf(),
    ensures
        forall|i: int, j: int|
            0 <= i < map@.len() && 0 <= j < map@.len() && i != j ==> dist_sq(
                #[trigger] map@[i].position,
                #[trigger] map@[j].position,
            ) >= MIN_DISTANCE_BETWEEN_ROOMS * MIN_DISTANCE_BETWEEN_ROOMS,
{
}

/// Creating a room, whatever the candidates, keeps every room reachable
/// from the root and every two rooms the minimum distance apart.
pub proof fn lemma_create_room_keeps_invariants(
    before: &MapDef,
    after: &MapDef,
    from: RoomId,
    room_type: RoomType,
    battle: Option<Battle>,
    offsets: Seq<Point>,
)
    requires
        before.wf(),
        ({
            let n = before@.len();
            let found = if from.0 < n {
                first_candidate(
                    positions(before@),
                    before@[from.0 as int].position,
                    offsets,
                    ring_of(MIN_DISTANCE_BETWEEN_ROOMS),
                )
            } else {
                None
            };
            if from.0 < n && n + 1 < usize::MAX && found is Some {
                after@ == inserted(before@, from.0 as int, found.unwrap(), room_type, battle)
            } else {
                after@ == before@
            }
        }),
    ensures
        after.wf(),
        forall|i: int| 0 <= i < after@.len() ==> #[trigger] reachable(after@, 0, i),
{
    let n = before@.len();
    if from.0 < n && n + 1 < usize::MAX {
        let found = first_candidate(
            positions(before@),
            before@[from.0 as int].position,
            offsets,
            ring_of(MIN_DISTANCE_BETWEEN_ROOMS),
        );
        if let Some(p) = found {
            lemma_first_candidate_far(
                positions(before@),
                before@[from.0 as int].position,
                offsets,
                ring_of(MIN_DISTANCE_BETWEEN_ROOMS),
            );
            let ring = ring_of(MIN_DISTANCE_BETWEEN_ROOMS);
            assert(ring * ring >= MIN_DISTANCE_BETWEEN_ROOMS * MIN_DISTANCE_BETWEEN_ROOMS)
                by (nonlinear_arith)
                requires ring >= MIN_DISTANCE_BETWEEN_ROOMS;
            lemma_inserted_wf(before@, from.0 as int, p, room_type, battle);
        }
    }
    lemma_map_connected(after);
}

} // verus!
