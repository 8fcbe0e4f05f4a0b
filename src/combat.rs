use vstd::prelude::*;
use crate::map_graph::{Battle, MapDef, RoomId, RoomView};
use crate::exploration::MapPosition;

verus! {

/// What the resolution of a pending move did.
#[derive(Clone, Copy, Debug, PartialEq, Eq, Structural)]
pub enum MoveOutcome {
    /// No move was pending, or it named no room.
    Idle,
    /// The target room's battle took a hit and held the player back.
    Blocked,
    /// The player entered the target room.
    Arrived,
}

/// Resolution of the pending move: a battle with positive `hp` in the
/// target room loses one `hp` and blocks the move; otherwise the player
/// enters the room and its spent battle is removed. The pending move is
/// cleared in every case.
pub open spec fn resolved(rooms: Seq<RoomView>, position: MapPosition) -> (
    Seq<RoomView>,
    MapPosition,
    MoveOutcome,
) {
    let cleared = MapPosition { will_move: None, ..position };
    match position.will_move {
        None => (rooms, position, MoveOutcome::Idle),
        Some(t) => if t.0 >= rooms.len() {
            (rooms, cleared, MoveOutcome::Idle)
        } else {
            let room = rooms[t.0 as int];
            match room.battle {
                Some(b) => if b.hp > 0 {
                    (
                        rooms.update(
                            t.0 as int,
                            RoomView {
                                battle: Some(Battle { hp: (b.hp - 1) as u32, ..b }),
                                is_dirty: true,
                                ..room
                            },
                        ),
                        cleared,
                        MoveOutcome::Blocked,
                    )
                } else {
                    (
                        rooms.update(t.0 as int, RoomView { battle: None, is_dirty: true, ..room }),
                        MapPosition { pos_id: t, will_move: None },
                        MoveOutcome::Arrived,
                    )
                },
                None => (rooms, MapPosition { pos_id: t, will_move: None }, MoveOutcome::Arrived),
            }
        },
    }
}

/// Resolves the pending move (see `resolved`).
pub fn react_to_will_move(map: &mut MapDef, position: &mut MapPosition) -> (r: MoveOutcome)
    requires
        old(map).wf(),
    ensures
        final(map).wf(),
        (final(map)@, *final(position), r) == resolved(old(map)@, *old(position)),
{
    let target = match position.will_move {
        None => {
            return MoveOutcome::Idle;
        },
        Some(t) => t,
    };
    position.will_move = None;
    if target.0 >= map.rooms.len() {
        return MoveOutcome::Idle;
    }
    let room_type = map.rooms[target.0].room_type;
    match map.rooms[target.0].battle {
        Some(b) => {
            if b.hp > 0 {
                let hit = Battle { hp: b.hp - 1, attack: b.attack };
                map.set_room_state(target, room_type, Some(hit), true);
                MoveOutcome::Blocked
            } else {
                map.set_room_state(target, room_type, None, true);
                position.pos_id = target;
                MoveOutcome::Arrived
            }
        },
        None => {
            position.pos_id = target;
            MoveOutcome::Arrived
        },
    }
}

/// How the display of a room's battle must change.
#[derive(Clone, Copy, Debug, PartialEq, Eq, Structural)]
pub enum BattleDisplay {
    /// Show the battle with its remaining `hp`.
    Show { room: RoomId, hp: u32 },
    /// The battle is over: remove its display.
    Remove { room: RoomId },
}

/// The display change for room `id` in state `room`.
pub open spec fn battle_display(id: int, room: RoomView) -> BattleDisplay {
    match room.battle {
        Some(b) => if b.hp > 0 {
            BattleDisplay::Show { room: RoomId(id as usize), hp: b.hp }
        } else {
            BattleDisplay::Remove { room: RoomId(id as usize) }
        },
        None => BattleDisplay::Remove { room: RoomId(id as usize) },
    }
}

/// Display changes for the rooms marked dirty, by id.
pub open spec fn battle_updates(rooms: Seq<RoomView>) -> Seq<BattleDisplay>
    decreases rooms.len(),
{
    if rooms.len() == 0 {
        seq![]
    } else {
        let i = rooms.len() - 1;
        let before = battle_updates(rooms.drop_last());
        if rooms[i].is_dirty {
            before.push(battle_display(i, rooms[i]))
        } else {
            before
        }
    }
}

/// Collects the display changes of the dirty rooms (see `battle_updates`)
/// and clears their marks.
pub fn update_battle_room(map: &mut MapDef) -> (r: Vec<BattleDisplay>)
    requires
        old(map).wf(),
    ensures
        final(map).wf(),
        r@ == battle_updates(old(map)@),
        final(map)@.len() == old(map)@.len(),
        forall|i: int|
            0 <= i < old(map)@.len() ==> #[trigger] final(map)@[i] == (RoomView {
                is_dirty: false,
                ..old(map)@[i]
            }),
{
    let ghost rooms = map@;
    let mut r: Vec<BattleDisplay> = Vec::new();
    let mut i: usize = 0;
    let n = map.rooms.len();
    while i < n
        invariant
            map.wf(),
            n == rooms.len(),
            map@.len() == rooms.len(),
            i <= n,
            r@ == battle_updates(rooms.take(i as int)),
            forall|j: int| i <= j < n ==> #[trigger] map@[j] == rooms[j],
            forall|j: int|
                0 <= j < i ==> #[trigger] map@[j] == (RoomView { is_dirty: false, ..rooms[j] }),
            rooms == old(map)@,
        decreases n - i,
    {
        let ghost before = map@;
        proof {
            assert(rooms.take(i + 1).drop_last() =~= rooms.take(i as int));
            assert(rooms.take(i + 1)[i as int] == rooms[i as int]);
            assert(map@[i as int] == rooms[i as int]);
        }
        if map.rooms[i].is_dirty {
            let room_type = map.rooms[i].room_type;
            let battle = map.rooms[i].battle;
            let update = match battle {
                Some(b) => {
                    if b.hp > 0 {
                        BattleDisplay::Show { room: RoomId(i), hp: b.hp }
                    } else {
                        BattleDisplay::Remove { room: RoomId(i) }
                    }
                },
                None => BattleDisplay::Remove { room: RoomId(i) },
            };
            r.push(update);
            map.set_room_state(RoomId(i), room_type, battle, false);
            proof {
                assert forall|j: int| i < j < n implies #[trigger] map@[j] == rooms[j] by {
                    assert(map@[j] == before[j]);
                }
                assert forall|j: int|
                    0 <= j <= i implies #[trigger] map@[j] == (RoomView {
                        is_dirty: false,
                        ..rooms[j]
                    }) by {
                    if j < i {
                        assert(map@[j] == before[j]);
                    }
                }
            }
        }
        i = i + 1;
    }
    proof {
        assert(rooms.take(n as int) =~= rooms);
    }
    r
}

} // verus!
