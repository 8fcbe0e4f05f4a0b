use vstd::prelude::*;
use crate::math_utils::{Point, dist_sq};
use crate::map_graph::{MapDef, RoomId, RoomType, RoomView};
use crate::poisson::distance_squared;

verus! {

/// A click selects a room when it falls closer than this to the room's
/// position: fifteen world units.
pub const CLICK_RADIUS: u128 = 15_000;

/// Minimum time between two accepted moves, in milliseconds.
pub const BASE_COOLDOWN: u64 = 500;

/// Gate on player actions. Times are in milliseconds.
#[derive(Clone, Copy, Debug, PartialEq, Eq, Structural)]
pub struct Cooldown {
    pub last_action_time: u64,
    pub base_cooldown: u64,
}

/// Fraction of the cooldown elapsed at `now`, in thousandths: 1000 once
/// ready, otherwise the elapsed part of the cooldown, rounded down.
pub open spec fn cooldown_ratio(c: Cooldown, now: u64) -> int {
    if c.last_action_time + c.base_cooldown <= now {
        1000
    } else if now <= c.last_action_time {
        0
    } else {
        (1000 * (now - c.last_action_time)) / (c.base_cooldown as int)
    }
}

impl Cooldown {
    pub fn new(last_action_time: u64, base_cooldown: u64) -> (r: Cooldown)
        ensures
            r.last_action_time == last_action_time,
            r.base_cooldown == base_cooldown,
    {
        Cooldown { last_action_time, base_cooldown }
    }

    pub open spec fn ready(&self, now: u64) -> bool {
        self.last_action_time + self.base_cooldown <= now
    }

    /// The cooldown is over at `now`; the boundary counts as over.
    pub fn is_ready(&self, now: u64) -> (r: bool)
        ensures
            r == self.ready(now),
    {
        self.base_cooldown <= now && self.last_action_time <= now - self.base_cooldown
    }

    /// Progress of the cooldown at `now`, in thousandths (see `cooldown_ratio`).
    pub fn get_ratio(&self, now: u64) -> (r: u64)
        ensures
            r == cooldown_ratio(*self, now),
            r <= 1000,
    {
        if self.is_ready(now) {
            return 1000;
        }
        if now <= self.last_action_time {
            return 0;
        }
        let elapsed: u64 = now - self.last_action_time;
        let scaled: u128 = 1000u128 * elapsed as u128;
        let ratio: u128 = scaled / self.base_cooldown as u128;
        proof {
            assert(ratio <= 1000) by (nonlinear_arith)
                requires
                    ratio == scaled as int / (self.base_cooldown as int),
                    scaled == 1000 * elapsed,
                    elapsed < self.base_cooldown,
            ;
        }
        ratio as u64
    }
}

/// The player's place on the map and the move it asked for.
#[derive(Clone, Copy, Debug, PartialEq, Eq, Structural)]
pub struct MapPosition {
    pub pos_id: RoomId,
    pub will_move: Option<RoomId>,
}

/// The player's coin purse.
#[derive(Clone, Copy, Debug, PartialEq, Eq, Structural)]
pub struct Coins {
    pub amount: u32,
}

/// A command from the presentation layer: a click at a world position.
#[derive(Clone, Copy, Debug, PartialEq, Eq, Structural)]
pub enum UserInput {
    Click(Point),
}

/// Why an action was refused.
#[derive(Clone, Copy, Debug, PartialEq, Eq, Structural)]
pub enum Feedback {
    NotReady,
    NotEnoughCoins { amount: u32, price: u32 },
}

/// A refusal to show to the player, at a world position.
#[derive(Clone, Copy, Debug, PartialEq, Eq, Structural)]
pub struct TextFeedbackSpawn {
    pub feedback: Feedback,
    pub pos: Point,
}

/// Scan of the connections `conns` for a click: a room within
/// `CLICK_RADIUS` is selected, unless its price exceeds `amount`, in which
/// case a refusal is recorded and the scan goes on.
pub open spec fn scan_click(
    rooms: Seq<RoomView>,
    conns: Seq<RoomId>,
    amount: u32,
    click: Point,
) -> (Seq<TextFeedbackSpawn>, Option<RoomId>)
    decreases conns.len(),
{
    if conns.len() == 0 {
        (seq![], None)
    } else {
        let id = conns[0];
        let room = rooms[id.0 as int];
        if dist_sq(room.position, click) < CLICK_RADIUS * CLICK_RADIUS {
            match room.room_type {
                RoomType::Price(price) => {
                    if amount < price {
                        let rest = scan_click(rooms, conns.drop_first(), amount, click);
                        let refusal = TextFeedbackSpawn {
                            feedback: Feedback::NotEnoughCoins { amount, price },
                            pos: room.position,
                        };
                        (seq![refusal] + rest.0, rest.1)
                    } else {
                        (seq![], Some(id))
                    }
                },
                _ => (seq![], Some(id)),
            }
        } else {
            scan_click(rooms, conns.drop_first(), amount, click)
        }
    }
}

/// Clicks processed in order from the pending move `will_move` and the
/// cooldown `cooldown`: the first click met while the cooldown runs is
/// refused and ends the processing; a selected room becomes the pending
/// move and restarts the cooldown at `now`. Gives the pending move, the
/// cooldown and the refusals.
pub open spec fn handle_clicks(
    rooms: Seq<RoomView>,
    conns: Seq<RoomId>,
    amount: u32,
    now: u64,
    clicks: Seq<UserInput>,
    will_move: Option<RoomId>,
    cooldown: Cooldown,
) -> (Option<RoomId>, Cooldown, Seq<TextFeedbackSpawn>)
    decreases clicks.len(),
{
    if clicks.len() == 0 {
        (will_move, cooldown, seq![])
    } else if !cooldown.ready(now) {
        (
            will_move,
            cooldown,
            seq![TextFeedbackSpawn { feedback: Feedback::NotReady, pos: Point { x: 0, y: 0 } }],
        )
    } else {
        let UserInput::Click(click) = clicks[0];
        let scan = scan_click(rooms, conns, amount, click);
        let (w, c) = match scan.1 {
            Some(id) => (Some(id), Cooldown { last_action_time: now, ..cooldown }),
            None => (will_move, cooldown),
        };
        let rest = handle_clicks(rooms, conns, amount, now, clicks.drop_first(), w, c);
        (rest.0, rest.1, scan.0 + rest.2)
    }
}

/// Scans the connections of the current room for the room a click selects;
/// see `scan_click`.
pub fn scan_connections(map: &MapDef, current: RoomId, coins: &Coins, click: &Point) -> (r: (
    Vec<TextFeedbackSpawn>,
    Option<RoomId>,
))
    requires
        map.wf(),
        current.0 < map@.len(),
    ensures
        (r.0@, r.1) == scan_click(map@, map@[current.0 as int].connections, coins.amount, *click),
{
    let ghost all = map@[current.0 as int].connections;
    let conns = &map.rooms[current.0].connections;
    assert(conns@ == all);
    let mut feedback: Vec<TextFeedbackSpawn> = Vec::new();
    let mut k: usize = 0;
    proof {
        assert(all.subrange(0, all.len() as int) =~= all);
    }
    while k < conns.len()
        invariant
            map.wf(),
            current.0 < map@.len(),
            conns@ == all,
            all == map@[current.0 as int].connections,
            k <= all.len(),
            ({
                let rest = scan_click(map@, all.subrange(k as int, all.len() as int), coins.amount, *click);
                scan_click(map@, all, coins.amount, *click) == (feedback@ + rest.0, rest.1)
            }),
        decreases all.len() - k,
    {
        let id = conns[k];
        proof {
            assert(all[k as int] == id);
            assert(id.0 < map@.len());
        }
        let room = &map.rooms[id.0];
        assert(map@[id.0 as int] == room@);
        let ghost sub = all.subrange(k as int, all.len() as int);
        proof {
            assert(sub[0] == id);
            assert(sub.drop_first() =~= all.subrange(k + 1, all.len() as int));
        }
        if distance_squared(&room.position, click) < CLICK_RADIUS * CLICK_RADIUS {
            match room.room_type {
                RoomType::Price(price) => {
                    if coins.amount < price {
                        let refusal = TextFeedbackSpawn {
                            feedback: Feedback::NotEnoughCoins { amount: coins.amount, price },
                            pos: room.position,
                        };
                        let ghost before = feedback@;
                        feedback.push(refusal);
                        proof {
                            let rest = scan_click(map@, sub.drop_first(), coins.amount, *click);
                            assert(feedback@ + rest.0 =~= before + (seq![refusal] + rest.0));
                        }
                        k = k + 1;
                        continue;
                    }
                },
                _ => {},
            }
            proof {
                assert(feedback@ + seq![] =~= feedback@);
            }
            return (feedback, Some(id));
        }
        k = k + 1;
    }
    proof {
        assert(feedback@ + seq![] =~= feedback@);
    }
    (feedback, None)
}

/// Turns the queued clicks into at most one pending move, in order (see
/// `handle_clicks`), and empties the queue. Returns the refusals.
pub fn handle_input(
    map: &MapDef,
    coins: &Coins,
    inputs: &mut Vec<UserInput>,
    position: &mut MapPosition,
    cooldown: &mut Cooldown,
    now: u64,
) -> (feedback: Vec<TextFeedbackSpawn>)
    requires
        map.wf(),
        old(position).pos_id.0 < map@.len(),
    ensures
        final(inputs)@.len() == 0,
        final(position).pos_id == old(position).pos_id,
        (final(position).will_move, *final(cooldown), feedback@) == handle_clicks(
            map@,
            map@[old(position).pos_id.0 as int].connections,
            coins.amount,
            now,
            old(inputs)@,
            old(position).will_move,
            *old(cooldown),
        ),
{
    let ghost conns = map@[position.pos_id.0 as int].connections;
    let ghost clicks = inputs@;
    let ghost target = handle_clicks(
        map@,
        conns,
        coins.amount,
        now,
        clicks,
        position.will_move,
        *cooldown,
    );
    let mut feedback: Vec<TextFeedbackSpawn> = Vec::new();
    let mut i: usize = 0;
    proof {
        assert(clicks.subrange(0, clicks.len() as int) =~= clicks);
    }
    while i < inputs.len()
        invariant
            map.wf(),
            position.pos_id.0 < map@.len(),
            position.pos_id == old(position).pos_id,
            conns == map@[position.pos_id.0 as int].connections,
            inputs@ == clicks,
            i <= clicks.len(),
            ({
                let rest = handle_clicks(
                    map@,
                    conns,
                    coins.amount,
                    now,
                    clicks.subrange(i as int, clicks.len() as int),
                    position.will_move,
                    *cooldown,
                );
                target == (rest.0, rest.1, feedback@ + rest.2)
            }),
        ensures
            i == clicks.len(),
            position.pos_id == old(position).pos_id,
            ({
                let rest = handle_clicks(
                    map@,
                    conns,
                    coins.amount,
                    now,
                    clicks.subrange(i as int, clicks.len() as int),
                    position.will_move,
                    *cooldown,
                );
                target == (rest.0, rest.1, feedback@ + rest.2)
            }),
        decreases clicks.len() - i,
    {
        let ghost sub = clicks.subrange(i as int, clicks.len() as int);
        proof {
            assert(sub[0] == clicks[i as int]);
            assert(sub.drop_first() =~= clicks.subrange(i + 1, clicks.len() as int));
        }
        if !cooldown.is_ready(now) {
            let ghost before = feedback@;
            let refusal = TextFeedbackSpawn { feedback: Feedback::NotReady, pos: Point { x: 0, y: 0 } };
            feedback.push(refusal);
            proof {
                assert(before + seq![refusal] =~= feedback@);
                assert(feedback@ + seq![] =~= feedback@);
            }
            i = inputs.len();
            proof {
                assert(clicks.subrange(i as int, clicks.len() as int).len() == 0);
            }
            break;
        }
        let UserInput::Click(click) = inputs[i];
        let (refusals, selected) = scan_connections(map, position.pos_id, coins, &click);
        let ghost before = feedback@;
        let mut refusals = refusals;
        feedback.append(&mut refusals);
        match selected {
            Some(id) => {
                position.will_move = Some(id);
                cooldown.last_action_time = now;
            },
            None => {},
        }
        proof {
            let rest = handle_clicks(
                map@,
                conns,
                coins.amount,
                now,
                sub.drop_first(),
                position.will_move,
                *cooldown,
            );
            assert(feedback@ + rest.2 =~= before + (scan_click(map@, conns, coins.amount, click).0 + rest.2));
        }
        i = i + 1;
    }
    inputs.clear();
    proof {
        assert(clicks.subrange(i as int, clicks.len() as int).len() == 0);
        assert(feedback@ + seq![] =~= feedback@);
    }
    feedback
}

/// Cooldown gating: a click at `now` before `last_action_time +
/// base_cooldown` is refused with `NotReady` and changes nothing; a click
/// from that instant on (the boundary included) that selects a room makes
/// it the pending move and restarts the cooldown at `now`.
pub proof fn lemma_cooldown_gating(
    rooms: Seq<RoomView>,
    conns: Seq<RoomId>,
    amount: u32,
    now: u64,
    click: Point,
    will_move: Option<RoomId>,
    cooldown: Cooldown,
)
    ensures
        now < cooldown.last_action_time + cooldown.base_cooldown ==> handle_clicks(
            rooms,
            conns,
            amount,
            now,
            seq![UserInput::Click(click)],
            will_move,
            cooldown,
        ) == (
            will_move,
            cooldown,
            seq![TextFeedbackSpawn { feedback: Feedback::NotReady, pos: Point { x: 0, y: 0 } }],
        ),
        ({
            let scan = scan_click(rooms, conns, amount, click);
            now >= cooldown.last_action_time + cooldown.base_cooldown && scan.1 is Some
                ==> handle_clicks(
                rooms,
                conns,
                amount,
                now,
                seq![UserInput::Click(click)],
                will_move,
                cooldown,
            ) == (scan.1, Cooldown { last_action_time: now, ..cooldown }, scan.0)
        }),
{
    let clicks = seq![UserInput::Click(click)];
    assert(clicks.drop_first().len() == 0);
    let scan = scan_click(rooms, conns, amount, click);
    assert(scan.0 + seq![] =~= scan.0);
    if scan.1 is Some {
        let c2 = Cooldown { last_action_time: now, ..cooldown };
        assert(handle_clicks(rooms, conns, amount, now, clicks.drop_first(), scan.1, c2) == (
            scan.1,
            c2,
            Seq::<TextFeedbackSpawn>::empty(),
        ));
        assert(clicks[0] == UserInput::Click(click));
    }
}

} // verus!
