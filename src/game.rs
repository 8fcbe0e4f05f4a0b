use vstd::prelude::*;
use crate::math_utils::Point;
use crate::map_graph::{Battle, MapDef, RoomId, RoomType, RoomView, positions, inserted};
use crate::poisson::{Poisson, first_candidate, ring_of, sweep_turn};
use crate::random::{RandomDeterministic, chacha20_u32_at, chacha20_u64_at, advance};
use crate::exploration::{
    Coins, Cooldown, MapPosition, UserInput, TextFeedbackSpawn, BASE_COOLDOWN, handle_clicks,
    handle_input,
};
use crate::combat::{MoveOutcome, react_to_will_move, resolved};
use crate::danger::{
    DangerZone, DangerSpeedModifier, SpawnDangerZoneCommand, SpawnDangerZone, INITIAL_DANGER_SIZE,
    SPEED_ONE, danger_position, danger_spawn_position, grow_danger_zone,
    danger_zone_grow_speedup, check_player_death, inside_some,
};

verus! {

/// Attempts of the sampler when the map is first built.
pub const INITIAL_ATTEMPTS: u32 = 5;

/// Attempts of the sampler for a room requested on arrival.
pub const CREATE_ATTEMPTS: u32 = 10;

/// Number of rooms the first build aims at, root included.
pub const INITIAL_ROOMS: usize = 2;

/// Where the first hazard appears: twenty world units along each axis.
pub const FIRST_DANGER_POSITION: i32 = 20_000;

/// One kind of room requested on each arrival; it carries a battle when a
/// drawn word is a multiple of `battle_one_in` (never when that is 0, and
/// then nothing is drawn).
#[derive(Clone, Copy, Debug, PartialEq, Eq, Structural)]
pub struct SpawnRule {
    pub room_type: RoomType,
    pub battle_one_in: u32,
}

/// Settings read when a map is generated. Speeds are in thousandths of a
/// world unit per second; `speed_gain_danger` is in millionths per second.
#[derive(Clone, Debug)]
pub struct MapConfiguration {
    pub start_with_danger_zone: bool,
    pub speed_gain_danger: u64,
    pub speed_init_danger: u32,
    pub spawn_rules: Vec<SpawnRule>,
}

impl MapConfiguration {
    /// A first hazard, a hazard speed of ten world units per second gaining
    /// 0.1 per second, and on each arrival a coin room (a battle one time in
    /// three) and a room with a price of seven coins.
    pub fn new() -> (r: MapConfiguration)
        ensures
            r.start_with_danger_zone,
            r.speed_gain_danger == 100_000,
            r.speed_init_danger == 10_000,
            r.spawn_rules@ == seq![
                SpawnRule { room_type: RoomType::Coins, battle_one_in: 3 },
                SpawnRule { room_type: RoomType::Price(7), battle_one_in: 0 },
            ],
    {
        let mut spawn_rules: Vec<SpawnRule> = Vec::new();
        spawn_rules.push(SpawnRule { room_type: RoomType::Coins, battle_one_in: 3 });
        spawn_rules.push(SpawnRule { room_type: RoomType::Price(7), battle_one_in: 0 });
        assert(spawn_rules@ =~= seq![
            SpawnRule { room_type: RoomType::Coins, battle_one_in: 3 },
            SpawnRule { room_type: RoomType::Price(7), battle_one_in: 0 },
        ]);
        MapConfiguration {
            start_with_danger_zone: true,
            speed_gain_danger: 100_000,
            speed_init_danger: 10_000,
            spawn_rules,
        }
    }
}

impl Default for MapConfiguration {
    /// The settings of `MapConfiguration::new`.
    fn default() -> (r: MapConfiguration)
        ensures
            r.start_with_danger_zone,
            r.speed_gain_danger == 100_000,
            r.speed_init_danger == 10_000,
            r.spawn_rules@ == seq![
                SpawnRule { room_type: RoomType::Coins, battle_one_in: 3 },
                SpawnRule { room_type: RoomType::Price(7), battle_one_in: 0 },
            ],
    {
        MapConfiguration::new()
    }
}

/// A request for a new room next to `from_room_id`.
#[derive(Clone, Copy, Debug, PartialEq, Eq, Structural)]
pub struct MapCreateRoom {
    pub from_room_id: RoomId,
    pub room_type: RoomType,
    pub battle: Option<Battle>,
}

/// A request taken from the queue, with the sweep directions drawn for it.
#[derive(Clone, Debug)]
pub struct PendingRoom {
    pub request: MapCreateRoom,
    pub turns: Vec<u32>,
}

/// The battle a drawn word gives.
pub open spec fn battle_roll(word: u32, one_in: u32) -> Option<Battle> {
    if word % one_in == 0 {
        Some(Battle { hp: 1, attack: 1 })
    } else {
        None
    }
}

/// Requests made on arrival at `from`, by `rules`, drawing from the stream
/// of `seed` at `pos`; with the stream's offset afterwards.
pub open spec fn spawn_plan(rules: Seq<SpawnRule>, from: RoomId, seed: u64, pos: u64) -> (
    Seq<MapCreateRoom>,
    u64,
)
    decreases rules.len(),
{
    if rules.len() == 0 {
        (seq![], pos)
    } else {
        let rule = rules[0];
        let battle = if rule.battle_one_in > 0 {
            battle_roll(chacha20_u32_at(seed, pos), rule.battle_one_in)
        } else {
            None
        };
        let next = if rule.battle_one_in > 0 {
            advance(pos, 1)
        } else {
            pos
        };
        let rest = spawn_plan(rules.drop_first(), from, seed, next);
        (
            seq![MapCreateRoom { from_room_id: from, room_type: rule.room_type, battle }] + rest.0,
            rest.1,
        )
    }
}

/// Coins after paying `price`, never below zero.
pub open spec fn paid(amount: u32, price: u32) -> u32 {
    if amount >= price {
        (amount - price) as u32
    } else {
        0
    }
}

/// Coins after entering a room of type `t`; a full purse stays full.
pub open spec fn coins_after(t: RoomType, amount: u32) -> u32 {
    match t {
        RoomType::Coins => if amount < u32::MAX {
            (amount + 1) as u32
        } else {
            amount
        },
        RoomType::Price(price) => paid(amount, price),
        _ => amount,
    }
}

/// Hazard speed multiplier after entering a room of type `t`: a price
/// halves it (rounded down).
pub open spec fn multiplier_after(t: RoomType, multiplier: u64) -> u64 {
    match t {
        RoomType::Price(_) => multiplier / 2,
        _ => multiplier,
    }
}

/// Hazards after entering room `id` of type `t`: a danger room adds one.
pub open spec fn dangers_after(
    t: RoomType,
    rooms: Seq<RoomView>,
    id: int,
    dangers: Seq<DangerZone>,
    rate: u32,
) -> Seq<DangerZone> {
    match t {
        RoomType::Danger => dangers.push(
            DangerZone {
                position: danger_spawn_position(rooms, id),
                size: INITIAL_DANGER_SIZE,
                radius_increase_per_second: rate,
            },
        ),
        _ => dangers,
    }
}

/// Coins after paying each price in turn.
pub open spec fn pay_all(amount: u32, prices: Seq<u32>) -> u32
    decreases prices.len(),
{
    if prices.len() == 0 {
        amount
    } else {
        pay_all(paid(amount, prices[0]), prices.drop_first())
    }
}

/// The whole state of a session.
#[derive(Debug)]
pub struct GameState {
    pub map: MapDef,
    pub position: MapPosition,
    pub cooldown: Cooldown,
    pub coins: Coins,
    pub danger_speed_modifier: DangerSpeedModifier,
    pub dangers: Vec<DangerZone>,
    pub random: RandomDeterministic,
    pub configuration: MapConfiguration,
    pub create_requests: Vec<MapCreateRoom>,
    /// Room the first build currently grows from.
    pub build_root: usize,
}

impl GameState {
    pub open spec fn wf(&self) -> bool {
        &&& self.map.wf()
        &&& self.position.pos_id.0 < self.map@.len()
    }

    /// A new session: the random source restarts the stream of `seed`, the
    /// map holds its root at the origin, the player stands there with no
    /// coins, the cooldown starts at `now`, and a first hazard waits when
    /// the configuration asks for one.
    pub fn new(configuration: MapConfiguration, seed: u64, now: u64) -> (r: GameState)
        ensures
            r.wf(),
            r.map@.len() == 1,
            r.map@[0].position == (Point { x: 0, y: 0 }),
            r.position == (MapPosition { pos_id: RoomId(0), will_move: None }),
            r.cooldown == (Cooldown { last_action_time: now, base_cooldown: BASE_COOLDOWN }),
            r.coins.amount == 0,
            r.danger_speed_modifier.multiplier == SPEED_ONE,
            r.random.seed == seed && r.random.word_pos == 0,
            r.create_requests@.len() == 0,
            r.build_root == 0,
            r.dangers@ == (if configuration.start_with_danger_zone {
                seq![
                    DangerZone {
                        position: Point { x: FIRST_DANGER_POSITION, y: FIRST_DANGER_POSITION },
                        size: INITIAL_DANGER_SIZE,
                        radius_increase_per_second: configuration.speed_init_danger,
                    },
                ]
            } else {
                seq![]
            }),
            r.configuration.start_with_danger_zone == configuration.start_with_danger_zone,
            r.configuration.speed_gain_danger == configuration.speed_gain_danger,
            r.configuration.speed_init_danger == configuration.speed_init_danger,
            r.configuration.spawn_rules@ == configuration.spawn_rules@,
    {
        let map = MapDef::new(Point { x: 0, y: 0 });
        let mut dangers: Vec<DangerZone> = Vec::new();
        if configuration.start_with_danger_zone {
            let command = SpawnDangerZoneCommand {
                position: Point { x: FIRST_DANGER_POSITION, y: FIRST_DANGER_POSITION },
                radius_increase_per_second: configuration.speed_init_danger,
            };
            dangers.push(SpawnDangerZone(&command));
        }
        proof {
            if configuration.start_with_danger_zone {
                assert(dangers@ =~= seq![
                    DangerZone {
                        position: Point { x: FIRST_DANGER_POSITION, y: FIRST_DANGER_POSITION },
                        size: INITIAL_DANGER_SIZE,
                        radius_increase_per_second: configuration.speed_init_danger,
                    },
                ]);
            } else {
                assert(dangers@ =~= seq![]);
            }
        }
        GameState {
            map,
            position: MapPosition { pos_id: RoomId(0), will_move: None },
            cooldown: Cooldown { last_action_time: now, base_cooldown: BASE_COOLDOWN },
            coins: Coins { amount: 0 },
            danger_speed_modifier: DangerSpeedModifier { multiplier: SPEED_ONE },
            dangers,
            random: RandomDeterministic::from_seed(seed),
            configuration,
            create_requests: Vec::new(),
            build_root: 0,
        }
    }

    /// While the first build is under way (its room `build_root` exists and
    /// the map holds fewer than `INITIAL_ROOMS` rooms), draws the sweep of
    /// the next attempt around `build_root`; otherwise `None`, drawing nothing.
    pub fn initial_sweep(&mut self) -> (r: Option<Vec<u32>>)
        ensures
            final(self).map@ == old(self).map@,
            final(self).position == old(self).position,
            final(self).build_root == old(self).build_root,
            final(self).random.seed == old(self).random.seed,
            if old(self).build_root < old(self).map@.len() && old(self).map@.len() < INITIAL_ROOMS {
                &&& r matches Some(turns) && turns@.len() == INITIAL_ATTEMPTS
                    && forall|k: int|
                    0 <= k < INITIAL_ATTEMPTS ==> #[trigger] turns@[k] as int == sweep_turn(
                        chacha20_u64_at(old(self).random.seed, old(self).random.word_pos),
                        k as nat,
                        INITIAL_ATTEMPTS as nat,
                    )
                &&& final(self).random.word_pos == advance(old(self).random.word_pos, 2)
            } else {
                &&& r is None
                &&& final(self).random == old(self).random
            },
    {
        if self.build_root < self.map.len() && self.map.len() < INITIAL_ROOMS {
            let poisson = Poisson::new();
            Some(poisson.sweep(&mut self.random, INITIAL_ATTEMPTS))
        } else {
            None
        }
    }

    /// Places a room of the first build from `build_root` with the candidate
    /// `offsets` of the last sweep; when none is accepted the build moves on
    /// to the next room.
    pub fn place_initial_room(&mut self, offsets: &Vec<Point>) -> (r: Option<RoomId>)
        requires
            old(self).wf(),
        ensures
            final(self).wf(),
            final(self).position == old(self).position,
            final(self).random == old(self).random,
            ({
                let rooms = old(self).map@;
                let from = old(self).build_root;
                let n = rooms.len();
                let found = if from < n {
                    first_candidate(
                        positions(rooms),
                        rooms[from as int].position,
                        offsets@,
                        ring_of(crate::map_graph::MIN_DISTANCE_BETWEEN_ROOMS),
                    )
                } else {
                    None
                };
                if from < n && n + 1 < usize::MAX && found is Some {
                    &&& r == Some(RoomId(n as usize))
                    &&& final(self).map@ == inserted(
                        rooms,
                        from as int,
                        found.unwrap(),
                        RoomType::Safe,
                        None,
                    )
                    &&& final(self).build_root == from
                } else {
                    &&& r is None
                    &&& final(self).map@ == rooms
                    &&& final(self).build_root == (if from < usize::MAX {
                        from + 1
                    } else {
                        from as int
                    })
                }
            }),
    {
        let r = self.map.create_room(RoomId(self.build_root), RoomType::Safe, None, offsets);
        if r.is_none() && self.build_root < usize::MAX {
            self.build_root = self.build_root + 1;
        }
        r
    }

    /// Queues the room requests of an arrival at `from`, drawing battles
    /// from the random source (see `spawn_plan`).
    fn spawn_requests(&mut self, from: RoomId)
        ensures
            final(self).map@ == old(self).map@,
            final(self).position == old(self).position,
            final(self).coins == old(self).coins,
            final(self).danger_speed_modifier == old(self).danger_speed_modifier,
            final(self).dangers@ == old(self).dangers@,
            final(self).configuration.spawn_rules@ == old(self).configuration.spawn_rules@,
            final(self).configuration.speed_init_danger == old(self).configuration.speed_init_danger,
            final(self).configuration.speed_gain_danger == old(self).configuration.speed_gain_danger,
            final(self).configuration.start_with_danger_zone == old(self).configuration.start_with_danger_zone,
            final(self).cooldown == old(self).cooldown,
            final(self).build_root == old(self).build_root,
            final(self).random.seed == old(self).random.seed,
            ({
                let plan = spawn_plan(
                    old(self).configuration.spawn_rules@,
                    from,
                    old(self).random.seed,
                    old(self).random.word_pos,
                );
                &&& final(self).create_requests@ == old(self).create_requests@ + plan.0
                &&& final(self).random.word_pos == plan.1
            }),
    {
        let ghost rules = self.configuration.spawn_rules@;
        let ghost seed = self.random.seed;
        let ghost requests0 = self.create_requests@;
        let ghost target = spawn_plan(rules, from, seed, self.random.word_pos);
        let mut k: usize = 0;
        proof {
            assert(rules.subrange(0, rules.len() as int) =~= rules);
            assert(requests0 + seq![] =~= requests0);
            assert(self.create_requests@ + target.0 =~= requests0 + target.0);
        }
        while k < self.configuration.spawn_rules.len()
            invariant
                k <= rules.len(),
                rules == self.configuration.spawn_rules@,
                seed == self.random.seed,
                self.map@ == old(self).map@,
                self.position == old(self).position,
                self.coins == old(self).coins,
                self.danger_speed_modifier == old(self).danger_speed_modifier,
                self.dangers@ == old(self).dangers@,
                self.configuration.speed_init_danger == old(self).configuration.speed_init_danger,
                self.configuration.speed_gain_danger == old(self).configuration.speed_gain_danger,
                self.configuration.start_with_danger_zone == old(self).configuration.start_with_danger_zone,
                self.cooldown == old(self).cooldown,
                self.build_root == old(self).build_root,
                rules == old(self).configuration.spawn_rules@,
                seed == old(self).random.seed,
                requests0 == old(self).create_requests@,
                target == spawn_plan(rules, from, seed, old(self).random.word_pos),
                ({
                    let rest = spawn_plan(
                        rules.subrange(k as int, rules.len() as int),
                        from,
                        seed,
                        self.random.word_pos,
                    );
                    &&& requests0 + target.0 == self.create_requests@ + rest.0
                    &&& target.1 == rest.1
                }),
            decreases rules.len() - k,
        {
            let rule = self.configuration.spawn_rules[k];
            let ghost sub = rules.subrange(k as int, rules.len() as int);
            let ghost before = self.create_requests@;
            let ghost pos = self.random.word_pos;
            proof {
                assert(sub[0] == rule);
                assert(sub.drop_first() =~= rules.subrange(k + 1, rules.len() as int));
            }
            let battle = if rule.battle_one_in > 0 {
                let word = self.random.next_u32();
                if word % rule.battle_one_in == 0 {
                    Some(Battle { hp: 1, attack: 1 })
                } else {
                    None
                }
            } else {
                None
            };
            let request = MapCreateRoom { from_room_id: from, room_type: rule.room_type, battle };
            self.create_requests.push(request);
            proof {
                let rest = spawn_plan(sub.drop_first(), from, seed, self.random.word_pos);
                assert(spawn_plan(sub, from, seed, pos).0 =~= seq![request] + rest.0);
                assert(self.create_requests@ + rest.0 =~= before + (seq![request] + rest.0));
            }
            k = k + 1;
        }
        proof {
            assert(rules.subrange(k as int, rules.len() as int) =~= Seq::<SpawnRule>::empty());
            assert(self.create_requests@ + seq![] =~= self.create_requests@);
        }
    }

    /// Applies the effect of the room the player stands in, once: a coin
    /// room adds a coin, a price is paid (never below zero) and halves the
    /// hazard speed, a danger room spawns a hazard nearby; the room then
    /// becomes safe.
    pub fn apply_room_effect(&mut self)
        requires
            old(self).wf(),
        ensures
            final(self).wf(),
            ({
                let id = old(self).position.pos_id.0 as int;
                let rooms = old(self).map@;
                let t = rooms[id].room_type;
                &&& final(self).coins.amount == coins_after(t, old(self).coins.amount)
                &&& final(self).danger_speed_modifier.multiplier == multiplier_after(
                    t,
                    old(self).danger_speed_modifier.multiplier,
                )
                &&& final(self).dangers@ == dangers_after(
                    t,
                    rooms,
                    id,
                    old(self).dangers@,
                    old(self).configuration.speed_init_danger,
                )
                &&& final(self).map@ == rooms.update(
                    id,
                    RoomView { room_type: RoomType::Safe, ..rooms[id] },
                )
            }),
            final(self).position == old(self).position,
            final(self).cooldown == old(self).cooldown,
            final(self).random == old(self).random,
            final(self).create_requests@ == old(self).create_requests@,
            final(self).build_root == old(self).build_root,
            final(self).configuration.spawn_rules@ == old(self).configuration.spawn_rules@,
            final(self).configuration.speed_init_danger == old(self).configuration.speed_init_danger,
            final(self).configuration.speed_gain_danger == old(self).configuration.speed_gain_danger,
    {
        let id = self.position.pos_id;
        let room_type = self.map.rooms[id.0].room_type;
        match room_type {
            RoomType::Safe => {},
            RoomType::Danger => {
                let command = SpawnDangerZoneCommand {
                    position: danger_position(&self.map, id),
                    radius_increase_per_second: self.configuration.speed_init_danger,
                };
                self.dangers.push(SpawnDangerZone(&command));
            },
            RoomType::Coins => {
                if self.coins.amount < u32::MAX {
                    self.coins.amount = self.coins.amount + 1;
                }
            },
            RoomType::Price(price) => {
                self.coins.amount = if self.coins.amount >= price {
                    self.coins.amount - price
                } else {
                    0
                };
                self.danger_speed_modifier.multiplier = self.danger_speed_modifier.multiplier / 2;
            },
        }
        let battle = self.map.rooms[id.0].battle;
        let is_dirty = self.map.rooms[id.0].is_dirty;
        self.map.set_room_state(id, RoomType::Safe, battle, is_dirty);
    }

    /// What follows an arrival: the room requests of the configuration are
    /// queued (see `spawn_plan`), then the room's effect applies (see
    /// `apply_room_effect`).
    pub fn react_to_move_player(&mut self)
        requires
            old(self).wf(),
        ensures
            final(self).wf(),
            ({
                let id = old(self).position.pos_id.0 as int;
                let rooms = old(self).map@;
                let t = rooms[id].room_type;
                let plan = spawn_plan(
                    old(self).configuration.spawn_rules@,
                    old(self).position.pos_id,
                    old(self).random.seed,
                    old(self).random.word_pos,
                );
                &&& final(self).create_requests@ == old(self).create_requests@ + plan.0
                &&& final(self).random.seed == old(self).random.seed
                &&& final(self).random.word_pos == plan.1
                &&& final(self).coins.amount == coins_after(t, old(self).coins.amount)
                &&& final(self).danger_speed_modifier.multiplier == multiplier_after(
                    t,
                    old(self).danger_speed_modifier.multiplier,
                )
                &&& final(self).dangers@ == dangers_after(
                    t,
                    rooms,
                    id,
                    old(self).dangers@,
                    old(self).configuration.speed_init_danger,
                )
                &&& final(self).map@ == rooms.update(
                    id,
                    RoomView { room_type: RoomType::Safe, ..rooms[id] },
                )
            }),
            final(self).position == old(self).position,
            final(self).cooldown == old(self).cooldown,
            final(self).build_root == old(self).build_root,
    {
        let from = self.position.pos_id;
        self.spawn_requests(from);
        self.apply_room_effect();
    }

    /// Resolves the pending move (see `resolved`); on an arrival, the
    /// arrival's requests and effect follow (see `react_to_move_player`).
    pub fn resolve_move(&mut self) -> (r: MoveOutcome)
        requires
            old(self).wf(),
        ensures
            final(self).wf(),
            final(self).cooldown == old(self).cooldown,
            ({
                let res = resolved(old(self).map@, old(self).position);
                let id = res.1.pos_id.0 as int;
                let t = res.0[id].room_type;
                &&& r == res.2
                &&& final(self).position == res.1
                &&& if r == MoveOutcome::Arrived {
                    let plan = spawn_plan(
                        old(self).configuration.spawn_rules@,
                        res.1.pos_id,
                        old(self).random.seed,
                        old(self).random.word_pos,
                    );
                    &&& final(self).create_requests@ == old(self).create_requests@ + plan.0
                    &&& final(self).random.seed == old(self).random.seed
                    &&& final(self).random.word_pos == plan.1
                    &&& final(self).coins.amount == coins_after(t, old(self).coins.amount)
                    &&& final(self).danger_speed_modifier.multiplier == multiplier_after(
                        t,
                        old(self).danger_speed_modifier.multiplier,
                    )
                    &&& final(self).dangers@ == dangers_after(
                        t,
                        res.0,
                        id,
                        old(self).dangers@,
                        old(self).configuration.speed_init_danger,
                    )
                    &&& final(self).map@ == res.0.update(
                        id,
                        RoomView { room_type: RoomType::Safe, ..res.0[id] },
                    )
                } else {
                    &&& final(self).map@ == res.0
                    &&& final(self).create_requests@ == old(self).create_requests@
                    &&& final(self).random == old(self).random
                    &&& final(self).coins == old(self).coins
                    &&& final(self).danger_speed_modifier == old(self).danger_speed_modifier
                    &&& final(self).dangers@ == old(self).dangers@
                }
            }),
    {
        let outcome = react_to_will_move(&mut self.map, &mut self.position);
        if outcome == MoveOutcome::Arrived {
            self.react_to_move_player();
        }
        outcome
    }

    /// Turns queued clicks into a pending move (see `handle_clicks`).
    pub fn handle_input(&mut self, inputs: &mut Vec<UserInput>, now: u64) -> (feedback: Vec<
        TextFeedbackSpawn,
    >)
        requires
            old(self).wf(),
        ensures
            final(self).wf(),
            final(inputs)@.len() == 0,
            final(self).map@ == old(self).map@,
            final(self).position.pos_id == old(self).position.pos_id,
            (final(self).position.will_move, final(self).cooldown, feedback@) == handle_clicks(
                old(self).map@,
                old(self).map@[old(self).position.pos_id.0 as int].connections,
                old(self).coins.amount,
                now,
                old(inputs)@,
                old(self).position.will_move,
                old(self).cooldown,
            ),
            final(self).coins == old(self).coins,
            final(self).random == old(self).random,
            final(self).dangers@ == old(self).dangers@,
            final(self).danger_speed_modifier == old(self).danger_speed_modifier,
            final(self).create_requests@ == old(self).create_requests@,
            final(self).build_root == old(self).build_root,
    {
        handle_input(&self.map, &self.coins, inputs, &mut self.position, &mut self.cooldown, now)
    }

    /// Takes the oldest queued request whose room exists, dropping the stale
    /// ones before it, and draws the sweep for it; `None` once the queue is
    /// empty.
    pub fn next_room_request(&mut self) -> (r: Option<PendingRoom>)
        requires
            old(self).wf(),
        ensures
            final(self).wf(),
            final(self).map@ == old(self).map@,
            final(self).position == old(self).position,
            final(self).random.seed == old(self).random.seed,
            match r {
                None => {
                    &&& final(self).create_requests@.len() == 0
                    &&& final(self).random == old(self).random
                    &&& forall|i: int|
                        0 <= i < old(self).create_requests@.len() ==> (
                        #[trigger] old(self).create_requests@[i]).from_room_id.0
                            >= old(self).map@.len()
                },
                Some(p) => exists|j: int|
                    {
                        &&& 0 <= j < old(self).create_requests@.len()
                        &&& #[trigger] old(self).create_requests@[j] == p.request
                        &&& p.request.from_room_id.0 < old(self).map@.len()
                        &&& forall|i: int|
                            0 <= i < j ==> (#[trigger] old(self).create_requests@[i]).from_room_id.0
                                >= old(self).map@.len()
                        &&& final(self).create_requests@ == old(self).create_requests@.subrange(
                            j + 1,
                            old(self).create_requests@.len() as int,
                        )
                        &&& final(self).random.word_pos == advance(old(self).random.word_pos, 2)
                        &&& p.turns@.len() == CREATE_ATTEMPTS
                        &&& forall|k: int|
                            0 <= k < CREATE_ATTEMPTS ==> #[trigger] p.turns@[k] as int
                                == sweep_turn(
                                chacha20_u64_at(old(self).random.seed, old(self).random.word_pos),
                                k as nat,
                                CREATE_ATTEMPTS as nat,
                            )
                    },
            },
    {
        let ghost queue0 = self.create_requests@;
        let ghost dropped: int = 0;
        while self.create_requests.len() > 0
            invariant
                self.wf(),
                self.map@ == old(self).map@,
                self.position == old(self).position,
                self.random == old(self).random,
                queue0 == old(self).create_requests@,
                0 <= dropped <= queue0.len(),
                self.create_requests@ == queue0.subrange(dropped, queue0.len() as int),
                forall|i: int|
                    0 <= i < dropped ==> (#[trigger] queue0[i]).from_room_id.0 >= self.map@.len(),
            decreases self.create_requests@.len(),
        {
            let request = self.create_requests.remove(0);
            proof {
                assert(request == queue0[dropped]);
                assert(self.create_requests@ =~= queue0.subrange(dropped + 1, queue0.len() as int));
            }
            if request.from_room_id.0 < self.map.len() {
                let poisson = Poisson::new();
                let turns = poisson.sweep(&mut self.random, CREATE_ATTEMPTS);
                return Some(PendingRoom { request, turns });
            }
            proof {
                dropped = dropped + 1;
            }
        }
        None
    }

    /// Creates the room of a request with the candidate `offsets` of its
    /// sweep (see `MapDef::create_room`).
    pub fn place_room(&mut self, request: &MapCreateRoom, offsets: &Vec<Point>) -> (r: Option<
        RoomId,
    >)
        requires
            old(self).wf(),
        ensures
            final(self).wf(),
            final(self).position == old(self).position,
            final(self).random == old(self).random,
            final(self).create_requests@ == old(self).create_requests@,
            ({
                let rooms = old(self).map@;
                let from = request.from_room_id.0;
                let n = rooms.len();
                let found = if from < n {
                    first_candidate(
                        positions(rooms),
                        rooms[from as int].position,
                        offsets@,
                        ring_of(crate::map_graph::MIN_DISTANCE_BETWEEN_ROOMS),
                    )
                } else {
                    None
                };
                if from < n && n + 1 < usize::MAX && found is Some {
                    &&& r == Some(RoomId(n as usize))
                    &&& final(self).map@ == inserted(
                        rooms,
                        from as int,
                        found.unwrap(),
                        request.room_type,
                        request.battle,
                    )
                } else {
                    &&& r is None
                    &&& final(self).map@ == rooms
                }
            }),
    {
        self.map.create_room(request.from_room_id, request.room_type, request.battle, offsets)
    }

    /// Advances the hazards by `dt_ms` milliseconds: each grows at the
    /// current speed, the speed then gains its share, and the result tells
    /// whether the player now stands inside a hazard.
    pub fn update_dangers(&mut self, dt_ms: u32) -> (dead: bool)
        requires
            old(self).wf(),
        ensures
            final(self).wf(),
            final(self).map@ == old(self).map@,
            final(self).position == old(self).position,
            final(self).dangers@.len() == old(self).dangers@.len(),
            forall|i: int|
                0 <= i < old(self).dangers@.len() ==> #[trigger] final(self).dangers@[i] == (
                DangerZone {
                    size: crate::danger::grown(
                        old(self).dangers@[i].size,
                        dt_ms,
                        old(self).dangers@[i].radius_increase_per_second,
                        old(self).danger_speed_modifier.multiplier,
                    ) as u64,
                    ..old(self).dangers@[i]
                }),
            final(self).danger_speed_modifier.multiplier == crate::danger::sped_up(
                old(self).danger_speed_modifier.multiplier,
                dt_ms,
                old(self).configuration.speed_gain_danger,
            ),
            dead == inside_some(
                old(self).map@[old(self).position.pos_id.0 as int].position,
                final(self).dangers@,
            ),
    {
        grow_danger_zone(&mut self.dangers, dt_ms, &self.danger_speed_modifier);
        danger_zone_grow_speedup(
            &mut self.danger_speed_modifier,
            dt_ms,
            self.configuration.speed_gain_danger,
        );
        let player = self.map.rooms[self.position.pos_id.0].position;
        check_player_death(&player, &self.dangers)
    }
}

/// Sum of the prices.
pub open spec fn total_price(prices: Seq<u32>) -> int
    decreases prices.len(),
{
    if prices.len() == 0 {
        0
    } else {
        prices[0] + total_price(prices.drop_first())
    }
}

proof fn lemma_total_price_nonnegative(prices: Seq<u32>)
    ensures
        total_price(prices) >= 0,
    decreases prices.len(),
{
    if prices.len() > 0 {
        lemma_total_price_nonnegative(prices.drop_first());
    }
}

/// Coins never go negative: after paying any sequence of prices the purse
/// holds the starting amount less the total price, or zero when the total
/// exceeds the starting amount.
pub proof fn lemma_payments_clamp(amount: u32, prices: Seq<u32>)
    ensures
        pay_all(amount, prices) as int == (if amount >= total_price(prices) {
            amount - total_price(prices)
        } else {
            0
        }),
        pay_all(amount, prices) >= 0,
    decreases prices.len(),
{
    if prices.len() > 0 {
        lemma_payments_clamp(paid(amount, prices[0]), prices.drop_first());
        lemma_total_price_nonnegative(prices.drop_first());
    }
}

/// Entering a price room pays through `paid`: coins stay at or above zero,
/// and reach exactly zero when the price exceeds them; the hazard speed
/// halves.
pub proof fn lemma_price_room_clamps(amount: u32, price: u32, multiplier: u64)
    ensures
        coins_after(RoomType::Price(price), amount) as int == (if amount >= price {
            amount - price
        } else {
            0
        }),
        multiplier_after(RoomType::Price(price), multiplier) == multiplier / 2,
{
}

/// One-shot effect: after the effect of room `id` has been applied, the
/// room is safe, and applying the effect again changes neither the coins,
/// nor the hazard speed, nor the hazards, nor the map.
pub proof fn lemma_effect_once(
    rooms: Seq<RoomView>,
    id: int,
    amount: u32,
    multiplier: u64,
    dangers: Seq<DangerZone>,
    rate: u32,
)
    requires
        0 <= id < rooms.len(),
    ensures
        ({
            let t = rooms[id].room_type;
            let rooms1 = rooms.update(id, RoomView { room_type: RoomType::Safe, ..rooms[id] });
            let t1 = rooms1[id].room_type;
            let amount1 = coins_after(t, amount);
            let multiplier1 = multiplier_after(t, multiplier);
            let dangers1 = dangers_after(t, rooms, id, dangers, rate);
            &&& t1 == RoomType::Safe
            &&& coins_after(t1, amount1) == amount1
            &&& multiplier_after(t1, multiplier1) == multiplier1
            &&& dangers_after(t1, rooms1, id, dangers1, rate) == dangers1
            &&& rooms1.update(id, RoomView { room_type: RoomType::Safe, ..rooms1[id] }) == rooms1
        }),
{
    let rooms1 = rooms.update(id, RoomView { room_type: RoomType::Safe, ..rooms[id] });
    assert(rooms1.update(id, RoomView { room_type: RoomType::Safe, ..rooms1[id] }) =~= rooms1);
}

/// Determinism: two random sources at the same seed and offset draw the
/// same battles for an arrival and the same sweep for a request, and two
/// equal maps given the same request and candidate offsets grow into equal
/// maps; so a run repeated from the same seed with the same requests gives
/// the same rooms, positions, ids and connection order.
pub proof fn lemma_runs_agree(
    a: RandomDeterministic,
    b: RandomDeterministic,
    rules: Seq<SpawnRule>,
    from: RoomId,
    k: nat,
    nb_attempts: nat,
    map_a: Seq<RoomView>,
    map_b: Seq<RoomView>,
    offsets: Seq<Point>,
    request: MapCreateRoom,
)
    requires
        a.seed == b.seed,
        a.word_pos == b.word_pos,
        map_a == map_b,
    ensures
        spawn_plan(rules, from, a.seed, a.word_pos) == spawn_plan(rules, from, b.seed, b.word_pos),
        sweep_turn(chacha20_u64_at(a.seed, a.word_pos), k, nb_attempts) == sweep_turn(
            chacha20_u64_at(b.seed, b.word_pos),
            k,
            nb_attempts,
        ),
        ({
            let f = request.from_room_id.0 as int;
            let found_a = first_candidate(
                positions(map_a),
                map_a[f].position,
                offsets,
                ring_of(crate::map_graph::MIN_DISTANCE_BETWEEN_ROOMS),
            );
            let found_b = first_candidate(
                positions(map_b),
                map_b[f].position,
                offsets,
                ring_of(crate::map_graph::MIN_DISTANCE_BETWEEN_ROOMS),
            );
            &&& found_a == found_b
            &&& inserted(map_a, f, found_a.unwrap(), request.room_type, request.battle)
                == inserted(map_b, f, found_b.unwrap(), request.room_type, request.battle)
        }),
{
}

} // verus!
