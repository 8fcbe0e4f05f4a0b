use room_graph::combat::{react_to_will_move, update_battle_room, BattleDisplay, MoveOutcome};
use room_graph::danger::{
    check_player_death, danger_position, danger_zone_grow_speedup, grow_danger_zone,
    DangerSpeedModifier, DangerZone, SpawnDangerZone, SpawnDangerZoneCommand, INITIAL_DANGER_SIZE,
};
use room_graph::exploration::{
    handle_input, Coins, Cooldown, Feedback, MapPosition, TextFeedbackSpawn, UserInput,
};
use room_graph::game::{GameState, MapConfiguration, MapCreateRoom, SpawnRule};
use room_graph::graphics_rooms::{
    display_order, reachable_rooms, room_material, ReachabilityTimer, RoomGraphic, RoomMaterial,
};
use room_graph::map_graph::{Battle, MapDef, RoomId, RoomType};
use room_graph::math_utils::Point;
use room_graph::map_graph::SAMPLING_RING as MIN_RING;
use room_graph::text_feedback::{destroy_after, spawn_text_feedback, TextFeedback};

/// Candidate offsets of a sweep: the ring radius along each direction,
/// rounded away from zero.
fn offsets_for(turns: &[u32]) -> Vec<Point> {
    turns
        .iter()
        .map(|t| {
            let theta = 2.0 * std::f64::consts::PI * (*t as f64) / 4_294_967_296.0;
            let x = MIN_RING as f64 * theta.cos();
            let y = MIN_RING as f64 * theta.sin();
            let rx = if x >= 0.0 { x.ceil() } else { x.floor() };
            let ry = if y >= 0.0 { y.ceil() } else { y.floor() };
            Point::new(rx as i32, ry as i32)
        })
        .collect()
}

fn two_room_game(seed: u64) -> GameState {
    let mut game = GameState::new(MapConfiguration::new(), seed, 0);
    let turns = game.initial_sweep().expect("a sweep for the first build");
    assert_eq!(game.place_initial_room(&offsets_for(&turns)), Some(RoomId(1)));
    assert!(game.initial_sweep().is_none());
    game
}

fn snapshot(map: &MapDef) -> Vec<(Point, Vec<usize>, RoomType, Option<Battle>)> {
    map.rooms
        .iter()
        .map(|r| (r.position, r.connections.iter().map(|c| c.0).collect(), r.room_type, r.battle))
        .collect()
}

fn click_on(game: &GameState, id: usize) -> Vec<UserInput> {
    vec![UserInput::Click(game.map.rooms[id].position)]
}

#[test]
fn new_game_starts_at_the_root_with_a_hazard() {
    let game = GameState::new(MapConfiguration::new(), 3, 1234);
    assert_eq!(game.map.len(), 1);
    assert_eq!(game.position, MapPosition { pos_id: RoomId(0), will_move: None });
    assert_eq!(game.cooldown, Cooldown::new(1234, 500));
    assert_eq!(game.coins.amount, 0);
    assert_eq!(game.danger_speed_modifier.multiplier, 1_000_000);
    assert_eq!(
        game.dangers,
        vec![DangerZone {
            position: Point::new(20_000, 20_000),
            size: 1_000,
            radius_increase_per_second: 10_000
        }]
    );
    let mut quiet = MapConfiguration::new();
    quiet.start_with_danger_zone = false;
    assert!(GameState::new(quiet, 3, 0).dangers.is_empty());
}

#[test]
fn seed_42_gives_the_same_first_room_twice() {
    let a = two_room_game(42);
    let b = two_room_game(42);
    assert_eq!(a.map.rooms[1].position, b.map.rooms[1].position);
    let p = a.map.rooms[1].position;
    let d = (p.x as i64).pow(2) + (p.y as i64).pow(2);
    assert!(d >= (MIN_RING as i64).pow(2));
    assert!(d <= (MIN_RING as i64 + 2).pow(2));
    assert_eq!(a.random, b.random);
}

#[test]
fn repeated_generation_runs_are_identical() {
    let run = |seed: u64| {
        let mut game = two_room_game(seed);
        let mut now: u64 = 0;
        for step in 0..6usize {
            now += 600;
            let target = game.map.rooms[game.position.pos_id.0].connections[step % 2 % game.map.rooms[game.position.pos_id.0].connections.len()];
            let mut clicks = click_on(&game, target.0);
            game.coins.amount = 100;
            game.handle_input(&mut clicks, now);
            game.resolve_move();
            while let Some(pending) = game.next_room_request() {
                game.place_room(&pending.request, &offsets_for(&pending.turns));
            }
        }
        (snapshot(&game.map), game.position, game.random, game.coins.amount)
    };
    let first = run(42);
    let second = run(42);
    assert_eq!(first, second);
    assert!(first.0.len() > 2);
}

#[test]
fn cooldown_gates_moves_with_an_inclusive_boundary() {
    let c = Cooldown::new(10_000, 500);
    assert!(!c.is_ready(10_400));
    assert!(!c.is_ready(10_499));
    assert!(c.is_ready(10_500));
    assert!(c.is_ready(u64::MAX));
    assert!(!Cooldown::new(u64::MAX, 1).is_ready(u64::MAX));
}

#[test]
fn cooldown_ratio_in_thousandths() {
    let c = Cooldown::new(10_000, 500);
    assert_eq!(c.get_ratio(10_250), 500);
    assert_eq!(c.get_ratio(10_499), 998);
    assert_eq!(c.get_ratio(10_500), 1000);
    assert_eq!(c.get_ratio(9_000), 0);
    assert_eq!(c.get_ratio(10_000), 0);
}

#[test]
fn move_at_10_4_is_refused_and_at_10_5_accepted() {
    let mut game = two_room_game(1);
    game.cooldown = Cooldown::new(10_000, 500);
    let mut clicks = click_on(&game, 1);
    let feedback = game.handle_input(&mut clicks, 10_400);
    assert!(clicks.is_empty());
    assert_eq!(
        feedback,
        vec![TextFeedbackSpawn { feedback: Feedback::NotReady, pos: Point::new(0, 0) }]
    );
    assert_eq!(game.position.will_move, None);
    assert_eq!(game.cooldown.last_action_time, 10_000);
    let mut clicks = click_on(&game, 1);
    let feedback = game.handle_input(&mut clicks, 10_500);
    assert!(feedback.is_empty());
    assert_eq!(game.position.will_move, Some(RoomId(1)));
    assert_eq!(game.cooldown.last_action_time, 10_500);
}

#[test]
fn second_click_of_a_tick_meets_the_new_cooldown() {
    let mut game = two_room_game(1);
    let mut clicks = vec![
        UserInput::Click(Point::new(900_000, 0)),
        UserInput::Click(game.map.rooms[1].position),
        UserInput::Click(game.map.rooms[1].position),
        UserInput::Click(game.map.rooms[1].position),
    ];
    let feedback = game.handle_input(&mut clicks, 600);
    assert_eq!(game.position.will_move, Some(RoomId(1)));
    assert_eq!(
        feedback,
        vec![TextFeedbackSpawn { feedback: Feedback::NotReady, pos: Point::new(0, 0) }]
    );
}

#[test]
fn clicks_far_from_rooms_do_nothing() {
    let mut game = two_room_game(1);
    let p = game.map.rooms[1].position;
    let mut clicks = vec![UserInput::Click(Point::new(p.x + 15_000, p.y))];
    let feedback = game.handle_input(&mut clicks, 600);
    assert!(feedback.is_empty());
    assert_eq!(game.position.will_move, None);
    assert_eq!(game.cooldown.last_action_time, 0);
    let mut clicks = vec![UserInput::Click(Point::new(p.x + 14_999, p.y))];
    game.handle_input(&mut clicks, 600);
    assert_eq!(game.position.will_move, Some(RoomId(1)));
}

#[test]
fn unaffordable_room_is_refused_with_the_counts() {
    let mut game = two_room_game(1);
    game.map.set_room_state(RoomId(1), RoomType::Price(7), None, false);
    game.coins.amount = 3;
    let mut clicks = click_on(&game, 1);
    let feedback = game.handle_input(&mut clicks, 600);
    assert_eq!(
        feedback,
        vec![TextFeedbackSpawn {
            feedback: Feedback::NotEnoughCoins { amount: 3, price: 7 },
            pos: game.map.rooms[1].position
        }]
    );
    assert_eq!(game.position.will_move, None);
    assert_eq!(game.cooldown.last_action_time, 0);
    game.coins.amount = 7;
    let mut clicks = click_on(&game, 1);
    assert!(game.handle_input(&mut clicks, 600).is_empty());
    assert_eq!(game.position.will_move, Some(RoomId(1)));
}

#[test]
fn free_function_handle_input_matches_the_game_method() {
    let game = two_room_game(5);
    let mut position = game.position;
    let mut cooldown = game.cooldown;
    let mut clicks = click_on(&game, 1);
    let feedback = handle_input(&game.map, &Coins { amount: 0 }, &mut clicks, &mut position, &mut cooldown, 700);
    assert!(feedback.is_empty());
    assert_eq!(position.will_move, Some(RoomId(1)));
    assert_eq!(cooldown.last_action_time, 700);
}

#[test]
fn battle_blocks_until_its_hp_is_spent() {
    let mut game = two_room_game(1);
    game.map.set_room_state(RoomId(1), RoomType::Safe, Some(Battle { hp: 2, attack: 1 }), false);
    for (now, hp) in [(600u64, 1u32), (1200, 0)] {
        let mut clicks = click_on(&game, 1);
        game.handle_input(&mut clicks, now);
        assert_eq!(game.resolve_move(), MoveOutcome::Blocked);
        assert_eq!(game.position, MapPosition { pos_id: RoomId(0), will_move: None });
        assert_eq!(game.map.rooms[1].battle, Some(Battle { hp, attack: 1 }));
        assert!(game.map.rooms[1].is_dirty);
    }
    let mut clicks = click_on(&game, 1);
    game.handle_input(&mut clicks, 1800);
    assert_eq!(game.resolve_move(), MoveOutcome::Arrived);
    assert_eq!(game.position, MapPosition { pos_id: RoomId(1), will_move: None });
    assert_eq!(game.map.rooms[1].battle, None);
    assert_eq!(game.resolve_move(), MoveOutcome::Idle);
}

#[test]
fn stale_pending_move_is_dropped() {
    let mut map = MapDef::new(Point::new(0, 0));
    let mut position = MapPosition { pos_id: RoomId(0), will_move: Some(RoomId(4)) };
    assert_eq!(react_to_will_move(&mut map, &mut position), MoveOutcome::Idle);
    assert_eq!(position, MapPosition { pos_id: RoomId(0), will_move: None });
}

#[test]
fn arrival_queues_the_configured_requests() {
    let mut game = two_room_game(9);
    let word_pos = game.random.word_pos;
    let mut clicks = click_on(&game, 1);
    game.handle_input(&mut clicks, 600);
    assert_eq!(game.resolve_move(), MoveOutcome::Arrived);
    assert_eq!(game.create_requests.len(), 2);
    assert_eq!(game.create_requests[0].from_room_id, RoomId(1));
    assert_eq!(game.create_requests[0].room_type, RoomType::Coins);
    assert_eq!(game.create_requests[1].room_type, RoomType::Price(7));
    assert_eq!(game.create_requests[1].battle, None);
    assert_eq!(game.random.word_pos, word_pos + 1);
    let mut expected = room_graph::random::RandomDeterministic { seed: 9, word_pos };
    let battle = if expected.next_u32() % 3 == 0 { Some(Battle { hp: 1, attack: 1 }) } else { None };
    assert_eq!(game.create_requests[0].battle, battle);
}

#[test]
fn requests_become_rooms_and_stale_ones_are_dropped() {
    let mut game = two_room_game(11);
    game.create_requests.push(MapCreateRoom { from_room_id: RoomId(50), room_type: RoomType::Coins, battle: None });
    game.create_requests.push(MapCreateRoom { from_room_id: RoomId(1), room_type: RoomType::Coins, battle: Some(Battle { hp: 1, attack: 1 }) });
    let pending = game.next_room_request().expect("a live request");
    assert_eq!(pending.request.from_room_id, RoomId(1));
    assert_eq!(pending.turns.len(), 10);
    assert!(game.create_requests.is_empty());
    let id = game.place_room(&pending.request, &offsets_for(&pending.turns));
    assert_eq!(id, Some(RoomId(2)));
    assert_eq!(game.map.rooms[2].room_type, RoomType::Coins);
    assert!(game.map.rooms[2].is_dirty);
    assert!(game.map.rooms[1].connections.contains(&RoomId(2)));
    assert!(game.next_room_request().is_none());
}

#[test]
fn price_room_with_five_coins_leaves_zero_and_halves_the_speed() {
    let mut game = two_room_game(2);
    game.coins.amount = 5;
    game.map.set_room_state(RoomId(0), RoomType::Price(7), None, false);
    game.apply_room_effect();
    assert_eq!(game.coins.amount, 0);
    assert_eq!(game.danger_speed_modifier.multiplier, 500_000);
    assert_eq!(game.map.rooms[0].room_type, RoomType::Safe);
}

#[test]
fn price_room_with_enough_coins_subtracts() {
    let mut game = two_room_game(2);
    game.coins.amount = 10;
    game.map.set_room_state(RoomId(0), RoomType::Price(7), None, false);
    game.apply_room_effect();
    assert_eq!(game.coins.amount, 3);
}

#[test]
fn room_effect_fires_once() {
    let mut game = two_room_game(2);
    game.map.set_room_state(RoomId(0), RoomType::Coins, None, false);
    game.apply_room_effect();
    assert_eq!(game.coins.amount, 1);
    game.apply_room_effect();
    assert_eq!(game.coins.amount, 1);
    game.coins.amount = u32::MAX;
    game.map.set_room_state(RoomId(0), RoomType::Coins, None, false);
    game.apply_room_effect();
    assert_eq!(game.coins.amount, u32::MAX);
}

#[test]
fn danger_room_spawns_a_hazard_toward_its_neighbours() {
    let mut game = GameState::new(MapConfiguration::new(), 2, 0);
    game.map.insert_room(RoomId(0), Point::new(40_010, 0), RoomType::Safe, None);
    game.map.insert_room(RoomId(0), Point::new(0, 40_010), RoomType::Safe, None);
    assert_eq!(danger_position(&game.map, RoomId(0)), Point::new(21_213, 21_213));
    game.map.set_room_state(RoomId(0), RoomType::Danger, None, false);
    game.apply_room_effect();
    assert_eq!(game.dangers.len(), 2);
    assert_eq!(
        game.dangers[1],
        DangerZone { position: Point::new(21_213, 21_213), size: INITIAL_DANGER_SIZE, radius_increase_per_second: 10_000 }
    );
    game.apply_room_effect();
    assert_eq!(game.dangers.len(), 2);
    let lone = MapDef::new(Point::new(7, 7));
    assert_eq!(danger_position(&lone, RoomId(0)), Point::new(7, 7));
}

#[test]
fn hazards_grow_and_speed_up() {
    let mut zones = vec![SpawnDangerZone(&SpawnDangerZoneCommand { position: Point::new(20_000, 20_000), radius_increase_per_second: 10_000 })];
    assert_eq!(zones[0].size, 1_000);
    let mut modifier = DangerSpeedModifier { multiplier: 1_000_000 };
    grow_danger_zone(&mut zones, 16, &modifier);
    assert_eq!(zones[0].size, 1_160);
    danger_zone_grow_speedup(&mut modifier, 16, 100_000);
    assert_eq!(modifier.multiplier, 1_001_600);
    let mut modifier_full = DangerSpeedModifier { multiplier: u64::MAX };
    danger_zone_grow_speedup(&mut modifier_full, 1000, 100_000);
    assert_eq!(modifier_full.multiplier, u64::MAX);
}

#[test]
fn player_dies_inside_a_hazard_only() {
    let mut zones = vec![DangerZone { position: Point::new(20_000, 20_000), size: 1_000, radius_increase_per_second: 0 }];
    assert!(!check_player_death(&Point::new(0, 0), &zones));
    zones[0].size = 28_284;
    assert!(!check_player_death(&Point::new(0, 0), &zones));
    zones[0].size = 28_285;
    assert!(check_player_death(&Point::new(0, 0), &zones));
    assert!(!check_player_death(&Point::new(0, 0), &vec![]));
}

#[test]
fn update_dangers_reports_death() {
    let mut game = GameState::new(MapConfiguration::new(), 2, 0);
    assert!(!game.update_dangers(16));
    assert_eq!(game.dangers[0].size, 1_160);
    assert_eq!(game.danger_speed_modifier.multiplier, 1_001_600);
    let mut dead = false;
    for _ in 0..400u32 {
        dead = game.update_dangers(100);
        if dead {
            break;
        }
    }
    assert!(dead);
}

#[test]
fn spawn_rules_without_battle_chance_draw_nothing() {
    let mut configuration = MapConfiguration::new();
    configuration.spawn_rules = vec![SpawnRule { room_type: RoomType::Danger, battle_one_in: 0 }];
    let mut game = GameState::new(configuration, 4, 0);
    game.react_to_move_player();
    assert_eq!(game.random.word_pos, 0);
    assert_eq!(game.create_requests, vec![MapCreateRoom { from_room_id: RoomId(0), room_type: RoomType::Danger, battle: None }]);
    let mut always = MapConfiguration::new();
    always.spawn_rules = vec![SpawnRule { room_type: RoomType::Coins, battle_one_in: 1 }];
    let mut game = GameState::new(always, 4, 0);
    game.react_to_move_player();
    assert_eq!(game.create_requests[0].battle, Some(Battle { hp: 1, attack: 1 }));
}

#[test]
fn feedback_expires_half_a_second_after_it_appears() {
    let mut shown: Vec<TextFeedback> = Vec::new();
    let spawns = vec![TextFeedbackSpawn { feedback: Feedback::NotReady, pos: Point::new(0, 0) }];
    spawn_text_feedback(&mut shown, &spawns, 1_000);
    assert_eq!(shown[0].time_to_destroy, 1_500);
    destroy_after(&mut shown, 1_500);
    assert_eq!(shown.len(), 1);
    destroy_after(&mut shown, 1_501);
    assert!(shown.is_empty());
    spawn_text_feedback(&mut shown, &spawns, u64::MAX - 1);
    assert_eq!(shown[0].time_to_destroy, u64::MAX);
}

#[test]
fn reachability_follows_the_current_room() {
    let game = two_room_game(3);
    assert_eq!(reachable_rooms(&game.map, RoomId(0)), vec![false, true]);
    assert_eq!(reachable_rooms(&game.map, RoomId(1)), vec![true, false]);
    let mut graphic = RoomGraphic { is_reachable: true };
    assert!(!graphic.updateReachability(true));
    assert!(graphic.updateReachability(false));
    assert!(!graphic.is_reachable);
    let mut timer = ReachabilityTimer::new();
    assert!(!timer.tick(150));
    assert!(timer.tick(50));
    assert_eq!(timer.elapsed, 0);
}

#[test]
fn dirty_battles_are_shown_then_removed() {
    let mut game = two_room_game(1);
    game.map.set_room_state(RoomId(1), RoomType::Safe, Some(Battle { hp: 1, attack: 1 }), true);
    assert_eq!(update_battle_room(&mut game.map), vec![BattleDisplay::Show { room: RoomId(1), hp: 1 }]);
    assert!(!game.map.rooms[1].is_dirty);
    assert!(update_battle_room(&mut game.map).is_empty());
    let mut clicks = click_on(&game, 1);
    game.handle_input(&mut clicks, 600);
    assert_eq!(game.resolve_move(), MoveOutcome::Blocked);
    assert_eq!(update_battle_room(&mut game.map), vec![BattleDisplay::Remove { room: RoomId(1) }]);
    assert_eq!(game.map.rooms[1].battle, Some(Battle { hp: 0, attack: 1 }));
}

#[test]
fn room_materials_follow_reachability_and_type() {
    assert_eq!(room_material(false, RoomType::Coins), RoomMaterial::Gray);
    assert_eq!(room_material(true, RoomType::Safe), RoomMaterial::White);
    assert_eq!(room_material(true, RoomType::Danger), RoomMaterial::Orange);
    assert_eq!(room_material(true, RoomType::Coins), RoomMaterial::Green);
    assert_eq!(room_material(true, RoomType::Price(3)), RoomMaterial::Fuchsia);
}

#[test]
fn display_order_walks_breadth_first() {
    let mut map = MapDef::new(Point::new(0, 0));
    map.insert_room(RoomId(0), Point::new(100_000, 0), RoomType::Safe, None);
    map.insert_room(RoomId(1), Point::new(200_000, 0), RoomType::Safe, None);
    map.insert_room(RoomId(0), Point::new(-100_000, 0), RoomType::Safe, None);
    map.insert_room(RoomId(2), Point::new(200_000, 100_000), RoomType::Safe, None);
    let order: Vec<usize> = display_order(&map).iter().map(|r| r.0).collect();
    assert_eq!(order, vec![0, 1, 3, 2, 4]);
    let lone = MapDef::new(Point::new(0, 0));
    assert_eq!(display_order(&lone), vec![RoomId(0)]);
}

#[test]
fn default_configuration_matches_new() {
    let a = MapConfiguration::default();
    let b = MapConfiguration::new();
    assert_eq!(a.spawn_rules, b.spawn_rules);
    assert_eq!(a.speed_init_danger, 10_000);
    assert_eq!(a.speed_gain_danger, 100_000);
    assert!(a.start_with_danger_zone);
}
