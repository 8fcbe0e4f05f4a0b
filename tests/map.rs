use room_graph::map_graph::{find_closest, Battle, MapDef, RoomId, RoomType};
use room_graph::math_utils::Point;

fn ids(v: &[RoomId]) -> Vec<usize> {
    v.iter().map(|r| r.0).collect()
}

#[test]
fn new_map_holds_only_the_root() {
    let map = MapDef::new(Point::new(0, 0));
    assert_eq!(map.len(), 1);
    assert_eq!(map.rooms[0].room_type, RoomType::Safe);
    assert!(map.rooms[0].connections.is_empty());
    assert_eq!(map.positions(), vec![Point::new(0, 0)]);
}

#[test]
fn find_closest_skips_the_excluded_point_and_keeps_the_first_tie() {
    let points = vec![Point::new(0, 0), Point::new(10, 0), Point::new(-10, 0), Point::new(0, 0)];
    let r = find_closest(&points, &Point::new(0, 0), &Point::new(0, 0));
    assert_eq!(r, Some((1, 100)));
    let only_excluded = vec![Point::new(3, 3)];
    assert_eq!(find_closest(&only_excluded, &Point::new(0, 0), &Point::new(3, 3)), None);
    assert_eq!(find_closest(&vec![], &Point::new(0, 0), &Point::new(3, 3)), None);
}

#[test]
fn insert_room_links_to_a_near_second_room() {
    let mut map = MapDef::new(Point::new(0, 0));
    let a = map.insert_room(RoomId(0), Point::new(40_010, 0), RoomType::Coins, None);
    assert_eq!(a, RoomId(1));
    assert_eq!(ids(&map.rooms[0].connections), vec![1]);
    assert_eq!(ids(&map.rooms[1].connections), vec![0]);
    let battle = Some(Battle { hp: 1, attack: 1 });
    let b = map.insert_room(RoomId(1), Point::new(40_010, 40_010), RoomType::Price(7), battle);
    assert_eq!(b, RoomId(2));
    assert_eq!(ids(&map.rooms[0].connections), vec![1, 2]);
    assert_eq!(ids(&map.rooms[1].connections), vec![0, 2]);
    assert_eq!(ids(&map.rooms[2].connections), vec![1, 0]);
    assert!(map.rooms[2].is_dirty);
    assert_eq!(map.rooms[2].battle, battle);
    assert_eq!(map.rooms[2].room_type, RoomType::Price(7));
    let c = map.insert_room(RoomId(2), Point::new(40_010, 80_020), RoomType::Safe, None);
    assert_eq!(c, RoomId(3));
    assert_eq!(ids(&map.rooms[3].connections), vec![2]);
    assert_eq!(ids(&map.rooms[2].connections), vec![1, 0, 3]);
    assert!(!map.rooms[3].is_dirty);
}

#[test]
fn create_room_samples_then_links() {
    let mut map = MapDef::new(Point::new(0, 0));
    let first = vec![Point::new(40_010, 0)];
    assert_eq!(map.create_room(RoomId(0), RoomType::Coins, None, &first), Some(RoomId(1)));
    assert_eq!(map.rooms[1].position, Point::new(40_010, 0));
    let second = vec![Point::new(40_010, 0), Point::new(0, 40_010)];
    assert_eq!(map.create_room(RoomId(0), RoomType::Safe, None, &second), Some(RoomId(2)));
    assert_eq!(map.rooms[2].position, Point::new(0, 40_010));
    assert_eq!(ids(&map.rooms[2].connections), vec![0, 1]);
    assert_eq!(ids(&map.rooms[1].connections), vec![0, 2]);
}

#[test]
fn create_room_drops_stale_and_exhausted_requests() {
    let mut map = MapDef::new(Point::new(0, 0));
    let offsets = vec![Point::new(40_010, 0)];
    assert_eq!(map.create_room(RoomId(9), RoomType::Safe, None, &offsets), None);
    assert_eq!(map.len(), 1);
    let too_close = vec![Point::new(100, 0), Point::new(0, 39_000)];
    assert_eq!(map.create_room(RoomId(0), RoomType::Safe, None, &too_close), None);
    assert_eq!(map.create_room(RoomId(0), RoomType::Safe, None, &vec![]), None);
    assert_eq!(map.len(), 1);
    assert!(map.rooms[0].connections.is_empty());
}

#[test]
fn rooms_stay_apart_and_reachable_after_many_creations() {
    let mut map = MapDef::new(Point::new(0, 0));
    let mut offsets: Vec<Point> = Vec::new();
    for k in 0..12i32 {
        let angle = (k as f64) * std::f64::consts::PI / 6.0;
        let x = 40_010.0 * angle.cos();
        let y = 40_010.0 * angle.sin();
        let rx = if x >= 0.0 { x.ceil() } else { x.floor() };
        let ry = if y >= 0.0 { y.ceil() } else { y.floor() };
        offsets.push(Point::new(rx as i32, ry as i32));
    }
    for from in 0..30usize {
        let n = map.len();
        map.create_room(RoomId(from % n), RoomType::Safe, None, &offsets);
    }
    let n = map.len();
    assert!(n > 5);
    for i in 0..n {
        for j in 0..n {
            if i != j {
                let a = map.rooms[i].position;
                let b = map.rooms[j].position;
                let dx = (a.x as i64 - b.x as i64) as i128;
                let dy = (a.y as i64 - b.y as i64) as i128;
                assert!(dx * dx + dy * dy >= 40_000i128 * 40_000);
            }
        }
    }
    let mut seen = vec![false; n];
    let mut queue = vec![0usize];
    seen[0] = true;
    while let Some(r) = queue.pop() {
        for c in &map.rooms[r].connections {
            assert!(map.rooms[c.0].connections.contains(&RoomId(r)));
            if !seen[c.0] {
                seen[c.0] = true;
                queue.push(c.0);
            }
        }
    }
    assert!(seen.iter().all(|s| *s));
}

#[test]
fn set_room_state_keeps_links() {
    let mut map = MapDef::new(Point::new(0, 0));
    map.insert_room(RoomId(0), Point::new(0, 50_000), RoomType::Safe, None);
    map.set_room_state(RoomId(1), RoomType::Danger, Some(Battle { hp: 3, attack: 2 }), true);
    assert_eq!(map.rooms[1].room_type, RoomType::Danger);
    assert_eq!(map.rooms[1].battle, Some(Battle { hp: 3, attack: 2 }));
    assert!(map.rooms[1].is_dirty);
    assert_eq!(ids(&map.rooms[1].connections), vec![0]);
    assert_eq!(map.room_position(RoomId(1)), Some(Point::new(0, 50_000)));
    assert_eq!(map.room_position(RoomId(2)), None);
}
