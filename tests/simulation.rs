use tower_defense::balloons::{Balloon, BalloonFactory, BalloonWave};
use tower_defense::codec::{decode_highscore, encode_highscore};
use tower_defense::game::App;
use tower_defense::geometry::{distance_in_2d, distance_squared, divide_toward_zero};
use tower_defense::path::{BalloonPath, RectangleInPath};
use tower_defense::projectiles::{Projectile, Projectiles};
use tower_defense::towers::{Tower, TowerKind, TowerShop, Upgrade};
use tower_defense::Tint;

fn red_at(x: i64, y: i64) -> Balloon {
    let wave = BalloonFactory {}.generate_wave(1, x, y);
    wave.balloons[0]
}

fn straight_path() -> BalloonPath {
    let mut path = BalloonPath::new();
    path.elements.push(RectangleInPath::horizontal(-90_000, 0, 0));
    path
}

fn empty_wave() -> BalloonWave {
    BalloonWave { ticks_since_last: 0, ticks_till_balloon: 0, balloons: vec![], current: 0 }
}

#[test]
fn escapes_after_crossing_a_straight_segment() {
    let mut app = App::new(80, 24);
    app.path = straight_path();
    app.balloons.push(red_at(-90_000, 0));
    for _ in 0..4500 {
        app.move_wave();
    }
    assert_eq!(app.balloons.len(), 1);
    assert_eq!(app.balloons[0].x, 0);
    assert_eq!(app.balloons[0].total_x, 90_000);
    assert_eq!(app.hitpoints, 100);
    app.move_wave();
    assert_eq!(app.balloons.len(), 0);
    assert_eq!(app.hitpoints, 99);
}

#[test]
fn balloon_follows_the_corners_of_the_route() {
    let mut path = BalloonPath::new();
    path.generate_path();
    let mut b = red_at(-90_000, 0);
    assert!(b.move_balloon(&path));
    assert_eq!((b.x, b.y, b.move_x, b.current_segment), (-89_980, 0, 20, 0));
    let mut ticks = 1;
    while b.current_segment == 0 {
        assert!(b.move_balloon(&path));
        ticks += 1;
    }
    assert_eq!(ticks, 4501);
    assert_eq!(b.current_segment, 1);
    assert_eq!((b.x, b.y, b.move_x, b.move_y), (0, 20, 0, 20));
    while b.current_segment == 1 {
        assert!(b.move_balloon(&path));
    }
    assert_eq!(b.current_segment, 2);
    assert_eq!(b.move_x, -20);
}

#[test]
fn progress_never_decreases() {
    let mut path = BalloonPath::new();
    path.generate_path();
    let mut b = red_at(-90_000, 0);
    let mut last = (b.current_segment, b.total_x);
    loop {
        let on = b.move_balloon(&path);
        assert!(b.current_segment >= last.0);
        assert!(b.total_x >= last.1);
        last = (b.current_segment, b.total_x);
        if !on {
            break;
        }
    }
    assert_eq!(b.current_segment, 5);
}

#[test]
fn tower_kills_balloon_when_its_projectile_lands() {
    let mut app = App::new(80, 24);
    app.path = straight_path();
    let mut tower = Tower::dart_thrower(-50_000, 20_000);
    tower.ticks_since_last_projectile = 800;
    app.towers.push(tower);
    let mut b = red_at(-90_000, 0);
    b.hitpoints = 10_000;
    b.id = 7;
    app.balloons.push(b);
    let mut wave = empty_wave();
    app.tick(&mut wave);
    assert_eq!(app.towers[0].projectiles.len(), 1);
    let flight = app.towers[0].projectiles[0].projectile().flying_time;
    assert!(flight > 0);
    for k in 1..flight {
        app.tick(&mut wave);
        assert_eq!(app.towers[0].projectiles[0].projectile().flying_time, flight - k);
        assert_eq!(app.balloons.len(), 1);
    }
    let (gold, score) = (app.gold, app.score);
    app.tick(&mut wave);
    assert_eq!(app.towers[0].projectiles[0].projectile().flying_time, 0);
    assert_eq!(app.balloons.len(), 0);
    assert_eq!(app.gold, gold + 1);
    assert_eq!(app.score, score + 1);
    assert_eq!(app.towers[0].projectiles[0].projectile().target_balloon, None);
}

#[test]
fn balloon_hit_by_two_towers_is_credited_once() {
    let mut app = App::new(80, 24);
    app.path = straight_path();
    let mut b = red_at(-60_000, 0);
    b.id = 3;
    app.balloons.push(b);
    for _ in 0..2 {
        let mut t = Tower::dart_thrower(-50_000, 20_000);
        t.projectiles.push(Projectiles::Dart(Projectile {
            x: 0,
            y: 0,
            dx: 0,
            dy: 0,
            flying_time: 0,
            target_balloon: Some(3),
        }));
        app.towers.push(t);
    }
    assert_eq!(app.damage_balloon(3), 20_000);
    app.handle_balloon_projectile_interaction();
    assert_eq!(app.balloons.len(), 0);
    assert_eq!(app.gold, 31);
    assert_eq!(app.score, 1);
    assert_eq!(app.towers[0].projectiles[0].projectile().target_balloon, None);
    assert_eq!(app.towers[1].projectiles[0].projectile().target_balloon, None);
}

#[test]
fn placement_on_the_route_is_refused_whatever_the_gold() {
    let mut app = App::new(80, 24);
    app.gold = 60_000;
    app.new_tower = Some(Tower::dart_thrower(-60_000, 2_000));
    app.handle_mouse_up(-60_000, 2_000);
    assert_eq!(app.towers.len(), 0);
    assert_eq!(app.gold, 60_000);
    assert!(app.new_tower.is_some());
}

#[test]
fn placement_off_the_route_is_paid_for() {
    let mut app = App::new(80, 24);
    app.new_tower = Some(Tower::dart_thrower(-60_000, 50_000));
    app.handle_mouse_up(-60_000, 50_000);
    assert_eq!(app.towers.len(), 1);
    assert_eq!(app.gold, 20);
    assert!(app.new_tower.is_none());
    app.new_tower = Some(Tower::dart_thrower(-58_000, 52_000));
    app.handle_mouse_up(-58_000, 52_000);
    assert_eq!(app.towers.len(), 1);
    assert_eq!(app.gold, 20);
}

#[test]
fn highscore_survives_a_save_and_a_load() {
    for n in [0u64, 1, 255, 256, 0x0123_4567_89ab_cdef, u64::MAX] {
        let bytes = encode_highscore(n);
        assert_eq!(bytes, n.to_le_bytes().to_vec());
        assert_eq!(decode_highscore(&bytes), Some(n));
    }
    assert_eq!(decode_highscore(&[1, 2, 3]), None);
    assert_eq!(decode_highscore(&[1, 0, 0, 0, 0, 0, 0, 0, 9]), Some(1));
}

#[test]
fn distances_are_rounded_down() {
    assert_eq!(distance_in_2d(0, 0, 3_000, 4_000), 5_000);
    assert_eq!(distance_in_2d(0, 0, 1, 1), 1);
    assert_eq!(distance_in_2d(-10, -10, -10, -10), 0);
    assert_eq!(distance_squared(1, 2, 4, 6), 25);
    assert_eq!(divide_toward_zero(-7, 2), -3);
    assert_eq!(divide_toward_zero(7, 2), 3);
}

#[test]
fn fixed_waves_have_their_rosters() {
    let f = BalloonFactory {};
    let w1 = f.generate_wave(1, 5, 6);
    assert_eq!((w1.balloons.len(), w1.ticks_till_balloon), (20, 500));
    assert!(w1.balloons.iter().all(|b| b.color == Tint::Red && b.hitpoints == 1_000 && b.speed == 20));
    assert_eq!((w1.balloons[0].x, w1.balloons[0].y), (5, 6));
    let w2 = f.generate_wave(2, 0, 0);
    assert_eq!((w2.balloons.len(), w2.ticks_till_balloon), (40, 150));
    let w3 = f.generate_wave(3, 0, 0);
    assert_eq!((w3.balloons.len(), w3.ticks_till_balloon), (60, 300));
    assert_eq!(w3.balloons[0].color, Tint::Blue);
    assert_eq!(w3.balloons[0].hitpoints, 2_000);
    assert_eq!(w3.balloons[1].color, Tint::Red);
}

#[test]
fn procedural_waves_grow_with_the_round() {
    let f = BalloonFactory {};
    let w = f.generate_wave(5, 0, 0);
    assert_eq!((w.balloons.len(), w.ticks_till_balloon), (100, 300));
    assert!(w.balloons.iter().all(|b| b.hitpoints == 1_000 || b.hitpoints == 100_000));
    assert!(w.balloons.iter().any(|b| b.hitpoints == 1_000));
    assert!(w.balloons.iter().any(|b| b.hitpoints == 100_000));
    let w4 = f.generate_wave(4, 0, 0);
    assert_eq!(w4.balloons.len(), 80);
    assert!(w4.balloons.iter().all(|b| b.hitpoints == 1_000 || b.hitpoints == 2_000));
    assert_eq!(f.generate_wave(0, 0, 0).balloons.len(), 0);
}

#[test]
fn drawn_balloons_follow_the_red_share() {
    let f = BalloonFactory {};
    assert_eq!(f.drawn_balloon(4, 449_999, 0, 0).color, Tint::Red);
    assert_eq!(f.drawn_balloon(4, 450_000, 0, 0).hitpoints, 2_000);
    assert_eq!(f.drawn_balloon(9, 199_999, 0, 0).hitpoints, 1_000);
    assert_eq!(f.drawn_balloon(9, 200_000, 0, 0).hitpoints, 100_000);
    assert_eq!(f.drawn_balloon(9, 200_000, 0, 0).reward, (50, 50));
}

#[test]
fn wave_releases_on_its_interval() {
    let mut w = BalloonFactory {}.generate_wave(2, 0, 0);
    for _ in 0..150 {
        assert!(w.next().is_none());
    }
    assert!(w.next().is_some());
    assert_eq!(w.current, 1);
    assert_eq!(w.ticks_since_last, 0);
    let mut empty = empty_wave();
    assert!(empty.next().is_none());
}

#[test]
fn spawned_balloons_get_fresh_ids() {
    let mut app = App::new(80, 24);
    let mut wave = app.next_wave();
    assert_eq!(app.round, 1);
    wave.ticks_till_balloon = 0;
    assert!(!app.handle_wave(&mut wave));
    assert!(!app.handle_wave(&mut wave));
    assert_eq!(app.balloons.len(), 2);
    assert_ne!(app.balloons[0].id, app.balloons[1].id);
    assert_eq!((app.balloons[0].x, app.balloons[0].y), (-90_000, 0));
}

#[test]
fn cooldown_spaces_the_shots() {
    let mut path = BalloonPath::new();
    path.generate_path();
    let mut t = Tower::dart_thrower(-50_000, 20_000);
    t.ticks_per_projectile = 3;
    let b = red_at(-90_000, 0);
    let mut shots = vec![];
    for tick in 0..12 {
        let before = t.projectiles.len();
        assert!(t.shoot(&b, &path));
        if t.projectiles.len() > before {
            shots.push(tick);
        }
    }
    assert_eq!(shots, vec![3, 7, 11]);
}

#[test]
fn out_of_range_balloon_passes_the_turn_on() {
    let mut path = BalloonPath::new();
    path.generate_path();
    let mut t = Tower::dart_thrower(80_000, 80_000);
    t.ticks_since_last_projectile = 800;
    let b = red_at(-90_000, 0);
    assert!(!t.shoot(&b, &path));
    assert_eq!(t.ticks_since_last_projectile, 0);
    assert_eq!(t.projectiles.len(), 0);
}

#[test]
fn projectiles_count_down_and_leave() {
    let mut t = Tower::flame_thrower(0, 0);
    t.projectiles.push(Projectiles::Flame(Projectile { x: 0, y: 0, dx: 2, dy: -3, flying_time: 1, target_balloon: Some(4) }));
    t.projectiles.push(Projectiles::Flame(Projectile { x: 0, y: 0, dx: 0, dy: 0, flying_time: -1, target_balloon: None }));
    t.handle_projectile();
    assert_eq!(t.projectiles.len(), 1);
    let p = t.projectiles[0].projectile();
    assert_eq!((p.x, p.y, p.flying_time), (2, -3, 0));
    assert_eq!(t.calculate_damage(4), 10);
    assert_eq!(t.calculate_damage(5), 0);
    assert!(tower_defense::projectiles::test(&t.projectiles[0], 4));
    t.remove_target_of_projectile(4);
    assert_eq!(t.calculate_damage(4), 0);
    t.handle_projectile();
    t.handle_projectile();
    assert_eq!(t.projectiles.len(), 0);
    assert_eq!(t.projectiles.len(), 0);
    assert_eq!(Projectiles::Flame(p).radius(), 1_500);
    assert_eq!(Projectiles::Dart(p).tint(), Tint::Gray);
}

#[test]
fn upgrades_are_bought_from_their_slots() {
    let mut t = Tower::dart_thrower(0, 0);
    assert_eq!(t.upgrades.upgrade(-20_000), Some(Upgrade::RangeUpgrade(50, 20_000)));
    assert_eq!(t.upgrades.upgrade(30_000), Some(Upgrade::DamageUpgrade(40, 5_000)));
    assert_eq!(t.upgrades.upgrade(90_000), Some(Upgrade::FireRateUpgrade(30, 20)));
    assert_eq!(t.upgrades.upgrade(90_001), None);
    assert_eq!(t.buy_upgrade(-20_000, &40), None);
    assert_eq!(t.buy_upgrade(-20_000, &50), Some(50));
    assert_eq!(t.range, 110_000);
    assert_eq!(t.buy_upgrade(30_000, &40), Some(40));
    assert_eq!(t.damage_per_projectile, 15_000);
    assert_eq!(t.buy_upgrade(90_000, &30), Some(30));
    assert_eq!(t.ticks_per_projectile, 780);
    for _ in 0..3 {
        assert_eq!(t.buy_upgrade(-20_000, &50), Some(50));
    }
    assert_eq!(t.range, 170_000);
    assert_eq!(t.buy_upgrade(-20_000, &50), Some(50));
    assert_eq!(t.range, 190_000);
    assert_eq!(t.buy_upgrade(-20_000, &50), None);
    t.show_upgrades();
    assert!(t.upgrades.show_upgrades);
}

#[test]
fn shop_sells_the_tower_under_the_pointer() {
    let shop = TowerShop::new();
    assert_eq!(shop.n_towers, 2);
    let t = shop.get_tower(-10_000, &10).unwrap();
    assert_eq!(t.kind, TowerKind::DartThrower);
    assert_eq!((t.x, t.y, t.cost), (-45_000, -80_000, 10));
    assert!(shop.get_tower(10_000, &10).is_none());
    assert_eq!(shop.get_tower(10_000, &30).unwrap().kind, TowerKind::FlameThrower);
    assert_eq!(shop.get_tower(-10_000, &29).unwrap().kind, TowerKind::DartThrower);
    assert!(shop.get_tower(95_000, &100).is_none());
}

#[test]
fn towers_collide_when_their_footprints_overlap() {
    let a = Tower::dart_thrower(0, 0);
    let b = Tower::dart_thrower(3_000, 4_000);
    assert!(b.collides(&a));
    assert!(a.collides(&b));
    let c = Tower::dart_thrower(2_000, -2_000);
    assert!(a.collides(&c));
    assert!(c.collides(&a));
    let d = Tower::dart_thrower(5_000, 5_000);
    assert!(a.collides(&d));
    let e = Tower::dart_thrower(5_001, 0);
    assert!(!a.collides(&e));
    assert!(a.contains(5_000, 5_000));
    assert!(!a.contains(5_001, 0));
}

#[test]
fn footprints_that_overlap_the_route_touch_it() {
    let path = straight_path();
    assert!(path.point_on_path(-50_000, 2_000, 5_000, 5_000));
    assert!(path.point_on_path(-92_000, 2_000, 5_000, 5_000));
    assert!(path.point_on_path(-50_000, -4_000, 5_000, 5_000));
    assert!(!path.point_on_path(-50_000, 20_000, 5_000, 5_000));
    assert!(!path.point_on_path(-96_000, 2_000, 5_000, 5_000));
    let mut full = BalloonPath::new();
    full.generate_path();
    assert!(full.point_on_path(-3_000, 20_000, 5_000, 5_000));
    assert!(!full.point_on_path(-6_000, 20_000, 5_000, 5_000));
    let backwards = RectangleInPath::horizontal(0, -90_000, 0);
    assert_eq!(backwards.width, -90_000);
    assert!(backwards.point_on_self(-50_000, 2_000, 5_000, 5_000));
    assert!(!backwards.point_on_self(1_000, 2_000, 5_000, 5_000));
}

#[test]
fn tower_beside_the_route_edge_is_refused() {
    let mut app = App::new(80, 24);
    app.new_tower = Some(Tower::dart_thrower(-92_000, 2_000));
    app.handle_mouse_up(-92_000, 2_000);
    assert_eq!(app.towers.len(), 0);
    assert_eq!(app.gold, 30);
}

#[test]
fn escape_through_a_segment_that_does_not_hold_the_balloon() {
    let mut path = straight_path();
    path.elements.push(RectangleInPath::vertical(50_000, 90_000, 40_000));
    let mut b = red_at(-90_000, 0);
    for _ in 0..4500 {
        assert!(b.move_balloon(&path));
    }
    assert_eq!((b.x, b.current_segment), (0, 0));
    assert!(!b.move_balloon(&path));
    assert_eq!(b.current_segment, 2);
    assert!(!b.move_balloon(&path));
}

#[test]
fn pointer_coordinates_map_to_the_world() {
    let app = App::new(180, 90);
    assert_eq!(app.col_to_x(0), -89_000);
    assert_eq!(app.col_to_x(179), 90_000);
    assert_eq!(app.row_to_y(0), 88_000);
    assert_eq!(app.row_to_y(89), -90_000);
    assert_eq!(app.row_to_y(90), -92_000);
}

#[test]
fn shop_and_upgrade_clicks() {
    let mut app = App::new(80, 24);
    app.handle_mouse_down(-88_000, -88_000);
    assert!(app.tower_shop_open);
    app.handle_mouse_down(-40_000, -80_000);
    assert_eq!(app.new_tower.as_ref().unwrap().kind, TowerKind::DartThrower);
    app.handle_mouse_drag(-60_000, 50_000);
    assert_eq!(app.new_tower.as_ref().unwrap().x, -60_000);
    app.handle_mouse_up(-60_000, 50_000);
    assert_eq!(app.towers.len(), 1);
    assert_eq!(app.gold, 20);
    app.handle_mouse_down(-88_000, -67_000);
    assert!(!app.tower_shop_open);
    app.handle_mouse_down(-58_000, 52_000);
    assert_eq!(app.upgrade_shop_open, Some(0));
    assert!(app.towers[0].upgrades.show_upgrades);
    app.handle_mouse_down(80_000, -20_000);
    assert_eq!(app.gold, 20);
    app.gold = 60;
    app.handle_mouse_down(80_000, -20_000);
    assert_eq!(app.gold, 10);
    assert_eq!(app.towers[0].range, 110_000);
    app.handle_mouse_down(0, 0);
    assert_eq!(app.upgrade_shop_open, None);
    assert!(!app.towers[0].upgrades.show_upgrades);
}

#[test]
fn balloons_are_ordered_front_first() {
    let mut app = App::new(80, 24);
    app.path = straight_path();
    let slow = red_at(-90_000, 0);
    let mut fast = red_at(-90_000, 0);
    fast.speed = 30;
    fast.id = 1;
    app.balloons.push(slow);
    app.balloons.push(fast);
    app.move_wave();
    assert_eq!(app.balloons[0].id, 1);
    assert_eq!(app.balloons[0].total_x, 30);
    assert_eq!(app.balloons[1].total_x, 20);
}

#[test]
fn game_ends_when_hitpoints_run_out() {
    let mut app = App::new(80, 24);
    app.hitpoints = 1;
    app.path = straight_path();
    let mut b = red_at(0, 0);
    b.damage = 5;
    app.balloons.push(b);
    let mut wave = empty_wave();
    app.tick(&mut wave);
    app.tick(&mut wave);
    assert_eq!(app.hitpoints, 0);
    assert!(app.dead);
    assert!(app.is_frozen());
    app.pause();
    assert!(app.on_pause);
    app.score = 9;
    app.highscore();
    assert_eq!(app.highscore, 9);
}

#[test]
fn shots_aim_ahead_of_the_balloon() {
    let mut path = BalloonPath::new();
    path.generate_path();
    let mut t = Tower::dart_thrower(-50_000, 20_000);
    t.ticks_since_last_projectile = 800;
    let b = red_at(-90_000, 0);
    assert!(t.shoot(&b, &path));
    let p = t.projectiles[0].projectile();
    assert_eq!((p.x, p.y), (-50_000, 22_500));
    assert_eq!(p.target_balloon, Some(b.id));
    let mut ahead = b;
    for _ in 0..p.flying_time {
        ahead.move_balloon(&path);
    }
    let end_x = p.x + p.dx * p.flying_time;
    let end_y = p.y + p.dy * p.flying_time;
    assert!((end_x - (ahead.x + 5_000)).abs() < p.flying_time);
    assert!((end_y - (ahead.y + 5_000)).abs() < p.flying_time);
    assert!(p.dx < 0);
}
