use oort_ai::class::Class;
use oort_ai::contact::Contact;
use oort_ai::fighter_duel::{
    filter_missile_threats, in_gun_reach, orbit_zone, Course, HeadingChoice, MissileOrders,
    OrbitZone, Ship, Shot, TargetSource,
};
use oort_api::prelude::{vec2, Vec2, Vec2Extras};

#[derive(Clone, Copy)]
struct Body {
    id: u32,
    position: Vec2,
    velocity: Vec2,
}

fn can_missile_intercept(missile: &Body, target: &Body) -> bool {
    let r0_vec = target.position - missile.position;
    let r0 = r0_vec.length();
    if r0 < 1e-6 {
        return true;
    }
    let u0 = r0_vec / r0;
    let w0 = vec2(-u0.y, u0.x);
    let v_rel = target.velocity - missile.velocity;
    let v_c = -v_rel.dot(u0);
    if v_c <= 0.0 {
        return false;
    }
    let t_go = r0 / v_c;
    let max_lat_acc = oort_api::Class::Missile.default_stats().max_lateral_acceleration;
    let d_steer = v_rel.dot(w0).abs() * t_go;
    let d_max = if t_go > 0.2 {
        0.5 * max_lat_acc * (t_go - 0.2).powi(2) + 750.0 * 0.2
    } else {
        750.0 * t_go
    };
    d_max >= d_steer
}

fn course(missile: &Body, us: &Body) -> Course {
    let r = missile.position - us.position;
    let dist = r.length();
    let v_rel = missile.velocity - us.velocity;
    let closing = -r.dot(v_rel) / dist;
    let speed_sq = v_rel.dot(v_rel);
    let t_closest = -r.dot(v_rel) / speed_sq;
    Course {
        distance: dist.to_bits(),
        arrival: if closing > 0.0 { Some((dist / closing).to_bits()) } else { None },
        closest_time: if t_closest > 0.0 { Some(t_closest.to_bits()) } else { None },
        closest_approach: (r + v_rel * t_closest).length().to_bits(),
        interceptable: can_missile_intercept(missile, us),
        solvable: true,
    }
}

fn threats_among(missiles: &[Body]) -> Vec<u32> {
    let us = Body { id: 0, position: vec2(0.0, 0.0), velocity: vec2(0.0, 0.0) };
    let contacts = missiles.iter().map(|m| contact(m.id, Class::Missile)).collect();
    let courses = missiles.iter().map(|m| course(m, &us)).collect();
    filter_missile_threats(&contacts, &courses)
}

fn contact(id: u32, class: Class) -> Contact {
    Contact::discovered(id, class, 0, false, 0)
}

fn missile(id: u32, position: Vec2, velocity: Vec2) -> Body {
    Body { id, position, velocity }
}

#[test]
fn test_filter_missile_threats() {
    // 1. Missile moving away (closing <= 0) -> should be ignored
    let m_away = missile(1, vec2(100.0, 0.0), vec2(10.0, 0.0));
    // 2. Missile heading straight at us, within 5s -> should be included
    let m_incoming = missile(2, vec2(400.0, 0.0), vec2(-100.0, 0.0));
    // 3. Missile heading straight at us, but too far -> should be ignored
    let m_far = missile(3, vec2(1000.0, 0.0), vec2(-100.0, 0.0));
    // 4. Missile passing by (closest approach = 200m > 150m) -> should be ignored
    let m_miss = missile(4, vec2(300.0, 200.0), vec2(-100.0, 0.0));
    // 5. Missile passing by very closely (closest approach = 50m <= 150m) -> should be included
    let m_close_pass = missile(5, vec2(300.0, 50.0), vec2(-100.0, 0.0));

    let threats = threats_among(&[m_away, m_incoming, m_far, m_miss, m_close_pass]);

    // Should contain ID 5 (dist = 304.1m) and ID 2 (dist = 400m)
    assert_eq!(threats.len(), 2);
    assert_eq!(threats[0], 5);
    assert_eq!(threats[1], 2);
}

#[test]
fn test_filter_missile_threats_limit_three() {
    // 4 missiles heading straight at us at different distances
    let threats = threats_among(&[
        missile(1, vec2(400.0, 0.0), vec2(-100.0, 0.0)),
        missile(2, vec2(200.0, 0.0), vec2(-100.0, 0.0)),
        missile(3, vec2(300.0, 0.0), vec2(-100.0, 0.0)),
        missile(4, vec2(100.0, 0.0), vec2(-100.0, 0.0)),
    ]);

    // Should return exactly the 3 closest: ID 4 (100m), ID 2 (200m), ID 3 (300m)
    assert_eq!(threats.len(), 3);
    assert_eq!(threats[0], 4);
    assert_eq!(threats[1], 2);
    assert_eq!(threats[2], 3);
}

// The heading and turn rate that the ship aims for. A turn takes no time.
fn desired(
    pd: Option<(f64, f64)>,
    gun: Option<(f64, f64)>,
    missile: Option<(f64, f64)>,
    acc_cmd: Vec2,
    gun_reload: u32,
    missile_reload: u32,
    reversing: bool,
) -> (f64, Option<f64>) {
    let slow = |aim: Option<(f64, f64)>| aim.map(|_| 0.0 > 0.8 * (gun_reload as f64 / 60.0));
    let choice = Ship::compute_desired_heading(
        slow(pd),
        slow(gun),
        missile.is_some(),
        gun_reload,
        missile_reload,
        reversing,
    );
    let aim = match choice {
        HeadingChoice::PointDefense => pd,
        HeadingChoice::Gun => gun,
        HeadingChoice::Missile => missile,
        HeadingChoice::Thrust => None,
    };
    match aim {
        Some((angle, omega)) => (angle, Some(omega)),
        None => (acc_cmd.angle(), None),
    }
}

#[test]
fn test_compute_desired_heading() {
    let acc_cmd = vec2(10.0, 20.0);

    // Case 1: Aiming gun0 (PD aim info takes precedence over normal gun aim info)
    let (heading, omega) =
        desired(Some((1.0, 2.0)), Some((3.0, 4.0)), None, acc_cmd, 0, 0, false);
    assert_eq!(heading, 1.0);
    assert_eq!(omega, Some(2.0));

    // Case 2: Aiming gun0 (normal gun aim info takes precedence when PD is None)
    let (heading, omega) = desired(None, Some((3.0, 4.0)), None, acc_cmd, 0, 0, false);
    assert_eq!(heading, 3.0);
    assert_eq!(omega, Some(4.0));

    // Case 3: No ammo in magazine. It should NOT aim gun0. If the missile is ready, it aims
    // the missile.
    let (heading, omega) =
        desired(None, Some((3.0, 4.0)), Some((5.0, 6.0)), acc_cmd, 60, 0, false);
    assert_eq!(heading, 5.0);
    assert_eq!(omega, Some(6.0));

    // Case 4: No ammo, and no missile aim info. Should fall back to thrust direction.
    let (heading, omega) = desired(None, Some((3.0, 4.0)), None, acc_cmd, 60, 300, false);
    assert_eq!(heading, acc_cmd.angle());
    assert_eq!(omega, None);

    // Case 5: Reversing orbit, with PD active. Point defense must remain a priority.
    let (heading, omega) =
        desired(Some((1.0, 2.0)), Some((3.0, 4.0)), Some((5.0, 6.0)), acc_cmd, 0, 300, true);
    assert_eq!(heading, 1.0);
    assert_eq!(omega, Some(2.0));

    // Case 6: Reversing orbit, with PD None. Ignore missile firing angles and normal gun
    // aiming.
    let (heading, omega) =
        desired(None, Some((3.0, 4.0)), Some((5.0, 6.0)), acc_cmd, 0, 300, true);
    assert_eq!(heading, acc_cmd.angle());
    assert_eq!(omega, None);
}

fn arriving(seconds: f64) -> Course {
    Course {
        distance: 500.0f64.to_bits(),
        arrival: Some(seconds.to_bits()),
        closest_time: Some(seconds.to_bits()),
        closest_approach: 10.0f64.to_bits(),
        interceptable: true,
        solvable: true,
    }
}

#[test]
fn watch_list_orders_and_intervals() {
    let mut ship = Ship::new(true);
    let contacts = vec![
        contact(1, Class::Fighter),
        contact(2, Class::Missile),
        contact(3, Class::Missile),
        contact(4, Class::Torpedo),
        contact(5, Class::Missile),
    ];
    let courses = vec![arriving(1.0), arriving(4.0), arriving(1.0), arriving(1.0), arriving(4.1)];
    assert_eq!(ship.watched_contacts(&contacts, &courses), vec![(2, 10), (3, 10), (1, 10)]);
    ship.pd_target_id = Some(3);
    ship.fighter_target_id = Some(9);
    assert_eq!(
        ship.watched_contacts(&contacts, &courses),
        vec![(3, 4), (2, 10), (1, 10), (9, 10)]
    );
    ship.fighter_target_id = Some(1);
    assert_eq!(ship.watched_contacts(&contacts, &courses), vec![(3, 4), (2, 10), (1, 10)]);
}

#[test]
fn low_magazine_is_emptied_while_nothing_comes_in() {
    let mut ship = Ship::new(true);
    let contacts = vec![contact(2, Class::Missile)];
    ship.gun0.bullets_in_magazine = 14;
    ship.update_force_reload(&contacts, &vec![arriving(5.1)], 0);
    assert!(ship.force_reload);
    ship.update_force_reload(&contacts, &vec![arriving(5.0)], 0);
    assert!(!ship.force_reload);
    ship.gun0.bullets_in_magazine = 15;
    ship.update_force_reload(&vec![], &vec![], 0);
    assert!(!ship.force_reload);
    ship.gun0.bullets_in_magazine = 0;
    ship.update_force_reload(&vec![], &vec![], 0);
    assert!(!ship.force_reload);
}

#[test]
fn messages_are_taken_in_turn() {
    for (id, turn) in [(1, 0), (2, 1), (3, 2), (4, 3), (5, 0)] {
        let mut ship = Ship::new(true);
        assert!(ship.awaits_assignment());
        for message in 1..=5 {
            assert_eq!(ship.take_assignment(id), message == turn);
        }
        ship.accept_target(6);
        assert!(!ship.awaits_assignment());
        assert!(ship.last_known);
    }
}

#[test]
fn prey_is_kept_then_nearest_then_nearest_to_last_seen() {
    let contacts =
        vec![contact(1, Class::Fighter), contact(2, Class::Fighter), contact(3, Class::Frigate)];
    let mut ship = Ship::new(true);
    assert_eq!(ship.note_fighters(&contacts), Some(1));
    assert_eq!(ship.update_target(&contacts, &vec![30, 20, 10], &vec![0, 0, 0]), Some(1));
    assert_eq!(ship.fighter_target_id, Some(2));
    assert_eq!(ship.update_target(&contacts, &vec![1, 20, 10], &vec![0, 0, 0]), Some(1));
    ship.fighter_target_id = Some(3);
    let far = f64::MAX.to_bits();
    assert_eq!(ship.update_target(&contacts, &vec![far, far, 0], &vec![2, 1, 0]), Some(1));
    assert_eq!(ship.fighter_target_id, Some(2));
    assert_eq!(ship.target_place(&contacts), Some(1));
    assert_eq!(ship.update_target(&vec![], &vec![], &vec![]), None);
    assert_eq!(ship.fighter_target_id, None);
    let mut blind = Ship::new(true);
    assert_eq!(blind.update_target(&contacts, &vec![far, far, 0], &vec![2, 1, 0]), None);
}

#[test]
fn orbit_reversals() {
    let contacts = vec![contact(1, Class::Fighter)];
    let mut ship = Ship::new(true);
    ship.begin_tick(Class::Fighter);
    assert_eq!(ship.ticks_since_reversal, 10000);
    ship.flee(&contacts, 501.0f64.to_bits(), true);
    assert!(ship.orbit_forward);
    ship.accept_target(1);
    ship.flee(&contacts, 500.0f64.to_bits(), true);
    assert!(ship.orbit_forward);
    ship.flee(&contacts, 501.0f64.to_bits(), false);
    assert!(ship.orbit_forward);
    ship.flee(&contacts, 501.0f64.to_bits(), true);
    assert!(!ship.orbit_forward);
    assert_eq!(ship.ticks_since_reversal, 0);
    assert!(ship.is_reversing_orbit(true));
    assert!(!ship.is_reversing_orbit(false));
    assert!(!ship.reverse_orbit(400, false));
    ship.ticks_since_reversal = 150;
    assert!(!ship.reverse_orbit(399, false));
    assert!(ship.reverse_orbit(400, false));
    assert!(ship.orbit_forward);
    assert!(ship.reverse_orbit(5, true));
    assert_eq!(ship.num_direction_changes, 2);
    for _ in 0..300 {
        assert!(ship.is_reversing_orbit(true));
        ship.begin_tick(Class::Fighter);
    }
    assert!(!ship.is_reversing_orbit(true));
    let before = ship;
    ship.begin_tick(Class::Missile);
    assert_eq!(ship, before);
    ship.begin_tick(Class::Cruiser);
    assert_eq!(ship.ticks_since_reversal, 300);
    assert_eq!(ship.ticks_since_missile_fired, before.ticks_since_missile_fired + 1);
}

#[test]
fn point_defense_shares_its_rounds_out() {
    let contacts = vec![
        contact(1, Class::Missile),
        contact(2, Class::Missile),
        contact(3, Class::Missile),
        contact(4, Class::Fighter),
    ];
    let mut courses = vec![arriving(2.0), arriving(1.5), arriving(1.0), arriving(0.5)];
    let mut ship = Ship::new(true);
    assert_eq!(ship.select_pd_target(&contacts, &courses), Some(2));
    assert_eq!(ship.pd_target_id, Some(3));
    courses[0] = arriving(0.25);
    ship.pd_bullets_fired = 7;
    assert_eq!(ship.select_pd_target(&contacts, &courses), Some(2));
    ship.pd_bullets_fired = 8;
    assert_eq!(ship.select_pd_target(&contacts, &courses), Some(0));
    assert_eq!(ship.pd_target_id, Some(1));
    assert_eq!(ship.pd_bullets_fired, 0);
    // Too close, too far, and no solution.
    courses[0] = arriving(0.24);
    courses[1] = arriving(3.1);
    courses[2].solvable = false;
    assert_eq!(ship.select_pd_target(&contacts, &courses), None);
    assert_eq!(ship.pd_target_id, None);
    // The last one left keeps its turn.
    courses[1] = arriving(3.0);
    assert_eq!(ship.select_pd_target(&contacts, &courses), Some(1));
    ship.pd_bullets_fired = 100;
    assert_eq!(ship.select_pd_target(&contacts, &courses), Some(1));
    assert_eq!(ship.pd_bullets_fired, 100);
}

fn shot(degrees: f64, flight_ticks: u32) -> Option<Shot> {
    Some(Shot { angle: degrees.to_radians().to_bits(), flight_ticks })
}

#[test]
fn main_gun_fires() {
    let mut ship = Ship::new(true);
    assert_eq!(ship.fire_main_gun(0, 100, shot(0.49, 30), None), (true, Some(130)));
    assert_eq!(ship.pd_bullets_fired, 1);
    assert_eq!(ship.gun0.bullets_in_magazine, 29);
    assert_eq!(ship.fire_main_gun(0, 100, shot(0.51, 30), shot(0.1, 9)), (false, None));
    assert_eq!(ship.fire_main_gun(1, 100, shot(0.4, 30), shot(0.1, 9)), (false, None));
    // The prey is shot at only where there is one.
    assert_eq!(ship.fire_main_gun(0, 100, None, shot(0.1, 9)), (false, None));
    ship.accept_target(5);
    assert_eq!(ship.fire_main_gun(0, 100, None, shot(0.1, 9)), (true, Some(109)));
    assert_eq!(ship.fire_main_gun(0, 100, None, shot(0.16, 9)), (false, None));
    assert_eq!(ship.fire_main_gun(5, 100, None, shot(0.1, 9)), (false, None));
    assert_eq!(ship.pd_bullets_fired, 1);
    ship.force_reload = true;
    assert_eq!(ship.fire_main_gun(0, 100, None, None), (true, None));
    assert_eq!(ship.gun0.bullets_in_magazine, 27);
    assert_eq!(ship.fire_main_gun(1, 100, None, None), (false, None));
}

#[test]
fn boost_gives_way_to_point_defense() {
    let aligned = 4.9f64.to_radians().to_bits();
    let skewed = 5.1f64.to_radians().to_bits();
    assert!(Ship::boosts(None, Some(true), true, 0, 0, true, aligned));
    assert!(!Ship::boosts(None, Some(true), true, 0, 0, true, skewed));
    assert!(!Ship::boosts(Some(false), None, false, 0, 0, true, aligned));
    assert!(!Ship::boosts(Some(true), None, false, 9, 0, true, aligned));
    assert!(Ship::boosts(Some(false), None, false, 9, 0, true, aligned));
    assert!(!Ship::boosts(None, None, false, 9, 99, false, aligned));
}

#[test]
fn missiles_leave_in_salvos() {
    let near = 15.0f64.to_radians().to_bits();
    let contacts = vec![contact(8, Class::Frigate), contact(1, Class::Fighter)];
    let mut ship = Ship::new(true);
    assert_eq!(ship.missile_aim(&contacts, 10), None);
    assert_eq!(
        ship.fire_missile(&vec![], 0, 50, near, Some(10)),
        MissileOrders { target: None, launch: false }
    );
    let seen = Some(TargetSource::Contact { place: 1 });
    assert_eq!(
        ship.fire_missile(&contacts, 0, 50, near, Some(10)),
        MissileOrders { target: seen, launch: true }
    );
    assert_eq!(ship.salvo_missiles_fired, 1);
    assert_eq!(ship.ticks_since_missile_fired, 0);
    assert!(!ship.fire_missile(&contacts, 1, 50, near, Some(10)).launch);
    assert!(!ship.fire_missile(&contacts, 0, 50, near, None).launch);
    assert!(!ship.fire_missile(&contacts, 0, 50, 16.0f64.to_radians().to_bits(), Some(10)).launch);
    assert!(ship.fire_missile(&contacts, 0, 50, near, Some(10)).launch);
    assert_eq!(ship.salvo_missiles_fired, 0);
    ship.accept_target(1);
    assert_eq!(ship.missile_aim(&contacts, 10), seen);
    assert_eq!(ship.missile_aim(&contacts, 11), None);
    assert_eq!(ship.missile_aim(&vec![], 10), Some(TargetSource::LastKnown));
    assert_eq!(
        ship.fire_missile(&vec![], 9, 50, near, None),
        MissileOrders { target: Some(TargetSource::LastKnown), launch: false }
    );
}

#[test]
fn zones_and_reach() {
    let m = |x: f64| x.to_bits();
    let zone = |d| orbit_zone(m(d), m(14800.0), m(15200.0));
    assert_eq!(zone(14799.0), OrbitZone::Inside);
    assert_eq!(zone(14800.0), OrbitZone::OnCircle);
    assert_eq!(zone(15200.0), OrbitZone::OnCircle);
    assert_eq!(zone(15201.0), OrbitZone::Outside);
    assert!(in_gun_reach(m(10.0), m(2.9)));
    assert!(!in_gun_reach(m(10.0), m(3.0)));
    assert!(!in_gun_reach(m(0.0), m(0.0)));
}
