use oort_ai::class::Class;
use oort_ai::contact::Contact;
use oort_ai::cruiser::Cruiser;
use oort_ai::fighter::{Fighter, Message};
use oort_ai::measure::order_key;
use oort_ai::missile::TargetTelemetry;
use oort_ai::mission_cruiser_defense;
use oort_ai::mission_gunnery::{self, Bystander, GunneryScanSliceGenerator, PracticeView};
use oort_ai::tutorial::{
    self, launches_missile, missile_explodes, search_run, switches_boost, thrust_mode, Lesson,
    ThrustMode,
};
use oort_ai::tutorial_cruiser;
use oort_ai::tutorial_frigate;
use oort_ai::tutorial_squadron::{self, run_towards, ActiveTarget, Incoming, Run};
use oort_ai::weapons::{
    count_guns, count_launches, fallback_target, fighters_among, first_best, forget_launches,
    launch_slot, note_seen, prune_targets, release_target, remember_launch, ships_among,
    watch_targets, TargetRank, TargetView,
};

fn contact(id: u32, class: Class) -> Contact {
    Contact::discovered(id, class, 0, false, 0)
}

fn fighters(ids: &[u32]) -> Vec<Contact> {
    ids.iter().map(|&id| contact(id, Class::Fighter)).collect()
}

fn view(distance: f64, on_left: bool, off_nose: f64, reach_time: f64) -> TargetView {
    TargetView {
        distance: distance.to_bits(),
        on_left,
        off_nose: off_nose.to_bits(),
        reach_time: reach_time.to_bits(),
    }
}

fn degrees(angle: f64) -> u64 {
    angle.to_radians().to_bits()
}

#[test]
fn guns_and_launches_are_counted() {
    let slots = [Some(7), Some(7), None, Some(7)];
    assert_eq!(count_guns(&slots, 4, 7, None), 3);
    assert_eq!(count_guns(&slots, 3, 7, None), 2);
    assert_eq!(count_guns(&slots, 4, 7, Some(0)), 2);
    assert_eq!(count_guns(&slots, 4, 8, None), 0);
    let mut history = vec![(1, 10), (2, 20), (1, 30)];
    assert_eq!(count_launches(&history, 1), 2);
    forget_launches(&mut history, 250);
    assert_eq!(history, vec![(1, 10), (2, 20), (1, 30)]);
    forget_launches(&mut history, 251);
    assert_eq!(history, vec![(2, 20), (1, 30)]);
    remember_launch(&mut history, 2, 251);
    assert_eq!(history, vec![(1, 30), (2, 251)]);
    assert_eq!(count_launches(&history, 2), 1);
}

#[test]
fn best_target_is_the_first_of_the_best() {
    let rank = |taken, guns, wrong_side, cost| Some(TargetRank { taken, guns, wrong_side, cost });
    assert_eq!(first_best(&vec![]), None);
    assert_eq!(first_best(&vec![None, None]), None);
    assert_eq!(first_best(&vec![None, rank(true, 9, true, 9)]), Some(1));
    assert_eq!(first_best(&vec![rank(true, 0, false, 0), rank(false, 9, true, 9)]), Some(1));
    assert_eq!(first_best(&vec![rank(true, 2, false, 0), rank(true, 1, true, 9)]), Some(1));
    assert_eq!(first_best(&vec![rank(true, 1, true, 0), rank(true, 1, false, 9)]), Some(1));
    assert_eq!(first_best(&vec![rank(true, 1, true, 5), rank(true, 1, true, 4)]), Some(1));
    assert_eq!(first_best(&vec![rank(true, 1, true, 5), rank(true, 1, true, 5)]), Some(0));
}

#[test]
fn contacts_are_sorted_by_class() {
    let contacts = vec![
        contact(1, Class::Missile),
        contact(2, Class::Fighter),
        contact(3, Class::Torpedo),
        contact(4, Class::Fighter),
    ];
    let ids = |list: Vec<Contact>| list.iter().map(|c| c.id).collect::<Vec<u32>>();
    assert_eq!(ids(fighters_among(&contacts)), vec![2, 4]);
    assert_eq!(ids(ships_among(&contacts)), vec![2, 3, 4]);
    let mut seen = vec![4, 9];
    note_seen(&mut seen, &fighters(&[2, 4, 2]));
    assert_eq!(seen, vec![4, 9, 2]);
}

#[test]
fn targets_are_given_up() {
    let mut slots = [Some(1), Some(2), Some(3), Some(4)];
    prune_targets(&mut slots, 3, &fighters(&[2]));
    assert_eq!(slots, [None, Some(2), None, Some(4)]);
    let history = vec![(2, 5)];
    assert_eq!(release_target(Some(2), &history, &fighters(&[2])), Some(2));
    assert_eq!(release_target(Some(2), &history, &fighters(&[2, 3])), None);
    assert_eq!(release_target(Some(3), &history, &fighters(&[2, 3])), Some(3));
    assert_eq!(release_target(None, &history, &fighters(&[3])), None);
}

#[test]
fn slots_take_turns() {
    assert_eq!(launch_slot(&[None, Some(1), Some(2), None], 0, 0), Some(1));
    assert_eq!(launch_slot(&[None, Some(1), Some(2), None], 1, 0), Some(2));
    assert_eq!(launch_slot(&[None, None, Some(2), None], 0, 0), Some(2));
    assert_eq!(launch_slot(&[None, Some(1), None, None], 1, 0), None);
    let ships = fighters(&[5, 6]);
    assert_eq!(fallback_target(&[None, Some(6), Some(5), None], &ships), Some(1));
    assert_eq!(fallback_target(&[None, None, Some(5), None], &ships), Some(0));
    // The second weapon's target counts even where it is gone.
    assert_eq!(fallback_target(&[None, Some(9), Some(5), None], &ships), None);
    assert_eq!(
        watch_targets(&[Some(5), None, Some(6), Some(7)], &[true, true, true, false], 4),
        vec![(5, 6), (6, 6)]
    );
}

#[test]
fn cruiser_tells_three_fighters_once() {
    let report = |tick| TargetTelemetry {
        position_x: 0,
        position_y: 0,
        velocity_x: 0,
        velocity_y: 0,
        rssi: 0,
        class: Class::Fighter,
        tick,
    };
    let reports = (0..6).map(report).collect();
    let groups = vec![vec![4, 0], vec![1, 2], vec![5, 3]];
    let mut cruiser = Cruiser::new();
    assert!(!cruiser.stage_broadcast(&vec![vec![4, 0], vec![1, 2], vec![5]], &reports));
    assert!(!cruiser.stage_broadcast(&vec![vec![4, 0], vec![1, 2]], &reports));
    assert_eq!(cruiser.next_broadcast(), None);
    assert!(cruiser.stage_broadcast(&groups, &reports));
    assert!(!cruiser.stage_broadcast(&groups, &reports));
    assert_eq!(cruiser.next_broadcast(), Some(report(4)));
    assert!(!cruiser.stage_broadcast(&groups, &reports));
    assert_eq!(cruiser.next_broadcast(), Some(report(1)));
    assert_eq!(cruiser.next_broadcast(), Some(report(5)));
    assert_eq!(cruiser.next_broadcast(), None);
    assert!(!cruiser.stage_broadcast(&groups, &reports));
}

#[test]
fn cruiser_cannon_takes_the_closest() {
    let ships = fighters(&[1, 2, 3]);
    let views = vec![
        view(300.0, true, 0.0, 0.0),
        view(100.0, false, 0.0, 0.0),
        view(200.0, true, 0.0, 0.0),
    ];
    let mut cruiser = Cruiser::new();
    cruiser.note_ships(&ships);
    cruiser.assign_cannon(&ships, &views);
    assert_eq!(cruiser.weapon_targets, [Some(2), None, None, None]);
    assert_eq!(cruiser.watched_contacts(), vec![(2, 6)]);
    assert_eq!(cruiser.turn_to(&ships), (true, Some(1)));
    cruiser.aim_launcher(1, Some(1));
    cruiser.aim_launcher(2, Some(3));
    // Contact 2 is gone; the others have a launcher on them.
    let left = fighters(&[1, 3]);
    cruiser.assign_cannon(&left, &vec![views[0], views[2]]);
    assert_eq!(cruiser.weapon_targets, [Some(3), Some(1), Some(3), None]);
    assert!(Cruiser::fires_cannon(true, 0));
    assert!(!Cruiser::fires_cannon(true, 1));
    assert!(!Cruiser::fires_cannon(false, 0));
}

#[test]
fn cruiser_shares_no_targets_while_few_were_seen() {
    let ships = fighters(&[1, 2]);
    let views = vec![view(100.0, true, 0.0, 0.0), view(200.0, true, 0.0, 0.0)];
    let mut cruiser = Cruiser::new();
    cruiser.note_ships(&ships);
    cruiser.aim_launcher(1, Some(1));
    cruiser.assign_cannon(&ships, &views);
    assert_eq!(cruiser.weapon_targets[0], Some(2));
    cruiser.aim_launcher(2, Some(2));
    cruiser.aim_launcher(0, None);
    cruiser.assign_cannon(&ships, &views);
    assert_eq!(cruiser.weapon_targets[0], None);
    assert_eq!(cruiser.turn_to(&ships), (false, Some(0)));
}

#[test]
fn cruiser_draws_missile_targets() {
    assert_eq!(Cruiser::launcher_to_aim(0, 0), Some(1));
    assert_eq!(Cruiser::launcher_to_aim(3, 0), Some(2));
    assert_eq!(Cruiser::launcher_to_aim(3, 1), None);
    let ships = fighters(&[1, 2, 3]);
    let angles = vec![degrees(68.0), degrees(67.5), degrees(5.0)];
    let pool = Cruiser::missile_pool(&ships, &angles);
    assert_eq!(pool, vec![2, 3]);
    assert_eq!(Cruiser::select_missile_target(&pool, 0), Some(2));
    assert_eq!(Cruiser::select_missile_target(&pool, 1), Some(3));
    assert_eq!(Cruiser::select_missile_target(&pool, 2), Some(3));
    let far = vec![degrees(100.0); 3];
    assert_eq!(Cruiser::missile_pool(&ships, &far), vec![1, 2, 3]);
    assert_eq!(Cruiser::select_missile_target(&vec![], 0), None);
}

#[test]
fn cruiser_launches_while_a_radio_is_left() {
    let mut cruiser = Cruiser::new();
    cruiser.aim_launcher(1, Some(8));
    cruiser.aim_launcher(2, Some(9));
    assert_eq!(cruiser.launch(false, 0, 0), None);
    assert_eq!(cruiser.launch(true, 1, 1), None);
    assert_eq!(cruiser.launch(true, 0, 0), Some((1, 8)));
    assert_eq!(cruiser.missile_sender.delay_missile_contact, Some(8));
    assert_eq!(cruiser.weapon_targets, [None, None, Some(9), None]);
    assert_eq!(cruiser.launch(true, 0, 0), Some((2, 9)));
    assert_eq!(cruiser.launch(true, 0, 0), None);
}

#[test]
fn tutorial_cruiser_prefers_sides() {
    let ships = fighters(&[1, 2, 3]);
    let views = vec![
        view(100.0, false, 0.0, 0.0),
        view(200.0, true, 0.0, 0.0),
        view(300.0, false, 0.0, 0.0),
    ];
    let mut ship = tutorial_cruiser::Ship::new();
    ship.begin_tick(5, &ships);
    ship.assign_weapons(&ships, &views, 5, 4);
    assert_eq!(ship.weapon_targets, [Some(1), None, Some(3), None]);
    ship.assign_weapons(&ships, &views, 4, 4);
    assert_eq!(ship.weapon_targets, [Some(1), Some(2), Some(3), None]);
    assert_eq!(ship.watched_contacts(), vec![(1, 6), (2, 6), (3, 6)]);
    assert_eq!(ship.turn_to(&ships), (true, Some(0)));
}

#[test]
fn tutorial_cruiser_spaces_its_launches() {
    let ships = fighters(&[1, 2, 3]);
    let mut ship = tutorial_cruiser::Ship::new();
    ship.weapon_targets = [None, Some(1), Some(2), None];
    assert_eq!(ship.launch(2, 0, 0), None);
    assert_eq!(ship.launch(3, 0, 0), Some((1, 1)));
    assert_eq!(ship.missile_launch_history, vec![(1, 3)]);
    assert_eq!(ship.launch(5, 0, 0), None);
    assert_eq!(ship.launch(6, 0, 0), Some((2, 2)));
    // A target that was launched at is given up for one that was not.
    ship.weapon_targets = [None, Some(1), None, None];
    ship.begin_tick(7, &ships);
    let views = vec![view(100.0, true, 0.0, 0.0); 3];
    ship.assign_weapons(&ships, &views, 0, 9);
    assert_eq!(ship.weapon_targets, [Some(3), Some(1), None, None]);
    ship.begin_tick(247, &ships);
    assert_eq!(ship.missile_launch_history, vec![]);
}

#[test]
fn tutorial_cruiser_broadcasts_for_two_ticks() {
    let ships = fighters(&[4, 5]);
    let mut ship = tutorial_cruiser::Ship::new();
    assert_eq!(ship.broadcast(None, &ships), None);
    assert_eq!(ship.broadcast(Some(5), &ships), Some(1));
    assert_eq!(ship.broadcast(None, &ships), Some(1));
    assert_eq!(ship.broadcast(None, &ships), None);
    assert_eq!(ship.broadcast_ticks, 0);
    assert_eq!(ship.broadcast(Some(9), &ships), None);
    assert_eq!(ship.broadcast(Some(4), &ships), Some(0));
    assert_eq!(ship.broadcast_ticks, 1);
}

#[test]
fn frigate_weapons_prefer_different_things() {
    let ships = fighters(&[1, 2, 3, 4, 5]);
    let views = vec![
        view(500.0, true, 0.5, 2.0),
        view(100.0, true, 0.4, 1.0),
        view(200.0, true, 0.1, 3.0),
        view(300.0, true, 0.3, 9.0),
        view(400.0, true, 0.2, 4.0),
    ];
    let mut ship = tutorial_frigate::Ship::new();
    ship.begin_tick(1, &ships);
    ship.assign_weapons(&ships, &views, &[9, 4, 5, 4]);
    assert_eq!(ship.weapon_targets, [Some(3), Some(2), None, Some(4)]);
    ship.assign_weapons(&ships, &views, &[9, 4, 4, 4]);
    assert_eq!(ship.weapon_targets, [Some(3), Some(2), Some(5), Some(4)]);
    assert_eq!(ship.watched_contacts(&[5, 6, 0, 5]), vec![(3, 6), (5, 6), (4, 6)]);
    assert_eq!(ship.target_place(2, &ships), Some(4));
    assert_eq!(ship.turn_to(&ships), None);
    ship.weapon_targets[0] = None;
    assert_eq!(ship.turn_to(&ships), Some(1));
}

#[test]
fn frigate_shares_targets_only_when_many_were_seen() {
    let ships = fighters(&[1]);
    let views = vec![view(500.0, true, 0.5, 2.0)];
    let mut ship = tutorial_frigate::Ship::new();
    ship.begin_tick(1, &ships);
    ship.assign_weapons(&ships, &views, &[0, 0, 0, 0]);
    assert_eq!(ship.weapon_targets, [None, None, None, Some(1)]);
    ship.seen_target_ids = vec![1, 2, 3, 4];
    ship.assign_weapons(&ships, &views, &[0, 0, 0, 0]);
    assert_eq!(ship.weapon_targets, [Some(1); 4]);
}

#[test]
fn frigate_tells_each_missile_once() {
    let ships = fighters(&[1, 2]);
    let mut ship = tutorial_frigate::Ship::new();
    assert!(!ship.launch(3, 0));
    ship.weapon_targets[3] = Some(2);
    assert!(!ship.launch(3, 1));
    assert!(ship.launch(3, 0));
    assert_eq!(ship.broadcast(&ships), Some(1));
    assert_eq!(ship.broadcast(&ships), None);
    assert!(ship.launch(9, 0));
    assert_eq!(ship.missile_launch_history, vec![(2, 9)]);
    // The same target again: the missile before it is listening already.
    assert_eq!(ship.broadcast(&ships), None);
    assert!(tutorial_frigate::Ship::fires_turret(true, 0));
    assert!(!tutorial_frigate::Ship::fires_turret(true, 1));
    assert!(!tutorial_frigate::Ship::fires_turret(false, 0));
    assert!(tutorial_frigate::Ship::fires_gun(0, degrees(0.09)));
    assert!(!tutorial_frigate::Ship::fires_gun(0, degrees(0.11)));
    assert!(!tutorial_frigate::Ship::fires_gun(1, degrees(0.0)));
}

#[test]
fn fighter_hears_its_assignment() {
    for id in 2..5 {
        let mut fighter = Fighter::new(true, 300);
        for count in 1..5 {
            assert_eq!(fighter.received_assignment(id), count > id - 1);
            let message = fighter.hear(id);
            assert_eq!(message == Message::Assignment, count == id - 1);
            assert_eq!(message == Message::Report, count != id - 1);
        }
    }
    let mut other = Fighter::new(true, 300);
    assert_eq!(other.hear(5), Message::Ignored);
    assert_eq!(other.hear(0), Message::Ignored);
    assert_eq!(other.fighter_msgs_received, 0);
    assert!(Fighter::in_wing(2) && Fighter::in_wing(4));
    assert!(!Fighter::in_wing(1) && !Fighter::in_wing(5));
    assert!(other.received_assignment(1));
    assert!(!other.received_assignment(0));
    assert!(!other.received_assignment(5));
}

#[test]
fn fighter_reacquires_the_closest() {
    let contacts = vec![
        contact(1, Class::Frigate),
        contact(2, Class::Fighter),
        contact(3, Class::Fighter),
    ];
    let mut fighter = Fighter::new(false, 300);
    assert_eq!(fighter.watched_contact(), None);
    fighter.reacquire(false, &vec![], &vec![]);
    assert_eq!(fighter.fighter_target_id, None);
    fighter.reacquire(false, &contacts, &vec![1, 9, 8]);
    assert_eq!(fighter.watched_contact(), Some((3, 6)));
    fighter.reacquire(true, &contacts, &vec![1, 2, 8]);
    assert_eq!(fighter.fighter_target_id, Some(3));
    fighter.reacquire(false, &contacts, &vec![1, 2, 8]);
    assert_eq!(fighter.fighter_target_id, Some(2));
    fighter.reacquire(false, &vec![], &vec![]);
    assert_eq!(fighter.fighter_target_id, Some(2));
    fighter.accept_target(11);
    assert_eq!(fighter.fighter_target_id, Some(11));
}

#[test]
fn fighter_turns_round_and_fires() {
    let mut fighter = Fighter::new(false, 300);
    assert!(!fighter.orbit_due(299));
    assert!(fighter.orbit_due(300));
    fighter.flip_orbit(300, 900);
    assert!(fighter.orbit_forward);
    assert_eq!(fighter.num_direction_changes, 1);
    assert!(!fighter.orbit_due(1199));
    assert!(fighter.orbit_due(1200));
    assert!(Fighter::fires_gun(Some(degrees(0.14)), 5));
    assert!(!Fighter::fires_gun(Some(degrees(0.16)), 5));
    assert!(!Fighter::fires_gun(Some(degrees(0.14)), 6));
    assert!(!Fighter::fires_gun(None, 0));
    let contacts = vec![contact(1, Class::Missile), contact(2, Class::Fighter)];
    assert_eq!(fighter.launch(&contacts, 1), None);
    assert_eq!(fighter.launch(&vec![contacts[0]], 0), None);
    assert_eq!(fighter.missile_sender.delay_missile_contact, None);
    assert_eq!(fighter.launch(&contacts, 0), Some(2));
    assert_eq!(fighter.missile_sender.delay_missile_contact, Some(2));
}

#[test]
fn gunnery_slices_repeat_behind_hits() {
    let mut generator = GunneryScanSliceGenerator::new();
    assert!(!generator.awaits_result(0));
    assert_eq!(generator.next_slice(10, true), (0, false));
    assert!(generator.awaits_result(11));
    assert_eq!(generator.next_slice(11, true), (0, true));
    assert_eq!(generator.next_slice(12, false), (1, false));
    // A pause leaves the slice as it is.
    assert_eq!(generator.next_slice(20, false), (1, false));
    for k in 2..10 {
        assert_eq!(generator.next_slice(19 + k as u32, false), (k, false));
    }
    assert_eq!(generator.next_slice(29, false), (0, false));
}

fn practice(uncertainty: f64, north: f64) -> PracticeView {
    PracticeView {
        uncertainty: uncertainty.to_bits(),
        north: order_key(north.to_bits()),
        north_with_bonus: order_key((north + 500.0).to_bits()),
    }
}

#[test]
fn gunnery_targets() {
    let contacts = fighters(&[1, 2, 3]);
    let mut ship = mission_gunnery::Ship::new();
    assert_eq!(ship.select_target(&vec![], &vec![]), None);
    assert_eq!(ship.watched_contact(), None);
    let views = vec![practice(9.0, -300.0), practice(9.0, -100.0), practice(51.0, 900.0)];
    assert_eq!(ship.select_target(&contacts, &views), Some(1));
    assert_eq!(ship.watched_contact(), Some((2, 3)));
    // The target at hand has a bonus of 500 metres.
    let views = vec![practice(9.0, 390.0), practice(9.0, -100.0), practice(50.0, 401.0)];
    assert_eq!(ship.select_target(&contacts, &views), Some(2));
    // The one that was shot at comes last.
    let far = f64::MAX.to_bits();
    let none = vec![Bystander { distance: far, pass: None }; 3];
    assert_eq!(ship.record_shot(&contacts, 3, 100.0f64.to_bits(), &none), None);
    assert_eq!(ship.shots_at(3), 1);
    assert_eq!(ship.select_target(&contacts, &views), Some(0));
    assert_eq!(ship.weapon_target, Some(1));
}

#[test]
fn gunnery_counts_what_is_hit() {
    let contacts = fighters(&[1, 2, 3, 4]);
    let mut ship = mission_gunnery::Ship::new();
    let by = |distance: f64, time: f64, gap: f64| Bystander {
        distance: distance.to_bits(),
        pass: Some((time.to_bits(), gap.to_bits())),
    };
    let range = 1000.0f64.to_bits();
    let others =
        vec![by(10.0, 0.1, 0.0), by(999.0, 0.3, 15.0), by(1000.0, 0.1, 0.0), by(500.0, 0.2, 15.1)];
    assert_eq!(ship.record_shot(&contacts, 1, range, &others), Some(1));
    assert_eq!(ship.shots_at(1), 0);
    assert_eq!(ship.shots_at(2), 1);
    assert_eq!(ship.record_shot(&contacts, 2, range, &others), Some(0));
    assert_eq!(ship.record_shot(&contacts, 2, 5.0f64.to_bits(), &others), None);
    assert_eq!(ship.shots_at(2), 2);
    assert!(mission_gunnery::Ship::fires(0, 1.0f64.to_bits(), 20.0f64.to_bits()));
    assert!(!mission_gunnery::Ship::fires(1, 1.0f64.to_bits(), 20.0f64.to_bits()));
    assert!(!mission_gunnery::Ship::fires(0, 1.1f64.to_bits(), 20.0f64.to_bits()));
    assert!(!mission_gunnery::Ship::fires(0, 1.0f64.to_bits(), 20.1f64.to_bits()));
}

#[test]
fn squadron_missiles_lock_late() {
    let contacts = vec![contact(7, Class::Missile), contact(1, Class::Fighter)];
    let mut ship = tutorial_squadron::Ship::new();
    assert!(ship.seek(10, &vec![]).is_none());
    assert_eq!(ship.first_detection_tick, None);
    assert!(ship.seek(20, &contacts).is_none());
    assert!(ship.seek(41, &contacts).is_none());
    assert!(ship.seek(42, &vec![]).is_none());
    let pool = ship.seek(42, &contacts).expect("a fighter to draw");
    assert_eq!(pool.len(), 1);
    ship.lock(&pool, 5);
    assert_eq!(ship.target_id, Some(1));
    assert_eq!(ship.target_place(&contacts), Some(1));
    assert!(ship.seek(43, &contacts).is_none());
    assert_eq!(ship.target_id, Some(1));
    assert!(ship.seek(44, &vec![]).is_none());
    assert_eq!(ship.target_id, None);
    assert_eq!(ship.target_place(&contacts), None);
}

fn incoming(closing: bool, impact: Option<f64>, flight: f64, distance: f64) -> Incoming {
    Incoming {
        closing,
        impact_time: impact.map(f64::to_bits),
        flight: flight.to_bits(),
        distance: distance.to_bits(),
    }
}

#[test]
fn squadron_fighters_shoot_missiles_first() {
    let contacts = vec![
        contact(1, Class::Fighter),
        contact(2, Class::Missile),
        contact(3, Class::Missile),
        contact(4, Class::Fighter),
    ];
    let near = incoming(false, None, 0.0, 10.0);
    let far = incoming(true, Some(0.1), 0.0, 20.0);
    let choose = |a, b| tutorial_squadron::Ship::choose_target(&contacts, &vec![far, a, b, near]);
    assert_eq!(
        choose(incoming(true, Some(2.0), 5.0, 5.0), incoming(true, Some(1.0), 5.0, 5.0)),
        ActiveTarget::Missile { place: 2 }
    );
    assert_eq!(
        choose(incoming(true, Some(2.0), 5.0, 5.0), incoming(true, Some(1.0), 5.1, 5.0)),
        ActiveTarget::Missile { place: 1 }
    );
    assert_eq!(
        choose(incoming(false, Some(2.0), 5.0, 5.0), incoming(true, None, 5.0, 5.0)),
        ActiveTarget::Fighter { place: 3 }
    );
    assert_eq!(
        tutorial_squadron::Ship::choose_target(&vec![], &vec![]),
        ActiveTarget::Nothing
    );
    // There is no distance that is too far.
    assert_eq!(
        tutorial_squadron::Ship::choose_target(
            &fighters(&[1]),
            &vec![incoming(false, None, 0.0, f64::MAX)]
        ),
        ActiveTarget::Fighter { place: 0 }
    );
}

#[test]
fn squadron_launches_spread() {
    let fighter = ActiveTarget::Fighter { place: 0 };
    let missile = ActiveTarget::Missile { place: 0 };
    let mut ship = tutorial_squadron::Ship::new();
    assert!(!ship.draws_offset(fighter, 1));
    assert!(!ship.launches(fighter, 1, 0));
    assert!(ship.draws_offset(fighter, 0));
    assert!(!ship.draws_offset(fighter, 0));
    assert!(!ship.launches(fighter, 0, degrees(4.1)));
    assert!(ship.launches(fighter, 0, degrees(3.9)));
    assert!(!ship.launch_offset);
    assert!(ship.draws_offset(ActiveTarget::Nothing, 0));
    assert!(!ship.launches(ActiveTarget::Nothing, 0, 0));
    assert!(!ship.launch_offset);
    assert!(ship.draws_offset(fighter, 0));
    assert!(!ship.draws_offset(missile, 0));
    assert!(!ship.launch_offset);
    assert!(ship.launches(missile, 0, 0));
    assert!(!ship.launches(missile, 1, 0));
}

#[test]
fn squadron_thresholds() {
    let m = |x: f64| x.to_bits();
    assert!(tutorial_squadron::Ship::explodes(m(19.9), m(50.0)));
    assert!(tutorial_squadron::Ship::explodes(m(50.0), m(19.9)));
    assert!(!tutorial_squadron::Ship::explodes(m(20.0), m(20.0)));
    assert!(tutorial_squadron::Ship::saves_fuel(m(200.0), m(10.0), m(10.1)));
    assert!(!tutorial_squadron::Ship::saves_fuel(m(199.0), m(10.0), m(10.1)));
    assert!(!tutorial_squadron::Ship::saves_fuel(m(200.0), m(10.0), m(10.0)));
    assert!(tutorial_squadron::Ship::turns_to_explosion(m(0.5), m(0.5)));
    assert!(!tutorial_squadron::Ship::turns_to_explosion(m(0.6), m(0.5)));
    assert!(tutorial_squadron::Ship::burns_ahead(m(500.0)));
    assert!(!tutorial_squadron::Ship::burns_ahead(m(499.0)));
    assert!(tutorial_squadron::Ship::fires_gun(0, degrees(1.9)));
    assert!(!tutorial_squadron::Ship::fires_gun(0, degrees(2.1)));
    assert!(!tutorial_squadron::Ship::fires_gun(1, degrees(1.9)));
    assert_eq!(run_towards(degrees(4.9)), Run::Boost);
    assert_eq!(run_towards(degrees(5.1)), Run::Ahead);
    assert_eq!(run_towards(degrees(14.9)), Run::Ahead);
    assert_eq!(run_towards(degrees(15.1)), Run::Brake);
}

#[test]
fn tutorial_thresholds() {
    for (lesson, limit) in [
        (Lesson::Guns, 1.0),
        (Lesson::Rotation, 0.5),
        (Lesson::Lead, 0.5),
        (Lesson::Tracking, 0.15),
    ] {
        assert!(tutorial::fires_gun(lesson, 0, degrees(limit - 0.01)));
        assert!(!tutorial::fires_gun(lesson, 0, degrees(limit + 0.01)));
        assert!(!tutorial::fires_gun(lesson, 1, 0));
    }
    assert!(switches_boost(degrees(59.9)));
    assert!(!switches_boost(degrees(60.1)));
    let m = |x: f64| x.to_bits();
    assert!(missile_explodes(m(19.9), m(30.0)));
    assert!(missile_explodes(m(30.0), m(19.9)));
    assert!(!missile_explodes(m(20.0), m(20.0)));
    assert!(launches_missile(0, degrees(9.9)));
    assert!(!launches_missile(0, degrees(10.1)));
    assert!(!launches_missile(1, degrees(9.9)));
    assert_eq!(search_run(Some(m(4.9)), degrees(1.9)), Run::Ahead);
    assert_eq!(search_run(Some(m(4.9)), degrees(2.1)), Run::Brake);
    assert_eq!(search_run(Some(m(5.0)), degrees(1.9)), Run::Boost);
    assert_eq!(search_run(None, degrees(14.0)), Run::Ahead);
    assert_eq!(search_run(None, degrees(16.0)), Run::Brake);
}

#[test]
fn boost_is_one_of_the_abilities() {
    for mask in 0..16u64 {
        let boosted = mask == 2 || mask == 3 || mask == 6 || mask == 7 || mask == 10 || mask == 11
            || mask == 14 || mask == 15;
        assert_eq!(thrust_mode(mask) == ThrustMode::Boosted, boosted, "mask {}", mask);
    }
    let mut abilities = oort_api::ActiveAbilities(0);
    abilities.set_ability(oort_api::Ability::Boost);
    assert_eq!(thrust_mode(abilities.0), ThrustMode::Boosted);
    let mut abilities = oort_api::ActiveAbilities(0);
    abilities.set_ability(oort_api::Ability::Shield);
    assert_eq!(thrust_mode(abilities.0), ThrustMode::Plain);
}

#[test]
fn defense_roles_and_links() {
    let role = |class| mission_cruiser_defense::Ship::new(class).role;
    assert_eq!(role(Class::Missile), mission_cruiser_defense::Role::Missile);
    assert_eq!(role(Class::Fighter), mission_cruiser_defense::Role::Fighter);
    assert_eq!(role(Class::Cruiser), mission_cruiser_defense::Role::Cruiser);
    assert_eq!(role(Class::Frigate), mission_cruiser_defense::Role::Cruiser);
    let ship = mission_cruiser_defense::Ship::new(Class::Cruiser);
    assert_eq!((ship.missile_radio.secret, ship.missile_radio.channel_offset), (1337, 0));
    assert_eq!((ship.fighter_radio.secret, ship.fighter_radio.channel_offset), (1338, 4));
}
