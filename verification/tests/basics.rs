use oort_ai::aim::FireControl;
use oort_ai::beam::{
    beam_candidates, bisect_aim, choose_beam, choose_kind, Aim, BeamAim, BeamKind, BeamPlan, BeamScore, Bearing,
    Depth, Neighbour,
};
use oort_ai::class::Class;
use oort_ai::clusters::cluster_contacts;
use oort_ai::contact::Contact;
use oort_ai::control::{decimals, format_sig_figs, zero_decimals};
use oort_ai::lookup::{find_class, find_last_class, find_nearest, find_ship};
use oort_ai::measure;
use oort_ai::radar::RadarController;
use oort_ai::schedule::trackable_of;
use oort_ai::select::{first_min, rank, retain_flagged, FARTHEST};
use oort_ai::slices::{BasicSlice, DefaultScanSliceGenerator, Obstacle, SliceVerdict};

fn contact(id: u32, class: Class) -> Contact {
    Contact::discovered(id, class, 0, false, 0)
}

#[test]
fn measures_are_the_bit_patterns_of_their_values() {
    let values = [
        (measure::RADIO_PING_SNR, 25.0),
        (measure::MILLIONTH, 1e-6),
        (measure::ACCELERATION_100, 100.0),
        (measure::METERS_100_000, 100_000.0),
        (measure::SPEED_200, 200.0),
        (measure::SPEED_500, 500.0),
        (measure::SPEED_10_000, 10_000.0),
        (measure::METERS_1, 1.0),
        (measure::METERS_15, 15.0),
        (measure::METERS_20, 20.0),
        (measure::METERS_30, 30.0),
        (measure::METERS_50, 50.0),
        (measure::METERS_100, 100.0),
        (measure::METERS_150, 150.0),
        (measure::METERS_500, 500.0),
        (measure::SECONDS_QUARTER, 0.25),
        (measure::SECONDS_HALF, 0.5),
        (measure::SECONDS_3, 3.0),
        (measure::SECONDS_4, 4.0),
        (measure::SECONDS_5, 5.0),
        (measure::SECONDS_10, 10.0),
        (measure::DEGREES_TENTH, 0.1f64.to_radians()),
        (measure::DEGREES_015, 0.15f64.to_radians()),
        (measure::DEGREES_HALF, 0.5f64.to_radians()),
        (measure::DEGREES_1, 1.0f64.to_radians()),
        (measure::DEGREES_2, 2.0f64.to_radians()),
        (measure::DEGREES_4, 4.0f64.to_radians()),
        (measure::DEGREES_5, 5.0f64.to_radians()),
        (measure::DEGREES_10, 10.0f64.to_radians()),
        (measure::DEGREES_15, 15.0f64.to_radians()),
        (measure::DEGREES_60, 60.0f64.to_radians()),
        (measure::DEGREES_67, 67.5f64.to_radians()),
        (measure::FULL_CIRCLE, std::f64::consts::TAU - 1e-5),
        (FARTHEST, f64::MAX),
    ];
    for (bits, value) in values {
        assert_eq!(f64::from_bits(bits), value);
    }
}

#[test]
fn order_keys_order_as_the_values_do() {
    let values = [
        f64::NEG_INFINITY,
        -1e300,
        -2.5,
        -1.0,
        -1e-300,
        0.0,
        1e-300,
        1.0,
        2.5,
        1e300,
        f64::INFINITY,
    ];
    for i in 0..values.len() {
        for j in 0..values.len() {
            let a = measure::order_key(values[i].to_bits());
            let b = measure::order_key(values[j].to_bits());
            assert_eq!(a < b, values[i] < values[j]);
        }
    }
}

#[test]
fn first_min_takes_the_first_of_the_smallest() {
    assert_eq!(first_min(&vec![]), None);
    assert_eq!(first_min(&vec![None, None]), None);
    assert_eq!(first_min(&vec![Some(5), None, Some(2), Some(2)]), Some(2));
    assert_eq!(first_min(&vec![Some(FARTHEST)]), None);
    assert_eq!(first_min(&vec![Some(FARTHEST), Some(FARTHEST - 1)]), Some(1));
}

#[test]
fn rank_is_stable() {
    assert_eq!(rank(&vec![Some(3), Some(1), None, Some(3), Some(0), Some(1)]), vec![4, 1, 5, 0, 3]);
    assert_eq!(rank(&vec![]), Vec::<usize>::new());
}

#[test]
fn retain_flagged_keeps_order() {
    let mut v = vec![1, 2, 3, 4];
    retain_flagged(&mut v, &vec![true, false, false, true]);
    assert_eq!(v, vec![1, 4]);
}

#[test]
fn lookups() {
    let contacts = vec![
        contact(4, Class::Missile),
        contact(7, Class::Fighter),
        contact(9, Class::Fighter),
        contact(11, Class::Torpedo),
    ];
    assert_eq!(find_ship(&contacts, 9, Class::Fighter), Some(2));
    assert_eq!(find_ship(&contacts, 4, Class::Fighter), None);
    assert_eq!(find_class(&contacts, Class::Fighter), Some(1));
    assert_eq!(find_last_class(&contacts, Class::Fighter), Some(2));
    assert_eq!(find_class(&contacts, Class::Cruiser), None);
    assert_eq!(find_last_class(&contacts, Class::Cruiser), None);
    assert_eq!(find_nearest(&contacts, Class::Fighter, &vec![1, 30, 20, 1]), Some(2));
    assert_eq!(find_nearest(&contacts, Class::Fighter, &vec![1, 20, 20, 1]), Some(1));
}

#[test]
fn magazine_of_the_gun() {
    let mut gun = FireControl::from_gun(0);
    assert_eq!(gun.magazine_size, 30);
    assert!(!gun.fire(3));
    assert_eq!(gun.bullets_in_magazine, 30);
    for shot in 0..30 {
        assert_eq!(gun.bullets_in_magazine(0), 30 - shot);
        assert!(gun.fire(0));
    }
    assert_eq!(gun.bullets_in_magazine, 0);
    assert_eq!(gun.bullets_in_magazine(60), 0);
    assert_eq!(gun.bullets_in_magazine(0), 30);
    assert!(gun.fire(0));
    assert_eq!(gun.bullets_in_magazine, 29);
}

#[test]
fn launcher_holds_one() {
    let mut launcher = FireControl::new(1);
    assert_eq!(launcher.gun_id, 1);
    assert_eq!(launcher.fire_at(0, 100, 50), (true, None));
    assert_eq!(launcher.bullets_in_magazine, 0);
    assert_eq!(launcher.fire_at(7, 100, 50), (false, None));
    let mut gun = FireControl::new(0);
    assert_eq!(gun.fire_at(0, 100, 50), (true, Some(150)));
    assert_eq!(gun.fire_at(1, 100, 50), (false, None));
    assert_eq!(gun.bullets_in_magazine, 29);
}

fn table(positions: &[(f64, f64)]) -> Vec<Vec<u64>> {
    positions
        .iter()
        .map(|a| {
            positions
                .iter()
                .map(|b| ((a.0 - b.0).powi(2) + (a.1 - b.1).powi(2)).sqrt().to_bits())
                .collect()
        })
        .collect()
}

#[test]
fn few_contacts_stay_alone() {
    assert_eq!(cluster_contacts(&vec![]), Vec::<Vec<usize>>::new());
    assert_eq!(cluster_contacts(&table(&[(0.0, 0.0), (1.0, 0.0), (2.0, 0.0)])), vec![
        vec![0],
        vec![1],
        vec![2]
    ]);
}

#[test]
fn close_contacts_are_grouped() {
    // Three pairs far apart, listed alternately.
    let positions = [
        (0.0, 0.0),
        (1000.0, 0.0),
        (0.0, 5000.0),
        (10.0, 0.0),
        (1000.0, 20.0),
        (5.0, 5000.0),
    ];
    // The closest pair is (2, 5), then (0, 3), then (1, 4). Each merge moves the last group
    // into the gap.
    assert_eq!(cluster_contacts(&table(&positions)), vec![vec![0, 3], vec![1, 4], vec![2, 5]]);
}

#[test]
fn groups_at_infinite_distances_are_given_up() {
    let far = f64::INFINITY.to_bits();
    assert_eq!(cluster_contacts(&vec![vec![far; 4]; 4]), vec![vec![3], vec![1], vec![2]]);
    assert_eq!(cluster_contacts(&vec![vec![FARTHEST; 5]; 5]), vec![vec![3], vec![1], vec![2]]);
    // One pair is near; it is merged before the rest is given up.
    let mut distances = vec![vec![far; 5]; 5];
    distances[1][2] = 1;
    distances[2][1] = 1;
    assert_eq!(cluster_contacts(&distances), vec![vec![3], vec![1, 2], vec![4]]);
}

#[test]
fn groups_chain_over_their_closest_members() {
    let positions = [(0.0, 0.0), (100.0, 0.0), (10.0, 0.0), (21.0, 0.0), (200.0, 0.0)];
    // 0-2 at 10, then {0, 2}-3 at 11.
    assert_eq!(cluster_contacts(&table(&positions)), vec![vec![0, 2, 3], vec![1], vec![4]]);
}

#[test]
fn groups_are_farther_apart_than_gaps_inside() {
    let positions = [(0.0, 0.0), (30.0, 0.0), (0.0, 40.0), (500.0, 0.0), (900.0, 0.0), (45.0, 0.0)];
    let distances = table(&positions);
    let groups = cluster_contacts(&distances);
    assert_eq!(groups, vec![vec![0, 1, 5, 2], vec![4], vec![3]]);
    // The gaps bridged inside the first group are 15, 30 and 40 metres.
    let widest = 40f64.to_bits();
    for (k, a) in groups.iter().enumerate() {
        for b in &groups[k + 1..] {
            for &p in a {
                for &q in b {
                    assert!(distances[p][q] >= widest);
                }
            }
        }
    }
}

#[test]
fn bisection_follows_the_retries() {
    assert_eq!(bisect_aim(0), BeamAim::Center);
    assert_eq!(bisect_aim(1), BeamAim::Left);
    assert_eq!(bisect_aim(2), BeamAim::Right);
    assert_eq!(bisect_aim(3), BeamAim::Center);
}

#[test]
fn beam_plans() {
    let mut rc = RadarController::new();
    let mut target = contact(1, Class::Fighter);
    rc.contacts.push(target);
    rc.contacts.push(contact(2, Class::Fighter));
    rc.contacts.push(contact(3, Class::Fighter));
    rc.contacts.push(contact(4, Class::Fighter));
    let aim = Aim {
        distance: 1000f64.to_bits(),
        max_range: 5000f64.to_bits(),
        boundary_width: None,
        discovery_width: 0.6f64.to_bits(),
        planned_width: 0.05f64.to_bits(),
        last_width: None,
        elapsed_ticks: 0,
        vicinity: 50f64.to_bits(),
    };
    let far = Neighbour {
        distance: 500f64.to_bits(),
        in_initial_beam: true,
        bearing: Bearing::Left(1),
        depth: Depth::Front(1),
    };
    let quiet = vec![far, far, far, far];
    let out = Aim { distance: 5001f64.to_bits(), ..aim };
    assert_eq!(rc.generate_tracking_scan(&target, &out, &quiet), BeamPlan::OutOfRange);
    assert_eq!(rc.generate_tracking_scan(&target, &aim, &quiet), BeamPlan::Initial {
        width: 0.05f64.to_bits()
    });
    let recent = Aim { last_width: Some(0.02f64.to_bits()), elapsed_ticks: 15, ..aim };
    assert_eq!(rc.generate_tracking_scan(&target, &recent, &quiet), BeamPlan::Initial {
        width: 0.02f64.to_bits()
    });
    let thin = Aim { boundary_width: Some(0.001f64.to_bits()), ..recent };
    assert_eq!(rc.generate_tracking_scan(&target, &thin, &quiet), BeamPlan::Initial {
        width: 0.005f64.to_bits()
    });
    let wide = Aim { boundary_width: Some(0.7f64.to_bits()), ..aim };
    target.tracking_retry_count = 2;
    assert_eq!(rc.generate_tracking_scan(&target, &wide, &quiet), BeamPlan::Bisected {
        aim: BeamAim::Right
    });
    let narrow = Aim { boundary_width: Some(0.6f64.to_bits()), ..aim };
    assert_eq!(rc.generate_tracking_scan(&target, &narrow, &quiet), BeamPlan::Initial {
        width: 0.6f64.to_bits()
    });

    let near = |bearing: Bearing, depth: Depth, seen: bool| Neighbour {
        distance: 50f64.to_bits(),
        in_initial_beam: seen,
        bearing,
        depth,
    };
    let crowd = vec![
        near(Bearing::Same, Depth::Same, true),
        near(Bearing::Left(30), Depth::Behind(7), false),
        near(Bearing::Left(20), Depth::Behind(9), true),
        near(Bearing::Right(5), Depth::Same, false),
    ];
    assert_eq!(rc.generate_tracking_scan(&target, &aim, &crowd), BeamPlan::Alternatives {
        width: 0.05f64.to_bits(),
        left: Some(3),
        right: Some(4),
        behind: Some(2),
        front: None,
    });
    assert_eq!(
        rc.contacts_matched_by_beam(&target, &aim, &crowd, &vec![true, true, false, true]),
        2
    );
}

#[test]
fn beam_choice() {
    assert_eq!(beam_candidates(false, true, false, true), vec![
        BeamKind::Initial,
        BeamKind::RightMid,
        BeamKind::FrontMid
    ]);
    assert_eq!(beam_candidates(true, true, true, true).len(), 5);
    let score = |matches: usize, width: u64, depth: u64| BeamScore { matches, width, depth };
    assert_eq!(choose_beam(&vec![]), None);
    assert_eq!(choose_beam(&vec![score(2, 1, 1), score(1, 9, 9), score(1, 8, 9)]), Some(2));
    assert_eq!(choose_beam(&vec![score(1, 5, 5), score(1, 5, 4), score(1, 5, 4)]), Some(1));

    let kinds = beam_candidates(false, true, false, true);
    assert_eq!(
        choose_kind(&kinds, &vec![score(2, 1, 1), score(1, 9, 9), score(1, 8, 9)]),
        Some((2, BeamKind::FrontMid))
    );
    assert_eq!(
        choose_kind(&kinds, &vec![score(0, 3, 3), score(0, 3, 3), score(1, 1, 1)]),
        Some((0, BeamKind::Initial))
    );
    assert_eq!(choose_kind(&vec![], &vec![]), None);
}

#[test]
fn sweep_and_biased_slices() {
    let mut g = DefaultScanSliceGenerator::new();
    assert_eq!(g.generate_basic_slice(None), BasicSlice::Sweep { restore: false });
    for expected in [0, 1, 2, 0] {
        assert_eq!(g.generate_basic_slice(Some(3)), BasicSlice::Biased { index: expected });
    }
    assert_eq!(g.generate_basic_slice(None), BasicSlice::Sweep { restore: false });
    assert_eq!(g.generate_basic_slice(Some(3)), BasicSlice::Biased { index: 0 });

    // A full circle without a hit reaches farther; one with a hit does not.
    let mut g = DefaultScanSliceGenerator::new();
    assert_eq!(g.finish_sweep(6.0f64.to_bits()), (false, false));
    assert_eq!(g.finish_sweep(std::f64::consts::TAU.to_bits()), (true, true));
    g.notify_hit();
    assert_eq!(g.finish_sweep(std::f64::consts::TAU.to_bits()), (true, false));
    assert!(!g.hit_seen_in_cycle);
    g.notify_non_missile_contact(true);
    g.notify_hit();
    assert_eq!(g.generate_basic_slice(None), BasicSlice::Sweep { restore: true });
    assert!(!g.hit_seen_in_cycle);
    assert_eq!(g.finish_sweep(std::f64::consts::TAU.to_bits()), (true, false));
}

#[test]
fn slices_are_cut_in_front_of_contacts() {
    let mut g = DefaultScanSliceGenerator::new();
    let m = |x: f64| x.to_bits();
    let obstacle = |contact_id: u32, distance: Option<f64>, depth: f64| Obstacle {
        contact_id,
        distance: distance.map(|d| d.to_bits()),
        depth: depth.to_bits(),
    };
    let two = vec![obstacle(5, Some(800.0), 800.0), obstacle(6, Some(400.0), 400.0)];
    let whole = Some(m(1000.0));
    assert_eq!(g.next_slice(whole, &two), SliceVerdict::CutAt { place: 1 });
    assert_eq!(g.avoided_contact_id, Some(6));
    // Behind contact 6, contact 5 is next.
    assert_eq!(g.next_slice(whole, &two), SliceVerdict::CutAt { place: 0 });
    assert_eq!(g.avoided_contact_id, Some(5));
    // The contact being avoided is gone.
    assert_eq!(g.next_slice(None, &two), SliceVerdict::Retry);
    assert_eq!(g.avoided_contact_id, None);
    // Too thin a slice, a cut too close, nothing in the way.
    assert_eq!(g.next_slice(Some(m(99.9)), &two), SliceVerdict::Retry);
    assert_eq!(g.next_slice(Some(m(100.0)), &vec![]), SliceVerdict::Use);
    assert_eq!(g.next_slice(whole, &vec![obstacle(5, Some(99.9), 99.9)]), SliceVerdict::Use);
    assert_eq!(g.next_slice(whole, &vec![obstacle(5, None, 0.0)]), SliceVerdict::Use);
    assert_eq!(g.avoided_contact_id, None);
    let edge = vec![obstacle(5, Some(100.0), 100.0)];
    assert_eq!(g.next_slice(whole, &edge), SliceVerdict::CutAt { place: 0 });
}

#[test]
fn significant_figures() {
    // 12.34 has two digits before the point; 0.00123 has two leading zeros.
    assert_eq!(decimals(3, 2), 1);
    assert_eq!(decimals(3, 5), 0);
    assert_eq!(decimals(3, -2), 5);
    // 9.996 to three figures rounds to 10.0, which takes a decimal away.
    assert_eq!(format_sig_figs(3, 1, Some(2)), 1);
    assert_eq!(format_sig_figs(3, 1, Some(1)), 2);
    assert_eq!(format_sig_figs(3, 1, None), 2);
}

#[test]
fn zero_is_shown_with_one_decimal_fewer() {
    assert_eq!(zero_decimals(1), 0);
    assert_eq!(zero_decimals(4), 3);
}

#[test]
fn keys_of_constants() {
    assert_eq!(measure::KEY_OF_ZERO, measure::order_key(0.0f64.to_bits()));
    assert_eq!(measure::KEY_OF_5, measure::order_key(5.0f64.to_bits()));
}

#[test]
fn aims_reach_up_to_the_range() {
    let aim = |distance: u64| Aim {
        distance,
        max_range: 500,
        boundary_width: None,
        discovery_width: 0,
        planned_width: 0,
        last_width: None,
        elapsed_ticks: 0,
        vicinity: 0,
    };
    assert!(aim(500).reaches());
    assert!(!aim(501).reaches());
    assert_eq!(trackable_of(&vec![aim(500), aim(501), aim(1)]), vec![true, false, true]);
}
