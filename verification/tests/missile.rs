use oort_ai::class::Class;
use oort_ai::contact::Contact;
use oort_ai::measure::order_key;
use oort_ai::missile::{
    cannot_escape, check_detonation_condition, determine_attitude, determine_thrust, is_plausible, saves_fuel,
    should_boost,
    AttitudeSource, CruisePoint, MissileGuidance, MissileRadioSender, Steering, TargetOutlook,
    TargetTelemetry, ThrustPlan, DEFAULT_MIN_SEARCH_FUEL, M, N,
};
use oort_api::prelude::{vec2, Vec2, Vec2Extras};

fn contact(id: u32, class: Class) -> Contact {
    Contact::discovered(id, class, 0, false, 0)
}

fn key(x: f64) -> u64 {
    x.to_bits()
}

#[test]
fn test_target_telemetry_serialization() {
    let position = vec2(12345.67, -9876.54);
    let velocity = vec2(-456.78, 987.65);
    let rssi: f32 = -45.67;
    let telemetry = TargetTelemetry {
        position_x: (position.x as f32).to_bits(),
        position_y: (position.y as f32).to_bits(),
        velocity_x: (velocity.x as f32).to_bits(),
        velocity_y: (velocity.y as f32).to_bits(),
        rssi: rssi.to_bits(),
        class: Class::Fighter,
        tick: 123,
    };
    let payload = telemetry.serialize();
    let deserialized = TargetTelemetry::deserialize(&payload);

    let read = |bits: u32| f32::from_bits(bits) as f64;
    assert!((position.x - read(deserialized.position_x)).abs() < 1e-1);
    assert!((position.y - read(deserialized.position_y)).abs() < 1e-1);
    assert!((velocity.x - read(deserialized.velocity_x)).abs() < 1e-2);
    assert!((velocity.y - read(deserialized.velocity_y)).abs() < 1e-2);
    assert!((rssi - f32::from_bits(deserialized.rssi)).abs() < 1e-3);
    assert_eq!(telemetry.tick, deserialized.tick);
    assert_eq!(telemetry.class, deserialized.class);
}

#[test]
fn test_has_entered_nez_latching() {
    let mut mg = MissileGuidance::new();
    assert!(!mg.has_entered_nez);

    mg.has_entered_nez = true;
    let prev_target_id = mg.target_id;
    let changed = mg.select_target(&vec![contact(42, Class::Fighter)]);
    assert!(changed);
    assert_eq!(mg.target_id, Some(42));
    assert_ne!(mg.target_id, prev_target_id);

    assert!(!mg.has_entered_nez);
}

#[test]
fn test_flak_dodging_math() {
    let n = f64::from_bits(N);
    let m = f64::from_bits(M);
    assert_eq!(n, 150.0);
    assert_eq!(m, 1.5);

    let target_pos = vec2(1000.0, 0.0);
    let missile_pos = vec2(0.0, 0.0);
    let r = target_pos - missile_pos;
    let r_len = r.length();
    let perp_dir = vec2(-r.y, r.x) / r_len;

    let dodge_sign_left = 1.0;
    let offset_left = perp_dir * (dodge_sign_left * (n / 2.0));
    assert!((offset_left.x - 0.0).abs() < 1e-6);
    assert!((offset_left.y - 75.0).abs() < 1e-6);

    let dodge_sign_right = -1.0;
    let offset_right = perp_dir * (dodge_sign_right * (n / 2.0));
    assert!((offset_right.x - 0.0).abs() < 1e-6);
    assert!((offset_right.y - -75.0).abs() < 1e-6);
}

#[test]
fn payload_layout() {
    let telemetry = TargetTelemetry {
        position_x: 0x04030201,
        position_y: 0x08070605,
        velocity_x: 0x0c0b0a09,
        velocity_y: 0x100f0e0d,
        rssi: 0x14131211,
        class: Class::Torpedo,
        tick: 21,
    };
    let mut expected = [0u8; 30];
    for i in 0..21 {
        expected[i] = i as u8 + 1;
    }
    expected[21] = 5;
    assert_eq!(telemetry.serialize(), expected);
    assert_eq!(TargetTelemetry::deserialize(&expected), telemetry);
}

#[test]
fn classes_survive_the_radio_or_become_fighters() {
    let coded = [
        (Class::Fighter, 1u8),
        (Class::Frigate, 2),
        (Class::Cruiser, 3),
        (Class::Missile, 4),
        (Class::Torpedo, 5),
        (Class::Target, 6),
    ];
    let base = TargetTelemetry {
        position_x: 1,
        position_y: u32::MAX,
        velocity_x: 0x8000_0000,
        velocity_y: 0,
        rssi: 7,
        class: Class::Fighter,
        tick: 255,
    };
    for (class, code) in coded {
        let telemetry = TargetTelemetry { class, ..base };
        let payload = telemetry.serialize();
        assert_eq!(payload[21], code);
        assert_eq!(TargetTelemetry::deserialize(&payload), telemetry);
    }
    for class in [Class::Asteroid, Class::Unknown] {
        let payload = TargetTelemetry { class, ..base }.serialize();
        assert_eq!(payload[21], 0);
        assert_eq!(TargetTelemetry::deserialize(&payload).class, Class::Fighter);
    }
    let mut payload = base.serialize();
    payload[21] = 99;
    assert_eq!(TargetTelemetry::deserialize(&payload).class, Class::Fighter);
}

#[test]
fn only_plausible_reports_are_believed() {
    let bits = |m: [f64; 4]| [m[0].to_bits(), m[1].to_bits(), m[2].to_bits(), m[3].to_bits()];
    assert!(is_plausible(&bits([99_999.0, -99_999.0, 9_999.0, -9_999.0])));
    assert!(is_plausible(&bits([0.0, -0.0, 0.0, -0.0])));
    assert!(!is_plausible(&bits([100_000.0, 0.0, 0.0, 0.0])));
    assert!(!is_plausible(&bits([0.0, -100_000.0, 0.0, 0.0])));
    assert!(!is_plausible(&bits([0.0, 0.0, 10_000.0, 0.0])));
    assert!(!is_plausible(&bits([0.0, 0.0, 0.0, -10_000.0])));
    assert!(!is_plausible(&bits([f64::NAN, 0.0, 0.0, 0.0])));
    assert!(!is_plausible(&bits([0.0, f64::NEG_INFINITY, 0.0, 0.0])));
    assert!(!is_plausible(&bits([0.0, 0.0, f64::INFINITY, 0.0])));
}

#[test]
fn sender_reports_once_and_then_waits_no_longer() {
    let contacts = vec![contact(3, Class::Fighter), contact(8, Class::Fighter)];
    let mut sender = MissileRadioSender::new();
    assert_eq!(sender.send_missile_contact(&contacts), None);
    sender.fire_missile(8);
    assert_eq!(sender.delay_missile_contact, Some(8));
    assert_eq!(sender.send_missile_contact(&contacts), Some(1));
    assert_eq!(sender.send_missile_contact(&contacts), None);
    sender.fire_missile(5);
    assert_eq!(sender.send_missile_contact(&contacts), None);
    assert_eq!(sender.delay_missile_contact, None);
}

#[test]
fn guidance_keeps_a_valid_target_and_shuns_missiles() {
    let mut mg = MissileGuidance::new();
    assert_eq!(mg.target_channel, 3);
    assert!(!mg.select_target(&vec![contact(1, Class::Missile)]));
    assert_eq!(mg.target_id, None);
    let contacts = vec![
        contact(1, Class::Missile),
        contact(2, Class::Frigate),
        contact(3, Class::Fighter),
    ];
    assert!(mg.select_target(&contacts));
    assert_eq!(mg.target_id, Some(2));
    assert_eq!(mg.target_place(&contacts), Some(1));
    assert_eq!(mg.watched_contacts(), vec![(2, 6)]);
    mg.target_id = Some(3);
    mg.has_entered_nez = true;
    assert!(!mg.select_target(&contacts));
    assert_eq!(mg.target_id, Some(3));
    assert!(mg.has_entered_nez);
    // The id now belongs to a missile.
    assert!(mg.select_target(&vec![contact(3, Class::Missile), contact(9, Class::Target)]));
    assert_eq!(mg.target_id, Some(9));
    assert!(!mg.has_entered_nez);
    assert!(mg.select_target(&vec![]));
    assert_eq!(mg.target_id, None);
    assert_eq!(mg.target_place(&contacts), None);
    assert_eq!(mg.watched_contacts(), vec![]);
}

#[test]
fn course_goes_to_target_or_cruise_point() {
    let mut mg = MissileGuidance::new();
    let idle = mg.determine_prograde(None);
    assert_eq!(idle.steering, Steering::Idle);
    assert_eq!(idle.cruise_point, CruisePoint::Absent);
    mg.follow(&idle);
    assert!(!mg.cruising);

    // A target far off that can still escape: cruise.
    let far = TargetOutlook {
        nez_metric: order_key((-0.1f64).to_bits()),
        t_go: key(10.0),
        spare_dv: Some(key(500.0)),
    };
    let cruise = mg.determine_prograde(Some(far));
    assert_eq!(cruise.steering, Steering::Cruise);
    assert_eq!(cruise.cruise_point, CruisePoint::AlongTarget);
    assert!(!cruise.can_defeat);
    mg.follow(&cruise);
    assert!(mg.cruising);
    assert!(!mg.has_entered_nez);

    // Little time to go: pursue, but no dodging yet.
    let near = TargetOutlook { t_go: key(9.9), ..far };
    let pursue = mg.determine_prograde(Some(near));
    assert_eq!(pursue.steering, Steering::Pursue { dodge: false });
    assert_eq!(pursue.cruise_point, CruisePoint::Keep);
    assert!(!pursue.nez_metric_passed);

    // No escape: pursue, and from then on dodge.
    let sure = TargetOutlook { nez_metric: order_key(0.0f64.to_bits()), ..far };
    let first = mg.determine_prograde(Some(sure));
    assert_eq!(first.steering, Steering::Pursue { dodge: false });
    mg.follow(&first);
    assert!(mg.has_entered_nez);
    assert_eq!(mg.determine_prograde(Some(sure)).steering, Steering::Pursue { dodge: true });
    let edge = TargetOutlook { spare_dv: Some(key(150.0)), ..sure };
    assert_eq!(mg.determine_prograde(Some(edge)).steering, Steering::Pursue { dodge: true });
    let spent = TargetOutlook { spare_dv: Some(key(149.9)), ..sure };
    assert_eq!(mg.determine_prograde(Some(spent)).steering, Steering::Pursue { dodge: false });
    let dry = TargetOutlook { spare_dv: None, ..sure };
    assert_eq!(mg.determine_prograde(Some(dry)).steering, Steering::Pursue { dodge: false });
    let late = TargetOutlook { t_go: key(1.5), ..sure };
    assert_eq!(mg.determine_prograde(Some(late)).steering, Steering::Pursue { dodge: false });

    // The target is gone: back to the cruise point, and the latch holds.
    let lost = mg.determine_prograde(None);
    assert_eq!(lost.steering, Steering::Cruise);
    mg.follow(&lost);
    assert!(mg.cruising);
    assert!(mg.has_entered_nez);
}

#[test]
fn detonation_needs_a_target_in_reach() {
    assert!(!check_detonation_condition(None, key(83.3)));
    assert!(check_detonation_condition(Some(key(83.3)), key(83.3)));
    assert!(!check_detonation_condition(Some(key(83.4)), key(83.3)));
}

// The speed that can be reached along a course with some of the fuel, where any can.
fn achievable_speed(velocity: Vec2, prograde: Vec2, available_dv: f64) -> Option<f64> {
    let along = velocity.dot(prograde);
    let across = (velocity - prograde * along).length();
    if available_dv < across {
        return None;
    }
    let speed = along + (available_dv * available_dv - across * across).sqrt();
    if speed < 0.0 {
        None
    } else {
        Some(speed)
    }
}

// The plan and the thrust of a missile that flies along the x-axis, its nose ahead.
fn planned_thrust(velocity: Vec2, prograde: Vec2, fuel: f64) -> (ThrustPlan, Vec2) {
    let available_dv = f64::max(fuel - f64::from_bits(DEFAULT_MIN_SEARCH_FUEL), 0.0);
    let speed = achievable_speed(velocity, prograde, available_dv);
    let dv = speed.map(|s| prograde * s - velocity);
    let plan = determine_thrust(true, dv.map(|dv| dv.length() > 1e-6));
    let thrust = match plan {
        ThrustPlan::Nothing | ThrustPlan::Coast => vec2(0.0, 0.0),
        ThrustPlan::MatchVelocity => {
            let dir = dv.unwrap().normalize();
            dir * (0.95 * (250.0 * dir.x.abs() + 300.0 * dir.y.abs()))
        }
        ThrustPlan::Lateral => {
            let ahead = velocity.normalize();
            let across = prograde - ahead * prograde.dot(ahead);
            across.normalize() * 300.0
        }
    };
    (plan, thrust)
}

#[test]
fn test_determine_thrust() {
    let velocity = vec2(100.0, 0.0);
    let prograde = vec2(0.0, 1.0);

    // Low fuel mode
    let (_, thrust_low) = planned_thrust(velocity, prograde, 100.0);
    assert!(thrust_low.length() > 0.0);

    // High fuel mode
    let (plan, thrust_high) = planned_thrust(velocity, prograde, 1000.0);
    assert!(thrust_high.length() > 0.0);
    assert_eq!(plan, ThrustPlan::MatchVelocity);

    // Borderline fuel mode: slightly above limit, but not enough to achieve heading match
    // (100.0 dv needed)
    let borderline = f64::from_bits(DEFAULT_MIN_SEARCH_FUEL) + 1.0;
    let (plan, thrust_borderline) = planned_thrust(velocity, prograde, borderline);
    // It should fall back to the least lateral thrust, which steers towards prograde (y-axis)
    assert_eq!(plan, ThrustPlan::Lateral);
    assert!(thrust_borderline.y > 0.0);
    assert!((thrust_borderline.x).abs() < 1e-3);
}

#[test]
fn targets_escape_while_the_metric_is_negative() {
    let metric = |x: f64| order_key(x.to_bits());
    assert!(cannot_escape(metric(0.0)));
    assert!(cannot_escape(metric(3.5)));
    assert!(!cannot_escape(metric(-1e-9)));
}

#[test]
fn thrust_plans() {
    assert_eq!(determine_thrust(false, Some(true)), ThrustPlan::Nothing);
    assert_eq!(determine_thrust(true, Some(true)), ThrustPlan::MatchVelocity);
    assert_eq!(determine_thrust(true, Some(false)), ThrustPlan::Coast);
    assert_eq!(determine_thrust(true, None), ThrustPlan::Lateral);
}

#[test]
fn attitude_turns_to_the_explosion_last() {
    let terminal = Some((key(0.6), key(0.6)));
    let soon = Some((key(0.4), key(0.1)));
    let not_yet = Some((key(0.5), key(0.1)));
    assert_eq!(determine_attitude(terminal, Some(key(50.0)), true), AttitudeSource::Explosion);
    assert_eq!(determine_attitude(soon, None, false), AttitudeSource::Explosion);
    assert_eq!(determine_attitude(not_yet, Some(key(50.0)), true), AttitudeSource::Thrust);
    assert_eq!(determine_attitude(not_yet, Some(key(1e-6)), true), AttitudeSource::Prograde);
    assert_eq!(determine_attitude(None, Some(key(2e-6)), false), AttitudeSource::Thrust);
    assert_eq!(determine_attitude(None, None, true), AttitudeSource::Prograde);
    assert_eq!(determine_attitude(None, Some(key(0.0)), false), AttitudeSource::Hold);
    assert_eq!(determine_attitude(None, None, false), AttitudeSource::Hold);
}

#[test]
fn boost_needs_fuel_thrust_and_aim() {
    assert_eq!(f64::from_bits(DEFAULT_MIN_SEARCH_FUEL), 500.0);
    let limit = DEFAULT_MIN_SEARCH_FUEL;
    let small = key(4.9f64.to_radians());
    let large = key(5.0f64.to_radians());
    assert!(should_boost(key(500.0), limit, Some(key(100.1)), small));
    assert!(!should_boost(key(499.9), limit, Some(key(100.1)), small));
    assert!(!should_boost(key(500.0), limit, Some(key(100.0)), small));
    assert!(!should_boost(key(500.0), limit, Some(key(100.1)), large));
    assert!(!should_boost(key(500.0), limit, None, small));
}

#[test]
fn fuel_is_saved_when_more_speed_would_not_help() {
    let speed = |x: f64| order_key(x.to_bits());
    assert!(saves_fuel(speed(100.0), speed(100.0), key(50.0), key(50.1)));
    assert!(saves_fuel(speed(-1.0), speed(-2.0), key(50.0), key(50.1)));
    assert!(!saves_fuel(speed(99.0), speed(100.0), key(50.0), key(50.1)));
    assert!(!saves_fuel(speed(-2.0), speed(1.0), key(50.0), key(50.1)));
    assert!(!saves_fuel(speed(100.0), speed(100.0), key(50.0), key(50.0)));
}
