use oort_ai::beam::{
    aims_at_last_beam, beam_candidates, choose_kind, initial_width, Aim, BeamKind, BeamPlan,
    BeamScore, Bearing, Depth, Neighbour,
};
use oort_ai::class::Class;
use oort_ai::contact::{improves_little, Contact};
use oort_ai::radar::{
    HitEffect, RadarController, RadarState, RangeView, ScanHit, Sighting, TrackReport,
};
use oort_ai::schedule::trackable_of;
use oort_ai::measure::{order_key, RADIO_PING_SNR};
use oort_api::prelude::{angle_diff, vec2, Vec2, Vec2Extras};

// The estimates that go with the contacts, as far as the tests need them. The ship stands
// still at the origin.
#[derive(Clone, Copy)]
struct Estimate {
    id: u32,
    position: Vec2,
    velocity: Vec2,
    uncertainty: f64,
}

#[derive(Clone, Copy)]
struct Hit {
    position: Vec2,
    velocity: Vec2,
    class: Class,
    snr: f64,
}

#[derive(Clone, Copy)]
struct Slice {
    angle: f64,
    width: f64,
    min_distance: f64,
    max_distance: f64,
}

fn ci_multiplier(confidence: f64) -> f64 {
    let p = 1.0 - (1.0 - confidence) / 2.0;
    let t = (-2.0 * f64::max(1.0 - p, 1e-15).ln()).sqrt();
    let c = [2.515517, 0.802853, 0.010328];
    let d = [1.432788, 0.189269, 0.001308];
    let numerator = c[0] + c[1] * t + c[2] * t * t;
    let denominator = 1.0 + d[0] * t + d[1] * t * t + d[2] * t * t * t;
    t - numerator / denominator
}

fn rcs(class: Class) -> f64 {
    match class {
        Class::Fighter => 10.0,
        Class::Frigate => 30.0,
        Class::Cruiser => 40.0,
        Class::Missile => 0.1,
        Class::Torpedo => 0.3,
        _ => 10.0,
    }
}

fn reach(class: Class, width: f64) -> f64 {
    ((100e3 * rcs(class) * 10.0) / (width * std::f64::consts::TAU * 1e-12)).powf(0.25)
}

fn max_acceleration(class: Class) -> f64 {
    match class {
        Class::Fighter => 160.0,
        Class::Missile => 400.0,
        Class::Torpedo => 70.0,
        _ => 10.0,
    }
}

fn receding(position: Vec2, velocity: Vec2) -> bool {
    position.dot(velocity) > 0.0
}

fn uncertainty_of(hit: &Hit) -> f64 {
    10000.0 * 10.0f64.powf(-hit.snr / 10.0)
}

// What an independent estimate of the given uncertainty makes of one.
fn fused(a: f64, b: f64) -> f64 {
    (a * a * b * b / (a * a + b * b)).sqrt()
}

struct Rig {
    rc: RadarController,
    estimates: Vec<Estimate>,
    tick: u32,
}

impl Rig {
    fn new() -> Rig {
        Rig { rc: RadarController::new(), estimates: Vec::new(), tick: 0 }
    }

    fn put(&mut self, contact: Contact, position: Vec2, velocity: Vec2, uncertainty: f64) {
        self.rc.contacts.push(contact);
        self.estimates.push(Estimate { id: contact.id, position, velocity, uncertainty });
    }

    fn estimate(&self, id: u32) -> Estimate {
        *self.estimates.iter().find(|e| e.id == id).expect("an estimate for the contact")
    }

    fn scan_hit(&self, hit: &Hit, slice: Option<Slice>, multiplier: f64) -> ScanHit {
        let radius = ci_multiplier(0.995) * uncertainty_of(hit);
        ScanHit {
            class: hit.class,
            snr: hit.snr.to_bits(),
            range: hit.position.length().to_bits(),
            reliable_range: slice.map(|s| reach(hit.class, s.width).to_bits()),
            radius: radius.to_bits(),
            gate: (multiplier * radius).to_bits(),
            receding: receding(hit.position, hit.velocity),
        }
    }

    fn sightings(&self, hit: &Hit, slice: Option<Slice>, multiplier: f64) -> Vec<Sighting> {
        let mut out = Vec::new();
        for c in &self.rc.contacts {
            let e = self.estimate(c.id);
            let ci = ci_multiplier(0.999) * e.uncertainty;
            let dt = self.tick.wrapping_sub(c.last_measurement_tick) as f64 / 60.0;
            let drift = 0.5 * max_acceleration(c.class) * dt * dt;
            let circle_in_beam = slice.map(|s| {
                let d = e.position.length();
                let distance = d + ci >= s.min_distance && d - ci <= s.max_distance;
                let angle = ci >= d
                    || angle_diff(s.angle, e.position.angle()).abs() <= s.width / 2.0 + ci / d;
                distance && angle
            });
            let after = fused(e.uncertainty, uncertainty_of(hit));
            let improvement = (1.0 - after / e.uncertainty) * 100.0;
            out.push(Sighting {
                distance: e.position.distance(hit.position).to_bits(),
                gate: (multiplier * (f64::max(ci, 10.0) + drift)).to_bits(),
                boundary_in_beam: None,
                circle_in_beam,
                improvement: order_key(improvement.to_bits()),
                receding: receding(e.position, e.velocity),
                receding_if_measured: receding(hit.position, hit.velocity),
            });
        }
        out
    }

    fn remember(&mut self, id: u32, hit: &Hit) {
        self.estimates.retain(|e| e.id != id);
        self.estimates.push(Estimate {
            id,
            position: hit.position,
            velocity: hit.velocity,
            uncertainty: uncertainty_of(hit),
        });
    }

    fn process_scan_hit(&mut self, hit: Hit, slice: Option<Slice>) -> u32 {
        assert!(self.rc.has_headroom());
        let sightings = self.sightings(&hit, slice, 1.0);
        let scan_hit = self.scan_hit(&hit, slice, 1.0);
        let id = self.rc.process_scan_hit(self.tick, scan_hit, &sightings);
        if id != 0 && !self.estimates.iter().any(|e| e.id == id) {
            self.remember(id, &hit);
        }
        id
    }

    fn add_radio_ping(&mut self, position: Vec2, velocity: Vec2, class: Class, sent: u8) -> u32 {
        assert!(self.rc.has_headroom());
        let age = RadarController::ping_age(self.tick, sent) as f64 / 60.0;
        let hit = Hit { position: position + velocity * age, velocity, class, snr: 25.0 };
        let sightings = self.sightings(&hit, None, 1.0);
        let report = self.scan_hit(&hit, None, 1.0);
        let id = self.rc.add_radio_ping(self.tick, report, &sightings);
        self.remember(id, &hit);
        id
    }

    fn update(&mut self) {
        assert!(self.rc.has_headroom());
        let (hit_seen, _) = self.rc.process_scans(&vec![false]);
        assert!(!hit_seen);
        let mut views = Vec::new();
        for c in &self.rc.contacts {
            let e = self.estimate(c.id);
            views.push(RangeView {
                distance: e.position.length().to_bits(),
                max_range: reach(c.class, 0.005).to_bits(),
                receding: receding(e.position, e.velocity),
            });
        }
        self.rc.cleanup(self.tick, &views);
        let mut aims = Vec::new();
        for c in &self.rc.contacts {
            aims.push(Aim {
                distance: self.estimate(c.id).position.length().to_bits(),
                max_range: reach(c.class, 0.005).to_bits(),
                boundary_width: None,
                discovery_width: 0.6f64.to_bits(),
                planned_width: 0.05f64.to_bits(),
                last_width: None,
                elapsed_ticks: 0,
                vicinity: 0.0f64.to_bits(),
            });
        }
        let trackable = trackable_of(&aims);
        assert!(self.rc.waits_in_range());
        let duties = self.rc.generate_new_scans(Class::Fighter, self.tick, &trackable);
        assert_eq!(duties.len(), 1);
        assert_eq!(duties[0], self.rc.radar_states[0]);
    }
}

fn known(id: u32, class: Class, measured: u32) -> Contact {
    Contact {
        last_measurement_tick: measured,
        prioritize_scan: false,
        ..Contact::discovered(id, class, 0, false, 0)
    }
}

#[test]
fn test_radar_out_of_range_retained() {
    let mut rig = Rig::new();
    rig.put(known(1, Class::Fighter, 0), vec2(0.0, 1000.0), vec2(0.0, 0.0), 10.0);
    rig.put(known(2, Class::Fighter, 0), vec2(0.0, 200000.0), vec2(0.0, 0.0), 10.0);
    let neighbours = vec![
        Neighbour {
            distance: f64::MAX.to_bits(),
            in_initial_beam: false,
            bearing: Bearing::Same,
            depth: Depth::Same,
        };
        2
    ];
    let plan = |rig: &Rig, i: usize| {
        let contact = rig.rc.contacts[i];
        let aim = Aim {
            distance: rig.estimate(contact.id).position.length().to_bits(),
            max_range: reach(contact.class, 0.005).to_bits(),
            boundary_width: None,
            discovery_width: 0.6f64.to_bits(),
            planned_width: 0.05f64.to_bits(),
            last_width: None,
            elapsed_ticks: 0,
            vicinity: 0.0f64.to_bits(),
        };
        rig.rc.generate_tracking_scan(&contact, &aim, &neighbours)
    };

    // The close contact can be tracked, the far one cannot.
    assert_eq!(plan(&rig, 0), BeamPlan::Initial { width: 0.05f64.to_bits() });
    assert_eq!(plan(&rig, 1), BeamPlan::OutOfRange);

    // Out of range, a contact is retained however long it goes unscanned.
    for tick in 1..200 {
        rig.tick = tick;
        rig.update();
    }
    assert!(!rig.rc.has_contact(1));
    assert!(rig.rc.has_contact(2));
}

#[test]
fn test_add_radio_ping() {
    let mut rig = Rig::new();

    // 1. Adding a new ping should add it directly and return its ID
    let id1 = rig.add_radio_ping(vec2(100.0, 200.0), vec2(10.0, -5.0), Class::Fighter, 0);
    assert!(id1 > 0);

    // Check that the contact list has the new contact and it is NOT provisional
    let contact1 = rig.rc.get_contact(id1).expect("Contact should exist");
    assert_eq!(contact1.id, id1);
    assert_eq!(contact1.class, Class::Fighter);
    assert_eq!(rig.estimate(id1).position, vec2(100.0, 200.0));
    assert_eq!(rig.estimate(id1).velocity, vec2(10.0, -5.0));
    assert_eq!(contact1.provisional, false);

    // 2. Adding a duplicate ping (close to the first) should update it and return same ID
    let id2 = rig.add_radio_ping(vec2(101.0, 199.0), vec2(10.0, -5.0), Class::Fighter, 0);
    assert_eq!(id1, id2);
    let contact1_updated = rig.rc.get_contact(id1).expect("Contact should exist");
    assert_eq!(contact1_updated.last_measurement_tick, 0);
    assert_eq!(contact1_updated.provisional, false);

    // 3. Adding a non-duplicate ping (far away) should add a new contact with a different ID
    let id3 = rig.add_radio_ping(vec2(2000.0, -3000.0), vec2(0.0, 0.0), Class::Fighter, 0);
    assert_ne!(id1, id3);
    let contact3 = rig.rc.get_contact(id3).expect("Contact should exist");
    assert_eq!(contact3.id, id3);
    assert_eq!(contact3.provisional, false);
}

#[test]
fn test_nearby_contact_exclusion() {
    let mut rig = Rig::new();
    let target = known(1, Class::Fighter, 0);
    rig.put(target, vec2(1000.0, 0.0), vec2(0.0, 0.0), 10.0);

    // The uncertainty one tick later.
    let dt: f64 = 1.0 / 60.0;
    let grown = |pos: f64, vel: f64| {
        let f02 = 0.5 * dt * (dt + 1.0 / 60.0);
        let acc = 160.0;
        let var = pos.powi(2) + dt.powi(2) * vel.powi(2) + f02.powi(2) * f64::powi(acc, 2);
        (var + (0.5f64 * acc).powi(2) * dt.powi(5) / 20.0).sqrt()
    };
    let ci = ci_multiplier(0.999);
    let spread = ci * grown(10.0, 5.0);
    let d = 1000.0;
    let aim = Aim {
        distance: f64::to_bits(d),
        max_range: reach(Class::Fighter, 0.005).to_bits(),
        boundary_width: None,
        discovery_width: 0.6f64.to_bits(),
        planned_width: (2.0 * f64::max(spread, 10.0) / d).clamp(0.005, 0.05).to_bits(),
        last_width: None,
        elapsed_ticks: 0,
        vicinity: f64::max(2.0 * spread, 0.005 * d).to_bits(),
    };
    let initial_width = f64::from_bits(aim.beam_width());
    let min_distance = f64::max(d - f64::max(spread, 10.0), 0.0);
    let max_distance = d + f64::max(spread, 10.0);
    let itself = Neighbour {
        distance: 0.0f64.to_bits(),
        in_initial_beam: true,
        bearing: Bearing::Same,
        depth: Depth::Same,
    };

    // 1. First: no nearby contacts. The tracking job should be the initial job.
    assert_eq!(
        rig.rc.generate_tracking_scan(&target, &aim, &vec![itself]),
        BeamPlan::Initial { width: initial_width.to_bits() }
    );
    assert!((min_distance - 967.1).abs() < 0.1, "min_distance was {}", min_distance);
    assert!((max_distance - 1032.9).abs() < 0.1, "max_distance was {}", max_distance);

    // 2. Add a confusing contact to the left (counter-clockwise, positive angle)
    let left = vec2(1000.0, 30.0);
    rig.put(known(2, Class::Fighter, 0), left, vec2(0.0, 0.0), 1.0);
    let left_angle = angle_diff(0.0, left.angle());
    let gate = f64::max(ci * grown(1.0, 1.0), 10.0);
    let sees = |angle: f64, width: f64, near: f64, far: f64| {
        let r = left.length();
        r + gate >= near
            && r - gate <= far
            && angle_diff(angle, left.angle()).abs() <= width / 2.0 + gate / r
    };
    let neighbours = vec![
        itself,
        Neighbour {
            distance: left.distance(vec2(1000.0, 0.0)).to_bits(),
            in_initial_beam: sees(0.0, initial_width, min_distance, max_distance),
            bearing: Bearing::Left(left_angle.to_bits()),
            depth: Depth::Behind((left.length() - d).to_bits()),
        },
    ];
    assert_eq!(
        rig.rc.generate_tracking_scan(&target, &aim, &neighbours),
        BeamPlan::Alternatives {
            width: initial_width.to_bits(),
            left: Some(2),
            right: None,
            behind: Some(2),
            front: None
        }
    );
    let kinds = beam_candidates(true, false, true, false);
    assert_eq!(kinds, vec![BeamKind::Initial, BeamKind::LeftMid, BeamKind::BehindMid]);
    let mid_angle = left_angle / 2.0;
    let left_width = (mid_angle + initial_width / 2.0).clamp(0.005, 0.05);
    let mid_distance = (d + left.length()) / 2.0;
    let beams = vec![
        (0.0, initial_width, max_distance),
        (mid_angle - left_width / 2.0, left_width, max_distance),
        (0.0, initial_width, mid_distance),
    ];
    let mut scores = Vec::new();
    for &(angle, width, far) in &beams {
        let seen = vec![true, sees(angle, width, min_distance, far)];
        scores.push(BeamScore {
            matches: rig.rc.contacts_matched_by_beam(&target, &aim, &neighbours, &seen),
            width: width.to_bits(),
            depth: (far - min_distance).to_bits(),
        });
    }
    let (chosen, kind) = choose_kind(&kinds, &scores).expect("Job should be generated");

    // Because of the left contact, the beam should shift clockwise (to the right, i.e.
    // negative angle).
    assert_eq!(kind, BeamKind::LeftMid);
    let angle = beams[chosen].0;
    assert!(angle < 0.0, "Beam should shift to the right, angle = {}", angle);
}

#[test]
fn test_radar_pings_reliable_range() {
    let scan_hit = Hit {
        position: vec2(50000.0, 0.0),
        velocity: vec2(0.0, 0.0),
        class: Class::Fighter,
        snr: 25.0,
    };
    let slice = |width: f64| Slice { angle: 0.0, width, min_distance: 0.0, max_distance: 100000.0 };
    let mut rig = Rig::new();

    // 1. Scan with slice_width = 0.6: should NOT add a new contact
    let id1 = rig.process_scan_hit(scan_hit, Some(slice(0.6)));
    assert_eq!(id1, 0);
    assert!(rig.rc.contacts.is_empty());

    // 2. Scan with slice_width = 0.05: should successfully add a new contact
    let id2 = rig.process_scan_hit(scan_hit, Some(slice(0.05)));
    assert!(id2 > 0);
    assert_eq!(rig.rc.contacts.len(), 1);
    assert_eq!(rig.rc.contacts[0].id, id2);

    // 3. Scan without a slice (e.g. radio ping): should add a new contact even if far away
    let mut rig2 = Rig::new();
    let id3 = rig2.process_scan_hit(scan_hit, None);
    assert!(id3 > 0);
    assert_eq!(rig2.rc.contacts.len(), 1);
}

#[test]
fn test_radar_prunes_moving_away_missiles_and_torpedoes() {
    let mut rig = Rig::new();
    let hit = |x: f64, v: f64, class: Class| Hit {
        position: vec2(x, 0.0),
        velocity: vec2(v, 0.0),
        class,
        snr: 25.0,
    };
    let id_m_in = rig.process_scan_hit(hit(100.0, -10.0, Class::Missile), None);
    let id_m_away = rig.process_scan_hit(hit(500.0, 10.0, Class::Missile), None);
    let id_t_in = rig.process_scan_hit(hit(200.0, -5.0, Class::Torpedo), None);
    let id_t_away = rig.process_scan_hit(hit(600.0, 5.0, Class::Torpedo), None);
    let id_f_away = rig.process_scan_hit(hit(300.0, 20.0, Class::Fighter), None);

    // Verify which ones are kept
    assert!(rig.rc.has_contact(id_m_in));
    assert!(!rig.rc.has_contact(id_m_away));
    assert!(rig.rc.has_contact(id_t_in));
    assert!(!rig.rc.has_contact(id_t_away));
    assert!(rig.rc.has_contact(id_f_away));
}

#[test]
fn test_missile_priority_scanning_initialization() {
    let mut rig = Rig::new();
    let id = rig.process_scan_hit(
        Hit {
            position: vec2(100.0, 0.0),
            velocity: vec2(-10.0, 0.0),
            class: Class::Missile,
            snr: 25.0,
        },
        None,
    );
    assert!(id > 0);
    let contact = rig.rc.get_contact(id).expect("Contact should exist");
    assert_eq!(contact.class, Class::Missile);
    assert_eq!(contact.prioritize_scan, true);

    let id2 = rig.process_scan_hit(
        Hit {
            position: vec2(200.0, 0.0),
            velocity: vec2(-10.0, 0.0),
            class: Class::Fighter,
            snr: 25.0,
        },
        None,
    );
    assert!(id2 > 0);
    let contact2 = rig.rc.get_contact(id2).expect("Contact should exist");
    assert_eq!(contact2.class, Class::Fighter);
    assert_eq!(contact2.prioritize_scan, false);
}

#[test]
fn test_jamming_mode() {
    let mut rig = Rig::new();
    rig.rc.jamming_mode = true;
    rig.rc.priority_targets = vec![(42, 6)];
    rig.put(known(42, Class::Fighter, 0), vec2(1000.0, 0.0), vec2(0.0, 0.0), 10.0);
    rig.rc.next_contact_id = 43;

    // 1. The tick is 0, and so is that of the last measurement. The next track tick is 6.
    // Since current tick < 6, the target does not need tracking yet.
    // It should perform jamming instead!
    rig.update();
    assert_eq!(rig.rc.radar_states[0], RadarState::Jamming { contact_id: 42 });
    assert!(rig.rc.radar_states[0].sends_noise());

    // 2. Set the last measurement to 6 ticks ago. Now next track tick is <= current_tick, so
    // it should trigger a tracking scan.
    rig.rc.contacts[0].last_measurement_tick = rig.tick.wrapping_sub(6);
    rig.update();
    assert_eq!(rig.rc.radar_states[0], RadarState::Tracking { contact_id: 42 });
    assert!(!rig.rc.radar_states[0].sends_noise());
}

#[test]
fn test_missile_priority_scanning_threshold() {
    let mut rig = Rig::new();
    let contact = Contact {
        prioritize_scan: true,
        ..known(100, Class::Missile, rig.tick.wrapping_sub(1))
    };
    rig.put(contact, vec2(1000.0, 0.0), vec2(-10.0, 0.0), 10.0);
    rig.rc.next_contact_id = 101;

    // A scan with a very low SNR brings virtually no improvement.
    let weak = |x: f64| Hit {
        position: vec2(x, 0.0),
        velocity: vec2(-10.0, 0.0),
        class: Class::Missile,
        snr: 5.0,
    };
    rig.process_scan_hit(weak(990.0), None);
    let updated_contact_1 = rig.rc.get_contact(100).unwrap();
    // It should have low_improvement_consecutive_scans = 1 and still be prioritized
    assert_eq!(updated_contact_1.low_improvement_consecutive_scans, 1);
    assert_eq!(updated_contact_1.prioritize_scan, true);

    rig.rc.contacts[0].last_measurement_tick = rig.tick.wrapping_sub(1);
    rig.process_scan_hit(weak(980.0), None);
    let updated_contact_2 = rig.rc.get_contact(100).unwrap();
    // It should now have low_improvement_consecutive_scans = 2 and prioritize_scan = false
    assert_eq!(updated_contact_2.low_improvement_consecutive_scans, 2);
    assert_eq!(updated_contact_2.prioritize_scan, false);
}

// The angle and width of the beam planned for a fighter that was measured one tick ago with a
// beam of the given width at `center`.
fn tracking_beam(position: Vec2, pos_unc: f64, vel_unc: f64, width: f64, center: Vec2) -> (f64, f64) {
    // Two ticks will have passed by the time of the scan.
    let dt: f64 = 2.0 / 60.0;
    let f02 = 0.5 * dt * (dt + 1.0 / 60.0);
    let var = pos_unc.powi(2) + dt.powi(2) * vel_unc.powi(2) + f02.powi(2) * 160.0f64.powi(2);
    let uncertainty = (var + 80.0f64.powi(2) * dt.powi(5) / 20.0).sqrt();
    let d = position.length();
    let ci_99 = ci_multiplier(0.99) * uncertainty;
    let at_last = aims_at_last_beam(ci_99.to_bits(), (d * width).to_bits());
    let target_pos = if at_last { center } else { position };
    let gate = f64::max(ci_multiplier(0.999) * uncertainty, 200.0);
    let planned = (2.0 * gate / target_pos.length()).clamp(0.005, 0.05);
    let bounded = initial_width(planned.to_bits(), Some(width.to_bits()), 1);
    (target_pos.angle(), f64::from_bits(bounded))
}

#[test]
fn test_advanced_beam_tracking() {
    // 1. Test upper-bounding of the beam width when last scan was within 0.25s
    let (_, width) = tracking_beam(vec2(1000.0, 0.0), 1.0, 1.0, 0.02, vec2(1000.0, 0.0));
    assert!(width <= 0.02, "Width was {}, expected <= 0.02", width);

    // 2. Test high-variance centering logic
    let (angle, _) = tracking_beam(vec2(1000.0, 50.0), 10.0, 1.0, 0.02, vec2(1000.0, 0.0));
    assert!(angle.abs() < 1e-5, "Angle was {}, expected 0.0", angle);
}

#[test]
fn old_or_narrower_beams_do_not_bound_the_width() {
    let m = |x: f64| x.to_bits();
    assert_eq!(initial_width(m(0.05), Some(m(0.02)), 15), m(0.02));
    assert_eq!(initial_width(m(0.05), Some(m(0.02)), 16), m(0.05));
    assert_eq!(initial_width(m(0.01), Some(m(0.02)), 1), m(0.01));
    assert_eq!(initial_width(m(0.05), None, 0), m(0.05));
}

#[test]
fn test_new_missile_prioritization() {
    let mut rig = Rig::new();
    rig.rc.new_missile_scan_ticks = 4;

    // 1. Encounter a new incoming missile
    let hit = |x: f64| Hit {
        position: vec2(x, 0.0),
        velocity: vec2(-10.0, 0.0),
        class: Class::Missile,
        snr: 25.0,
    };
    let id = rig.process_scan_hit(hit(100.0), None);
    assert!(id > 0);
    let contact = rig.rc.get_contact(id).unwrap();
    assert_eq!(contact.class, Class::Missile);
    assert_eq!(contact.missile_scan_ticks_remaining, 4);

    // 2. Check that it has interval = 1 and gets prioritized in tracking_jobs()
    rig.rc.contacts[0].last_measurement_tick = rig.tick.wrapping_sub(1);
    assert_eq!(rig.rc.tracking_interval(&rig.rc.contacts[0]), 1);
    assert!(rig.rc.waits_in_range());
    let jobs = rig.rc.tracking_jobs(rig.tick, &vec![true]);
    assert_eq!(jobs.len(), 1);
    assert_eq!(rig.rc.contacts[jobs[0]].id, id);

    // 3. Process matched scans and check that ticks decrement
    rig.rc.contacts[0].last_measurement_tick = rig.tick.wrapping_sub(1);
    rig.process_scan_hit(hit(90.0), None);
    let contact = rig.rc.get_contact(id).unwrap();
    assert_eq!(contact.missile_scan_ticks_remaining, 3);
}

#[test]
fn test_tracking_beam_exclusion() {
    let mut rig = Rig::new();
    rig.put(known(42, Class::Fighter, 0), vec2(1000.0, 0.0), vec2(0.0, 0.0), 1.0);
    rig.put(known(43, Class::Fighter, 0), vec2(1000.0, 200.0), vec2(0.0, 0.0), 10.0);
    let slice = Slice { angle: 0.0, width: 0.05, min_distance: 900.0, max_distance: 1100.0 };

    // Hit position at (1000.0, 180.0) which is 20m from contact 43 (within association gate)
    let hit = Hit {
        position: vec2(1000.0, 180.0),
        velocity: vec2(0.0, 0.0),
        class: Class::Fighter,
        snr: 30.0,
    };
    let scan_ci_radius: f64 = 38.0;
    let scan_hit = ScanHit {
        radius: scan_ci_radius.to_bits(),
        gate: scan_ci_radius.to_bits(),
        ..rig.scan_hit(&hit, None, 1.0)
    };

    // 1. Without slice (beam filter) info, contact 43 should match
    let free = rig.sightings(&hit, None, 1.0);
    let res_no_slice = rig.rc.find_best_matching_contact(&scan_hit, &free);
    assert_eq!(res_no_slice.map(|(id, _)| id), Some(43));

    // 2. With slice info, contact 43 does not intersect the beam and must be excluded,
    // so no match should be found.
    let beamed = rig.sightings(&hit, Some(slice), 1.0);
    let res_with_slice = rig.rc.find_best_matching_contact(&scan_hit, &beamed);
    assert_eq!(res_with_slice, None);
}

fn plain_hit(class: Class) -> ScanHit {
    ScanHit {
        class,
        snr: 40.0f64.to_bits(),
        range: 1000.0f64.to_bits(),
        reliable_range: Some(2000.0f64.to_bits()),
        radius: 50.0f64.to_bits(),
        gate: 75.0f64.to_bits(),
        receding: false,
    }
}

fn sighting(distance: f64) -> Sighting {
    Sighting {
        distance: distance.to_bits(),
        gate: 100.0f64.to_bits(),
        boundary_in_beam: None,
        circle_in_beam: None,
        improvement: order_key(50.0f64.to_bits()),
        receding: false,
        receding_if_measured: false,
    }
}

#[test]
fn ping_age_counts_modulo_256() {
    assert_eq!(RadarController::ping_age(300, 44), 0);
    assert_eq!(RadarController::ping_age(300, 40), 4);
    assert_eq!(RadarController::ping_age(2, 255), 3);
}

#[test]
fn closest_gated_contact_of_the_class_matches() {
    let mut rc = RadarController::new();
    for (id, class) in [
        (1, Class::Missile),
        (2, Class::Fighter),
        (3, Class::Fighter),
        (4, Class::Fighter),
        (5, Class::Fighter),
    ] {
        rc.contacts.push(known(id, class, 0));
    }
    let hit = plain_hit(Class::Fighter);
    let mut sightings =
        vec![sighting(1.0), sighting(90.0), sighting(60.0), sighting(60.0), sighting(10.0)];
    sightings[4].boundary_in_beam = Some(false);
    assert_eq!(rc.find_best_matching_contact(&hit, &sightings), Some((3, 60.0f64.to_bits())));
    // The hit's own gate lets a contact in that its gate would not.
    sightings[3].gate = 0;
    sightings[2].gate = 0;
    assert_eq!(rc.find_best_matching_contact(&hit, &sightings), Some((3, 60.0f64.to_bits())));
    let tight = ScanHit { gate: 0, ..hit };
    assert_eq!(rc.find_best_matching_contact(&tight, &sightings), Some((2, 90.0f64.to_bits())));
    sightings[1].circle_in_beam = Some(false);
    assert_eq!(rc.find_best_matching_contact(&tight, &sightings), None);
}

#[test]
fn tracking_confirms_distinct_contacts() {
    let mut rc = RadarController::new();
    rc.contacts.push(known(1, Class::Fighter, 0));
    rc.contacts.push(Contact { provisional: true, ..known(2, Class::Fighter, 0) });
    rc.next_contact_id = 3;
    rc.radar_states[0] = RadarState::Tracking { contact_id: 2 };
    let hit = plain_hit(Class::Fighter);
    // Contact 1 is 30 m away: confusable. Two more attempts are left, then contact 2 goes.
    let confusable = vec![sighting(30.0), sighting(1.0)];
    let report = rc.process_radar_hit(0, 7, hit, &confusable);
    assert_eq!(report, TrackReport {
        effect: HitEffect::Measured { contact_id: 2 },
        missed: None,
    });
    assert_eq!(rc.contacts[1].confirmation_attempts, 1);
    assert_eq!(rc.contacts[1].last_measurement_tick, 7);
    assert!(rc.contacts[1].provisional);
    let mut lucky = rc.clone();
    lucky.process_radar_hit(0, 8, hit, &vec![sighting(30.1), sighting(1.0)]);
    assert!(!lucky.contacts[1].provisional);
    rc.process_radar_hit(0, 8, hit, &confusable);
    assert!(rc.has_contact(2));
    rc.process_radar_hit(0, 9, hit, &confusable);
    assert!(!rc.has_contact(2));
    assert!(rc.has_contact(1));
}

#[test]
fn tracking_drops_duplicates() {
    let hit = plain_hit(Class::Fighter);
    let mut rc = RadarController::new();
    for id in 1..4 {
        rc.contacts.push(known(id, Class::Fighter, 0));
    }
    rc.next_contact_id = 4;
    // Contact 3 is a later duplicate of contact 2.
    let mut later = rc.clone();
    later.process_tracking_hit(2, 5, hit, &vec![sighting(15.0), sighting(1.0), sighting(14.9)]);
    assert!(later.has_contact(1) && later.has_contact(2) && !later.has_contact(3));
    // Contact 2 is itself a duplicate of contact 1; contact 3 goes as well.
    rc.process_tracking_hit(2, 5, hit, &vec![sighting(14.9), sighting(1.0), sighting(14.9)]);
    assert!(rc.has_contact(1) && !rc.has_contact(2) && !rc.has_contact(3));
}

#[test]
fn tracking_adds_what_is_new_and_reports_the_miss() {
    let mut rc = RadarController::new();
    rc.contacts.push(known(1, Class::Fighter, 0));
    rc.next_contact_id = 2;
    let missile = plain_hit(Class::Missile);
    let report = rc.process_tracking_hit(1, 5, missile, &vec![sighting(1.0)]);
    assert_eq!(report, TrackReport {
        effect: HitEffect::Added { contact_id: 2 },
        missed: Some(1),
    });
    let added = rc.get_contact(2).unwrap();
    assert!(added.provisional && added.prioritize_scan);
    assert_eq!(added.missile_scan_ticks_remaining, 8);
    // Beyond the reliable range nothing is added.
    let faint = ScanHit { range: 2000.1f64.to_bits(), ..plain_hit(Class::Torpedo) };
    let report = rc.process_tracking_hit(1, 6, faint, &vec![sighting(1.0), sighting(1.0)]);
    assert_eq!(report.effect, HitEffect::Ignored);
    assert_eq!(rc.contacts.len(), 2);
    // Nor is it where a contact of the class lies within the hit's radius, though outside
    // its gates.
    let known_already = ScanHit { gate: 0, ..plain_hit(Class::Fighter) };
    let near = Sighting { gate: 0, ..sighting(50.0) };
    let report = rc.process_tracking_hit(1, 6, known_already, &vec![near, sighting(1.0)]);
    assert_eq!(report.effect, HitEffect::Ignored);
    assert_eq!(report.missed, Some(1));
    // A tracked contact that is gone is not reported.
    let report = rc.process_tracking_hit(9, 6, known_already, &vec![near, sighting(1.0)]);
    assert_eq!(report.missed, None);
}

#[test]
fn tracking_is_not_a_radio_ping() {
    let mut rc = RadarController::new();
    rc.contacts.push(known(1, Class::Fighter, 0));
    rc.contacts.push(Contact { provisional: true, ..known(2, Class::Fighter, 0) });
    rc.next_contact_id = 3;
    let ping = ScanHit { snr: RADIO_PING_SNR, ..plain_hit(Class::Fighter) };
    let sightings = vec![sighting(20.0), sighting(1.0)];
    let mut scanned = rc.clone();
    rc.process_tracking_hit(2, 5, ping, &sightings);
    assert!(rc.get_contact(2).unwrap().provisional);
    assert_eq!(scanned.process_scan_hit(5, ping, &sightings), 2);
    assert!(!scanned.get_contact(2).unwrap().provisional);
}

#[test]
fn scanning_radars_report_what_a_hit_did() {
    let mut rc = RadarController::new();
    let hit = plain_hit(Class::Fighter);
    assert_eq!(rc.process_radar_hit(0, 3, hit, &vec![]), TrackReport {
        effect: HitEffect::Added { contact_id: 1 },
        missed: None,
    });
    assert!(rc.contacts[0].provisional);
    assert_eq!(
        rc.process_radar_hit(1, 4, hit, &vec![sighting(2.0)]).effect,
        HitEffect::Measured { contact_id: 1 }
    );
    let faint = ScanHit { range: 2000.1f64.to_bits(), gate: 0, ..hit };
    assert_eq!(
        rc.process_radar_hit(0, 5, faint, &vec![sighting(500.0)]).effect,
        HitEffect::Ignored
    );
    assert_eq!(rc.next_contact_id, 2);
}

#[test]
fn misses_count_retries_and_the_third_drops_the_contact() {
    let mut rc = RadarController::new();
    rc.contacts.push(known(7, Class::Fighter, 0));
    rc.next_contact_id = 8;
    rc.radar_states[0] = RadarState::Tracking { contact_id: 7 };
    rc.radar_states[1] = RadarState::Tracking { contact_id: 99 };
    let view = RangeView {
        distance: 10.0f64.to_bits(),
        max_range: 20.0f64.to_bits(),
        receding: false,
    };
    for tick in 1..4 {
        let (seen, missed) = rc.process_scans(&vec![false, false]);
        assert!(!seen);
        assert_eq!(missed, vec![7]);
        assert_eq!(rc.contacts[0].tracking_retry_count, tick);
        rc.cleanup(tick, &vec![view]);
        assert_eq!(rc.has_contact(7), tick < 3);
    }
    assert_eq!(rc.process_scans(&vec![true, false]), (true, vec![]));
}

#[test]
fn unscanned_contacts_time_out_in_range_only() {
    let mut rc = RadarController::new();
    rc.contacts.push(known(1, Class::Fighter, 0));
    rc.contacts.push(known(2, Class::Fighter, 0));
    rc.next_contact_id = 3;
    let near = RangeView { distance: 1, max_range: 1, receding: true };
    let far = RangeView { distance: 2, max_range: 1, receding: true };
    for tick in 1..=120 {
        rc.cleanup(tick, &vec![near, far]);
        assert_eq!(rc.contacts.len(), 2);
    }
    rc.cleanup(121, &vec![near, far]);
    assert!(!rc.has_contact(1) && rc.has_contact(2));
    // Receding munitions go at once.
    rc.contacts.push(known(3, Class::Torpedo, 122));
    rc.cleanup(122, &vec![far, near]);
    assert!(!rc.has_contact(3));
}

#[test]
fn intervals() {
    let mut rc = RadarController::new();
    let plain = known(1, Class::Fighter, 0);
    assert_eq!(rc.tracking_interval(&plain), 20);
    assert_eq!(rc.tracking_interval(&Contact { provisional: true, ..plain }), 6);
    assert_eq!(rc.tracking_interval(&Contact { prioritize_scan: true, ..plain }), 6);
    rc.priority_targets = vec![(1, 10), (1, 4), (2, 0)];
    assert!(rc.is_priority_target(1) && !rc.is_priority_target(3));
    assert_eq!(rc.tracking_interval(&plain), 10);
    assert_eq!(rc.tracking_interval(&known(2, Class::Fighter, 0)), 1);
    let missile = Contact { missile_scan_ticks_remaining: 1, ..known(1, Class::Missile, 0) };
    assert_eq!(rc.tracking_interval(&missile), 1);
}

#[test]
fn tracking_jobs_run_by_group_then_tick_then_place() {
    let mut rc = RadarController::new();
    rc.contacts.push(known(1, Class::Fighter, 60)); // due at 80, group 2
    rc.contacts.push(known(2, Class::Fighter, 50)); // due at 70, group 2
    rc.contacts.push(Contact { provisional: true, ..known(3, Class::Fighter, 99) }); // group 1
    rc.contacts.push(known(4, Class::Fighter, 60)); // due at 80, group 2
    rc.contacts.push(Contact {
        missile_scan_ticks_remaining: 3,
        ..known(5, Class::Missile, 99)
    }); // due at 100, group 0
    rc.contacts.push(known(6, Class::Fighter, 90)); // due at 110: not yet
    rc.contacts.push(known(7, Class::Fighter, 10)); // out of reach
    rc.contacts.push(Contact { tracking_retry_count: 2, ..known(8, Class::Fighter, 50) }); // 110
    let trackable = vec![true, true, true, true, true, true, false, true];
    assert!(rc.waits_in_range());
    let jobs = rc.tracking_jobs(100, &trackable);
    assert_eq!(jobs, vec![4, 2, 1, 0, 3]);
    // With chosen contacts, jamming mode tracks those and new missiles only.
    rc.jamming_mode = true;
    rc.priority_targets = vec![(4, 10)];
    assert_eq!(rc.tracking_jobs(100, &trackable), vec![4, 3]);
}

#[test]
fn duties_are_shared_out() {
    let mut rc = RadarController::new();
    rc.contacts.push(known(1, Class::Fighter, 100));
    rc.contacts.push(known(2, Class::Fighter, 10));
    rc.next_contact_id = 3;
    let all = vec![true, true];
    assert_eq!(rc.generate_new_scans(Class::Cruiser, 100, &all), vec![
        RadarState::Tracking { contact_id: 2 },
        RadarState::Scanning
    ]);
    assert_eq!(rc.scan_ticks, 1);
    rc.jamming_mode = true;
    assert_eq!(rc.generate_new_scans(Class::Cruiser, 100, &all), vec![
        RadarState::Tracking { contact_id: 2 },
        RadarState::Jamming { contact_id: 1 }
    ]);
    assert_eq!(rc.generate_new_scans(Class::Cruiser, 100, &vec![false, false]), vec![
        RadarState::Scanning,
        RadarState::Scanning
    ]);
    assert_eq!(rc.scan_ticks, 3);
    assert_eq!(rc.contacts().len(), 2);
    // A single radar leaves the state of the other alone.
    rc.radar_states[1] = RadarState::Jamming { contact_id: 9 };
    rc.generate_new_scans(Class::Fighter, 100, &all);
    assert_eq!(rc.radar_states, vec![
        RadarState::Tracking { contact_id: 2 },
        RadarState::Jamming { contact_id: 9 }
    ]);
}

#[test]
fn eleven_scans_make_a_sweep() {
    let mut rc = RadarController::new();
    for n in 1..=33u32 {
        rc.generate_new_scans(Class::Fighter, n, &vec![]);
        assert_eq!(rc.full_scans, n / 11);
        assert_eq!(rc.scan_ticks, n % 11);
    }
}

#[test]
fn target_is_kept_until_it_is_gone() {
    let mut rc = RadarController::new();
    rc.contacts.push(Contact { provisional: true, ..known(1, Class::Fighter, 0) });
    rc.contacts.push(known(2, Class::Fighter, 0));
    rc.contacts.push(known(3, Class::Fighter, 0));
    let far_first = vec![1, 30, 20];
    assert_eq!(rc.update_target(&far_first).map(|c| c.id), Some(3));
    assert_eq!(rc.update_target(&vec![1, 2, 20]).map(|c| c.id), Some(3));
    rc.contacts[2].provisional = true;
    assert_eq!(rc.update_target(&far_first).map(|c| c.id), Some(2));
    rc.contacts.clear();
    assert_eq!(rc.update_target(&vec![]), None);
    assert_eq!(rc.current_target_id, None);
}

#[test]
fn non_missiles_are_noticed() {
    let mut rc = RadarController::new();
    assert!(!rc.has_non_missile());
    rc.contacts.push(known(1, Class::Missile, 0));
    assert!(!rc.has_non_missile());
    rc.contacts.push(known(2, Class::Torpedo, 0));
    assert!(rc.has_non_missile());
}

#[test]
fn counters_near_their_end_are_noticed() {
    let mut rc = RadarController::new();
    assert!(rc.has_headroom());
    rc.contacts.push(Contact { tracking_retry_count: u32::MAX - 1, ..known(1, Class::Fighter, 0) });
    assert!(!rc.has_headroom());
    rc.contacts[0].tracking_retry_count = 1 << 30;
    assert!(rc.has_headroom());
    assert!(!rc.waits_in_range());
    rc.contacts[0].provisional = true;
    assert!(rc.waits_in_range());
    rc.contacts[0].confirmation_attempts = u32::MAX;
    assert!(!rc.has_headroom());
    rc.contacts[0].provisional = false;
    assert!(rc.has_headroom());
    rc.next_contact_id = u32::MAX;
    assert!(!rc.has_headroom());
}

#[test]
fn full_counters_do_not_stop_what_does_not_count_them() {
    // No id is left, and no sweep can be counted; contacts still age.
    let mut rc = RadarController::new();
    rc.contacts.push(known(1, Class::Fighter, 0));
    rc.next_contact_id = u32::MAX;
    rc.full_scans = u32::MAX;
    rc.cleanup(1, &vec![RangeView { distance: 1, max_range: 2, receding: false }]);
    assert_eq!(rc.contacts[0].unscanned_in_range_ticks, 1);
    rc.radar_states[0] = RadarState::Tracking { contact_id: 1 };
    assert_eq!(rc.process_scans(&vec![false]), (false, vec![1]));
}

#[test]
fn misses_need_room_only_where_they_are_counted() {
    let mut rc = RadarController::new();
    rc.contacts.push(Contact { tracking_retry_count: u32::MAX, ..known(1, Class::Fighter, 0) });
    rc.contacts.push(Contact { tracking_retry_count: u32::MAX - 1, ..known(2, Class::Fighter, 0) });
    rc.radar_states[0] = RadarState::Tracking { contact_id: 2 };
    rc.radar_states[1] = RadarState::Tracking { contact_id: 1 };
    // Nothing is counted for contact 1, whose radar found something.
    assert_eq!(rc.process_scans(&vec![false, true]), (true, vec![2]));
    assert_eq!(rc.contacts[0].tracking_retry_count, u32::MAX);
    assert_eq!(rc.contacts[1].tracking_retry_count, u32::MAX);
}

#[test]
fn improvements_below_five_percent_are_little() {
    let percent = |x: f64| order_key(x.to_bits());
    assert!(improves_little(percent(4.99)));
    assert!(improves_little(percent(-30.0)));
    assert!(!improves_little(percent(5.0)));
}
