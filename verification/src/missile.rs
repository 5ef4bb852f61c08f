//! Missiles: the target reports that are sent to them, and the decisions of their guidance.
use vstd::prelude::*;

use crate::class::Class;
use crate::contact::{place_of, place_of_id, Contact};
use crate::lookup::as_place;
use crate::measure::{
    Measure, ACCELERATION_100, DEGREES_5, KEY_OF_ZERO, METERS_100_000, MILLIONTH, SECONDS_10,
    SECONDS_HALF, SPEED_10_000,
};
use crate::radio::le32;

verus! {

/// The spare speed change from which a missile dodges: 150 m/s. It dodges by half as many
/// metres.
pub const N: Measure = 0x4062_c000_0000_0000;

/// The time to go down to which a missile dodges: 1.5 s.
pub const M: Measure = 0x3ff8_0000_0000_0000;

/// The fuel below which a missile saves fuel: 500 m/s.
pub const DEFAULT_MIN_SEARCH_FUEL: Measure = 0x407f_4000_0000_0000;

/// The channel on which a missile without a secure link listens.
pub const DEFAULT_TARGET_CHANNEL: usize = 3;

/// The code of a class in a target report. Classes without a code share 0.
pub open spec fn class_code(class: Class) -> u8 {
    match class {
        Class::Fighter => 1,
        Class::Frigate => 2,
        Class::Cruiser => 3,
        Class::Missile => 4,
        Class::Torpedo => 5,
        Class::Target => 6,
        _ => 0,
    }
}

/// The class that a code stands for. An unknown code is taken for a fighter.
pub open spec fn class_of_code(code: u8) -> Class {
    match code {
        1 => Class::Fighter,
        2 => Class::Frigate,
        3 => Class::Cruiser,
        4 => Class::Missile,
        5 => Class::Torpedo,
        6 => Class::Target,
        _ => Class::Fighter,
    }
}

/// The number whose four bytes, least significant first, start at `at`.
pub open spec fn u32_at(bytes: Seq<u8>, at: int) -> int {
    bytes[at] + 0x100 * bytes[at + 1] + 0x1_0000 * bytes[at + 2] + 0x100_0000 * bytes[at + 3]
}

/// A report on a target. Coordinates, speeds and signal strength are held by the bit
/// patterns of their single-precision values.
#[derive(Clone, Copy, Debug, PartialEq, Eq, Structural)]
pub struct TargetTelemetry {
    pub position_x: u32,
    pub position_y: u32,
    pub velocity_x: u32,
    pub velocity_y: u32,
    pub rssi: u32,
    pub class: Class,
    /// The low byte of the tick of the report.
    pub tick: u8,
}

impl TargetTelemetry {
    /// The payload that carries the report: five numbers of four bytes, the tick, the code of
    /// the class, and zeros.
    pub open spec fn payload(self) -> Seq<u8> {
        le32(self.position_x) + le32(self.position_y) + le32(self.velocity_x) + le32(
            self.velocity_y,
        ) + le32(self.rssi) + seq![self.tick, class_code(self.class)] + Seq::new(8, |i: int| 0u8)
    }

    /// The report that a payload carries.
    pub open spec fn of_payload(payload: Seq<u8>) -> TargetTelemetry {
        TargetTelemetry {
            position_x: u32_at(payload, 0) as u32,
            position_y: u32_at(payload, 4) as u32,
            velocity_x: u32_at(payload, 8) as u32,
            velocity_y: u32_at(payload, 12) as u32,
            rssi: u32_at(payload, 16) as u32,
            class: class_of_code(payload[21]),
            tick: payload[20],
        }
    }

    /// The payload that carries the report.
    pub fn serialize(&self) -> (payload: [u8; 30])
        ensures
            payload@ == self.payload(),
    {
        let mut payload: [u8; 30] = [0u8; 30];
        put_u32(&mut payload, 0, self.position_x);
        put_u32(&mut payload, 4, self.position_y);
        put_u32(&mut payload, 8, self.velocity_x);
        put_u32(&mut payload, 12, self.velocity_y);
        put_u32(&mut payload, 16, self.rssi);
        payload[20] = self.tick;
        payload[21] = match self.class {
            Class::Fighter => 1,
            Class::Frigate => 2,
            Class::Cruiser => 3,
            Class::Missile => 4,
            Class::Torpedo => 5,
            Class::Target => 6,
            _ => 0,
        };
        assert(payload@ =~= self.payload());
        payload
    }

    /// The report that a payload carries.
    pub fn deserialize(payload: &[u8; 30]) -> (telemetry: Self)
        ensures
            telemetry == TargetTelemetry::of_payload(payload@),
    {
        let class = match payload[21] {
            1 => Class::Fighter,
            2 => Class::Frigate,
            3 => Class::Cruiser,
            4 => Class::Missile,
            5 => Class::Torpedo,
            6 => Class::Target,
            _ => Class::Fighter,
        };
        TargetTelemetry {
            position_x: get_u32(payload, 0),
            position_y: get_u32(payload, 4),
            velocity_x: get_u32(payload, 8),
            velocity_y: get_u32(payload, 12),
            rssi: get_u32(payload, 16),
            class,
            tick: payload[20],
        }
    }
}

fn put_u32(payload: &mut [u8; 30], at: usize, x: u32)
    requires
        at + 4 <= 30,
    ensures
        final(payload)@ == old(payload)@.update(at as int, le32(x)[0]).update(
            at + 1,
            le32(x)[1],
        ).update(at + 2, le32(x)[2]).update(at + 3, le32(x)[3]),
{
    payload[at] = (x & 0xff) as u8;
    payload[at + 1] = ((x >> 8) & 0xff) as u8;
    payload[at + 2] = ((x >> 16) & 0xff) as u8;
    payload[at + 3] = ((x >> 24) & 0xff) as u8;
}

fn get_u32(payload: &[u8; 30], at: usize) -> (x: u32)
    requires
        at + 4 <= 30,
    ensures
        x == u32_at(payload@, at as int),
{
    payload[at] as u32 + 0x100 * (payload[at + 1] as u32) + 0x1_0000 * (payload[at + 2] as u32)
        + 0x100_0000 * (payload[at + 3] as u32)
}

proof fn lemma_le32(x: u32)
    ensures
        u32_at(le32(x), 0) == x,
{
    assert(((x & 0xff) as u8) + 0x100 * (((x >> 8) & 0xff) as u8) + 0x1_0000 * (((x >> 16)
        & 0xff) as u8) + 0x100_0000 * (((x >> 24) & 0xff) as u8) == x) by (bit_vector);
}

/// A report comes back from its payload as it was, but for a class without a code, which
/// comes back as a fighter.
pub proof fn law_telemetry_round_trip(telemetry: TargetTelemetry)
    ensures
        telemetry.payload().len() == 30,
        TargetTelemetry::of_payload(telemetry.payload()) == (TargetTelemetry {
            class: class_of_code(class_code(telemetry.class)),
            ..telemetry
        }),
        telemetry.class != Class::Asteroid && telemetry.class != Class::Unknown ==>
            TargetTelemetry::of_payload(telemetry.payload()) == telemetry,
{
    lemma_le32(telemetry.position_x);
    lemma_le32(telemetry.position_y);
    lemma_le32(telemetry.velocity_x);
    lemma_le32(telemetry.velocity_y);
    lemma_le32(telemetry.rssi);
    let p = telemetry.payload();
    assert(p.subrange(0, 4) =~= le32(telemetry.position_x));
    assert(p.subrange(4, 8) =~= le32(telemetry.position_y));
    assert(p.subrange(8, 12) =~= le32(telemetry.velocity_x));
    assert(p.subrange(12, 16) =~= le32(telemetry.velocity_y));
    assert(p.subrange(16, 20) =~= le32(telemetry.rssi));
    assert(u32_at(p, 0) == u32_at(p.subrange(0, 4), 0));
    assert(u32_at(p, 4) == u32_at(p.subrange(4, 8), 0));
    assert(u32_at(p, 8) == u32_at(p.subrange(8, 12), 0));
    assert(u32_at(p, 12) == u32_at(p.subrange(12, 16), 0));
    assert(u32_at(p, 16) == u32_at(p.subrange(16, 20), 0));
}

/// The magnitude of a double-precision value, given by its bit pattern.
pub open spec fn magnitude(bits: u64) -> Measure {
    bits & 0x7fff_ffff_ffff_ffff
}

/// Whether an open report of a position and a velocity is to be believed: each coordinate is
/// within 100 km, and each speed below 10 km/s. What is not a finite number is beyond both.
pub open spec fn plausible(message: Seq<u64>) -> bool {
    magnitude(message[0]) < METERS_100_000 && magnitude(message[1]) < METERS_100_000 && magnitude(
        message[2],
    ) < SPEED_10_000 && magnitude(message[3]) < SPEED_10_000
}

/// Whether an open report of a position and a velocity is to be believed.
pub fn is_plausible(message: &[u64; 4]) -> (yes: bool)
    ensures
        yes == plausible(message@),
{
    let sign_off: u64 = 0x7fff_ffff_ffff_ffff;
    (message[0] & sign_off) < METERS_100_000 && (message[1] & sign_off) < METERS_100_000 && (
    message[2] & sign_off) < SPEED_10_000 && (message[3] & sign_off) < SPEED_10_000
}

/// Tells a missile about its target after it was launched.
#[derive(Clone, Copy, Debug, PartialEq, Eq, Structural)]
pub struct MissileRadioSender {
    /// The target of the missile launched last, until it was reported.
    pub delay_missile_contact: Option<u32>,
}

impl MissileRadioSender {
    /// A sender with nothing to report.
    pub fn new() -> (sender: Self)
        ensures
            sender.delay_missile_contact is None,
    {
        MissileRadioSender { delay_missile_contact: None }
    }

    /// Notes the target of a missile that is being launched.
    pub fn fire_missile(&mut self, target_id: u32)
        ensures
            final(self).delay_missile_contact == Some(target_id),
    {
        self.delay_missile_contact = Some(target_id);
    }

    /// Gives the place of the contact to report, if a missile waits for its target and the
    /// target is seen. The missile waits no longer, either way.
    pub fn send_missile_contact(&mut self, contacts: &Vec<Contact>) -> (place: Option<usize>)
        ensures
            final(self).delay_missile_contact is None,
            as_place(place) == (match old(self).delay_missile_contact {
                Some(id) => place_of(contacts@, id),
                None => None::<int>,
            }),
            place matches Some(i) ==> i < contacts.len(),
    {
        let waiting = self.delay_missile_contact;
        self.delay_missile_contact = None;
        match waiting {
            Some(id) => place_of_id(contacts, id),
            None => None,
        }
    }
}

/// Where the point that a missile cruises to comes from.
#[derive(Clone, Copy, Debug, PartialEq, Eq, Structural)]
pub enum CruisePoint {
    /// It is kept.
    Keep,
    /// It is laid somewhere along the course of the target.
    AlongTarget,
    /// There is none.
    Absent,
}

/// Where a missile steers to.
#[derive(Clone, Copy, Debug, PartialEq, Eq, Structural)]
pub enum Steering {
    /// Nowhere.
    Idle,
    /// To the cruise point.
    Cruise,
    /// To the target, or with `dodge` past it on one side.
    Pursue { dodge: bool },
}

/// The course of a missile.
#[derive(Clone, Copy, Debug, PartialEq, Eq, Structural)]
pub struct ProgradeResult {
    pub cruise_point: CruisePoint,
    pub steering: Steering,
    pub can_defeat: bool,
    pub nez_metric_passed: bool,
}

/// What a missile knows of its target.
#[derive(Clone, Copy, Debug, PartialEq, Eq, Structural)]
pub struct TargetOutlook {
    /// The order key of how many metres the missile can shift its way farther than the target
    /// can.
    pub nez_metric: u64,
    /// The time to go.
    pub t_go: Measure,
    /// The speed change left over after the worst evasion, where there is any left.
    pub spare_dv: Option<Measure>,
}

/// Where the nose of a missile points.
#[derive(Clone, Copy, Debug, PartialEq, Eq, Structural)]
pub enum AttitudeSource {
    /// Where the target will be when the missile explodes; the turn is to end there.
    Explosion,
    /// Along the thrust.
    Thrust,
    /// Along the course.
    Prograde,
    /// Where it points already.
    Hold,
}

/// How a missile gets onto its course.
#[derive(Clone, Copy, Debug, PartialEq, Eq, Structural)]
pub enum ThrustPlan {
    /// Not at all: it has no course.
    Nothing,
    /// By matching the highest speed that it can reach along its course.
    MatchVelocity,
    /// It is on it already.
    Coast,
    /// By the least sideways thrust, since its fuel does not do for more.
    Lateral,
}

/// Whether some contact has this id and is not a missile.
pub open spec fn target_valid(contacts: Seq<Contact>, id: u32) -> bool {
    exists|i: int|
        0 <= i < contacts.len() && #[trigger] contacts[i].id == id && contacts[i].class
            != Class::Missile
}

/// Whether `contacts[i]` is the first contact that is not a missile.
pub open spec fn is_first_non_missile(contacts: Seq<Contact>, i: int) -> bool {
    &&& 0 <= i < contacts.len()
    &&& contacts[i].class != Class::Missile
    &&& forall|j: int| #![trigger contacts[j]] 0 <= j < i ==> contacts[j].class == Class::Missile
}

/// The id of the first contact that is not a missile.
pub open spec fn first_non_missile(contacts: Seq<Contact>) -> Option<u32> {
    if exists|i: int| is_first_non_missile(contacts, i) {
        Some(contacts[choose|i: int| is_first_non_missile(contacts, i)].id)
    } else {
        None
    }
}

/// The target of a missile: the one it has as long as it is there, else the first contact
/// that is not a missile.
pub open spec fn next_missile_target(contacts: Seq<Contact>, current: Option<u32>) -> Option<u32> {
    if current is Some && target_valid(contacts, current->0) {
        current
    } else {
        first_non_missile(contacts)
    }
}

/// Whether a target cannot escape any more: the missile can shift its way at least as far. The
/// difference is given by its order key.
pub open spec fn is_trapped(metric: u64) -> bool {
    metric >= KEY_OF_ZERO
}

/// Whether a target cannot escape any more: the missile can shift its way at least as far. The
/// difference is given by its order key.
pub fn cannot_escape(metric: u64) -> (trapped: bool)
    ensures
        trapped == is_trapped(metric),
{
    metric >= KEY_OF_ZERO
}

/// Whether the target can be defeated: it cannot escape, or there is little time to go.
pub open spec fn can_be_defeated(outlook: TargetOutlook) -> bool {
    is_trapped(outlook.nez_metric) || outlook.t_go < SECONDS_10
}

/// The decisions of a missile's guidance.
#[derive(Clone, Copy, Debug, PartialEq, Eq, Structural)]
pub struct MissileGuidance {
    pub target_id: Option<u32>,
    /// Whether a point to cruise to has been set.
    pub cruising: bool,
    /// Whether the target, once, could not escape any more.
    pub has_entered_nez: bool,
    pub target_channel: usize,
}

impl MissileGuidance {
    /// The guidance after its target was settled. With another target than before, all that
    /// was found out about the one before is given up.
    pub open spec fn after_select(self, contacts: Seq<Contact>) -> MissileGuidance {
        let target_id = next_missile_target(contacts, self.target_id);
        MissileGuidance {
            target_id,
            has_entered_nez: self.has_entered_nez && target_id == self.target_id,
            ..self
        }
    }

    /// The guidance after a course was settled: it remembers that there is a cruise point, and
    /// that the target cannot escape.
    pub open spec fn after_follow(self, result: ProgradeResult) -> MissileGuidance {
        MissileGuidance {
            cruising: result.cruise_point != CruisePoint::Absent,
            has_entered_nez: self.has_entered_nez || result.nez_metric_passed,
            ..self
        }
    }

    /// A guidance without a target.
    pub fn new() -> (guidance: Self)
        ensures
            guidance == (MissileGuidance {
                target_id: None,
                cruising: false,
                has_entered_nez: false,
                target_channel: DEFAULT_TARGET_CHANNEL,
            }),
    {
        MissileGuidance {
            target_id: None,
            cruising: false,
            has_entered_nez: false,
            target_channel: DEFAULT_TARGET_CHANNEL,
        }
    }

    /// The watch list for the radar: the target, at the interval for priority.
    pub fn watched_contacts(&self) -> (entries: Vec<(u32, u32)>)
        ensures
            entries@ == (match self.target_id {
                Some(id) => seq![(id, crate::radar::PRIORITY_INTERVAL)],
                None => Seq::<(u32, u32)>::empty(),
            }),
    {
        let mut entries: Vec<(u32, u32)> = Vec::new();
        if let Some(id) = self.target_id {
            entries.push((id, crate::radar::PRIORITY_INTERVAL));
        }
        entries
    }

    /// Settles the target. Tells whether it is another one than before, in which case all
    /// that was found out about the one before is given up.
    pub fn select_target(&mut self, contacts: &Vec<Contact>) -> (changed: bool)
        ensures
            changed == (next_missile_target(contacts@, old(self).target_id) != old(self).target_id),
            *final(self) == old(self).after_select(contacts@),
    {
        let previous = self.target_id;
        let mut valid = false;
        let mut first: Option<u32> = None;
        let mut i: usize = 0;
        while i < contacts.len()
            invariant
                0 <= i <= contacts.len(),
                previous matches Some(id) ==> (valid == exists|j: int|
                    0 <= j < i && #[trigger] contacts@[j].id == id && contacts@[j].class
                        != Class::Missile),
                previous is None ==> !valid,
                first is None ==> forall|j: int|
                    #![trigger contacts@[j]]
                    0 <= j < i ==> contacts@[j].class == Class::Missile,
                first matches Some(id) ==> first_non_missile(contacts@) == Some(id),
            decreases contacts.len() - i,
        {
            let c = contacts[i];
            if c.class != Class::Missile {
                if first.is_none() {
                    proof {
                        assert(is_first_non_missile(contacts@, i as int));
                        let k = choose|k: int| is_first_non_missile(contacts@, k);
                        assert(is_first_non_missile(contacts@, k));
                        if k < i {
                            assert(contacts@[k].class == Class::Missile);
                        } else if k > i {
                            assert(contacts@[i as int].class == Class::Missile);
                        }
                    }
                    first = Some(c.id);
                }
                if let Some(id) = previous {
                    if c.id == id {
                        assert(contacts@[i as int].id == id);
                        valid = true;
                    }
                }
            }
            i = i + 1;
        }
        if !valid {
            self.target_id = first;
        }
        let changed = match (self.target_id, previous) {
            (Some(a), Some(b)) => a != b,
            (None, None) => false,
            _ => true,
        };
        if changed {
            self.has_entered_nez = false;
        }
        changed
    }

    /// The place of the target, where it is seen.
    pub fn target_place(&self, contacts: &Vec<Contact>) -> (place: Option<usize>)
        ensures
            as_place(place) == (match self.target_id {
                Some(id) => place_of(contacts@, id),
                None => None::<int>,
            }),
            place matches Some(i) ==> i < contacts.len(),
    {
        match self.target_id {
            Some(id) => place_of_id(contacts, id),
            None => None,
        }
    }

    /// The course: to the target where it can be defeated, else to the cruise point.
    pub open spec fn course(self, outlook: Option<TargetOutlook>) -> ProgradeResult {
        let cruise_point = if self.cruising {
            CruisePoint::Keep
        } else if outlook is Some {
            CruisePoint::AlongTarget
        } else {
            CruisePoint::Absent
        };
        match outlook {
            Some(o) if can_be_defeated(o) => ProgradeResult {
                cruise_point,
                steering: Steering::Pursue {
                    dodge: self.has_entered_nez && o.spare_dv is Some && o.spare_dv->0 >= N
                        && o.t_go > M,
                },
                can_defeat: true,
                nez_metric_passed: is_trapped(o.nez_metric),
            },
            _ => ProgradeResult {
                cruise_point,
                steering: if cruise_point == CruisePoint::Absent {
                    Steering::Idle
                } else {
                    Steering::Cruise
                },
                can_defeat: false,
                nez_metric_passed: false,
            },
        }
    }

    /// The course, given what is known of the target, where there is one.
    pub fn determine_prograde(&self, outlook: Option<TargetOutlook>) -> (result: ProgradeResult)
        ensures
            result == self.course(outlook),
    {
        let cruise_point = if self.cruising {
            CruisePoint::Keep
        } else if outlook.is_some() {
            CruisePoint::AlongTarget
        } else {
            CruisePoint::Absent
        };
        match outlook {
            None => {
                let steering = if self.cruising {
                    Steering::Cruise
                } else {
                    Steering::Idle
                };
                ProgradeResult {
                    cruise_point,
                    steering,
                    can_defeat: false,
                    nez_metric_passed: false,
                }
            },
            Some(o) => {
                let trapped = cannot_escape(o.nez_metric);
                if !(trapped || o.t_go < SECONDS_10) {
                    return ProgradeResult {
                        cruise_point,
                        steering: Steering::Cruise,
                        can_defeat: false,
                        nez_metric_passed: false,
                    };
                }
                let enough = match o.spare_dv {
                    Some(dv) => dv >= N,
                    None => false,
                };
                let dodge = self.has_entered_nez && enough && o.t_go > M;
                ProgradeResult {
                    cruise_point,
                    steering: Steering::Pursue { dodge },
                    can_defeat: true,
                    nez_metric_passed: trapped,
                }
            },
        }
    }

    /// Remembers what a course settled: that there is a cruise point, and that the target
    /// cannot escape.
    pub fn follow(&mut self, result: &ProgradeResult)
        ensures
            *final(self) == old(self).after_follow(*result),
    {
        self.cruising = match result.cruise_point {
            CruisePoint::Absent => false,
            _ => true,
        };
        if result.nez_metric_passed {
            self.has_entered_nez = true;
        }
    }
}

/// Whether a missile explodes: it has a target, and by the time that its fragments last the
/// target will be no farther from where they will be than they fly.
pub fn check_detonation_condition(miss_distance: Option<Measure>, fragment_range: Measure) -> (explode: bool)
    ensures
        explode == (miss_distance is Some && miss_distance->0 <= fragment_range),
{
    match miss_distance {
        Some(distance) => distance <= fragment_range,
        None => false,
    }
}

/// Whether a missile saves the fuel for forward thrust: it closes in no slower than it would
/// after spending all its fuel, and has less left than the target can spend. The speeds are
/// given by their order keys.
pub fn saves_fuel(closing: u64, closing_after: u64, fuel: Measure, enemy_dv: Measure) -> (saves: bool)
    ensures
        saves == (closing >= closing_after && fuel < enemy_dv),
{
    closing >= closing_after && fuel < enemy_dv
}

/// How a missile gets onto its course. `achievable` is there where the fuel does to reach
/// the course, and tells whether the speed is off.
pub fn determine_thrust(has_course: bool, achievable: Option<bool>) -> (plan: ThrustPlan)
    ensures
        plan == (if !has_course {
            ThrustPlan::Nothing
        } else {
            match achievable {
                Some(true) => ThrustPlan::MatchVelocity,
                Some(false) => ThrustPlan::Coast,
                None => ThrustPlan::Lateral,
            }
        }),
{
    if !has_course {
        return ThrustPlan::Nothing;
    }
    match achievable {
        Some(off) => if off {
            ThrustPlan::MatchVelocity
        } else {
            ThrustPlan::Coast
        },
        None => ThrustPlan::Lateral,
    }
}

/// Whether a missile is in its last turn: the explosion comes before the turn to it would be
/// done, or in less than half a second.
pub open spec fn is_terminal(until_explosion: Measure, turn_time: Measure) -> bool {
    until_explosion <= turn_time || until_explosion < SECONDS_HALF
}

/// Where the nose of a missile points: in the last turn to the explosion, else along the
/// thrust, else along the course. `explosion` gives, with a target, the time until the
/// explosion and the time that the turn takes.
pub fn determine_attitude(explosion: Option<(Measure, Measure)>, thrust: Option<Measure>, has_course: bool) -> (source: AttitudeSource)
    ensures
        source == (if explosion is Some && is_terminal((explosion->0).0, (explosion->0).1) {
            AttitudeSource::Explosion
        } else if thrust is Some && thrust->0 > MILLIONTH {
            AttitudeSource::Thrust
        } else if has_course {
            AttitudeSource::Prograde
        } else {
            AttitudeSource::Hold
        }),
{
    if let Some((until, turn)) = explosion {
        if until <= turn || until < SECONDS_HALF {
            return AttitudeSource::Explosion;
        }
    }
    if let Some(length) = thrust {
        if length > MILLIONTH {
            return AttitudeSource::Thrust;
        }
    }
    if has_course {
        AttitudeSource::Prograde
    } else {
        AttitudeSource::Hold
    }
}

/// Whether a missile boosts: there is fuel to spare, the thrust is strong, and the nose is off
/// it by less than five degrees.
pub fn should_boost(fuel: Measure, fuel_limit: Measure, thrust: Option<Measure>, angle: Measure) -> (boost: bool)
    ensures
        boost == (thrust is Some && fuel >= fuel_limit && thrust->0 > ACCELERATION_100 && angle
            < DEGREES_5),
{
    match thrust {
        Some(length) => {
            if fuel < fuel_limit {
                return false;
            }
            let aimed = length > 0 && angle < DEGREES_5;
            length > ACCELERATION_100 && aimed
        },
        None => false,
    }
}

/// Once the target could not escape, the guidance remembers it for as long as it keeps the
/// target.
pub proof fn law_nez_latches(guidance: MissileGuidance, contacts: Seq<Contact>, outlook: Option<TargetOutlook>)
    requires
        guidance.has_entered_nez,
        next_missile_target(contacts, guidance.target_id) == guidance.target_id,
    ensures
        ({
            let selected = guidance.after_select(contacts);
            selected.after_follow(selected.course(outlook)).has_entered_nez
        }),
{
}

/// With another target the guidance starts over: it is not taken to be unable to escape.
pub proof fn law_new_target_clears_nez(guidance: MissileGuidance, contacts: Seq<Contact>)
    requires
        next_missile_target(contacts, guidance.target_id) != guidance.target_id,
    ensures
        !guidance.after_select(contacts).has_entered_nez,
{
}

/// A target that is seen and is not a missile is kept.
pub proof fn law_valid_target_is_kept(contacts: Seq<Contact>, id: u32)
    requires
        target_valid(contacts, id),
    ensures
        next_missile_target(contacts, Some(id)) == Some(id),
{
}

/// A missile never takes another missile for its target.
pub proof fn law_target_is_no_missile(contacts: Seq<Contact>, current: Option<u32>)
    requires
        next_missile_target(contacts, current) is Some,
    ensures
        target_valid(contacts, next_missile_target(contacts, current)->0),
{
    if !(current is Some && target_valid(contacts, current->0)) {
        let i = choose|i: int| is_first_non_missile(contacts, i);
        assert(is_first_non_missile(contacts, i));
        assert(contacts[i].id == next_missile_target(contacts, current)->0);
    }
}

/// A missile dodges only while it pursues a target that, once, could not escape, and only
/// with time to go.
pub proof fn law_dodge_needs_nez_and_time(guidance: MissileGuidance, outlook: Option<TargetOutlook>)
    requires
        guidance.course(outlook).steering == (Steering::Pursue { dodge: true }),
    ensures
        guidance.has_entered_nez,
        outlook is Some,
        outlook->0.t_go > M,
        outlook->0.spare_dv is Some && outlook->0.spare_dv->0 >= N,
{
}

/// A missile with a target always has a course, and one without a target has one as soon as
/// it has a cruise point.
pub proof fn law_course_is_never_lost(guidance: MissileGuidance, outlook: Option<TargetOutlook>)
    requires
        outlook is Some || guidance.cruising,
    ensures
        guidance.course(outlook).steering != Steering::Idle,
        guidance.course(outlook).cruise_point != CruisePoint::Absent,
{
}

/// The layout of a report: each number stands with its least significant byte first, the two
/// coordinates before the two speeds before the signal strength; then come the tick, the code of
/// the class, and zeros up to the end.
pub proof fn law_report_layout(telemetry: TargetTelemetry)
    ensures
        ({
            let p = telemetry.payload();
            let number = |at: int|
                p[at] + 256 * p[at + 1] + 65536 * p[at + 2] + 16777216 * p[at + 3];
            &&& p.len() == 30
            &&& number(0) == telemetry.position_x && number(4) == telemetry.position_y
            &&& number(8) == telemetry.velocity_x && number(12) == telemetry.velocity_y
            &&& number(16) == telemetry.rssi
            &&& p[20] == telemetry.tick
            &&& p[21] == (match telemetry.class {
                Class::Fighter => 1u8,
                Class::Frigate => 2,
                Class::Cruiser => 3,
                Class::Missile => 4,
                Class::Torpedo => 5,
                Class::Target => 6,
                Class::Asteroid => 0,
                Class::Unknown => 0,
            })
            &&& forall|i: int| 22 <= i < 30 ==> #[trigger] p[i] == 0
        }),
{
    lemma_le32(telemetry.position_x);
    lemma_le32(telemetry.position_y);
    lemma_le32(telemetry.velocity_x);
    lemma_le32(telemetry.velocity_y);
    lemma_le32(telemetry.rssi);
    let p = telemetry.payload();
    assert(p.subrange(0, 4) =~= le32(telemetry.position_x));
    assert(p.subrange(4, 8) =~= le32(telemetry.position_y));
    assert(p.subrange(8, 12) =~= le32(telemetry.velocity_x));
    assert(p.subrange(12, 16) =~= le32(telemetry.velocity_y));
    assert(p.subrange(16, 20) =~= le32(telemetry.rssi));
    assert(u32_at(p, 0) == u32_at(p.subrange(0, 4), 0));
    assert(u32_at(p, 4) == u32_at(p.subrange(4, 8), 0));
    assert(u32_at(p, 8) == u32_at(p.subrange(8, 12), 0));
    assert(u32_at(p, 12) == u32_at(p.subrange(12, 16), 0));
    assert(u32_at(p, 16) == u32_at(p.subrange(16, 20), 0));
}

/// A payload with an unknown code, and one with none, is read as a report on a fighter; a code
/// that is known is read as the class whose reports carry it. The rest of the report does not
/// depend on the code.
pub proof fn law_codes_are_read_back(payload: Seq<u8>, code: u8)
    requires
        payload.len() == 30,
    ensures
        ({
            let read = TargetTelemetry::of_payload(payload);
            &&& payload[21] == 0 || payload[21] > 6 ==> read.class == Class::Fighter
            &&& 1 <= payload[21] <= 6 ==> class_code(read.class) == payload[21]
            &&& TargetTelemetry::of_payload(payload.update(21, code)) == (TargetTelemetry {
                class: TargetTelemetry::of_payload(payload.update(21, code)).class,
                ..read
            })
        }),
{
}

/// An open report is believed exactly where both coordinates are below 100 km and both speeds
/// below 10 km/s. The signs do not matter.
pub proof fn law_plausible_reports(message: Seq<u64>, flipped: Seq<u64>)
    requires
        message.len() == 4,
        flipped.len() == 4,
        forall|i: int|
            0 <= i < 4 ==> #[trigger] message[i] < 0x8000_0000_0000_0000 && (flipped[i]
                == message[i] || flipped[i] == message[i] + 0x8000_0000_0000_0000),
    ensures
        plausible(message) <==> message[0] < METERS_100_000 && message[1] < METERS_100_000
            && message[2] < SPEED_10_000 && message[3] < SPEED_10_000,
        plausible(flipped) <==> plausible(message),
{
    assert forall|i: int| 0 <= i < 4 implies magnitude(#[trigger] message[i]) == message[i]
        && magnitude(flipped[i]) == message[i] by {
        let x = message[i];
        let y = flipped[i];
        assert(x & 0x7fff_ffff_ffff_ffff == x) by (bit_vector)
            requires
                x < 0x8000_0000_0000_0000u64,
        ;
        assert(y & 0x7fff_ffff_ffff_ffff == x) by (bit_vector)
            requires
                x < 0x8000_0000_0000_0000u64,
                y == x || y == x + 0x8000_0000_0000_0000u64,
        ;
    }
    assert(magnitude(message[0]) == message[0] && magnitude(flipped[0]) == message[0]);
    assert(magnitude(message[1]) == message[1] && magnitude(flipped[1]) == message[1]);
    assert(magnitude(message[2]) == message[2] && magnitude(flipped[2]) == message[2]);
    assert(magnitude(message[3]) == message[3] && magnitude(flipped[3]) == message[3]);
}

/// A missile keeps its target as long as a contact that is no missile has its id. Else it takes
/// the first contact that is no missile, and has none only where there is none.
pub proof fn law_missile_target(contacts: Seq<Contact>, current: Option<u32>)
    ensures
        ({
            let seen = exists|i: int|
                0 <= i < contacts.len() && #[trigger] contacts[i].class != Class::Missile && Some(
                    contacts[i].id,
                ) == current;
            let next = next_missile_target(contacts, current);
            if seen {
                next == current
            } else {
                match next {
                    Some(id) => exists|p: int|
                        {
                            &&& 0 <= p < contacts.len()
                            &&& #[trigger] contacts[p].id == id
                            &&& contacts[p].class != Class::Missile
                            &&& forall|j: int|
                                #![trigger contacts[j]]
                                0 <= j < p ==> contacts[j].class == Class::Missile
                        },
                    None => forall|j: int|
                        #![trigger contacts[j]]
                        0 <= j < contacts.len() ==> contacts[j].class == Class::Missile,
                }
            }
        }),
{
    if exists|i: int|
        0 <= i < contacts.len() && #[trigger] contacts[i].class != Class::Missile && Some(
            contacts[i].id,
        ) == current {
        let i = choose|i: int|
            0 <= i < contacts.len() && #[trigger] contacts[i].class != Class::Missile && Some(
                contacts[i].id,
            ) == current;
        assert(contacts[i].id == current->0);
    } else {
        if current is Some && target_valid(contacts, current->0) {
            let i = choose|i: int|
                0 <= i < contacts.len() && #[trigger] contacts[i].id == current->0
                    && contacts[i].class != Class::Missile;
            assert(contacts[i].class != Class::Missile);
        }
        if exists|i: int| is_first_non_missile(contacts, i) {
            let p = choose|i: int| is_first_non_missile(contacts, i);
            assert(is_first_non_missile(contacts, p));
            assert(contacts[p].id == next_missile_target(contacts, current)->0);
        } else {
            assert forall|j: int| #![trigger contacts[j]] 0 <= j < contacts.len() implies contacts[j].class
                == Class::Missile by {
                if contacts[j].class != Class::Missile {
                    lemma_first_non_missile_exists(contacts, j);
                }
            }
        }
    }
}

proof fn lemma_first_non_missile_exists(contacts: Seq<Contact>, i: int)
    requires
        0 <= i < contacts.len(),
        contacts[i].class != Class::Missile,
    ensures
        exists|p: int| is_first_non_missile(contacts, p),
    decreases i,
{
    if !is_first_non_missile(contacts, i) {
        let j = choose|j: int|
            #![trigger contacts[j]]
            0 <= j < i && contacts[j].class != Class::Missile;
        lemma_first_non_missile_exists(contacts, j);
    }
}

/// A missile pursues its target where that cannot escape, or less than ten seconds are to go;
/// else it cruises, where it has a cruise point or a target to lay one for. It dodges with 150
/// m/s to spare, more than 1.5 s to go, and a target that could not escape before.
pub proof fn law_course(guidance: MissileGuidance, outlook: Option<TargetOutlook>)
    ensures
        ({
            let course = guidance.course(outlook);
            let trapped = outlook is Some && outlook->0.nez_metric >= KEY_OF_ZERO;
            let defeats = trapped || (outlook is Some && outlook->0.t_go < SECONDS_10);
            let spare = outlook is Some && outlook->0.spare_dv is Some && outlook->0.spare_dv->0 >= N;
            &&& course.can_defeat == defeats
            &&& course.nez_metric_passed == trapped
            &&& course.steering is Pursue <==> defeats
            &&& course.steering == Steering::Idle <==> outlook is None && !guidance.cruising
            &&& defeats ==> course.steering->dodge == (guidance.has_entered_nez && spare
                && outlook->0.t_go > M)
            &&& course.cruise_point == CruisePoint::Keep <==> guidance.cruising
            &&& course.cruise_point == CruisePoint::Absent <==> outlook is None
                && !guidance.cruising
        }),
{
}

/// Settling the target changes the target, and what is remembered of it where it is another one.
/// Following a course sets whether there is a cruise point, and can only add that the target
/// cannot escape.
pub proof fn law_guidance_memory(guidance: MissileGuidance, contacts: Seq<Contact>, result: ProgradeResult)
    ensures
        ({
            let selected = guidance.after_select(contacts);
            &&& selected.target_id == next_missile_target(contacts, guidance.target_id)
            &&& selected.has_entered_nez <==> guidance.has_entered_nez && selected.target_id
                == guidance.target_id
            &&& selected.cruising == guidance.cruising
            &&& selected.target_channel == guidance.target_channel
        }),
        ({
            let followed = guidance.after_follow(result);
            &&& followed.cruising <==> result.cruise_point == CruisePoint::Keep
                || result.cruise_point == CruisePoint::AlongTarget
            &&& followed.has_entered_nez <==> guidance.has_entered_nez || result.nez_metric_passed
            &&& followed.target_id == guidance.target_id
            &&& followed.target_channel == guidance.target_channel
        }),
{
}

/// In the last half second a missile turns to its explosion whatever the turn takes; before
/// that, exactly where the turn takes at least as long as there is time.
pub proof fn law_last_turn(until_explosion: Measure, turn_time: Measure)
    ensures
        until_explosion < SECONDS_HALF ==> is_terminal(until_explosion, turn_time),
        until_explosion >= SECONDS_HALF ==> (is_terminal(until_explosion, turn_time) <==> turn_time
            >= until_explosion),
{
}

} // verus!
