//! A fighter in a duel: which contacts it watches, whom it hunts, which missiles it
//! shoots down, where it points, and when it fires.
//!
//! Each tick runs through the methods of `Ship` in the order in which they stand here.
use vstd::prelude::*;

use crate::aim::FireControl;
use crate::class::Class;
use crate::contact::Contact;
use crate::lookup::{
    as_place, find_class, find_last_class, find_nearest, find_ship, first_of_class,
    last_of_class, law_nearest, law_ship_place, nearest, ship_place,
};
use crate::measure::{
    Measure, DEGREES_15, DEGREES_5, DEGREES_HALF, DEGREES_015, METERS_150, METERS_500,
    SECONDS_3, SECONDS_4, SECONDS_5, SECONDS_QUARTER,
};
use crate::select::{
    first_min, first_min_of, is_candidate, kept, law_first_min, law_kept_in_order,
    lemma_kept_take, rank, ranking, FARTHEST,
};

verus! {

/// Missiles launched in one salvo.
pub const SALVO_SIZE: usize = 2;

/// The most missile threats that are reported.
pub const MAX_THREATS: usize = 3;

/// Ticks between scans of the missile that is being shot at.
pub const PD_INTERVAL: u32 = 4;

/// Ticks between scans of other threats and of ships.
pub const THREAT_INTERVAL: u32 = 10;

/// Rounds below which a magazine is emptied while nothing is coming in.
pub const LOW_MAGAZINE: u32 = 15;

/// Rounds fired at one missile before another one gets its turn.
pub const PD_BURST: u32 = 8;

/// Ticks before a missile is ready at which the ship starts to turn for it.
pub const MISSILE_LEAD_TICKS: u32 = 10;

/// Ticks before the gun is ready at which a shot at a ship is tried.
pub const GUN_LEAD_TICKS: u32 = 5;

/// Ticks after a reversal during which the ship is taken to be reversing.
pub const REVERSAL_TICKS: u32 = 300;

/// The tick at which the orbit is reversed whatever the speed.
pub const SCHEDULED_REVERSAL: u32 = 400;

/// Ticks that have to lie between the last reversal and the scheduled one.
pub const SCHEDULED_REVERSAL_GAP: u32 = 150;

/// What a count of ticks starts with where the event has not happened yet.
pub const LONG_AGO: u32 = 9999;

/// The course of a contact relative to the ship.
#[derive(Clone, Copy, Debug, PartialEq, Eq, Structural)]
pub struct Course {
    pub distance: Measure,
    /// The time until it would arrive at its closing speed, where it is closing in.
    pub arrival: Option<Measure>,
    /// The time until it is closest, where that lies ahead.
    pub closest_time: Option<Measure>,
    /// The distance at which it is closest.
    pub closest_approach: Measure,
    /// Whether a missile on this course can still turn far enough to hit.
    pub interceptable: bool,
    /// Whether the main gun has a solution for it.
    pub solvable: bool,
}

impl Course {
    /// Whether the contact closes in, can hit, and would arrive within `time`.
    pub open spec fn arrives_within(self, time: Measure) -> bool {
        self.distance > 0 && self.arrival is Some && self.arrival->0 <= time && self.interceptable
    }

    /// The distance of the contact, where it is on a course that comes close to the ship
    /// soon.
    pub open spec fn threat_key(self) -> Option<u64> {
        if self.distance > 0 && self.arrival is Some && self.interceptable
            && self.closest_time is Some && 0 < self.closest_time->0 <= SECONDS_5
            && self.closest_approach <= METERS_150 {
            Some(self.distance)
        } else {
            None
        }
    }

    /// The time of arrival of the contact, where it is to be shot at.
    pub open spec fn pd_key(self) -> Option<u64> {
        if self.arrives_within(SECONDS_3) && self.arrival->0 >= SECONDS_QUARTER && self.solvable {
            self.arrival
        } else {
            None
        }
    }

    /// Whether the contact closes in, can hit, and would arrive within `time`.
    pub fn hits_within(&self, time: Measure) -> (hits: bool)
        ensures
            hits == self.arrives_within(time),
    {
        match self.arrival {
            Some(arrival) => self.distance > 0 && arrival <= time && self.interceptable,
            None => false,
        }
    }

    fn threat(&self) -> (key: Option<u64>)
        ensures
            key == self.threat_key(),
    {
        if self.distance == 0 || self.arrival.is_none() || !self.interceptable {
            return None;
        }
        match self.closest_time {
            Some(time) => if time > 0 && time <= SECONDS_5 && self.closest_approach <= METERS_150 {
                Some(self.distance)
            } else {
                None
            },
            None => None,
        }
    }

    fn pd_arrival(&self) -> (key: Option<u64>)
        ensures
            key == self.pd_key(),
    {
        if !self.hits_within(SECONDS_3) || !self.solvable {
            return None;
        }
        match self.arrival {
            Some(arrival) => if arrival >= SECONDS_QUARTER {
                Some(arrival)
            } else {
                None
            },
            None => None,
        }
    }
}

/// The threat distances of all contacts.
pub open spec fn threat_distances(courses: Seq<Course>) -> Seq<Option<u64>> {
    Seq::new(courses.len(), |i: int| courses[i].threat_key())
}

/// The times of arrival of the contacts that are to be shot at.
pub open spec fn pd_arrivals(courses: Seq<Course>) -> Seq<Option<u64>> {
    Seq::new(courses.len(), |i: int| courses[i].pd_key())
}

/// Of the keys of all contacts, those of missiles.
pub open spec fn threat_keys(contacts: Seq<Contact>, threats: Seq<Option<u64>>) -> Seq<Option<u64>> {
    Seq::new(
        contacts.len(),
        |i: int|
            if contacts[i].class == Class::Missile {
                threats[i]
            } else {
                None
            },
    )
}

fn missile_keys(contacts: &Vec<Contact>, threats: &Vec<Option<u64>>) -> (keys: Vec<Option<u64>>)
    requires
        threats.len() == contacts.len(),
    ensures
        keys@ == threat_keys(contacts@, threats@),
{
    let ghost all = threat_keys(contacts@, threats@);
    let mut keys: Vec<Option<u64>> = Vec::new();
    let mut i: usize = 0;
    while i < contacts.len()
        invariant
            0 <= i <= contacts.len(),
            threats.len() == contacts.len(),
            all == threat_keys(contacts@, threats@),
            keys@ == all.take(i as int),
        decreases contacts.len() - i,
    {
        if contacts[i].class == Class::Missile {
            keys.push(threats[i]);
        } else {
            keys.push(None);
        }
        assert(all.take(i as int + 1) =~= all.take(i as int).push(all[i as int]));
        i = i + 1;
    }
    assert(keys@ =~= all);
    keys
}

/// The ids of the closest missile threats, closest first, and no more than three.
pub fn filter_missile_threats(contacts: &Vec<Contact>, courses: &Vec<Course>) -> (ids: Vec<u32>)
    requires
        courses.len() == contacts.len(),
    ensures
        ({
            let order = ranking(threat_keys(contacts@, threat_distances(courses@)));
            &&& ids@.len() == if order.len() < MAX_THREATS {
                order.len()
            } else {
                MAX_THREATS as nat
            }
            &&& forall|k: int|
                #![trigger ids@[k]]
                0 <= k < ids@.len() ==> ids@[k] == contacts@[order[k] as int].id
        }),
        ids@.len() <= 3,
{
    let mut threats: Vec<Option<u64>> = Vec::new();
    let mut i: usize = 0;
    while i < courses.len()
        invariant
            0 <= i <= courses.len(),
            threats@ == threat_distances(courses@).take(i as int),
        decreases courses.len() - i,
    {
        threats.push(courses[i].threat());
        proof {
            let all = threat_distances(courses@);
            assert(all.take(i as int + 1) =~= all.take(i as int).push(all[i as int]));
        }
        i = i + 1;
    }
    assert(threats@ =~= threat_distances(courses@));
    let keys = missile_keys(contacts, &threats);
    let order = rank(&keys);
    let mut ids: Vec<u32> = Vec::new();
    let mut k: usize = 0;
    while k < order.len() && k < MAX_THREATS
        invariant
            0 <= k <= order.len(),
            k <= MAX_THREATS,
            ids.len() == k,
            keys.len() == contacts.len(),
            crate::select::is_ranking(keys@, order@),
            forall|j: int|
                #![trigger ids@[j]]
                0 <= j < k ==> ids@[j] == contacts@[order@[j] as int].id,
        decreases order.len() - k,
    {
        let place: usize = order[k];
        assert(order@[k as int] < keys@.len());
        ids.push(contacts[place].id);
        k = k + 1;
    }
    ids
}

/// Where a ship is that flies round a circle.
#[derive(Clone, Copy, Debug, PartialEq, Eq, Structural)]
pub enum OrbitZone {
    /// Well inside the circle: it flies outwards.
    Inside,
    /// Well outside the circle: it flies to the circle on a tangent.
    Outside,
    /// Close to the circle: it keeps to it.
    OnCircle,
}

/// Where a ship is, given its distance from the centre and between which distances it is close
/// to the circle.
pub fn orbit_zone(distance: Measure, inner: Measure, outer: Measure) -> (zone: OrbitZone)
    ensures
        zone == (if distance < inner {
            OrbitZone::Inside
        } else if distance > outer {
            OrbitZone::Outside
        } else {
            OrbitZone::OnCircle
        }),
{
    if distance < inner {
        OrbitZone::Inside
    } else if distance > outer {
        OrbitZone::Outside
    } else {
        OrbitZone::OnCircle
    }
}

/// Whether the prey is within reach of the gun: it is not where the ship is, and a round would
/// reach it in less than three seconds.
pub fn in_gun_reach(distance: Measure, flight_time: Measure) -> (reach: bool)
    ensures
        reach == (distance > 0 && flight_time < SECONDS_3),
{
    distance > 0 && flight_time < SECONDS_3
}

/// An aim at a target: the angle by which the nose is off, and how many ticks the round
/// would fly.
#[derive(Clone, Copy, Debug, PartialEq, Eq, Structural)]
pub struct Shot {
    pub angle: Measure,
    pub flight_ticks: u32,
}

/// Where the nose should point.
#[derive(Clone, Copy, Debug, PartialEq, Eq, Structural)]
pub enum HeadingChoice {
    PointDefense,
    Gun,
    Missile,
    Thrust,
}

/// Where the position of a missile's target comes from.
#[derive(Clone, Copy, Debug, PartialEq, Eq, Structural)]
pub enum TargetSource {
    /// The contact at this place.
    Contact { place: usize },
    /// The position at which the target was last seen.
    LastKnown,
}

/// What the missile launcher does.
#[derive(Clone, Copy, Debug, PartialEq, Eq, Structural)]
pub struct MissileOrders {
    /// What the missiles under way are told about.
    pub target: Option<TargetSource>,
    /// Whether another missile is launched.
    pub launch: bool,
}

/// Whether turning for a gun solution cannot wait: the gun is ready, or the turn takes
/// most of what is left of the reload. A solution is given by the second of the two.
pub open spec fn must_turn(solution: Option<bool>, reload_ticks: u32) -> bool {
    solution is Some && (reload_ticks == 0 || solution->0)
}

/// Where the nose should point. Point defence comes first, then the gun, then a missile
/// that is about ready, and then the thrust; while the orbit is being reversed there is
/// only point defence and thrust.
pub open spec fn heading_choice(
    pd: Option<bool>,
    gun: Option<bool>,
    missile: bool,
    gun_reload: u32,
    missile_reload: u32,
    reversing: bool,
) -> HeadingChoice {
    if must_turn(pd, gun_reload) {
        HeadingChoice::PointDefense
    } else if reversing {
        HeadingChoice::Thrust
    } else if pd is None && must_turn(gun, gun_reload) {
        HeadingChoice::Gun
    } else if missile && missile_reload <= MISSILE_LEAD_TICKS {
        HeadingChoice::Missile
    } else {
        HeadingChoice::Thrust
    }
}

fn cannot_wait(solution: Option<bool>, reload_ticks: u32) -> (turn: bool)
    ensures
        turn == must_turn(solution, reload_ticks),
{
    match solution {
        Some(slow) => reload_ticks == 0 || slow,
        None => false,
    }
}

/// The entries of the watch list for some contacts: each at the interval for threats.
pub open spec fn watch_entries(contacts: Seq<Contact>, flags: Seq<bool>) -> Seq<(u32, u32)> {
    kept(contacts, flags).map_values(|c: Contact| (c.id, THREAT_INTERVAL))
}

/// Which contacts are missiles on a threatening course, but for the one being shot at.
pub open spec fn other_threats(contacts: Seq<Contact>, courses: Seq<Course>, pd: Option<u32>) -> Seq<bool> {
    Seq::new(
        contacts.len(),
        |i: int|
            contacts[i].class == Class::Missile && pd != Some(contacts[i].id)
                && courses[i].arrives_within(SECONDS_4),
    )
}

/// Which contacts are neither missiles nor torpedoes, but for the one being shot at.
pub open spec fn other_ships(contacts: Seq<Contact>, pd: Option<u32>) -> Seq<bool> {
    Seq::new(
        contacts.len(),
        |i: int| !contacts[i].class.is_munition() && pd != Some(contacts[i].id),
    )
}

/// Whether a watch list has an entry for `id`.
pub open spec fn lists(entries: Seq<(u32, u32)>, id: u32) -> bool {
    exists|i: int| 0 <= i < entries.len() && (#[trigger] entries[i]).0 == id
}

/// The watch list: the missile being shot at, then other threatening missiles, then ships,
/// then the fighter being hunted where it is not listed yet.
pub open spec fn watch_list(
    contacts: Seq<Contact>,
    courses: Seq<Course>,
    pd: Option<u32>,
    target: Option<u32>,
) -> Seq<(u32, u32)> {
    let head = match pd {
        Some(id) => seq![(id, PD_INTERVAL)],
        None => Seq::<(u32, u32)>::empty(),
    };
    let seen = head + watch_entries(contacts, other_threats(contacts, courses, pd))
        + watch_entries(contacts, other_ships(contacts, pd));
    match target {
        Some(id) if !lists(seen, id) => seen.push((id, THREAT_INTERVAL)),
        _ => seen,
    }
}

fn push_watched(entries: &mut Vec<(u32, u32)>, contacts: &Vec<Contact>, flags: &Vec<bool>)
    requires
        flags.len() == contacts.len(),
    ensures
        final(entries)@ == old(entries)@ + watch_entries(contacts@, flags@),
{
    let ghost before = entries@;
    let mut i: usize = 0;
    assert(contacts@.take(0) =~= Seq::empty());
    assert(before + watch_entries(contacts@.take(0), flags@) =~= before);
    while i < contacts.len()
        invariant
            0 <= i <= contacts.len(),
            flags.len() == contacts.len(),
            entries@ == before + watch_entries(contacts@.take(i as int), flags@),
        decreases contacts.len() - i,
    {
        proof {
            lemma_kept_take(contacts@, flags@, i as int + 1);
        }
        if flags[i] {
            entries.push((contacts[i].id, THREAT_INTERVAL));
            proof {
                let k = kept(contacts@.take(i as int), flags@);
                assert(k.push(contacts@[i as int]).map_values(
                    |c: Contact| (c.id, THREAT_INTERVAL),
                ) =~= k.map_values(|c: Contact| (c.id, THREAT_INTERVAL)).push(
                    (contacts@[i as int].id, THREAT_INTERVAL),
                ));
            }
        }
        assert(entries@ =~= before + watch_entries(contacts@.take(i as int + 1), flags@));
        i = i + 1;
    }
    assert(contacts@.take(i as int) =~= contacts@);
}

/// Whether a missile among the contacts is about to arrive.
pub open spec fn missile_incoming(contacts: Seq<Contact>, courses: Seq<Course>) -> bool {
    exists|i: int|
        0 <= i < contacts.len() && #[trigger] contacts[i].class == Class::Missile
            && courses[i].arrives_within(SECONDS_5)
}

/// The id of the fighter to hunt: the one hunted before as long as it is seen; else the
/// closest one; else the one closest to where a fighter was last seen.
pub open spec fn next_prey(
    contacts: Seq<Contact>,
    current: Option<u32>,
    distances: Seq<u64>,
    last_distances: Option<Seq<u64>>,
) -> Option<u32> {
    match prey_place(contacts, current, distances, last_distances) {
        Some(i) => Some(contacts[i].id),
        None => None,
    }
}

/// The place of the fighter to hunt.
pub open spec fn prey_place(
    contacts: Seq<Contact>,
    current: Option<u32>,
    distances: Seq<u64>,
    last_distances: Option<Seq<u64>>,
) -> Option<int> {
    if current is Some && ship_place(contacts, current->0, Class::Fighter) is Some {
        ship_place(contacts, current->0, Class::Fighter)
    } else if nearest(contacts, Class::Fighter, distances) is Some {
        nearest(contacts, Class::Fighter, distances)
    } else {
        match last_distances {
            Some(d) => nearest(contacts, Class::Fighter, d),
            None => None,
        }
    }
}

/// Whether `i` is the first place with a key whose contact has this id.
pub open spec fn is_first_keyed(contacts: Seq<Contact>, keys: Seq<Option<u64>>, id: u32, i: int) -> bool {
    &&& 0 <= i < contacts.len()
    &&& is_candidate(keys[i]) && contacts[i].id == id
    &&& forall|j: int|
        #![trigger contacts[j]]
        0 <= j < i ==> !(is_candidate(keys[j]) && contacts[j].id == id)
}

/// The first place with a key whose contact has this id.
pub open spec fn keyed_place(contacts: Seq<Contact>, keys: Seq<Option<u64>>, id: u32) -> Option<int> {
    if exists|i: int| is_first_keyed(contacts, keys, id, i) {
        Some(choose|i: int| is_first_keyed(contacts, keys, id, i))
    } else {
        None
    }
}

/// The place of the missile shot at before, where it can still be shot at.
pub open spec fn current_place(contacts: Seq<Contact>, keys: Seq<Option<u64>>, current: Option<u32>) -> Option<
    int,
> {
    match current {
        Some(id) => keyed_place(contacts, keys, id),
        None => None,
    }
}

/// The missile to shoot at: the one shot at before, until it has had its burst and there
/// is another; else the one that arrives first.
pub open spec fn pd_place(contacts: Seq<Contact>, keys: Seq<Option<u64>>, current: Option<u32>, fired: u32) -> Option<
    int,
> {
    match current_place(contacts, keys, current) {
        Some(place) => if fired >= PD_BURST && first_min_of(keys.update(place, None)) is Some {
            first_min_of(keys.update(place, None))
        } else {
            Some(place)
        },
        None => first_min_of(keys),
    }
}

/// Whether the missile shot at before keeps its turn.
pub open spec fn pd_stays(contacts: Seq<Contact>, keys: Seq<Option<u64>>, current: Option<u32>, fired: u32) -> bool {
    match current_place(contacts, keys, current) {
        Some(place) => !(fired >= PD_BURST && first_min_of(keys.update(place, None)) is Some),
        None => false,
    }
}

fn find_keyed(contacts: &Vec<Contact>, keys: &Vec<Option<u64>>, id: u32) -> (place: Option<usize>)
    requires
        keys.len() == contacts.len(),
    ensures
        as_place(place) == keyed_place(contacts@, keys@, id),
        place matches Some(i) ==> is_first_keyed(contacts@, keys@, id, i as int),
{
    let mut i: usize = 0;
    while i < contacts.len()
        invariant
            0 <= i <= contacts.len(),
            keys.len() == contacts.len(),
            forall|j: int|
                #![trigger contacts@[j]]
                0 <= j < i ==> !(is_candidate(keys@[j]) && contacts@[j].id == id),
        decreases contacts.len() - i,
    {
        let keyed = match keys[i] {
            Some(key) => key < crate::select::FARTHEST,
            None => false,
        };
        if keyed && contacts[i].id == id {
            proof {
                assert(is_first_keyed(contacts@, keys@, id, i as int));
                let k = choose|k: int| is_first_keyed(contacts@, keys@, id, k);
                assert(is_first_keyed(contacts@, keys@, id, k));
                if k < i {
                    assert(contacts@[k].id == id);
                } else if k > i {
                    assert(contacts@[i as int].id == id);
                }
            }
            return Some(i);
        }
        i = i + 1;
    }
    None
}

/// The state of a fighter in a duel.
#[derive(Clone, Copy, Debug, PartialEq, Eq, Structural)]
pub struct Ship {
    pub fighter_target_id: Option<u32>,
    pub fighter_msgs_received: u32,
    /// Whether it is known where a fighter was last seen.
    pub last_known: bool,
    /// Whether the orbit runs counter-clockwise.
    pub orbit_forward: bool,
    pub num_direction_changes: u32,
    pub pd_target_id: Option<u32>,
    pub pd_bullets_fired: u32,
    pub gun0: FireControl,
    pub gun1: FireControl,
    pub force_reload: bool,
    pub ticks_since_reversal: u32,
    pub salvo_missiles_fired: usize,
    pub ticks_since_missile_fired: u32,
}

impl Ship {
    /// The magazines are in order, and the salvo counter is below the size of a salvo.
    pub open spec fn wf(self) -> bool {
        self.gun0.wf() && self.gun1.wf() && self.salvo_missiles_fired < SALVO_SIZE
    }

    /// A fighter at the start of a duel.
    pub fn new(orbit_forward: bool) -> (ship: Self)
        ensures
            ship.wf(),
            ship.fighter_target_id is None,
            ship.fighter_msgs_received == 0,
            !ship.last_known,
            ship.orbit_forward == orbit_forward,
            ship.num_direction_changes == 0,
            ship.pd_target_id is None,
            ship.pd_bullets_fired == 0,
            ship.gun0.gun_id == 0 && ship.gun0.magazine_size == crate::aim::GUN_MAGAZINE
                && ship.gun0.bullets_in_magazine == crate::aim::GUN_MAGAZINE,
            ship.gun1.gun_id == 1 && ship.gun1.magazine_size == crate::aim::LAUNCHER_MAGAZINE
                && ship.gun1.bullets_in_magazine == crate::aim::LAUNCHER_MAGAZINE,
            !ship.force_reload,
            ship.ticks_since_reversal == LONG_AGO,
            ship.salvo_missiles_fired == 0,
            ship.ticks_since_missile_fired == LONG_AGO,
    {
        Ship {
            fighter_target_id: None,
            fighter_msgs_received: 0,
            last_known: false,
            orbit_forward,
            num_direction_changes: 0,
            pd_target_id: None,
            pd_bullets_fired: 0,
            gun0: FireControl::new(0),
            gun1: FireControl::new(1),
            force_reload: false,
            ticks_since_reversal: LONG_AGO,
            salvo_missiles_fired: 0,
            ticks_since_missile_fired: LONG_AGO,
        }
    }

    /// Counts one more tick since the last launch and, on a fighter, since the last
    /// reversal. A missile counts nothing.
    pub fn begin_tick(&mut self, class: Class)
        ensures
            *final(self) == (Ship {
                ticks_since_missile_fired: if class == Class::Missile
                    || old(self).ticks_since_missile_fired == u32::MAX {
                    old(self).ticks_since_missile_fired
                } else {
                    (old(self).ticks_since_missile_fired + 1) as u32
                },
                ticks_since_reversal: if class != Class::Fighter
                    || old(self).ticks_since_reversal == u32::MAX {
                    old(self).ticks_since_reversal
                } else {
                    (old(self).ticks_since_reversal + 1) as u32
                },
                ..*old(self)
            }),
    {
        if class == Class::Missile {
            return;
        }
        self.ticks_since_missile_fired = self.ticks_since_missile_fired.saturating_add(1);
        if class == Class::Fighter {
            self.ticks_since_reversal = self.ticks_since_reversal.saturating_add(1);
        }
    }

    /// The watch list for the radar: ids and the ticks between their scans.
    pub fn watched_contacts(&self, contacts: &Vec<Contact>, courses: &Vec<Course>) -> (entries: Vec<(u32, u32)>)
        requires
            courses.len() == contacts.len(),
        ensures
            entries@ == watch_list(
                contacts@,
                courses@,
                self.pd_target_id,
                self.fighter_target_id,
            ),
    {
        let mut entries: Vec<(u32, u32)> = Vec::new();
        if let Some(id) = self.pd_target_id {
            entries.push((id, PD_INTERVAL));
        }
        let ghost threat_flags = other_threats(contacts@, courses@, self.pd_target_id);
        let ghost ship_flags = other_ships(contacts@, self.pd_target_id);
        let mut threats: Vec<bool> = Vec::new();
        let mut ships: Vec<bool> = Vec::new();
        let mut i: usize = 0;
        while i < contacts.len()
            invariant
                0 <= i <= contacts.len(),
                courses.len() == contacts.len(),
                threat_flags == other_threats(contacts@, courses@, self.pd_target_id),
                ship_flags == other_ships(contacts@, self.pd_target_id),
                threats@ == threat_flags.take(i as int),
                ships@ == ship_flags.take(i as int),
            decreases contacts.len() - i,
        {
            let c = contacts[i];
            let shot_at = match self.pd_target_id {
                Some(id) => id == c.id,
                None => false,
            };
            let munition = c.class == Class::Missile || c.class == Class::Torpedo;
            threats.push(c.class == Class::Missile && !shot_at && courses[i].hits_within(SECONDS_4));
            ships.push(!munition && !shot_at);
            proof {
                let k = i as int;
                assert(threat_flags.take(k + 1) =~= threat_flags.take(k).push(threat_flags[k]));
                assert(ship_flags.take(k + 1) =~= ship_flags.take(k).push(ship_flags[k]));
            }
            i = i + 1;
        }
        assert(threats@ =~= threat_flags);
        assert(ships@ =~= ship_flags);
        push_watched(&mut entries, contacts, &threats);
        push_watched(&mut entries, contacts, &ships);
        if let Some(id) = self.fighter_target_id {
            let mut listed = false;
            let mut k: usize = 0;
            while k < entries.len()
                invariant
                    0 <= k <= entries.len(),
                    listed == exists|j: int| 0 <= j < k && (#[trigger] entries@[j]).0 == id,
                decreases entries.len() - k,
            {
                if entries[k].0 == id {
                    assert(entries@[k as int].0 == id);
                    listed = true;
                }
                k = k + 1;
            }
            if !listed {
                entries.push((id, THREAT_INTERVAL));
            }
        }
        entries
    }

    /// Notes whether a fighter is in sight. Gives the place of the last one in the list,
    /// whose position is to be remembered.
    pub fn note_fighters(&mut self, contacts: &Vec<Contact>) -> (seen: Option<usize>)
        ensures
            as_place(seen) == last_of_class(contacts@, Class::Fighter),
            *final(self) == (Ship {
                last_known: old(self).last_known || seen is Some,
                ..*old(self)
            }),
    {
        let seen = find_last_class(contacts, Class::Fighter);
        if seen.is_some() {
            self.last_known = true;
        }
        seen
    }

    /// Decides whether the rest of the magazine is fired off to reload: when it is low but
    /// not empty and no missile is about to arrive.
    pub fn update_force_reload(&mut self, contacts: &Vec<Contact>, courses: &Vec<Course>, gun_reload: u32)
        requires
            courses.len() == contacts.len(),
        ensures
            *final(self) == (Ship {
                force_reload: 0 < old(self).gun0.rounds(gun_reload) < LOW_MAGAZINE
                    && !missile_incoming(contacts@, courses@),
                ..*old(self)
            }),
            final(self).force_reload <==> 1 <= old(self).gun0.rounds(gun_reload) <= 14
                && !missile_incoming(contacts@, courses@),
    {
        let mut incoming = false;
        let mut i: usize = 0;
        while i < contacts.len()
            invariant
                0 <= i <= contacts.len(),
                courses.len() == contacts.len(),
                incoming == exists|j: int|
                    0 <= j < i && #[trigger] contacts@[j].class == Class::Missile && courses@[j].arrives_within(SECONDS_5),
            decreases contacts.len() - i,
        {
            if contacts[i].class == Class::Missile && courses[i].hits_within(SECONDS_5) {
                assert(contacts@[i as int].class == Class::Missile);
                incoming = true;
            }
            i = i + 1;
        }
        let rounds: u32 = self.gun0.bullets_in_magazine(gun_reload);
        self.force_reload = rounds < LOW_MAGAZINE && rounds > 0 && !incoming;
    }

    /// Whether a fighter is waiting to be told its target.
    pub fn awaits_assignment(&self) -> (waits: bool)
        ensures
            waits == (self.fighter_target_id is None),
    {
        self.fighter_target_id.is_none()
    }

    /// Counts a message to a fighter that waits for its target. Tells whether it is the
    /// one for this ship: ships 2, 3 and 4 take the first, second and third.
    pub fn take_assignment(&mut self, ship_id: u32) -> (mine: bool)
        requires
            old(self).fighter_msgs_received < u32::MAX,
        ensures
            mine == crate::fighter::own_message(ship_id, old(self).fighter_msgs_received + 1),
            *final(self) == (Ship {
                fighter_msgs_received: (old(self).fighter_msgs_received + 1) as u32,
                ..*old(self)
            }),
    {
        self.fighter_msgs_received = self.fighter_msgs_received + 1;
        ship_id >= 2 && ship_id <= 4 && self.fighter_msgs_received == ship_id - 1
    }

    /// Takes over the target that was assigned by radio.
    pub fn accept_target(&mut self, contact_id: u32)
        ensures
            *final(self) == (Ship {
                fighter_target_id: Some(contact_id),
                last_known: true,
                ..*old(self)
            }),
    {
        self.fighter_target_id = Some(contact_id);
        self.last_known = true;
    }

    /// Settles whom to hunt. `distances` are those from the ship, `last_distances` those
    /// from where a fighter was last seen. Gives the place of the prey, whose position is
    /// to be remembered.
    pub fn update_target(&mut self, contacts: &Vec<Contact>, distances: &Vec<u64>, last_distances: &Vec<u64>) -> (seen: Option<
        usize,
    >)
        requires
            distances.len() == contacts.len(),
            last_distances.len() == contacts.len(),
        ensures
            ({
                let last = if old(self).last_known {
                    Some(last_distances@)
                } else {
                    None
                };
                let place = prey_place(contacts@, old(self).fighter_target_id, distances@, last);
                &&& as_place(seen) == place
                &&& *final(self) == (Ship {
                    fighter_target_id: next_prey(
                        contacts@,
                        old(self).fighter_target_id,
                        distances@,
                        last,
                    ),
                    last_known: old(self).last_known || place is Some,
                    ..*old(self)
                })
            }),
    {
        let mut seen: Option<usize> = None;
        if let Some(id) = self.fighter_target_id {
            match find_ship(contacts, id, Class::Fighter) {
                Some(place) => {
                    seen = Some(place);
                    self.last_known = true;
                },
                None => {
                    self.fighter_target_id = None;
                },
            }
        }
        if self.fighter_target_id.is_none() {
            if let Some(place) = find_nearest(contacts, Class::Fighter, distances) {
                self.fighter_target_id = Some(contacts[place].id);
                self.last_known = true;
                seen = Some(place);
            }
        }
        if self.fighter_target_id.is_none() && self.last_known {
            if let Some(place) = find_nearest(contacts, Class::Fighter, last_distances) {
                self.fighter_target_id = Some(contacts[place].id);
                seen = Some(place);
            }
        }
        seen
    }

    /// The place of the fighter being hunted, where it is seen.
    pub fn target_place(&self, contacts: &Vec<Contact>) -> (place: Option<usize>)
        ensures
            as_place(place) == (match self.fighter_target_id {
                Some(id) => ship_place(contacts@, id, Class::Fighter),
                None => None::<int>,
            }),
            place matches Some(i) ==> i < contacts.len(),
    {
        match self.fighter_target_id {
            Some(id) => find_ship(contacts, id, Class::Fighter),
            None => None,
        }
    }

    /// Turns the orbit round when, `off_circle` away from the circle, it would lead towards
    /// a prey in sight.
    pub fn flee(&mut self, contacts: &Vec<Contact>, off_circle: Measure, towards: bool)
        ensures
            *final(self) == (if old(self).fighter_target_id is Some && ship_place(
                contacts@,
                old(self).fighter_target_id->0,
                Class::Fighter,
            ) is Some && off_circle > METERS_500 && towards {
                Ship {
                    orbit_forward: !old(self).orbit_forward,
                    ticks_since_reversal: 0,
                    ..*old(self)
                }
            } else {
                *old(self)
            }),
    {
        if self.target_place(contacts).is_some() && off_circle > METERS_500 && towards {
            self.orbit_forward = !self.orbit_forward;
            self.ticks_since_reversal = 0;
        }
    }

    /// Turns the orbit round when the ship is fast enough, or as scheduled. Tells whether it
    /// does, in which case a new speed is to be drawn.
    pub fn reverse_orbit(&mut self, tick: u32, fast: bool) -> (reversed: bool)
        requires
            old(self).num_direction_changes < u32::MAX,
        ensures
            reversed == (fast || (tick == SCHEDULED_REVERSAL && old(self).ticks_since_reversal
                >= SCHEDULED_REVERSAL_GAP)),
            !fast ==> (reversed <==> tick == 400 && old(self).ticks_since_reversal >= 150),
            *final(self) == (if reversed {
                Ship {
                    orbit_forward: !old(self).orbit_forward,
                    num_direction_changes: (old(self).num_direction_changes + 1) as u32,
                    ticks_since_reversal: 0,
                    ..*old(self)
                }
            } else {
                *old(self)
            }),
    {
        let reversed = fast || (tick == SCHEDULED_REVERSAL && self.ticks_since_reversal
            >= SCHEDULED_REVERSAL_GAP);
        if reversed {
            self.orbit_forward = !self.orbit_forward;
            self.num_direction_changes = self.num_direction_changes + 1;
            self.ticks_since_reversal = 0;
        }
        reversed
    }

    /// Whether the ship is still reversing its orbit; `slow` tells whether it is below its
    /// orbital speed.
    pub fn is_reversing_orbit(&self, slow: bool) -> (reversing: bool)
        ensures
            reversing == (self.ticks_since_reversal < REVERSAL_TICKS && slow),
            reversing <==> slow && self.ticks_since_reversal < 300,
    {
        self.ticks_since_reversal < REVERSAL_TICKS && slow
    }

    /// Settles which missile to shoot at, and gives its place.
    pub fn select_pd_target(&mut self, contacts: &Vec<Contact>, courses: &Vec<Course>) -> (place: Option<
        usize,
    >)
        requires
            courses.len() == contacts.len(),
        ensures
            ({
                let keys = threat_keys(contacts@, pd_arrivals(courses@));
                let choice = pd_place(
                    contacts@,
                    keys,
                    old(self).pd_target_id,
                    old(self).pd_bullets_fired,
                );
                &&& as_place(place) == choice
                &&& *final(self) == (if pd_stays(
                    contacts@,
                    keys,
                    old(self).pd_target_id,
                    old(self).pd_bullets_fired,
                ) {
                    *old(self)
                } else {
                    Ship {
                        pd_target_id: match choice {
                            Some(i) => Some(contacts@[i].id),
                            None => None,
                        },
                        pd_bullets_fired: 0,
                        ..*old(self)
                    }
                })
            }),
    {
        let mut arrivals: Vec<Option<u64>> = Vec::new();
        let mut i: usize = 0;
        while i < courses.len()
            invariant
                0 <= i <= courses.len(),
                arrivals@ == pd_arrivals(courses@).take(i as int),
            decreases courses.len() - i,
        {
            arrivals.push(courses[i].pd_arrival());
            proof {
                let all = pd_arrivals(courses@);
                assert(all.take(i as int + 1) =~= all.take(i as int).push(all[i as int]));
            }
            i = i + 1;
        }
        assert(arrivals@ =~= pd_arrivals(courses@));
        let keys = missile_keys(contacts, &arrivals);
        let current = match self.pd_target_id {
            Some(id) => find_keyed(contacts, &keys, id),
            None => None,
        };
        match current {
            Some(place) => {
                if self.pd_bullets_fired < PD_BURST {
                    return Some(place);
                }
                let mut others = missile_keys(contacts, &arrivals);
                others.set(place, None);
                match first_min(&others) {
                    Some(other) => {
                        self.pd_target_id = Some(contacts[other].id);
                        self.pd_bullets_fired = 0;
                        Some(other)
                    },
                    None => Some(place),
                }
            },
            None => {
                self.pd_bullets_fired = 0;
                match first_min(&keys) {
                    Some(place) => {
                        self.pd_target_id = Some(contacts[place].id);
                        Some(place)
                    },
                    None => {
                        self.pd_target_id = None;
                        None
                    },
                }
            },
        }
    }

    /// What a missile would be launched at, where the launcher is about ready: the prey in
    /// sight, else where a fighter was last seen.
    pub fn missile_aim(&self, contacts: &Vec<Contact>, missile_reload: u32) -> (source: Option<TargetSource>)
        ensures
            source == (if missile_reload > MISSILE_LEAD_TICKS {
                None
            } else if self.fighter_target_id is Some && ship_place(
                contacts@,
                self.fighter_target_id->0,
                Class::Fighter,
            ) is Some {
                Some(
                    TargetSource::Contact {
                        place: ship_place(
                            contacts@,
                            self.fighter_target_id->0,
                            Class::Fighter,
                        )->0 as usize,
                    },
                )
            } else if self.last_known {
                Some(TargetSource::LastKnown)
            } else {
                None
            }),
            missile_reload > 10 ==> source is None,
            missile_reload <= 10 && self.last_known ==> source is Some,
    {
        if missile_reload > MISSILE_LEAD_TICKS {
            return None;
        }
        match self.target_place(contacts) {
            Some(place) => Some(TargetSource::Contact { place }),
            None => if self.last_known {
                Some(TargetSource::LastKnown)
            } else {
                None
            },
        }
    }

    /// Where the nose should point. `pd` and `gun` are there where the gun has a solution
    /// for the missile shot at and for the prey, and tell whether the turn takes most of
    /// what is left of the reload; `missile` tells whether the launcher has a solution.
    pub fn compute_desired_heading(
        pd: Option<bool>,
        gun: Option<bool>,
        missile: bool,
        gun_reload: u32,
        missile_reload: u32,
        reversing: bool,
    ) -> (choice: HeadingChoice)
        ensures
            choice == heading_choice(pd, gun, missile, gun_reload, missile_reload, reversing),
    {
        if reversing {
            if cannot_wait(pd, gun_reload) {
                return HeadingChoice::PointDefense;
            }
            return HeadingChoice::Thrust;
        }
        if pd.is_some() {
            if cannot_wait(pd, gun_reload) {
                return HeadingChoice::PointDefense;
            }
        } else if cannot_wait(gun, gun_reload) {
            return HeadingChoice::Gun;
        }
        if missile_reload <= MISSILE_LEAD_TICKS && missile {
            return HeadingChoice::Missile;
        }
        HeadingChoice::Thrust
    }

    /// Pulls the trigger of the main gun: to empty the magazine, else at the missile shot
    /// at, else at the prey. Tells whether the gun fires, and when the round arrives.
    pub fn fire_main_gun(&mut self, gun_reload: u32, tick: u32, pd: Option<Shot>, gun: Option<Shot>) -> (shot: (
        bool,
        Option<u32>,
    ))
        requires
            old(self).pd_bullets_fired < u32::MAX,
            pd matches Some(s) ==> tick + s.flight_ticks <= u32::MAX,
            gun matches Some(s) ==> tick + s.flight_ticks <= u32::MAX,
        ensures
            old(self).wf() ==> final(self).wf(),
            ({
                let at_pd = !old(self).force_reload && pd is Some && pd->0.angle < DEGREES_HALF
                    && gun_reload == 0;
                let at_prey = !old(self).force_reload && pd is None && old(
                    self,
                ).fighter_target_id is Some && gun is Some && gun->0.angle < DEGREES_015 && gun_reload
                    <= GUN_LEAD_TICKS;
                &&& shot.0 == (gun_reload == 0 && (old(self).force_reload || at_pd || at_prey))
                &&& *final(self) == (Ship {
                    gun0: if shot.0 {
                        old(self).gun0.after_trigger(0)
                    } else {
                        old(self).gun0
                    },
                    pd_bullets_fired: if at_pd {
                        (old(self).pd_bullets_fired + 1) as u32
                    } else {
                        old(self).pd_bullets_fired
                    },
                    ..*old(self)
                })
                &&& shot.1 == (if old(self).gun0.gun_id != 0 {
                    None
                } else if at_pd {
                    Some((tick + pd->0.flight_ticks) as u32)
                } else if at_prey && gun_reload == 0 {
                    Some((tick + gun->0.flight_ticks) as u32)
                } else {
                    None
                })
            }),
    {
        if self.force_reload {
            let fired = self.gun0.fire(gun_reload);
            return (fired, None);
        }
        match pd {
            Some(s) => {
                if gun_reload == 0 && s.angle < DEGREES_HALF {
                    let shot = self.gun0.fire_at(gun_reload, tick, s.flight_ticks);
                    self.pd_bullets_fired = self.pd_bullets_fired + 1;
                    return shot;
                }
                (false, None)
            },
            None => {
                if self.fighter_target_id.is_some() {
                    if let Some(s) = gun {
                        if gun_reload <= GUN_LEAD_TICKS && s.angle < DEGREES_015 {
                            return self.gun0.fire_at(gun_reload, tick, s.flight_ticks);
                        }
                    }
                }
                (false, None)
            },
        }
    }

    /// Whether to boost: while the orbit is reversed, when the nose is off the thrust by a
    /// small angle only, and when it does not have to turn to shoot at a missile.
    pub fn boosts(
        pd: Option<bool>,
        gun: Option<bool>,
        missile: bool,
        gun_reload: u32,
        missile_reload: u32,
        reversing: bool,
        angle: Measure,
    ) -> (boost: bool)
        ensures
            boost == (reversing && angle < DEGREES_5 && !must_turn(pd, gun_reload)),
    {
        let solution = if reversing || pd.is_some() {
            pd
        } else {
            gun
        };
        let aiming = cannot_wait(solution, gun_reload);
        let turning = !reversing && !aiming && missile_reload <= MISSILE_LEAD_TICKS && missile;
        reversing && !aiming && !turning && angle < DEGREES_5
    }

    /// Settles what the missiles are told about and whether another one is launched: when
    /// the launcher is ready, the nose points close enough, and there is a solution, which
    /// is given by the ticks that the missile would fly.
    pub fn fire_missile(
        &mut self,
        contacts: &Vec<Contact>,
        missile_reload: u32,
        tick: u32,
        angle: Measure,
        solution: Option<u32>,
    ) -> (orders: MissileOrders)
        requires
            old(self).salvo_missiles_fired < SALVO_SIZE,
            solution matches Some(flight) ==> tick + flight <= u32::MAX,
        ensures
            old(self).wf() ==> final(self).wf(),
            orders.target == (match first_of_class(contacts@, Class::Fighter) {
                Some(i) => Some(TargetSource::Contact { place: i as usize }),
                None => if old(self).last_known {
                    Some(TargetSource::LastKnown)
                } else {
                    None
                },
            }),
            orders.launch == (orders.target is Some && missile_reload == 0 && angle <= DEGREES_15
                && solution is Some),
            orders.launch ==> final(self).salvo_missiles_fired + old(self).salvo_missiles_fired == 1,
            *final(self) == (if orders.launch {
                Ship {
                    salvo_missiles_fired: if old(self).salvo_missiles_fired == 0 {
                        1
                    } else {
                        ((old(self).salvo_missiles_fired + 1) % SALVO_SIZE as int) as usize
                    },
                    gun1: old(self).gun1.after_trigger(0),
                    ticks_since_missile_fired: 0,
                    ..*old(self)
                }
            } else {
                *old(self)
            }),
    {
        let target = match find_class(contacts, Class::Fighter) {
            Some(place) => Some(TargetSource::Contact { place }),
            None => if self.last_known {
                Some(TargetSource::LastKnown)
            } else {
                None
            },
        };
        let mut launch = false;
        if target.is_some() && missile_reload == 0 && angle <= DEGREES_15 {
            if let Some(flight) = solution {
                if self.salvo_missiles_fired == 0 {
                    self.salvo_missiles_fired = 1;
                } else {
                    self.salvo_missiles_fired = (self.salvo_missiles_fired + 1) % SALVO_SIZE;
                }
                self.gun1.fire_at(missile_reload, tick, flight);
                self.ticks_since_missile_fired = 0;
                launch = true;
            }
        }
        MissileOrders { target, launch }
    }
}

/// Point defence that cannot wait goes before everything else, also while the orbit is
/// being reversed.
pub proof fn law_point_defense_comes_first(
    pd: Option<bool>,
    gun: Option<bool>,
    missile: bool,
    gun_reload: u32,
    missile_reload: u32,
    reversing: bool,
)
    requires
        must_turn(pd, gun_reload),
    ensures
        heading_choice(pd, gun, missile, gun_reload, missile_reload, reversing)
            == HeadingChoice::PointDefense,
{
}

/// While the orbit is being reversed, the nose turns neither for the gun nor for a missile.
pub proof fn law_reversing_ignores_gun_and_missile(
    pd: Option<bool>,
    gun: Option<bool>,
    missile: bool,
    gun_reload: u32,
    missile_reload: u32,
)
    ensures
        heading_choice(pd, gun, missile, gun_reload, missile_reload, true) == HeadingChoice::Thrust
            || heading_choice(pd, gun, missile, gun_reload, missile_reload, true)
            == HeadingChoice::PointDefense,
{
}

/// A missile that has had its burst gives way to another one, if there is another.
pub proof fn law_burst_gives_way(contacts: Seq<Contact>, keys: Seq<Option<u64>>, current: u32, fired: u32, other: int)
    requires
        keys.len() == contacts.len(),
        fired >= PD_BURST,
        keyed_place(contacts, keys, current) is Some,
        0 <= other < keys.len(),
        is_candidate(keys[other]),
        other != keyed_place(contacts, keys, current)->0,
    ensures
        pd_place(contacts, keys, Some(current), fired) is Some,
        pd_place(contacts, keys, Some(current), fired) != keyed_place(contacts, keys, current),
{
    let place = keyed_place(contacts, keys, current)->0;
    let k = choose|i: int| is_first_keyed(contacts, keys, current, i);
    assert(is_first_keyed(contacts, keys, current, k));
    let others = keys.update(place, None);
    assert(is_candidate(others[other]));
    crate::select::lemma_first_min_exists(others, other);
    let m = choose|i: int| crate::select::is_first_min(others, i);
    assert(crate::select::is_first_min(others, m));
}

/// The watch list has an entry for the missile being shot at and for the fighter being
/// hunted.
pub proof fn law_targets_are_watched(
    contacts: Seq<Contact>,
    courses: Seq<Course>,
    pd: Option<u32>,
    target: Option<u32>,
)
    ensures
        pd is Some ==> lists(watch_list(contacts, courses, pd, target), pd->0),
        target is Some ==> lists(watch_list(contacts, courses, pd, target), target->0),
{
    let head = match pd {
        Some(id) => seq![(id, PD_INTERVAL)],
        None => Seq::<(u32, u32)>::empty(),
    };
    let seen = head + watch_entries(contacts, other_threats(contacts, courses, pd))
        + watch_entries(contacts, other_ships(contacts, pd));
    let all = watch_list(contacts, courses, pd, target);
    if pd is Some {
        assert(all[0] == (pd->0, PD_INTERVAL));
    }
    if target is Some {
        if lists(seen, target->0) {
            let i = choose|i: int| 0 <= i < seen.len() && (#[trigger] seen[i]).0 == target->0;
            assert(all[i].0 == target->0);
        } else {
            assert(all[seen.len() as int].0 == target->0);
        }
    }
}

/// The watch list has an entry for every ship in sight.
pub proof fn law_ships_are_watched(
    contacts: Seq<Contact>,
    courses: Seq<Course>,
    pd: Option<u32>,
    target: Option<u32>,
    i: int,
)
    requires
        0 <= i < contacts.len(),
        !contacts[i].class.is_munition(),
    ensures
        lists(watch_list(contacts, courses, pd, target), contacts[i].id),
{
    let all = watch_list(contacts, courses, pd, target);
    let id = contacts[i].id;
    if pd == Some(id) {
        assert(all[0].0 == id);
    } else {
        let flags = other_ships(contacts, pd);
        crate::select::lemma_kept_contains(contacts, flags, contacts[i]);
        let ships = kept(contacts, flags);
        let k = ships.index_of(contacts[i]);
        let head = match pd {
            Some(p) => seq![(p, PD_INTERVAL)],
            None => Seq::<(u32, u32)>::empty(),
        };
        let threats = watch_entries(contacts, other_threats(contacts, courses, pd));
        assert(watch_entries(contacts, flags)[k].0 == id);
        assert(all[head.len() + threats.len() + k].0 == id);
    }
}

/// Reported threats are missiles on a threatening course, and a threat that is not
/// reported is no closer than any that is.
pub proof fn law_closest_threats_are_reported(
    contacts: Seq<Contact>,
    courses: Seq<Course>,
    order: Seq<usize>,
    reported: int,
    other: int,
)
    requires
        crate::select::is_ranking(threat_keys(contacts, threat_distances(courses)), order),
        0 <= reported < other < order.len(),
        courses.len() == contacts.len(),
    ensures
        contacts[order[reported] as int].class == Class::Missile,
        courses[order[reported] as int].threat_key() is Some,
        courses[order[reported] as int].distance <= courses[order[other] as int].distance,
{
    let keys = threat_keys(contacts, threat_distances(courses));
    assert(keys[order[reported] as int] is Some);
    assert(keys[order[other] as int] is Some);
    assert(crate::select::ranks_before(keys, order[reported] as int, order[other] as int));
}

// Whether a missile's keys are those of what may be shot at.
proof fn lemma_pd_keys(contacts: Seq<Contact>, courses: Seq<Course>, i: int)
    requires
        courses.len() == contacts.len(),
        0 <= i < contacts.len(),
    ensures
        ({
            let key = threat_keys(contacts, pd_arrivals(courses))[i];
            let c = courses[i];
            &&& key is Some <==> {
                &&& contacts[i].class == Class::Missile
                &&& c.distance > 0
                &&& c.arrival is Some
                &&& SECONDS_QUARTER <= c.arrival->0 <= SECONDS_3
                &&& c.interceptable
                &&& c.solvable
            }
            &&& key is Some ==> key == c.arrival && is_candidate(key)
        }),
{
}

/// What is shot at is a missile that closes in, arrives in a quarter of a second to three
/// seconds, can still turn far enough to hit, and for which the gun has a solution. There is
/// nothing to shoot at only where there is no such missile.
pub proof fn law_pd_target_can_hit(
    contacts: Seq<Contact>,
    courses: Seq<Course>,
    current: Option<u32>,
    fired: u32,
)
    requires
        courses.len() == contacts.len(),
    ensures
        ({
            let threatens = |i: int|
                {
                    &&& contacts[i].class == Class::Missile
                    &&& courses[i].distance > 0
                    &&& courses[i].arrival is Some
                    &&& SECONDS_QUARTER <= courses[i].arrival->0 <= SECONDS_3
                    &&& courses[i].interceptable
                    &&& courses[i].solvable
                };
            match pd_place(contacts, threat_keys(contacts, pd_arrivals(courses)), current, fired) {
                Some(p) => 0 <= p < contacts.len() && threatens(p),
                None => forall|i: int|
                    #![trigger contacts[i]]
                    0 <= i < contacts.len() ==> !threatens(i),
            }
        }),
{
    let keys = threat_keys(contacts, pd_arrivals(courses));
    law_pd_turns(contacts, courses, current, fired);
    law_first_min(keys);
    assert forall|i: int| #![trigger contacts[i]] 0 <= i < contacts.len() implies {
        let c = courses[i];
        keys[i] is Some <==> {
            &&& contacts[i].class == Class::Missile
            &&& c.distance > 0
            &&& c.arrival is Some
            &&& SECONDS_QUARTER <= c.arrival->0 <= SECONDS_3
            &&& c.interceptable
            &&& c.solvable
        }
    } by {
        lemma_pd_keys(contacts, courses, i);
    }
    if let Some(p) = pd_place(contacts, keys, current, fired) {
        lemma_pd_place_in_range(contacts, keys, current, fired);
    } else {
        assert forall|i: int| #![trigger contacts[i]] 0 <= i < contacts.len() implies keys[i] is None by {
            lemma_pd_keys(contacts, courses, i);
        }
    }
}

// What is shot at has a key.
proof fn lemma_pd_place_in_range(contacts: Seq<Contact>, keys: Seq<Option<u64>>, current: Option<u32>, fired: u32)
    requires
        keys.len() == contacts.len(),
    ensures
        pd_place(contacts, keys, current, fired) matches Some(p) ==> 0 <= p < keys.len()
            && keys[p] is Some,
{
    law_first_min(keys);
    if let Some(place) = current_place(contacts, keys, current) {
        assert(is_first_keyed(contacts, keys, current->0, place));
        law_first_min(keys.update(place, None));
    }
}

/// The missile shot at before is shot at as long as it may be and has not had its eight rounds,
/// or there is no other one. Else the turn goes to the one that arrives first of all others
/// that may be shot at, and to the first in the list among equals.
#[verifier::rlimit(40)]
pub proof fn law_pd_turns(
    contacts: Seq<Contact>,
    courses: Seq<Course>,
    current: Option<u32>,
    fired: u32,
)
    requires
        courses.len() == contacts.len(),
    ensures
        ({
            let threatens = |i: int|
                {
                    &&& contacts[i].class == Class::Missile
                    &&& courses[i].distance > 0
                    &&& courses[i].arrival is Some
                    &&& SECONDS_QUARTER <= courses[i].arrival->0 <= SECONDS_3
                    &&& courses[i].interceptable
                    &&& courses[i].solvable
                };
            let keys = threat_keys(contacts, pd_arrivals(courses));
            let stays = pd_stays(contacts, keys, current, fired);
            let others = exists|i: int|
                #![trigger contacts[i]]
                0 <= i < contacts.len() && threatens(i) && current != Some(contacts[i].id);
            let seen = exists|i: int|
                #![trigger contacts[i]]
                0 <= i < contacts.len() && threatens(i) && current == Some(contacts[i].id);
            &&& stays ==> seen
            &&& seen && fired < 8 ==> stays
            &&& seen && fired >= 8 && others ==> !stays
            &&& pd_place(contacts, keys, current, fired) matches Some(p) ==> {
                &&& stays ==> current == Some(contacts[p].id)
                &&& !stays ==> forall|j: int|
                    #![trigger contacts[j]]
                    0 <= j < contacts.len() && threatens(j) && current != Some(contacts[j].id)
                        ==> courses[p].arrival->0 <= courses[j].arrival->0 && (j < p
                        ==> courses[p].arrival->0 < courses[j].arrival->0)
            }
        }),
{
    let keys = threat_keys(contacts, pd_arrivals(courses));
    law_first_min(keys);
    assert forall|i: int| #![trigger contacts[i]] 0 <= i < contacts.len() implies {
        let c = courses[i];
        &&& keys[i] is Some <==> {
            &&& contacts[i].class == Class::Missile
            &&& c.distance > 0
            &&& c.arrival is Some
            &&& SECONDS_QUARTER <= c.arrival->0 <= SECONDS_3
            &&& c.interceptable
            &&& c.solvable
        }
        &&& keys[i] is Some ==> keys[i] == c.arrival && is_candidate(keys[i])
    } by {
        lemma_pd_keys(contacts, courses, i);
    }
    lemma_pd_place_in_range(contacts, keys, current, fired);
    match current_place(contacts, keys, current) {
        Some(place) => {
            let id = current->0;
            assert(is_first_keyed(contacts, keys, id, place));
            assert(contacts[place].id == id);
            let others = keys.update(place, None);
            law_first_min(others);
            assert forall|j: int|
                #![trigger contacts[j]]
                0 <= j < contacts.len() && keys[j] is Some && contacts[j].id != id implies others[j]
                == keys[j] by {}
        },
        None => {
            if let Some(id) = current {
                assert forall|j: int|
                    #![trigger contacts[j]]
                    0 <= j < contacts.len() && keys[j] is Some implies contacts[j].id != id by {
                    if contacts[j].id == id {
                        lemma_keyed_exists(contacts, keys, id, j);
                    }
                }
            }
        },
    }
}

proof fn lemma_keyed_exists(contacts: Seq<Contact>, keys: Seq<Option<u64>>, id: u32, i: int)
    requires
        0 <= i < contacts.len(),
        is_candidate(keys[i]),
        contacts[i].id == id,
    ensures
        exists|p: int| is_first_keyed(contacts, keys, id, p),
    decreases i,
{
    if !is_first_keyed(contacts, keys, id, i) {
        let j = choose|j: int|
            #![trigger contacts[j]]
            0 <= j < i && is_candidate(keys[j]) && contacts[j].id == id;
        lemma_keyed_exists(contacts, keys, id, j);
    }
}

/// The threats are the missiles that close in, can still turn far enough to hit, and come
/// within 150 m of the ship in the next five seconds. They stand by their distance, and in the
/// order of the contact list among equals.
pub proof fn law_threats(contacts: Seq<Contact>, courses: Seq<Course>, order: Seq<usize>)
    requires
        courses.len() == contacts.len(),
        contacts.len() <= usize::MAX,
        crate::select::is_ranking(threat_keys(contacts, threat_distances(courses)), order),
    ensures
        order == ranking(threat_keys(contacts, threat_distances(courses))),
        order.no_duplicates(),
        forall|i: int|
            #![trigger contacts[i]]
            0 <= i < contacts.len() ==> (order.contains(i as usize) <==> {
                let c = courses[i];
                &&& contacts[i].class == Class::Missile
                &&& c.distance > 0
                &&& c.arrival is Some
                &&& c.interceptable
                &&& c.closest_time is Some
                &&& 0 < c.closest_time->0 <= SECONDS_5
                &&& c.closest_approach <= METERS_150
            }),
        forall|a: int, b: int|
            #![trigger order[a], order[b]]
            0 <= a < b < order.len() ==> {
                let near = courses[order[a] as int].distance;
                let far = courses[order[b] as int].distance;
                order[a] < contacts.len() && near <= far && (near == far ==> order[a] < order[b])
            },
{
    let keys = threat_keys(contacts, threat_distances(courses));
    crate::select::lemma_ranking_unique(keys, order);
    crate::select::law_ranking(keys, order);
    assert forall|i: int|
        #![trigger contacts[i]]
        0 <= i < contacts.len() implies (order.contains(i as usize) <==> keys[i] is Some) by {
        if order.contains(i as usize) {
            let a = order.index_of(i as usize);
            assert(keys[order[a] as int] is Some);
        }
    }
    assert forall|a: int, b: int| #![trigger order[a], order[b]] 0 <= a < b < order.len() implies {
        let near = courses[order[a] as int].distance;
        let far = courses[order[b] as int].distance;
        order[a] < contacts.len() && near <= far && (near == far ==> order[a] < order[b])
    } by {
        assert(keys[order[a] as int] is Some && keys[order[b] as int] is Some);
    }
}

/// A missile counts as about to arrive where it closes in, can still turn far enough to hit, and
/// arrives within five seconds.
pub proof fn law_incoming(contacts: Seq<Contact>, courses: Seq<Course>)
    requires
        courses.len() == contacts.len(),
    ensures
        missile_incoming(contacts, courses) <==> exists|i: int|
            {
                &&& 0 <= i < contacts.len()
                &&& #[trigger] contacts[i].class == Class::Missile
                &&& courses[i].distance > 0
                &&& courses[i].arrival is Some
                &&& courses[i].arrival->0 <= SECONDS_5
                &&& courses[i].interceptable
            },
{
}

/// The nose turns for point defence exactly where there is a solution for it and either the gun
/// is ready or the turn takes most of the reload. It turns for the prey only where nothing is to
/// be shot down, for a missile only where neither needs it and the launcher is ready in ten
/// ticks, and for neither while the orbit is being reversed.
pub proof fn law_heading(
    pd: Option<bool>,
    gun: Option<bool>,
    missile: bool,
    gun_reload: u32,
    missile_reload: u32,
    reversing: bool,
)
    ensures
        ({
            let choice = heading_choice(pd, gun, missile, gun_reload, missile_reload, reversing);
            let shoots_down = pd == Some(true) || (pd is Some && gun_reload == 0);
            let shoots = pd is None && (gun == Some(true) || (gun is Some && gun_reload == 0));
            &&& choice == HeadingChoice::PointDefense <==> shoots_down
            &&& choice == HeadingChoice::Gun <==> !reversing && shoots
            &&& choice == HeadingChoice::Missile <==> !reversing && !shoots_down && !shoots
                && missile && missile_reload <= 10
        }),
{
}

// The places of a contact that is watched.
proof fn lemma_watch_entries(contacts: Seq<Contact>, flags: Seq<bool>, entry: (u32, u32))
    ensures
        watch_entries(contacts, flags).contains(entry) <==> entry.1 == THREAT_INTERVAL && exists|i: int|
            0 <= i < contacts.len() && #[trigger] contacts[i].id == entry.0 && flags[i],
{
    let list = kept(contacts, flags);
    let entries = watch_entries(contacts, flags);
    let places = law_kept_in_order(contacts, flags);
    if entries.contains(entry) {
        let k = entries.index_of(entry);
        assert(entry == (list[k].id, THREAT_INTERVAL));
        let i = places[k];
        assert(contacts[i].id == entry.0);
    }
    if entry.1 == THREAT_INTERVAL && exists|i: int|
        0 <= i < contacts.len() && #[trigger] contacts[i].id == entry.0 && flags[i] {
        let i = choose|i: int|
            0 <= i < contacts.len() && #[trigger] contacts[i].id == entry.0 && flags[i];
        assert(places.contains(i));
        let k = places.index_of(i);
        assert(entries[k] == entry);
    }
}

/// The watch list has an entry for the missile being shot at, every 4 ticks and before all
/// others; and every 10 ticks for the other missiles that can hit within four seconds, for all
/// that is neither missile nor torpedo, and for the fighter being hunted. It has no others.
#[verifier::rlimit(40)]
pub proof fn law_watch_list(
    contacts: Seq<Contact>,
    courses: Seq<Course>,
    pd: Option<u32>,
    target: Option<u32>,
    entry: (u32, u32),
)
    requires
        courses.len() == contacts.len(),
    ensures
        ({
            let list = watch_list(contacts, courses, pd, target);
            let threat = exists|i: int|
                {
                    &&& 0 <= i < contacts.len()
                    &&& #[trigger] contacts[i].id == entry.0
                    &&& contacts[i].class == Class::Missile
                    &&& courses[i].distance > 0
                    &&& courses[i].arrival is Some
                    &&& courses[i].arrival->0 <= SECONDS_4
                    &&& courses[i].interceptable
                };
            let ship = exists|i: int|
                {
                    &&& 0 <= i < contacts.len()
                    &&& #[trigger] contacts[i].id == entry.0
                    &&& contacts[i].class != Class::Missile
                    &&& contacts[i].class != Class::Torpedo
                };
            &&& pd is Some ==> list.len() > 0 && list[0] == (pd->0, 4u32)
            &&& list.contains(entry) <==> if pd == Some(entry.0) {
                entry.1 == 4
            } else {
                entry.1 == 10 && (threat || ship || target == Some(entry.0))
            }
        }),
{
    let head = match pd {
        Some(id) => seq![(id, PD_INTERVAL)],
        None => Seq::<(u32, u32)>::empty(),
    };
    let threats = watch_entries(contacts, other_threats(contacts, courses, pd));
    let ships = watch_entries(contacts, other_ships(contacts, pd));
    let seen = head + threats + ships;
    let list = watch_list(contacts, courses, pd, target);
    lemma_watch_entries(contacts, other_threats(contacts, courses, pd), entry);
    lemma_watch_entries(contacts, other_ships(contacts, pd), entry);
    if pd is Some {
        assert(list[0] == (pd->0, PD_INTERVAL));
    }
    if threats.contains(entry) {
        let k = threats.index_of(entry);
        assert(list[head.len() + k] == entry);
        assert(seen[head.len() + k] == entry);
    }
    if ships.contains(entry) {
        let k = ships.index_of(entry);
        assert(list[head.len() + threats.len() + k] == entry);
        assert(seen[head.len() + threats.len() + k] == entry);
    }
    if let Some(id) = target {
        if lists(seen, id) {
            let k = choose|k: int| 0 <= k < seen.len() && (#[trigger] seen[k]).0 == id;
            lemma_watched_interval(contacts, courses, pd, k);
            assert(list[k] == seen[k]);
        } else {
            assert(list[seen.len() as int] == (id, THREAT_INTERVAL));
            if pd is Some {
                assert(seen[0].0 == pd->0);
            }
        }
    }
    if list.contains(entry) {
        let k = list.index_of(entry);
        if k < head.len() {
        } else if k < head.len() + threats.len() {
            assert(threats[k - head.len()] == entry);
        } else if k < seen.len() {
            assert(ships[k - head.len() - threats.len()] == entry);
        } else {
            assert(target == Some(entry.0));
            if pd is Some {
                assert(seen[0].0 == pd->0);
            }
        }
    }
}

// What is watched is watched at the interval of its kind.
proof fn lemma_watched_interval(contacts: Seq<Contact>, courses: Seq<Course>, pd: Option<u32>, k: int)
    requires
        0 <= k,
        ({
            let head = match pd {
                Some(id) => seq![(id, PD_INTERVAL)],
                None => Seq::<(u32, u32)>::empty(),
            };
            k < (head + watch_entries(contacts, other_threats(contacts, courses, pd))
                + watch_entries(contacts, other_ships(contacts, pd))).len()
        }),
    ensures
        ({
            let head = match pd {
                Some(id) => seq![(id, PD_INTERVAL)],
                None => Seq::<(u32, u32)>::empty(),
            };
            let seen = head + watch_entries(contacts, other_threats(contacts, courses, pd))
                + watch_entries(contacts, other_ships(contacts, pd));
            &&& pd == Some(seen[k].0) ==> seen[k].1 == PD_INTERVAL
            &&& pd != Some(seen[k].0) ==> seen[k].1 == THREAT_INTERVAL
        }),
{
    let head = match pd {
        Some(id) => seq![(id, PD_INTERVAL)],
        None => Seq::<(u32, u32)>::empty(),
    };
    let threats = watch_entries(contacts, other_threats(contacts, courses, pd));
    let ships = watch_entries(contacts, other_ships(contacts, pd));
    let seen = head + threats + ships;
    if k < head.len() {
    } else if k < head.len() + threats.len() {
        assert(threats[k - head.len()] == seen[k]);
        lemma_watch_entries(contacts, other_threats(contacts, courses, pd), seen[k]);
    } else {
        assert(ships[k - head.len() - threats.len()] == seen[k]);
        lemma_watch_entries(contacts, other_ships(contacts, pd), seen[k]);
    }
}

/// The fighter hunted before is hunted as long as it is seen. Else it is the fighter closest to
/// the ship; or, where none is at a finite distance, the one closest to where a fighter was last
/// seen, if that is known. Nothing but a fighter is hunted.
pub proof fn law_prey(
    contacts: Seq<Contact>,
    current: Option<u32>,
    distances: Seq<u64>,
    last_distances: Option<Seq<u64>>,
)
    requires
        distances.len() == contacts.len(),
    ensures
        ({
            let fighter = |i: int| contacts[i].class == Class::Fighter;
            let seen = exists|i: int|
                #![trigger contacts[i]]
                0 <= i < contacts.len() && fighter(i) && current == Some(contacts[i].id);
            let near = exists|i: int|
                #![trigger contacts[i]]
                0 <= i < contacts.len() && fighter(i) && distances[i] < FARTHEST;
            match prey_place(contacts, current, distances, last_distances) {
                Some(p) => {
                    &&& 0 <= p < contacts.len() && fighter(p)
                    &&& next_prey(contacts, current, distances, last_distances) == Some(
                        contacts[p].id,
                    )
                    &&& seen ==> current == Some(contacts[p].id)
                    &&& !seen && near ==> forall|j: int|
                        #![trigger contacts[j]]
                        0 <= j < contacts.len() && fighter(j) ==> distances[p] <= distances[j] && (j
                            < p ==> distances[p] < distances[j])
                    &&& !seen && !near ==> last_distances is Some && forall|j: int|
                        #![trigger contacts[j]]
                        0 <= j < contacts.len() && fighter(j) ==> (last_distances->0)[p] <= (
                        last_distances->0)[j] && (j < p ==> (last_distances->0)[p] < (
                        last_distances->0)[j])
                },
                None => {
                    &&& next_prey(contacts, current, distances, last_distances) is None
                    &&& !seen && !near
                    &&& last_distances matches Some(d) ==> forall|j: int|
                        #![trigger contacts[j]]
                        0 <= j < contacts.len() && fighter(j) ==> d[j] >= FARTHEST
                },
            }
        }),
{
    if let Some(id) = current {
        law_ship_place(contacts, id, Class::Fighter);
    }
    law_nearest(contacts, Class::Fighter, distances);
    if let Some(d) = last_distances {
        law_nearest(contacts, Class::Fighter, d);
    }
}

} // verus!
