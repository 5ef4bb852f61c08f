//! A squadron of fighters and their missiles: fighters shoot missiles down first, and their
//! missiles spread over the enemy's fighters.
use vstd::prelude::*;

use crate::class::Class;
use crate::contact::{place_of, place_of_id, Contact};
use crate::lookup::{as_place, class_keys, find_ship, ship_place};
use crate::measure::{
    Measure, DEGREES_15, DEGREES_2, DEGREES_4, DEGREES_5, METERS_20, SPEED_200, SPEED_500,
};
use crate::select::{kept, least, least_of};
use crate::weapons::{fighters_among, of_class};

verus! {

/// Ticks after the first detection before a missile takes a target: time for two full scans.
pub const LOCK_DELAY: u32 = 22;

/// What a fighter aims at.
#[derive(Clone, Copy, Debug, PartialEq, Eq, Structural)]
pub enum ActiveTarget {
    /// The missile at this place.
    Missile { place: usize },
    /// The fighter at this place.
    Fighter { place: usize },
    Nothing,
}

/// How a ship moves.
#[derive(Clone, Copy, Debug, PartialEq, Eq, Structural)]
pub enum Run {
    /// Ahead, with boost.
    Boost,
    /// Ahead.
    Ahead,
    /// Braking, while it turns.
    Brake,
}

/// A missile that may be shot down.
#[derive(Clone, Copy, Debug, PartialEq, Eq, Structural)]
pub struct Incoming {
    /// Whether it closes in.
    pub closing: bool,
    /// The time until a round would hit it, where there is a solution.
    pub impact_time: Option<Measure>,
    /// How far it flies until then.
    pub flight: Measure,
    /// How far away it is.
    pub distance: Measure,
}

impl Incoming {
    /// The time until a round would hit the missile, where it is to be shot at: it closes in,
    /// and would be hit before it has come past.
    pub open spec fn key(self) -> Option<u64> {
        if self.closing && self.impact_time is Some && self.flight <= self.distance {
            self.impact_time
        } else {
            None
        }
    }
}

/// The times until rounds would hit the missiles that are to be shot at.
pub open spec fn impact_keys(contacts: Seq<Contact>, incoming: Seq<Incoming>) -> Seq<Option<u64>> {
    Seq::new(
        contacts.len(),
        |i: int|
            if contacts[i].class == Class::Missile {
                incoming[i].key()
            } else {
                None
            },
    )
}

/// What a fighter aims at: the missile that a round would hit first, else the closest fighter.
pub open spec fn active_target(contacts: Seq<Contact>, incoming: Seq<Incoming>) -> ActiveTarget {
    match least_of(impact_keys(contacts, incoming)) {
        Some(i) => ActiveTarget::Missile { place: i as usize },
        None => match least_of(
            class_keys(
                contacts,
                Class::Fighter,
                Seq::new(contacts.len(), |i: int| incoming[i].distance),
            ),
        ) {
            Some(i) => ActiveTarget::Fighter { place: i as usize },
            None => ActiveTarget::Nothing,
        },
    }
}

/// The state of a ship of the squadron.
#[derive(Clone, Copy, Debug, PartialEq, Eq, Structural)]
pub struct Ship {
    pub target_id: Option<u32>,
    pub first_detection_tick: Option<u32>,
    /// Whether an angle has been drawn by which the next missile is to be launched off the
    /// target.
    pub launch_offset: bool,
}

impl Ship {
    /// A ship without a target.
    pub fn new() -> (ship: Self)
        ensures
            ship == (Ship { target_id: None, first_detection_tick: None, launch_offset: false }),
    {
        Ship { target_id: None, first_detection_tick: None, launch_offset: false }
    }

    /// Whether the target of a missile is a fighter in sight.
    pub open spec fn target_valid(self, contacts: Seq<Contact>) -> bool {
        self.target_id is Some && ship_place(contacts, self.target_id->0, Class::Fighter) is Some
    }

    /// When a missile first saw a fighter.
    pub open spec fn detection(self, tick: u32, contacts: Seq<Contact>) -> Option<u32> {
        if self.first_detection_tick is None && kept(
            contacts,
            of_class(contacts, Class::Fighter),
        ).len() > 0 {
            Some(tick)
        } else {
            self.first_detection_tick
        }
    }

    /// Whether a missile may take a target: it saw the first fighter long enough ago.
    pub open spec fn can_lock(self, tick: u32, contacts: Seq<Contact>) -> bool {
        self.detection(tick, contacts) is Some && tick - self.detection(tick, contacts)->0
            >= LOCK_DELAY
    }

    /// Notes when a missile first saw a fighter. Gives the fighters among which its target is
    /// to be drawn, where it needs one and may take one; where it needs one and may not, it
    /// has none.
    pub fn seek(&mut self, tick: u32, contacts: &Vec<Contact>) -> (pool: Option<Vec<Contact>>)
        requires
            old(self).first_detection_tick matches Some(first) ==> first <= tick,
        ensures
            ({
                let fighters = kept(contacts@, of_class(contacts@, Class::Fighter));
                let draws = !old(self).target_valid(contacts@) && old(self).can_lock(
                    tick,
                    contacts@,
                ) && fighters.len() > 0;
                &&& pool is Some <==> draws
                &&& pool matches Some(p) ==> p@ == fighters
                &&& *final(self) == (Ship {
                    target_id: if old(self).target_valid(contacts@) || draws {
                        old(self).target_id
                    } else {
                        None
                    },
                    first_detection_tick: old(self).detection(tick, contacts@),
                    ..*old(self)
                })
            }),
    {
        let valid = match self.target_id {
            Some(id) => find_ship(contacts, id, Class::Fighter).is_some(),
            None => false,
        };
        let fighters = fighters_among(contacts);
        if fighters.len() > 0 && self.first_detection_tick.is_none() {
            self.first_detection_tick = Some(tick);
        }
        if valid {
            return None;
        }
        let can_lock = match self.first_detection_tick {
            Some(first) => tick - first >= LOCK_DELAY,
            None => false,
        };
        if can_lock && fighters.len() > 0 {
            Some(fighters)
        } else {
            self.target_id = None;
            None
        }
    }

    /// Takes the fighter with the number `draw` for the target, or the last where the number
    /// is too high.
    pub fn lock(&mut self, pool: &Vec<Contact>, draw: usize)
        requires
            pool.len() > 0,
        ensures
            *final(self) == (Ship {
                target_id: Some(
                    if draw < pool@.len() {
                        pool@[draw as int].id
                    } else {
                        pool@.last().id
                    },
                ),
                ..*old(self)
            }),
    {
        let index: usize = if draw < pool.len() {
            draw
        } else {
            pool.len() - 1
        };
        self.target_id = Some(pool[index].id);
    }

    /// The place of a missile's target, where it is seen.
    pub fn target_place(&self, contacts: &Vec<Contact>) -> (place: Option<usize>)
        ensures
            as_place(place) == (match self.target_id {
                Some(id) => place_of(contacts@, id),
                None => None::<int>,
            }),
    {
        match self.target_id {
            Some(id) => place_of_id(contacts, id),
            None => None,
        }
    }

    /// Whether a missile explodes: it is within 20 metres of its target, or soon will be.
    pub fn explodes(distance: Measure, next_distance: Measure) -> (explode: bool)
        ensures
            explode == (distance < METERS_20 || next_distance < METERS_20),
    {
        distance < METERS_20 || next_distance < METERS_20
    }

    /// Whether a missile saves fuel: it has used some, and what is left may not do for what the
    /// target can do.
    pub fn saves_fuel(used: Measure, left: Measure, enemy: Measure) -> (saves: bool)
        ensures
            saves == (used >= SPEED_200 && left < enemy),
    {
        used >= SPEED_200 && left < enemy
    }

    /// Whether a missile turns to where its target will be when it explodes: the explosion comes
    /// no later than the turn would be done.
    pub fn turns_to_explosion(until_explosion: Measure, turn_time: Measure) -> (turns: bool)
        ensures
            turns == (until_explosion <= turn_time),
    {
        until_explosion <= turn_time
    }

    /// Whether a missile without a target burns ahead: while it has fuel to spare.
    pub fn burns_ahead(fuel: Measure) -> (burns: bool)
        ensures
            burns == (fuel >= SPEED_500),
    {
        fuel >= SPEED_500
    }

    /// What a fighter aims at.
    pub fn choose_target(contacts: &Vec<Contact>, incoming: &Vec<Incoming>) -> (target: ActiveTarget)
        requires
            incoming.len() == contacts.len(),
        ensures
            target == active_target(contacts@, incoming@),
    {
        let ghost all = impact_keys(contacts@, incoming@);
        let ghost distances = Seq::new(contacts@.len(), |i: int| incoming@[i].distance);
        let ghost all_fighters = class_keys(contacts@, Class::Fighter, distances);
        let mut keys: Vec<Option<u64>> = Vec::new();
        let mut fighters: Vec<Option<u64>> = Vec::new();
        let mut i: usize = 0;
        while i < contacts.len()
            invariant
                0 <= i <= contacts.len(),
                incoming.len() == contacts.len(),
                all == impact_keys(contacts@, incoming@),
                distances == Seq::new(contacts@.len(), |k: int| incoming@[k].distance),
                all_fighters == class_keys(contacts@, Class::Fighter, distances),
                keys@ == all.take(i as int),
                fighters@ == all_fighters.take(i as int),
            decreases contacts.len() - i,
        {
            let m = incoming[i];
            if contacts[i].class == Class::Missile && m.closing && m.flight <= m.distance {
                keys.push(m.impact_time);
            } else {
                keys.push(None);
            }
            if contacts[i].class == Class::Fighter {
                fighters.push(Some(m.distance));
            } else {
                fighters.push(None);
            }
            proof {
                let k = i as int;
                assert(all.take(k + 1) =~= all.take(k).push(all[k]));
                assert(all_fighters.take(k + 1) =~= all_fighters.take(k).push(all_fighters[k]));
            }
            i = i + 1;
        }
        assert(keys@ =~= all);
        assert(fighters@ =~= all_fighters);
        match least(&keys) {
            Some(place) => ActiveTarget::Missile { place },
            None => match least(&fighters) {
                Some(place) => ActiveTarget::Fighter { place },
                None => ActiveTarget::Nothing,
            },
        }
    }

    /// Whether an angle is to be drawn for the next missile: the launcher is ready, none has
    /// been drawn yet, and the fighter does not aim at a missile. Aiming at one gives up what
    /// was drawn.
    pub fn draws_offset(&mut self, target: ActiveTarget, reload: u32) -> (draws: bool)
        ensures
            draws == (!(target is Missile) && reload == 0 && !old(self).launch_offset),
            *final(self) == (Ship {
                launch_offset: !(target is Missile) && (old(self).launch_offset || reload == 0),
                ..*old(self)
            }),
    {
        match target {
            ActiveTarget::Missile { .. } => {
                self.launch_offset = false;
                false
            },
            _ => {
                if reload == 0 && !self.launch_offset {
                    self.launch_offset = true;
                    true
                } else {
                    false
                }
            },
        }
    }

    /// Whether a missile is launched: at a missile as soon as the launcher is ready; at a
    /// fighter when the nose is off the drawn angle by less than four degrees, for which
    /// `angle` is there where an angle has been drawn. Without a target what was drawn is
    /// given up.
    pub fn launches(&mut self, target: ActiveTarget, reload: u32, angle: Measure) -> (launch: bool)
        ensures
            launch == (match target {
                ActiveTarget::Missile { .. } => reload == 0,
                ActiveTarget::Fighter { .. } => old(self).launch_offset && angle < DEGREES_4,
                ActiveTarget::Nothing => false,
            }),
            *final(self) == (Ship {
                launch_offset: match target {
                    ActiveTarget::Missile { .. } => old(self).launch_offset,
                    ActiveTarget::Fighter { .. } => old(self).launch_offset && !launch,
                    ActiveTarget::Nothing => false,
                },
                ..*old(self)
            }),
    {
        match target {
            ActiveTarget::Missile { .. } => reload == 0,
            ActiveTarget::Fighter { .. } => {
                if self.launch_offset && angle < DEGREES_4 {
                    self.launch_offset = false;
                    true
                } else {
                    false
                }
            },
            ActiveTarget::Nothing => {
                self.launch_offset = false;
                false
            },
        }
    }

    /// Whether a fighter fires its gun: it is ready, and off its aim by less than two degrees.
    pub fn fires_gun(reload: u32, angle: Measure) -> (fires: bool)
        ensures
            fires == (reload == 0 && angle < DEGREES_2),
    {
        reload == 0 && angle < DEGREES_2
    }
}

/// How a ship moves that is off its course by `angle`: ahead when by less than 15 degrees, with
/// boost when by less than 5.
pub fn run_towards(angle: Measure) -> (run: Run)
    ensures
        run == (if angle < DEGREES_5 {
            Run::Boost
        } else if angle < DEGREES_15 {
            Run::Ahead
        } else {
            Run::Brake
        }),
{
    if angle < DEGREES_15 {
        if angle < DEGREES_5 {
            Run::Boost
        } else {
            Run::Ahead
        }
    } else {
        Run::Brake
    }
}

/// A fighter aims at a missile whenever there is one to be shot at, and no other one would be
/// hit sooner.
pub proof fn law_missiles_come_first(contacts: Seq<Contact>, incoming: Seq<Incoming>, i: int)
    requires
        contacts.len() <= usize::MAX,
        incoming.len() == contacts.len(),
        0 <= i < contacts.len(),
        contacts[i].class == Class::Missile,
        incoming[i].key() is Some,
    ensures
        active_target(contacts, incoming) matches ActiveTarget::Missile { place } && place
            < contacts.len() && contacts[place as int].class == Class::Missile
            && incoming[place as int].key() is Some && incoming[place as int].key()->0
            <= incoming[i].key()->0,
{
    let keys = impact_keys(contacts, incoming);
    crate::select::lemma_least_exists(keys, i);
    let m = choose|m: int| crate::select::is_least(keys, m);
    assert(crate::select::is_least(keys, m));
    assert(keys[i] is Some);
}

/// A missile takes no target before it has had time for two full scans.
pub proof fn law_lock_is_delayed(ship: Ship, tick: u32, contacts: Seq<Contact>)
    requires
        ship.first_detection_tick matches Some(first) ==> tick - first < LOCK_DELAY,
    ensures
        !ship.can_lock(tick, contacts),
{
}

/// A fighter aims at a missile that closes in and that a round would hit before it has come
/// past: at the one that would be hit first, and at the first in the list among equals. Where
/// there is none it aims at the closest fighter, and where there is none either at nothing.
#[verifier::rlimit(40)]
pub proof fn law_active_target(contacts: Seq<Contact>, incoming: Seq<Incoming>)
    requires
        contacts.len() <= usize::MAX,
        incoming.len() == contacts.len(),
    ensures
        ({
            let threat = |i: int|
                {
                    &&& contacts[i].class == Class::Missile
                    &&& incoming[i].closing
                    &&& incoming[i].impact_time is Some
                    &&& incoming[i].flight <= incoming[i].distance
                };
            let fighter = |i: int| contacts[i].class == Class::Fighter;
            match active_target(contacts, incoming) {
                ActiveTarget::Missile { place } => {
                    &&& place < contacts.len() && threat(place as int)
                    &&& forall|j: int|
                        #![trigger contacts[j]]
                        0 <= j < contacts.len() && threat(j) ==> {
                            let best = incoming[place as int].impact_time->0;
                            let other = incoming[j].impact_time->0;
                            best <= other && (j < place ==> best < other)
                        }
                },
                ActiveTarget::Fighter { place } => {
                    &&& place < contacts.len() && fighter(place as int)
                    &&& forall|j: int|
                        #![trigger contacts[j]]
                        0 <= j < contacts.len() ==> !threat(j)
                    &&& forall|j: int|
                        #![trigger contacts[j]]
                        0 <= j < contacts.len() && fighter(j) ==> {
                            let best = incoming[place as int].distance;
                            let other = incoming[j].distance;
                            best <= other && (j < place ==> best < other)
                        }
                },
                ActiveTarget::Nothing => forall|j: int|
                    #![trigger contacts[j]]
                    0 <= j < contacts.len() ==> !threat(j) && !fighter(j),
            }
        }),
{
    let keys = impact_keys(contacts, incoming);
    let distances = Seq::new(contacts.len(), |i: int| incoming[i].distance);
    let fighters = class_keys(contacts, Class::Fighter, distances);
    crate::select::law_least(keys);
    crate::select::law_least(fighters);
    assert forall|j: int| #![trigger contacts[j]] 0 <= j < contacts.len() implies {
        &&& keys[j] is Some <==> contacts[j].class == Class::Missile && incoming[j].closing
            && incoming[j].impact_time is Some && incoming[j].flight <= incoming[j].distance
        &&& keys[j] is Some ==> keys[j] == incoming[j].impact_time
        &&& fighters[j] is Some <==> contacts[j].class == Class::Fighter
        &&& fighters[j] is Some ==> fighters[j] == Some(incoming[j].distance)
    } by {}
}

/// A missile's target is good as long as a fighter in sight has its id.
pub proof fn law_target_is_good_while_seen(ship: Ship, contacts: Seq<Contact>)
    ensures
        ship.target_valid(contacts) <==> exists|i: int|
            0 <= i < contacts.len() && #[trigger] contacts[i].class == Class::Fighter && Some(
                contacts[i].id,
            ) == ship.target_id,
{
    if let Some(id) = ship.target_id {
        crate::lookup::law_ship_place(contacts, id, Class::Fighter);
        if let Some(p) = ship_place(contacts, id, Class::Fighter) {
            assert(contacts[p].class == Class::Fighter);
        }
    }
}

/// The tick of the first detection is that at which a fighter was first in sight, and does not
/// change after that. A missile may take a target from 22 ticks after it.
pub proof fn law_detection(ship: Ship, tick: u32, contacts: Seq<Contact>)
    ensures
        ({
            let sees = exists|i: int|
                0 <= i < contacts.len() && #[trigger] contacts[i].class == Class::Fighter;
            &&& ship.first_detection_tick is Some ==> ship.detection(tick, contacts)
                == ship.first_detection_tick
            &&& ship.first_detection_tick is None && sees ==> ship.detection(tick, contacts) == Some(
                tick,
            )
            &&& ship.first_detection_tick is None && !sees ==> ship.detection(tick, contacts) is None
            &&& ship.can_lock(tick, contacts) <==> ship.first_detection_tick is Some
                && ship.first_detection_tick->0 + 22 <= tick
        }),
{
    let flags = of_class(contacts, Class::Fighter);
    let fighters = kept(contacts, flags);
    let places = crate::select::law_kept_in_order(contacts, flags);
    if fighters.len() > 0 {
        let i = places[0];
        assert(contacts[i].class == Class::Fighter);
    }
    if exists|i: int| 0 <= i < contacts.len() && #[trigger] contacts[i].class == Class::Fighter {
        let i = choose|i: int|
            0 <= i < contacts.len() && #[trigger] contacts[i].class == Class::Fighter;
        assert(flags[i]);
        assert(places.contains(i));
    }
}

} // verus!
