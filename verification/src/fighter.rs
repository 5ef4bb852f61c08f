//! A fighter that is told its target by its cruiser and circles round it.
use vstd::prelude::*;

use crate::class::Class;
use crate::contact::Contact;
use crate::lookup::{find_class, find_nearest, first_of_class, nearest};
use crate::measure::{Measure, DEGREES_015};
use crate::missile::MissileRadioSender;
use crate::radar::PRIORITY_INTERVAL;

verus! {

/// Ticks before the gun is ready at which a shot is tried.
pub const GUN_LEAD_TICKS: u32 = 5;

/// The id of the first ship that is told a target, and that of the last.
pub const FIRST_WING: u32 = 2;

pub const LAST_WING: u32 = 4;

/// What a message from the cruiser is to a fighter.
#[derive(Clone, Copy, Debug, PartialEq, Eq, Structural)]
pub enum Message {
    /// Not for it.
    Ignored,
    /// Its own target.
    Assignment,
    /// The target of another fighter.
    Report,
}

/// How many messages a fighter has to hear until it knows its target. (Ship 0 never does.)
pub open spec fn messages_needed(ship_id: u32) -> u32 {
    if ship_id == 0 {
        u32::MAX
    } else {
        (ship_id - 1) as u32
    }
}

/// Whether the message with this number tells a ship its own target: ships 2, 3 and 4 take the
/// first, second and third.
pub open spec fn own_message(ship_id: u32, count: int) -> bool {
    FIRST_WING <= ship_id <= LAST_WING && count == ship_id - 1
}

/// The state of the fighter.
#[derive(Clone, Copy, Debug, PartialEq, Eq, Structural)]
pub struct Fighter {
    pub missile_sender: MissileRadioSender,
    pub fighter_target_id: Option<u32>,
    pub fighter_msgs_received: u32,
    /// Whether the circle runs counter-clockwise.
    pub orbit_forward: bool,
    pub current_period_ticks: u32,
    pub last_orbit_direction_change_tick: u32,
    pub num_direction_changes: u32,
}

impl Fighter {
    /// A fighter without a target. Its first direction and period are drawn.
    pub fn new(orbit_forward: bool, period_ticks: u32) -> (fighter: Self)
        ensures
            fighter == (Fighter {
                missile_sender: MissileRadioSender { delay_missile_contact: None },
                fighter_target_id: None,
                fighter_msgs_received: 0,
                orbit_forward,
                current_period_ticks: period_ticks,
                last_orbit_direction_change_tick: 0,
                num_direction_changes: 0,
            }),
    {
        Fighter {
            missile_sender: MissileRadioSender::new(),
            fighter_target_id: None,
            fighter_msgs_received: 0,
            orbit_forward,
            current_period_ticks: period_ticks,
            last_orbit_direction_change_tick: 0,
            num_direction_changes: 0,
        }
    }

    /// The entry of the watch list for the radar, where there is a target.
    pub fn watched_contact(&self) -> (entry: Option<(u32, u32)>)
        ensures
            entry == (match self.fighter_target_id {
                Some(id) => Some((id, PRIORITY_INTERVAL)),
                None => None::<(u32, u32)>,
            }),
    {
        match self.fighter_target_id {
            Some(id) => Some((id, PRIORITY_INTERVAL)),
            None => None,
        }
    }

    /// Whether a ship is one of the wing, which listens to the cruiser.
    pub fn in_wing(ship_id: u32) -> (wing: bool)
        ensures
            wing == (FIRST_WING <= ship_id <= LAST_WING),
    {
        FIRST_WING <= ship_id && ship_id <= LAST_WING
    }

    /// Counts a message that was heard, and tells what it is to this ship: ships 2, 3 and 4
    /// take the first, second and third for their own, and any other for a report.
    pub fn hear(&mut self, ship_id: u32) -> (message: Message)
        requires
            old(self).fighter_msgs_received < u32::MAX,
        ensures
            ({
                let wing = FIRST_WING <= ship_id <= LAST_WING;
                let count = old(self).fighter_msgs_received + 1;
                &&& message == (if !wing {
                    Message::Ignored
                } else if own_message(ship_id, count) {
                    Message::Assignment
                } else {
                    Message::Report
                })
                &&& *final(self) == (if wing {
                    Fighter { fighter_msgs_received: count as u32, ..*old(self) }
                } else {
                    *old(self)
                })
            }),
    {
        if !Self::in_wing(ship_id) {
            return Message::Ignored;
        }
        self.fighter_msgs_received = self.fighter_msgs_received + 1;
        if self.fighter_msgs_received == ship_id - 1 {
            Message::Assignment
        } else {
            Message::Report
        }
    }

    /// Whether the fighter knows, or knew, its own target. Until then it listens.
    pub fn received_assignment(&self, ship_id: u32) -> (received: bool)
        ensures
            received == (self.fighter_msgs_received >= messages_needed(ship_id)),
    {
        if ship_id == 0 {
            return self.fighter_msgs_received == u32::MAX;
        }
        self.fighter_msgs_received >= ship_id - 1
    }

    /// Takes over the target that was assigned.
    pub fn accept_target(&mut self, contact_id: u32)
        ensures
            *final(self) == (Fighter { fighter_target_id: Some(contact_id), ..*old(self) }),
    {
        self.fighter_target_id = Some(contact_id);
    }

    /// Looks for another target where there is none or it is gone: the closest fighter. What
    /// was hunted before stays the target where there is none. `present` tells whether the
    /// target is among all contacts, `contacts` are the confirmed ones.
    pub fn reacquire(&mut self, present: bool, contacts: &Vec<Contact>, distances: &Vec<u64>)
        requires
            distances.len() == contacts.len(),
        ensures
            *final(self) == (Fighter {
                fighter_target_id: if old(self).fighter_target_id is Some && present {
                    old(self).fighter_target_id
                } else {
                    match nearest(contacts@, Class::Fighter, distances@) {
                        Some(i) => Some(contacts@[i].id),
                        None => old(self).fighter_target_id,
                    }
                },
                ..*old(self)
            }),
    {
        if self.fighter_target_id.is_none() || !present {
            if let Some(place) = find_nearest(contacts, Class::Fighter, distances) {
                self.fighter_target_id = Some(contacts[place].id);
            }
        }
    }

    /// Whether the circle is to be turned round.
    pub fn orbit_due(&self, tick: u32) -> (due: bool)
        requires
            self.last_orbit_direction_change_tick <= tick,
        ensures
            due == (tick - self.last_orbit_direction_change_tick >= self.current_period_ticks),
    {
        tick - self.last_orbit_direction_change_tick >= self.current_period_ticks
    }

    /// Turns the circle round, until after the period that was drawn.
    pub fn flip_orbit(&mut self, tick: u32, period_ticks: u32)
        requires
            old(self).num_direction_changes < u32::MAX,
        ensures
            *final(self) == (Fighter {
                orbit_forward: !old(self).orbit_forward,
                current_period_ticks: period_ticks,
                last_orbit_direction_change_tick: tick,
                num_direction_changes: (old(self).num_direction_changes + 1) as u32,
                ..*old(self)
            }),
    {
        self.orbit_forward = !self.orbit_forward;
        self.current_period_ticks = period_ticks;
        self.last_orbit_direction_change_tick = tick;
        self.num_direction_changes = self.num_direction_changes + 1;
    }

    /// Whether the gun fires: there is a solution, by whose angle the nose is off, and the gun
    /// is about ready.
    pub fn fires_gun(solution: Option<Measure>, reload: u32) -> (fires: bool)
        ensures
            fires == (solution is Some && solution->0 < DEGREES_015 && reload
                <= GUN_LEAD_TICKS),
            fires ==> reload <= 5,
            solution is Some && solution->0 < DEGREES_015 && reload <= 5 ==> fires,
    {
        match solution {
            Some(angle) => reload <= GUN_LEAD_TICKS && angle < DEGREES_015,
            None => false,
        }
    }

    /// Launches a missile at the first fighter in sight, where the launcher is ready. Gives
    /// the id of the target.
    pub fn launch(&mut self, contacts: &Vec<Contact>, reload: u32) -> (target: Option<u32>)
        ensures
            target == (match first_of_class(contacts@, Class::Fighter) {
                Some(i) if reload == 0 => Some(contacts@[i].id),
                _ => None::<u32>,
            }),
            *final(self) == (Fighter {
                missile_sender: MissileRadioSender {
                    delay_missile_contact: if target is Some {
                        target
                    } else {
                        old(self).missile_sender.delay_missile_contact
                    },
                },
                ..*old(self)
            }),
    {
        match find_class(contacts, Class::Fighter) {
            Some(place) => {
                if reload != 0 {
                    return None;
                }
                let id: u32 = contacts[place].id;
                self.missile_sender.fire_missile(id);
                Some(id)
            },
            None => None,
        }
    }
}

/// Each of the first three messages is the own one of exactly one ship of the wing, and no
/// other message is anyone's.
pub proof fn law_wing_shares_out_messages(count: int)
    ensures
        1 <= count <= 3 <==> exists|ship: u32| own_message(ship, count),
        forall|one: u32, two: u32|
            own_message(one, count) && own_message(two, count) ==> one == two,
{
    if 1 <= count <= 3 {
        assert(own_message((count + 1) as u32, count));
    }
}

/// A ship of the wing has heard enough as soon as it has heard its own message, and not before.
/// Any other ship has its number of messages to hear, one fewer than its id; ship 0 hears all
/// there can be.
pub proof fn law_messages_needed(ship_id: u32)
    ensures
        2 <= ship_id <= 4 ==> own_message(ship_id, messages_needed(ship_id) as int),
        ship_id > 0 ==> messages_needed(ship_id) + 1 == ship_id,
        ship_id == 0 ==> messages_needed(ship_id) == u32::MAX,
{
}

} // verus!
