//! The defence of a cruiser: which part each ship plays, and over which links they talk.
use vstd::prelude::*;

use crate::class::Class;
use crate::radio::SecureRadio;

verus! {

/// The secret of the link to the missiles.
pub const MISSILE_SECRET: u32 = 1337;

/// The secret of the link to the fighters.
pub const FIGHTER_SECRET: u32 = 1338;

/// By how many channels the link to the fighters is shifted.
pub const FIGHTER_OFFSET: usize = 4;

/// The part that a ship plays.
#[derive(Clone, Copy, Debug, PartialEq, Eq, Structural)]
pub enum Role {
    Missile,
    Fighter,
    Cruiser,
}

/// A ship in the defence of a cruiser.
#[derive(Clone, Copy, Debug, PartialEq, Eq, Structural)]
pub struct Ship {
    pub role: Role,
    pub missile_radio: SecureRadio,
    pub fighter_radio: SecureRadio,
}

impl Ship {
    /// A ship of class `class`: missiles and fighters play their own parts, any other that of
    /// the cruiser. All ships share two links, one to the missiles and one to the fighters.
    pub fn new(class: Class) -> (ship: Self)
        ensures
            ship.role == (match class {
                Class::Missile => Role::Missile,
                Class::Fighter => Role::Fighter,
                _ => Role::Cruiser,
            }),
            ship.missile_radio.secret == MISSILE_SECRET,
            ship.missile_radio.channel_offset == 0,
            ship.missile_radio.receive_token is None,
            ship.fighter_radio.secret == FIGHTER_SECRET,
            ship.fighter_radio.channel_offset == FIGHTER_OFFSET,
            ship.fighter_radio.receive_token is None,
            ship.missile_radio.secret == 1337 && ship.fighter_radio.secret == 1338,
            ship.fighter_radio.channel_offset == 4,
    {
        let role = if class == Class::Missile {
            Role::Missile
        } else if class == Class::Fighter {
            Role::Fighter
        } else {
            Role::Cruiser
        };
        Ship {
            role,
            missile_radio: SecureRadio::new(MISSILE_SECRET, 0),
            fighter_radio: SecureRadio::new(FIGHTER_SECRET, FIGHTER_OFFSET),
        }
    }
}

} // verus!
