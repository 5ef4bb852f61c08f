//! Ship classes, as the radar and the radio speak of them.
use vstd::prelude::*;

verus! {

/// The class of a ship or of a radar contact.
#[derive(Clone, Copy, Debug, PartialEq, Eq, Structural)]
pub enum Class {
    Fighter,
    Frigate,
    Cruiser,
    Asteroid,
    Target,
    Missile,
    Torpedo,
    Unknown,
}

impl Class {
    /// How many radios a ship of this class carries.
    pub open spec fn radios(self) -> nat {
        match self {
            Class::Cruiser => 8,
            Class::Frigate => 4,
            _ => 1,
        }
    }

    /// How many radars a ship of this class drives.
    pub open spec fn radars(self) -> nat {
        if self == Class::Cruiser {
            2
        } else {
            1
        }
    }

    /// Missiles and torpedoes: contacts that are dropped once they move away.
    pub open spec fn is_munition(self) -> bool {
        self == Class::Missile || self == Class::Torpedo
    }
}

/// A cruiser drives two radars and carries eight radios, a frigate carries four radios; any
/// other ship has one of each.
pub proof fn law_equipment(class: Class)
    ensures
        class.radars() == 2 <==> class == Class::Cruiser,
        class.radars() == 1 <==> class != Class::Cruiser,
        class == Class::Cruiser ==> class.radios() == 8,
        class == Class::Frigate ==> class.radios() == 4,
        class != Class::Cruiser && class != Class::Frigate ==> class.radios() == 1,
{
}

} // verus!
