//! Fire control: when a weapon may fire, and what is left in its magazine.
use vstd::prelude::*;

verus! {

/// Rounds in the magazine of the main gun.
pub const GUN_MAGAZINE: u32 = 30;

/// Rounds in the magazine of the missile launcher.
pub const LAUNCHER_MAGAZINE: u32 = 1;

/// One weapon and its magazine. A magazine that has been emptied counts as full again
/// once the weapon has reloaded.
#[derive(Clone, Copy, Debug, PartialEq, Eq, Structural)]
pub struct FireControl {
    pub gun_id: usize,
    pub magazine_size: u32,
    pub bullets_in_magazine: u32,
}

impl FireControl {
    /// The magazine holds at most its size, and there is room for at least one round.
    pub open spec fn wf(self) -> bool {
        self.bullets_in_magazine <= self.magazine_size && self.magazine_size > 0
    }

    /// The rounds at hand while `reload_ticks` are left until the weapon is ready.
    pub open spec fn rounds(self, reload_ticks: u32) -> u32 {
        if self.bullets_in_magazine != 0 {
            self.bullets_in_magazine
        } else if reload_ticks > 0 {
            0
        } else {
            self.magazine_size
        }
    }

    /// The state after the trigger was pulled with `reload_ticks` left. A weapon that is
    /// not ready does not fire.
    pub open spec fn after_trigger(self, reload_ticks: u32) -> FireControl {
        if reload_ticks != 0 {
            self
        } else {
            FireControl {
                bullets_in_magazine: if self.rounds(0) == 0 {
                    0
                } else {
                    (self.rounds(0) - 1) as u32
                },
                ..self
            }
        }
    }

    /// Fire control for weapon `id`: 0 is the main gun, 1 the missile launcher.
    pub fn new(id: i32) -> (control: Self)
        requires
            id == 0 || id == 1,
        ensures
            control.wf(),
            control.gun_id == id,
            control.magazine_size == (if id == 0 {
                GUN_MAGAZINE
            } else {
                LAUNCHER_MAGAZINE
            }),
            control.bullets_in_magazine == control.magazine_size,
            id == 0 ==> control.magazine_size == 30,
            id == 1 ==> control.magazine_size == 1,
    {
        if id == 0 {
            FireControl {
                gun_id: 0,
                magazine_size: GUN_MAGAZINE,
                bullets_in_magazine: GUN_MAGAZINE,
            }
        } else {
            FireControl {
                gun_id: 1,
                magazine_size: LAUNCHER_MAGAZINE,
                bullets_in_magazine: LAUNCHER_MAGAZINE,
            }
        }
    }

    /// Fire control for weapon `id` of the ship.
    pub fn from_gun(id: i32) -> (control: Self)
        requires
            id == 0 || id == 1,
        ensures
            control.wf(),
            control.gun_id == id,
            control.magazine_size == (if id == 0 {
                GUN_MAGAZINE
            } else {
                LAUNCHER_MAGAZINE
            }),
            control.bullets_in_magazine == control.magazine_size,
            id == 0 ==> control.magazine_size == 30,
            id == 1 ==> control.magazine_size == 1,
    {
        Self::new(id)
    }

    /// The rounds at hand while `reload_ticks` are left until the weapon is ready.
    pub fn bullets_in_magazine(&self, reload_ticks: u32) -> (rounds: u32)
        ensures
            rounds == self.rounds(reload_ticks),
    {
        if self.bullets_in_magazine == 0 {
            if reload_ticks > 0 {
                0
            } else {
                self.magazine_size
            }
        } else {
            self.bullets_in_magazine
        }
    }

    /// Pulls the trigger. Tells whether the weapon fires.
    pub fn fire(&mut self, reload_ticks: u32) -> (fired: bool)
        ensures
            fired == (reload_ticks == 0),
            *final(self) == old(self).after_trigger(reload_ticks),
            old(self).wf() ==> final(self).wf(),
    {
        if reload_ticks != 0 {
            return false;
        }
        let current: u32 = self.bullets_in_magazine(reload_ticks);
        self.bullets_in_magazine = current.saturating_sub(1);
        true
    }

    /// Pulls the trigger on a target that a round reaches after `flight_ticks`. Tells
    /// whether the weapon fires, and for the main gun at which tick the round arrives.
    pub fn fire_at(&mut self, reload_ticks: u32, tick: u32, flight_ticks: u32) -> (shot: (bool, Option<u32>))
        requires
            tick + flight_ticks <= u32::MAX,
        ensures
            shot.0 == (reload_ticks == 0),
            shot.1 == (if reload_ticks == 0 && old(self).gun_id == 0 {
                Some((tick + flight_ticks) as u32)
            } else {
                None
            }),
            *final(self) == old(self).after_trigger(reload_ticks),
            old(self).wf() ==> final(self).wf(),
    {
        if reload_ticks != 0 {
            return (false, None);
        }
        let fired = self.fire(reload_ticks);
        if self.gun_id != 0 {
            return (fired, None);
        }
        (fired, Some(tick + flight_ticks))
    }
}

/// The state after `shots` shots with a weapon that was ready each time.
pub open spec fn after_shots(control: FireControl, shots: nat) -> FireControl
    decreases shots,
{
    if shots == 0 {
        control
    } else {
        after_shots(control, (shots - 1) as nat).after_trigger(0)
    }
}

/// A full magazine loses one round with each shot, down to none after as many shots as it
/// holds; then the reloaded weapon has a full magazine again.
pub proof fn law_magazine_runs_down(control: FireControl, shots: nat)
    requires
        control.wf(),
        control.bullets_in_magazine == control.magazine_size,
        shots <= control.magazine_size,
    ensures
        after_shots(control, shots).magazine_size == control.magazine_size,
        after_shots(control, shots).bullets_in_magazine == control.magazine_size - shots,
        shots == control.magazine_size ==> after_shots(control, shots).rounds(0)
            == control.magazine_size,
    decreases shots,
{
    if shots > 0 {
        law_magazine_runs_down(control, (shots - 1) as nat);
    }
}

/// An empty magazine holds nothing while the weapon reloads.
pub proof fn law_empty_while_reloading(control: FireControl, reload_ticks: u32)
    requires
        control.bullets_in_magazine == 0,
        reload_ticks > 0,
    ensures
        control.rounds(reload_ticks) == 0,
        control.after_trigger(reload_ticks) == control,
{
}

/// A weapon that is ready always fires one round, from the magazine or, where that is empty,
/// from a fresh one. One that is not ready keeps what it has. Nothing but the count of rounds
/// changes.
pub proof fn law_trigger(control: FireControl, reload_ticks: u32)
    requires
        control.wf(),
    ensures
        ({
            let after = control.after_trigger(reload_ticks);
            &&& after.gun_id == control.gun_id && after.magazine_size == control.magazine_size
            &&& reload_ticks > 0 ==> after == control
            &&& reload_ticks == 0 && control.bullets_in_magazine > 0 ==> after.bullets_in_magazine
                + 1 == control.bullets_in_magazine
            &&& reload_ticks == 0 && control.bullets_in_magazine == 0 ==> after.bullets_in_magazine
                + 1 == control.magazine_size
        }),
{
}

/// The rounds at hand are those in the magazine; an empty one counts as full as soon as the
/// weapon is ready, and as empty before that.
pub proof fn law_rounds_at_hand(control: FireControl, reload_ticks: u32)
    ensures
        control.bullets_in_magazine > 0 ==> control.rounds(reload_ticks)
            == control.bullets_in_magazine,
        control.bullets_in_magazine == 0 && reload_ticks == 0 ==> control.rounds(reload_ticks)
            == control.magazine_size,
        control.bullets_in_magazine == 0 && reload_ticks > 0 ==> control.rounds(reload_ticks) == 0,
{
}

} // verus!
