//! A cruiser: what its cannon and its launchers aim at, and what it tells its fighters.
use vstd::prelude::*;

use crate::contact::{place_of, place_of_id, Contact};
use crate::lookup::as_place;
use crate::measure::{Measure, DEGREES_67};
use crate::missile::{MissileRadioSender, TargetTelemetry};
use crate::select::{kept, lemma_kept_take};
use crate::weapons::{
    assign_cruiser_weapon, assigned, cruiser_ranks, fallback_place, fallback_target, launch_slot,
    launching_slot, note_seen, prune_targets, pruned, seen_after, watch_targets, watched_targets,
    TargetView,
};

verus! {

/// Fighters that are told their targets.
pub const BROADCASTS: usize = 3;

/// Members that each group of enemies has to have before the fighters are told about them.
pub const MIN_CLUSTER: usize = 2;

/// Which ships lie within 67.5 degrees of the side that a launcher is on.
pub open spec fn within_arc(angles: Seq<Measure>) -> Seq<bool> {
    Seq::new(angles.len(), |i: int| angles[i] <= DEGREES_67)
}

/// The ships among which the target of a missile is drawn: those within the launcher's arc,
/// or all where there are none.
pub open spec fn missile_pool_of(ships: Seq<Contact>, angles: Seq<Measure>) -> Seq<Contact> {
    let near = kept(ships, within_arc(angles));
    if near.len() > 0 {
        near
    } else {
        ships
    }
}

/// Whether there are three groups of enemies, each with at least two members.
pub open spec fn worth_telling(clusters: Seq<Vec<usize>>) -> bool {
    &&& clusters.len() == BROADCASTS
    &&& forall|c: int|
        #![trigger clusters[c]]
        0 <= c < clusters.len() ==> clusters[c]@.len() >= MIN_CLUSTER
}

/// The state of a cruiser.
#[derive(Clone, Debug)]
pub struct Cruiser {
    /// The targets of the cannon and of the two launchers; the last slot is not used.
    pub weapon_targets: [Option<u32>; 4],
    pub seen_target_ids: Vec<u32>,
    pub missile_sender: MissileRadioSender,
    /// What the fighters are told, while they are being told.
    pub fighter_targets_to_broadcast: Option<[TargetTelemetry; 3]>,
    pub fighter_broadcast_index: usize,
}

impl Cruiser {
    /// As long as there is something to tell the fighters, not all of it has been told.
    pub open spec fn wf(self) -> bool {
        &&& self.fighter_broadcast_index <= BROADCASTS
        &&& self.fighter_targets_to_broadcast is Some ==> self.fighter_broadcast_index < BROADCASTS
    }

    /// How many reports the fighters are still to be told.
    pub open spec fn reports_left(self) -> int {
        if self.fighter_targets_to_broadcast is Some {
            BROADCASTS - self.fighter_broadcast_index
        } else {
            0
        }
    }

    /// A cruiser without targets.
    pub fn new() -> (cruiser: Self)
        ensures
            cruiser.wf(),
            cruiser.weapon_targets@ == seq![None::<u32>, None, None, None],
            cruiser.seen_target_ids@ == Seq::<u32>::empty(),
            cruiser.missile_sender.delay_missile_contact is None,
            cruiser.fighter_targets_to_broadcast is None,
            cruiser.fighter_broadcast_index == 0,
    {
        let weapon_targets: [Option<u32>; 4] = [None; 4];
        assert(weapon_targets@ =~= seq![None::<u32>, None, None, None]);
        Cruiser {
            weapon_targets,
            seen_target_ids: Vec::new(),
            missile_sender: MissileRadioSender::new(),
            fighter_targets_to_broadcast: None,
            fighter_broadcast_index: 0,
        }
    }

    /// The watch list for the radar: the targets of the weapons.
    pub fn watched_contacts(&self) -> (entries: Vec<(u32, u32)>)
        ensures
            entries@ == watched_targets(self.weapon_targets@, seq![true, true, true, true], 3),
    {
        let active: [bool; 4] = [true; 4];
        assert(active@ =~= seq![true, true, true, true]);
        watch_targets(&self.weapon_targets, &active, 3)
    }

    /// Notes which ships were seen.
    pub fn note_ships(&mut self, ships: &Vec<Contact>)
        ensures
            old(self).wf() ==> final(self).wf(),
            final(self).seen_target_ids@ == seen_after(
                old(self).seen_target_ids@,
                ships@,
                ships@.len(),
            ),
            final(self).weapon_targets == old(self).weapon_targets,
            final(self).missile_sender == old(self).missile_sender,
            final(self).fighter_targets_to_broadcast == old(self).fighter_targets_to_broadcast,
            final(self).fighter_broadcast_index == old(self).fighter_broadcast_index,
    {
        note_seen(&mut self.seen_target_ids, ships);
    }

    /// Prepares what the fighters are told: the first member of each of three groups of
    /// enemies. This happens once. `reports` holds a report on each ship.
    pub fn stage_broadcast(&mut self, clusters: &Vec<Vec<usize>>, reports: &Vec<TargetTelemetry>) -> (staged: bool)
        requires
            forall|c: int, p: int|
                #![trigger clusters@[c]@[p]]
                0 <= c < clusters@.len() && 0 <= p < clusters@[c]@.len() ==> clusters@[c]@[p]
                    < reports.len(),
        ensures
            old(self).wf() ==> final(self).wf(),
            staged ==> final(self).reports_left() == BROADCASTS,
            staged == (old(self).fighter_targets_to_broadcast is None && old(
                self,
            ).fighter_broadcast_index == 0 && worth_telling(clusters@)),
            final(self).weapon_targets == old(self).weapon_targets,
            final(self).seen_target_ids == old(self).seen_target_ids,
            final(self).missile_sender == old(self).missile_sender,
            final(self).fighter_broadcast_index == old(self).fighter_broadcast_index,
            if staged {
                &&& final(self).fighter_targets_to_broadcast is Some
                &&& forall|k: int|
                    #![trigger clusters@[k]]
                    0 <= k < 3 ==> final(self).fighter_targets_to_broadcast->0@[k]
                        == reports@[clusters@[k]@[0] as int]
            } else {
                final(self).fighter_targets_to_broadcast == old(self).fighter_targets_to_broadcast
            },
    {
        if self.fighter_targets_to_broadcast.is_some() || self.fighter_broadcast_index != 0 {
            return false;
        }
        if clusters.len() != BROADCASTS {
            return false;
        }
        if clusters[0].len() < MIN_CLUSTER || clusters[1].len() < MIN_CLUSTER || clusters[2].len()
            < MIN_CLUSTER {
            return false;
        }
        assert(clusters@[0]@[0] < reports.len() && clusters@[1]@[0] < reports.len()
            && clusters@[2]@[0] < reports.len());
        let first = reports[clusters[0][0]];
        let mut targets: [TargetTelemetry; 3] = [first; 3];
        targets[1] = reports[clusters[1][0]];
        targets[2] = reports[clusters[2][0]];
        self.fighter_targets_to_broadcast = Some(targets);
        true
    }

    /// What the fighters are told next, while there is something left. With the last report
    /// the telling ends for good.
    pub fn next_broadcast(&mut self) -> (report: Option<TargetTelemetry>)
        ensures
            old(self).wf() ==> final(self).wf(),
            old(self).wf() ==> (report is Some <==> old(self).reports_left() > 0),
            report is Some ==> final(self).reports_left() == old(self).reports_left() - 1,
            old(self).fighter_broadcast_index <= final(self).fighter_broadcast_index,
            final(self).weapon_targets == old(self).weapon_targets,
            final(self).seen_target_ids == old(self).seen_target_ids,
            final(self).missile_sender == old(self).missile_sender,
            ({
                let index = old(self).fighter_broadcast_index;
                match old(self).fighter_targets_to_broadcast {
                    Some(targets) => {
                        let next = if index < BROADCASTS {
                            index + 1
                        } else {
                            index as int
                        };
                        &&& report == (if index < BROADCASTS {
                            Some(targets@[index as int])
                        } else {
                            None
                        })
                        &&& final(self).fighter_broadcast_index == next
                        &&& final(self).fighter_targets_to_broadcast == (if next == BROADCASTS {
                            None
                        } else {
                            Some(targets)
                        })
                    },
                    None => {
                        &&& report is None
                        &&& final(self).fighter_broadcast_index == index
                        &&& final(self).fighter_targets_to_broadcast is None
                    },
                }
            }),
    {
        match self.fighter_targets_to_broadcast {
            Some(targets) => {
                let mut report: Option<TargetTelemetry> = None;
                if self.fighter_broadcast_index < BROADCASTS {
                    report = Some(targets[self.fighter_broadcast_index]);
                    self.fighter_broadcast_index = self.fighter_broadcast_index + 1;
                }
                if self.fighter_broadcast_index == BROADCASTS {
                    self.fighter_targets_to_broadcast = None;
                }
                report
            },
            None => None,
        }
    }

    /// Makes the weapons give up targets that are gone, and gives the cannon one where it has
    /// none.
    pub fn assign_cannon(&mut self, ships: &Vec<Contact>, views: &Vec<TargetView>)
        requires
            views.len() == ships.len(),
        ensures
            old(self).wf() ==> final(self).wf(),
            final(self).seen_target_ids == old(self).seen_target_ids,
            final(self).missile_sender == old(self).missile_sender,
            final(self).fighter_targets_to_broadcast == old(self).fighter_targets_to_broadcast,
            final(self).fighter_broadcast_index == old(self).fighter_broadcast_index,
            ({
                let left = pruned(old(self).weapon_targets@, 3, ships@);
                let ranks = cruiser_ranks(
                    left,
                    Seq::empty(),
                    old(self).seen_target_ids@.len(),
                    0,
                    ships@,
                    views@,
                );
                final(self).weapon_targets@ == (if left[0] is None {
                    assigned(left, 0, ships@, ranks)
                } else {
                    left
                })
            }),
    {
        prune_targets(&mut self.weapon_targets, 3, ships);
        if self.weapon_targets[0].is_none() {
            let launches: Vec<(u32, u32)> = Vec::new();
            let seen: usize = self.seen_target_ids.len();
            assign_cruiser_weapon(&mut self.weapon_targets, &launches, seen, 0, ships, views);
        }
    }

    /// The launcher that gets a target: the left one where it is ready, else the right one
    /// where it is.
    pub fn launcher_to_aim(reload_1: u32, reload_2: u32) -> (slot: Option<usize>)
        ensures
            slot == (if reload_1 == 0 {
                Some(1usize)
            } else if reload_2 == 0 {
                Some(2usize)
            } else {
                None
            }),
    {
        if reload_1 == 0 {
            Some(1)
        } else if reload_2 == 0 {
            Some(2)
        } else {
            None
        }
    }

    /// The ids of the ships among which the target of a missile is drawn. `angles` tells, for
    /// each ship, how far it is off the side that the launcher is on.
    pub fn missile_pool(ships: &Vec<Contact>, angles: &Vec<Measure>) -> (pool: Vec<u32>)
        requires
            angles.len() == ships.len(),
        ensures
            pool@ == missile_pool_of(ships@, angles@).map_values(|c: Contact| c.id),
    {
        let ghost flags = within_arc(angles@);
        let mut near: Vec<u32> = Vec::new();
        let mut all: Vec<u32> = Vec::new();
        let mut i: usize = 0;
        proof {
            assert(ships@.take(0) =~= Seq::empty());
            assert(kept(ships@.take(0), flags).map_values(|c: Contact| c.id) =~= near@);
            assert(ships@.take(0).map_values(|c: Contact| c.id) =~= all@);
        }
        while i < ships.len()
            invariant
                0 <= i <= ships.len(),
                angles.len() == ships.len(),
                flags == within_arc(angles@),
                near@ == kept(ships@.take(i as int), flags).map_values(|c: Contact| c.id),
                all@ == ships@.take(i as int).map_values(|c: Contact| c.id),
            decreases ships.len() - i,
        {
            let ghost before = kept(ships@.take(i as int), flags);
            proof {
                lemma_kept_take(ships@, flags, i as int + 1);
                assert(ships@.take(i as int + 1) =~= ships@.take(i as int).push(ships@[i as int]));
                assert(before.push(ships@[i as int]).map_values(|c: Contact| c.id)
                    =~= before.map_values(|c: Contact| c.id).push(ships@[i as int].id));
                assert(ships@.take(i as int).push(ships@[i as int]).map_values(
                    |c: Contact| c.id,
                ) =~= ships@.take(i as int).map_values(|c: Contact| c.id).push(
                    ships@[i as int].id,
                ));
            }
            if angles[i] <= DEGREES_67 {
                near.push(ships[i].id);
            }
            all.push(ships[i].id);
            i = i + 1;
        }
        assert(ships@.take(i as int) =~= ships@);
        if near.len() > 0 {
            near
        } else {
            all
        }
    }

    /// The target drawn from the pool: the one with the number `draw`, or the last where the
    /// number is too high. None where the pool is empty.
    pub fn select_missile_target(pool: &Vec<u32>, draw: usize) -> (target: Option<u32>)
        ensures
            target == (if pool@.len() == 0 {
                None
            } else if draw < pool@.len() {
                Some(pool@[draw as int])
            } else {
                Some(pool@.last())
            }),
    {
        if pool.len() == 0 {
            return None;
        }
        if draw < pool.len() {
            Some(pool[draw])
        } else {
            Some(pool[pool.len() - 1])
        }
    }

    /// Gives a launcher its target.
    pub fn aim_launcher(&mut self, slot: usize, target: Option<u32>)
        requires
            slot < 4,
        ensures
            old(self).wf() ==> final(self).wf(),
            final(self).weapon_targets@ == old(self).weapon_targets@.update(slot as int, target),
            final(self).seen_target_ids == old(self).seen_target_ids,
            final(self).missile_sender == old(self).missile_sender,
            final(self).fighter_targets_to_broadcast == old(self).fighter_targets_to_broadcast,
            final(self).fighter_broadcast_index == old(self).fighter_broadcast_index,
    {
        self.weapon_targets[slot] = target;
    }

    /// The place of the ship that the cannon aims at. Where the cannon has no target, that of
    /// the ship to turn to; the flag tells the two apart.
    pub fn turn_to(&self, ships: &Vec<Contact>) -> (turn: (bool, Option<usize>))
        ensures
            turn.0 == (self.weapon_targets@[0] is Some),
            as_place(turn.1) == (match self.weapon_targets@[0] {
                Some(id) => place_of(ships@, id),
                None => fallback_place(self.weapon_targets@, ships@),
            }),
    {
        match self.weapon_targets[0] {
            Some(id) => (true, place_of_id(ships, id)),
            None => (false, fallback_target(&self.weapon_targets, ships)),
        }
    }

    /// Whether the cannon fires: it has a solution and is ready.
    pub fn fires_cannon(has_solution: bool, reload_0: u32) -> (fires: bool)
        ensures
            fires == (has_solution && reload_0 == 0),
    {
        has_solution && reload_0 == 0
    }

    /// Launches a missile where a radio is left to tell it its target. Gives the launcher and
    /// the target; the launcher loses the target.
    pub fn launch(&mut self, radio_left: bool, reload_1: u32, reload_2: u32) -> (launched: Option<(usize, u32)>)
        ensures
            old(self).wf() ==> final(self).wf(),
            final(self).seen_target_ids == old(self).seen_target_ids,
            final(self).fighter_targets_to_broadcast == old(self).fighter_targets_to_broadcast,
            final(self).fighter_broadcast_index == old(self).fighter_broadcast_index,
            ({
                let slot = launching_slot(old(self).weapon_targets@, reload_1, reload_2);
                if radio_left && slot is Some {
                    let w = slot->0 as int;
                    let target = old(self).weapon_targets@[w]->0;
                    &&& launched == Some((slot->0, target))
                    &&& final(self).weapon_targets@ == old(self).weapon_targets@.update(w, None)
                    &&& final(self).missile_sender.delay_missile_contact == Some(target)
                } else {
                    &&& launched is None
                    &&& final(self).weapon_targets@ == old(self).weapon_targets@
                    &&& final(self).missile_sender == old(self).missile_sender
                }
            }),
    {
        if !radio_left {
            return None;
        }
        match launch_slot(&self.weapon_targets, reload_1, reload_2) {
            Some(w) => match self.weapon_targets[w] {
                Some(target) => {
                    self.missile_sender.fire_missile(target);
                    self.weapon_targets[w] = None;
                    Some((w, target))
                },
                None => None,
            },
            None => None,
        }
    }
}

/// The target drawn for a missile is one of the ships, and within the launcher's arc where
/// any ship is.
pub proof fn law_drawn_target_is_in_pool(ships: Seq<Contact>, angles: Seq<Measure>, i: int)
    requires
        angles.len() == ships.len(),
        0 <= i < missile_pool_of(ships, angles).len(),
    ensures
        exists|k: int|
            0 <= k < ships.len() && #[trigger] ships[k] == missile_pool_of(ships, angles)[i] && (
            angles[k] <= DEGREES_67 || kept(ships, within_arc(angles)).len() == 0),
{
    let pool = missile_pool_of(ships, angles);
    let flags = within_arc(angles);
    if kept(ships, flags).len() > 0 {
        assert(kept(ships, flags).contains(pool[i]));
        crate::select::lemma_kept_contains(ships, flags, pool[i]);
        let k = choose|k: int| 0 <= k < ships.len() && #[trigger] ships[k] == pool[i] && flags[k];
        assert(ships[k] == pool[i]);
    } else {
        assert(ships[i] == pool[i]);
    }
}

/// The target of a missile is drawn among all ships within 67.5 degrees of the launcher's side,
/// and no others; where there are none, among all ships. The order is that of the ships.
pub proof fn law_missile_pool(ships: Seq<Contact>, angles: Seq<Measure>, ship: Contact)
    requires
        angles.len() == ships.len(),
    ensures
        ({
            let pool = missile_pool_of(ships, angles);
            let any_near = exists|i: int| 0 <= i < angles.len() && #[trigger] angles[i] <= DEGREES_67;
            &&& any_near ==> (pool.contains(ship) <==> exists|k: int|
                0 <= k < ships.len() && #[trigger] ships[k] == ship && angles[k] <= DEGREES_67)
            &&& !any_near ==> pool == ships
        }),
{
    let flags = within_arc(angles);
    crate::select::lemma_kept_contains(ships, flags, ship);
    let places = crate::select::law_kept_in_order(ships, flags);
    if exists|i: int| 0 <= i < angles.len() && #[trigger] angles[i] <= DEGREES_67 {
        let i = choose|i: int| 0 <= i < angles.len() && #[trigger] angles[i] <= DEGREES_67;
        assert(flags[i]);
        assert(places.contains(i));
    }
    if kept(ships, flags).len() > 0 {
        let i = places[0];
        assert(angles[i] <= DEGREES_67);
    }
}

/// The fighters are told about the enemies exactly where those form three groups, each of two or
/// more.
pub proof fn law_worth_telling(clusters: Seq<Vec<usize>>)
    ensures
        worth_telling(clusters) <==> clusters.len() == 3 && clusters[0]@.len() >= 2
            && clusters[1]@.len() >= 2 && clusters[2]@.len() >= 2,
{
}

/// There are as many reports left as the fighters have not been told of the three, and none
/// where nothing is being told.
pub proof fn law_reports_left(cruiser: Cruiser)
    ensures
        cruiser.fighter_targets_to_broadcast is None ==> cruiser.reports_left() == 0,
        cruiser.fighter_targets_to_broadcast is Some ==> cruiser.reports_left()
            + cruiser.fighter_broadcast_index == 3,
{
}

} // verus!
