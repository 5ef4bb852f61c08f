//! A frigate at target practice: which target its gun takes next, and when it fires.
use std::collections::HashMap;
use vstd::prelude::*;

use crate::contact::{place_of, place_of_id, Contact};
use crate::lookup::as_place;
use crate::measure::{Measure, METERS_1, METERS_15, METERS_20, METERS_50};
use crate::select::{first_min, first_min_of};
use crate::weapons::{first_best, first_best_of, TargetRank};

verus! {

broadcast use vstd::std_specs::hash::group_hash_axioms;

/// Slices that the search pattern runs over.
pub const SLICES: usize = 10;

/// Ticks between scans of the target.
pub const TARGET_INTERVAL: u32 = 3;

/// The search pattern: slices side by side, each repeated behind every hit in it.
#[derive(Clone, Copy, Debug, PartialEq, Eq, Structural)]
pub struct GunneryScanSliceGenerator {
    pub current_slice_index: usize,
    pub last_slice_tick: Option<u32>,
}

impl GunneryScanSliceGenerator {
    /// The index is that of a slice.
    pub open spec fn wf(self) -> bool {
        self.current_slice_index < SLICES
    }

    /// Whether the last slice was scanned at the tick before.
    pub open spec fn follows(self, tick: u32) -> bool {
        self.last_slice_tick is Some && self.last_slice_tick->0 + 1 == tick
    }

    /// A pattern at its start.
    pub fn new() -> (generator: Self)
        ensures
            generator == (GunneryScanSliceGenerator {
                current_slice_index: 0,
                last_slice_tick: None,
            }),
            generator.wf(),
    {
        GunneryScanSliceGenerator { current_slice_index: 0, last_slice_tick: None }
    }

    /// Whether what the radar holds at `tick` is the result of the last slice.
    pub fn awaits_result(&self, tick: u32) -> (waits: bool)
        requires
            self.last_slice_tick matches Some(last) ==> last < u32::MAX,
        ensures
            waits == self.follows(tick),
    {
        match self.last_slice_tick {
            Some(last) => last + 1 == tick,
            None => false,
        }
    }

    /// The next slice. After a hit in the last slice it is the same slice again, from behind
    /// the hit; the flag tells so.
    pub fn next_slice(&mut self, tick: u32, hit: bool) -> (slice: (usize, bool))
        requires
            old(self).wf(),
            old(self).last_slice_tick matches Some(last) ==> last < u32::MAX,
        ensures
            final(self).wf(),
            slice.1 == (hit && old(self).follows(tick)),
            slice.0 == final(self).current_slice_index,
            *final(self) == (GunneryScanSliceGenerator {
                current_slice_index: if old(self).follows(tick) && !hit {
                    ((old(self).current_slice_index + 1) % SLICES as int) as usize
                } else {
                    old(self).current_slice_index
                },
                last_slice_tick: Some(tick),
            }),
            old(self).follows(tick) && !hit ==> final(self).current_slice_index == (if old(
                self,
            ).current_slice_index == 9 {
                0
            } else {
                old(self).current_slice_index + 1
            }),
    {
        let follows = self.awaits_result(tick);
        let repeat = hit && follows;
        if !repeat && follows {
            self.current_slice_index = (self.current_slice_index + 1) % SLICES;
        }
        self.last_slice_tick = Some(tick);
        (self.current_slice_index, repeat)
    }
}

/// How a possible target lies.
#[derive(Clone, Copy, Debug, PartialEq, Eq, Structural)]
pub struct PracticeView {
    /// The radius within which it is known to be.
    pub uncertainty: Measure,
    /// The order key of how far north it would be hit.
    pub north: u64,
    /// The same with the bonus of the target that the gun has already.
    pub north_with_bonus: u64,
}

/// How a contact lies that a round might hit before its target.
#[derive(Clone, Copy, Debug, PartialEq, Eq)]
pub struct Bystander {
    pub distance: Measure,
    /// When the round would be closest to it and how close, where it comes near at all.
    pub pass: Option<(Measure, Measure)>,
}

/// The state of the frigate.
pub struct Ship {
    pub weapon_target: Option<u32>,
    /// Shots fired at each target.
    pub fire_counts: HashMap<u32, u32>,
}

/// The shots fired at a target.
pub open spec fn attempts(counts: Map<u32, u32>, id: u32) -> u32 {
    if counts.dom().contains(id) {
        counts[id]
    } else {
        0
    }
}

/// How good the contacts are as targets: those known well go first, then those shot at less,
/// then those farther north, where the target at hand has a bonus.
pub open spec fn practice_ranks(
    contacts: Seq<Contact>,
    views: Seq<PracticeView>,
    counts: Map<u32, u32>,
    current: Option<u32>,
) -> Seq<Option<TargetRank>> {
    Seq::new(
        contacts.len(),
        |i: int|
            Some(
                TargetRank {
                    taken: views[i].uncertainty > METERS_50,
                    guns: attempts(counts, contacts[i].id) as usize,
                    wrong_side: false,
                    cost: (u64::MAX - (if current == Some(contacts[i].id) {
                        views[i].north_with_bonus
                    } else {
                        views[i].north
                    })) as u64,
                },
            ),
    )
}

/// The times at which the round would hit others than the target that are closer than it.
pub open spec fn collision_keys(contacts: Seq<Contact>, target: u32, distance: Measure, others: Seq<Bystander>) -> Seq<
    Option<u64>,
> {
    Seq::new(
        contacts.len(),
        |i: int|
            match others[i].pass {
                Some((time, gap)) if contacts[i].id != target && others[i].distance < distance
                    && gap <= METERS_15 => Some(time),
                _ => None::<u64>,
            },
    )
}

/// The id of the contact that the round hits.
pub open spec fn struck_id(contacts: Seq<Contact>, target: u32, distance: Measure, others: Seq<Bystander>) -> u32 {
    match first_min_of(collision_keys(contacts, target, distance, others)) {
        Some(i) => contacts[i].id,
        None => target,
    }
}

impl Ship {
    /// A frigate that has not fired yet.
    pub fn new() -> (ship: Self)
        ensures
            ship.weapon_target is None,
            ship.fire_counts@ == Map::<u32, u32>::empty(),
    {
        Ship { weapon_target: None, fire_counts: HashMap::new() }
    }

    /// The entry of the watch list for the radar, where there is a target.
    pub fn watched_contact(&self) -> (entry: Option<(u32, u32)>)
        ensures
            entry == (match self.weapon_target {
                Some(id) => Some((id, 3u32)),
                None => None::<(u32, u32)>,
            }),
    {
        match self.weapon_target {
            Some(id) => Some((id, TARGET_INTERVAL)),
            None => None,
        }
    }

    /// The shots fired at a target.
    pub fn shots_at(&self, id: u32) -> (shots: u32)
        ensures
            shots == attempts(self.fire_counts@, id),
    {
        match self.fire_counts.get(&id) {
            Some(count) => *count,
            None => 0,
        }
    }

    /// Gives the gun the best target there is, and tells its place.
    pub fn select_target(&mut self, contacts: &Vec<Contact>, views: &Vec<PracticeView>) -> (place: Option<usize>)
        requires
            views.len() == contacts.len(),
        ensures
            final(self).fire_counts@ == old(self).fire_counts@,
            ({
                let best = first_best_of(
                    practice_ranks(
                        contacts@,
                        views@,
                        old(self).fire_counts@,
                        old(self).weapon_target,
                    ),
                );
                &&& final(self).weapon_target == (match best {
                    Some(i) => Some(contacts@[i].id),
                    None => None::<u32>,
                })
                &&& as_place(place) == (match best {
                    Some(i) => place_of(contacts@, contacts@[i].id),
                    None => None::<int>,
                })
            }),
            place matches Some(i) ==> i < contacts.len(),
    {
        let ghost all = practice_ranks(
            contacts@,
            views@,
            self.fire_counts@,
            self.weapon_target,
        );
        let mut ranks: Vec<Option<TargetRank>> = Vec::new();
        let mut i: usize = 0;
        while i < contacts.len()
            invariant
                0 <= i <= contacts.len(),
                views.len() == contacts.len(),
                all == practice_ranks(
                    contacts@,
                    views@,
                    self.fire_counts@,
                    self.weapon_target,
                ),
                ranks@ == all.take(i as int),
            decreases contacts.len() - i,
        {
            let id: u32 = contacts[i].id;
            let view = views[i];
            let at_hand = match self.weapon_target {
                Some(current) => current == id,
                None => false,
            };
            let north: u64 = if at_hand {
                view.north_with_bonus
            } else {
                view.north
            };
            let guns: usize = self.shots_at(id) as usize;
            ranks.push(
                Some(
                    TargetRank {
                        taken: view.uncertainty > METERS_50,
                        guns,
                        wrong_side: false,
                        cost: u64::MAX - north,
                    },
                ),
            );
            assert(all.take(i as int + 1) =~= all.take(i as int).push(all[i as int]));
            i = i + 1;
        }
        assert(ranks@ =~= all);
        match first_best(&ranks) {
            Some(best) => {
                let id: u32 = contacts[best].id;
                self.weapon_target = Some(id);
                place_of_id(contacts, id)
            },
            None => {
                self.weapon_target = None;
                None
            },
        }
    }

    /// Whether the gun fires: it is ready, the round passes within a metre of the target, and
    /// the target is known within 20 metres.
    pub fn fires(reload: u32, pass_distance: Measure, uncertainty: Measure) -> (fires: bool)
        ensures
            fires == (reload == 0 && pass_distance <= METERS_1 && uncertainty <= METERS_20),
    {
        reload == 0 && pass_distance <= METERS_1 && uncertainty <= METERS_20
    }

    /// Counts a shot at the target, or at the contact that the round hits first on its way.
    /// Gives the place of that contact, where it is another one than the target.
    pub fn record_shot(
        &mut self,
        contacts: &Vec<Contact>,
        target: u32,
        distance: Measure,
        others: &Vec<Bystander>,
    ) -> (hit: Option<usize>)
        requires
            others.len() == contacts.len(),
            attempts(
                old(self).fire_counts@,
                struck_id(contacts@, target, distance, others@),
            ) < u32::MAX,
        ensures
            final(self).weapon_target == old(self).weapon_target,
            as_place(hit) == first_min_of(collision_keys(contacts@, target, distance, others@)),
            ({
                let id = struck_id(contacts@, target, distance, others@);
                final(self).fire_counts@ == old(self).fire_counts@.insert(
                    id,
                    (attempts(old(self).fire_counts@, id) + 1) as u32,
                )
            }),
    {
        let ghost all = collision_keys(contacts@, target, distance, others@);
        let mut keys: Vec<Option<u64>> = Vec::new();
        let mut i: usize = 0;
        while i < contacts.len()
            invariant
                0 <= i <= contacts.len(),
                others.len() == contacts.len(),
                all == collision_keys(contacts@, target, distance, others@),
                keys@ == all.take(i as int),
            decreases contacts.len() - i,
        {
            let other = others[i];
            let key = match other.pass {
                Some((time, gap)) => if contacts[i].id != target && other.distance < distance
                    && gap <= METERS_15 {
                    Some(time)
                } else {
                    None
                },
                None => None,
            };
            keys.push(key);
            assert(all.take(i as int + 1) =~= all.take(i as int).push(all[i as int]));
            i = i + 1;
        }
        assert(keys@ =~= all);
        let hit = first_min(&keys);
        let id: u32 = match hit {
            Some(place) => contacts[place].id,
            None => target,
        };
        let count: u32 = self.shots_at(id);
        self.fire_counts.insert(id, count + 1);
        hit
    }
}

/// A well known target is preferred to a badly known one, and among equally known ones the one
/// shot at less.
pub proof fn law_known_and_fresh_targets_first(
    contacts: Seq<Contact>,
    views: Seq<PracticeView>,
    counts: Map<u32, u32>,
    current: Option<u32>,
    i: int,
    j: int,
)
    requires
        crate::weapons::is_first_best(practice_ranks(contacts, views, counts, current), i),
        0 <= j < contacts.len(),
    ensures
        views[j].uncertainty <= METERS_50 ==> views[i].uncertainty <= METERS_50,
        (views[i].uncertainty <= METERS_50) == (views[j].uncertainty <= METERS_50) ==> attempts(
            counts,
            contacts[i].id,
        ) <= attempts(counts, contacts[j].id),
{
    let ranks = practice_ranks(contacts, views, counts, current);
    assert(!ranks[j]->0.better(ranks[i]->0));
}

/// The gun takes a target known within 50 m before any other, then one shot at fewer times, then
/// the one farther north, where the target at hand counts with its bonus; and then the first. It
/// has a target where there is a contact.
#[verifier::rlimit(40)]
pub proof fn law_practice_target(
    contacts: Seq<Contact>,
    views: Seq<PracticeView>,
    counts: Map<u32, u32>,
    current: Option<u32>,
)
    requires
        views.len() == contacts.len(),
    ensures
        ({
            let known = |i: int| views[i].uncertainty <= METERS_50;
            let shots = |i: int|
                if counts.dom().contains(contacts[i].id) {
                    counts[contacts[i].id]
                } else {
                    0
                };
            let north = |i: int|
                if current == Some(contacts[i].id) {
                    views[i].north_with_bonus
                } else {
                    views[i].north
                };
            match first_best_of(practice_ranks(contacts, views, counts, current)) {
                Some(p) => {
                    &&& 0 <= p < contacts.len()
                    &&& forall|q: int|
                        #![trigger contacts[q]]
                        0 <= q < contacts.len() && q != p ==> {
                            &&& known(q) ==> known(p)
                            &&& known(p) == known(q) ==> shots(p) <= shots(q)
                            &&& known(p) == known(q) && shots(p) == shots(q) ==> north(p) >= north(
                                q,
                            )
                            &&& known(p) == known(q) && shots(p) == shots(q) && north(p) == north(q)
                                ==> p < q
                        }
                },
                None => contacts.len() == 0,
            }
        }),
{
    let ranks = practice_ranks(contacts, views, counts, current);
    crate::weapons::law_best_rank(ranks);
    let shots = |i: int|
        if counts.dom().contains(contacts[i].id) {
            counts[contacts[i].id]
        } else {
            0
        };
    let north = |i: int|
        if current == Some(contacts[i].id) {
            views[i].north_with_bonus
        } else {
            views[i].north
        };
    assert forall|i: int| #![trigger contacts[i]] 0 <= i < contacts.len() implies ranks[i] is Some && {
        let r = ranks[i]->0;
        &&& r.taken == !(views[i].uncertainty <= METERS_50)
        &&& r.guns == shots(i)
        &&& !r.wrong_side
        &&& r.cost == u64::MAX - north(i)
    } by {}
    match first_best_of(ranks) {
        Some(p) => {
            let best = ranks[p]->0;
            assert forall|q: int| #![trigger contacts[q]] 0 <= q < contacts.len() && q != p implies {
                let other = ranks[q]->0;
                &&& other.taken == !(views[q].uncertainty <= METERS_50)
                &&& best.taken == other.taken ==> shots(p) <= shots(q)
                &&& best.taken == other.taken && shots(p) == shots(q) ==> north(p) >= north(q)
                &&& best.taken == other.taken && shots(p) == shots(q) && north(p) == north(q) ==> p
                    < q
            } by {
                let other = ranks[q]->0;
                if best.taken == other.taken && shots(p) == shots(q) && north(p) == north(q) {
                    assert(best == other);
                }
            }
        },
        None => {
            if contacts.len() > 0 {
                assert(ranks[0] is Some);
            }
        },
    }
}

/// A round hits, before its target, a contact that is closer than the target and that it passes
/// within 15 m: of these the one that it passes first, and the first in the list among equals.
/// Without such a one it hits its target.
pub proof fn law_struck_contact(contacts: Seq<Contact>, target: u32, distance: Measure, others: Seq<Bystander>)
    requires
        others.len() == contacts.len(),
    ensures
        ({
            let in_the_way = |i: int, time: u64|
                {
                    &&& contacts[i].id != target
                    &&& others[i].distance < distance
                    &&& time < crate::select::FARTHEST
                    &&& exists|gap: Measure|
                        gap <= METERS_15 && others[i].pass == Some((time, gap))
                };
            match first_min_of(collision_keys(contacts, target, distance, others)) {
                Some(p) => {
                    &&& 0 <= p < contacts.len()
                    &&& struck_id(contacts, target, distance, others) == contacts[p].id
                    &&& exists|time: u64|
                        {
                            &&& #[trigger] in_the_way(p, time)
                            &&& forall|j: int, later: u64|
                                0 <= j < contacts.len() && #[trigger] in_the_way(j, later) ==> time
                                    <= later && (j < p ==> time < later)
                        }
                },
                None => {
                    &&& struck_id(contacts, target, distance, others) == target
                    &&& forall|j: int, time: u64|
                        0 <= j < contacts.len() ==> !#[trigger] in_the_way(j, time)
                },
            }
        }),
{
    let keys = collision_keys(contacts, target, distance, others);
    let in_the_way = |i: int, time: u64|
        {
            &&& contacts[i].id != target
            &&& others[i].distance < distance
            &&& time < crate::select::FARTHEST
            &&& exists|gap: Measure| gap <= METERS_15 && others[i].pass == Some((time, gap))
        };
    crate::select::law_first_min(keys);
    assert forall|j: int, time: u64|
        0 <= j < contacts.len() && #[trigger] in_the_way(j, time) implies keys[j] == Some(time) by {}
    if let Some(p) = first_min_of(keys) {
        let time = keys[p]->0;
        match others[p].pass {
            Some((t, gap)) => {
                assert(gap <= METERS_15 && others[p].pass == Some((time, gap)));
            },
            None => {},
        }
        assert(in_the_way(p, time));
    }
}

/// A slice follows another where that one was scanned at the tick before, and not otherwise; the
/// first slice follows none.
pub proof fn law_slices_follow(generator: GunneryScanSliceGenerator, tick: u32)
    ensures
        generator.last_slice_tick is None ==> !generator.follows(tick),
        generator.last_slice_tick matches Some(last) ==> (generator.follows(tick) <==> tick > 0
            && last == tick - 1),
{
}

} // verus!
