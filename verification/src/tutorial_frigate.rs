//! A frigate with a forward gun, two turrets and a missile launcher.
use vstd::prelude::*;

use crate::contact::{place_of, place_of_id, Contact};
use crate::lookup::as_place;
use crate::measure::{Measure, DEGREES_TENTH};
use crate::select::kept;
use crate::weapons::{
    assigned, at_others, count_guns, count_launches, fallback_place, fallback_target, first_best,
    forget_launches, guns_on, launched_before, launches_at, note_seen, prune_targets, pruned,
    release_target, released, remember_launch, remembered, seen_after, watch_targets,
    watched_targets, TargetRank, TargetView, ASSIGN_LEAD_TICKS,
};

verus! {

/// Ticks before a weapon is ready at which the radar watches its target.
pub const WATCH_LEAD_TICKS: u32 = 5;

/// Targets that have to be seen before two weapons may share one.
pub const MANY_TARGETS: usize = 4;

/// The state of the frigate.
#[derive(Clone, Debug)]
pub struct Ship {
    /// The targets of the gun, of the two turrets and of the launcher.
    pub weapon_targets: [Option<u32>; 4],
    pub just_fired_missile: bool,
    pub previous_missile_target_id: Option<u32>,
    pub current_missile_target_id: Option<u32>,
    /// Targets launched at, and when.
    pub missile_launch_history: Vec<(u32, u32)>,
    pub seen_target_ids: Vec<u32>,
}

/// What a target costs weapon `w`: the gun the angle off the nose, a turret the distance. The
/// launcher prefers targets that its missiles take longer to reach.
pub open spec fn frigate_cost(w: int, view: TargetView) -> u64 {
    if w == 0 {
        view.off_nose
    } else if w == 3 {
        (u64::MAX - view.reach_time) as u64
    } else {
        view.distance
    }
}

/// How good the fighters are for weapon `w`. As long as few were seen, none that another
/// weapon aims at comes into question.
pub open spec fn frigate_ranks(
    slots: Seq<Option<u32>>,
    history: Seq<(u32, u32)>,
    seen: nat,
    w: int,
    fighters: Seq<Contact>,
    views: Seq<TargetView>,
) -> Seq<Option<TargetRank>> {
    Seq::new(
        fighters.len(),
        |i: int|
            {
                let guns = guns_on(slots, 4, fighters[i].id, Some(w as usize));
                if seen < MANY_TARGETS && guns > 0 {
                    None
                } else {
                    Some(
                        TargetRank {
                            taken: guns > 0 || launches_at(history, fighters[i].id) > 0,
                            guns: guns as usize,
                            wrong_side: false,
                            cost: frigate_cost(w, views[i]),
                        },
                    )
                }
            },
    )
}

/// The weapons after those whose targets are gone, or for the launcher was launched at
/// already, gave them up.
pub open spec fn freed(slots: Seq<Option<u32>>, history: Seq<(u32, u32)>, fighters: Seq<Contact>) -> Seq<
    Option<u32>,
> {
    let left = pruned(slots, 4, fighters);
    left.update(3, released(left[3], history, fighters))
}

/// The weapons after weapon `w` got a target, where it has none and `due` holds.
pub open spec fn filled(
    slots: Seq<Option<u32>>,
    history: Seq<(u32, u32)>,
    seen: nat,
    w: int,
    due: bool,
    fighters: Seq<Contact>,
    views: Seq<TargetView>,
) -> Seq<Option<u32>> {
    if slots[w] is None && due {
        assigned(slots, w, fighters, frigate_ranks(slots, history, seen, w, fighters, views))
    } else {
        slots
    }
}

/// The weapons after the targets were shared out: they give up what is to be given up, and
/// those without a target get one, the launcher first, and all but the gun only when they are
/// about ready.
pub open spec fn shared_out(
    slots: Seq<Option<u32>>,
    history: Seq<(u32, u32)>,
    seen: nat,
    reloads: Seq<u32>,
    fighters: Seq<Contact>,
    views: Seq<TargetView>,
) -> Seq<Option<u32>> {
    let start = freed(slots, history, fighters);
    let one = filled(start, history, seen, 3, reloads[3] <= ASSIGN_LEAD_TICKS, fighters, views);
    let two = filled(one, history, seen, 0, true, fighters, views);
    let three = filled(two, history, seen, 1, reloads[1] <= ASSIGN_LEAD_TICKS, fighters, views);
    filled(three, history, seen, 2, reloads[2] <= ASSIGN_LEAD_TICKS, fighters, views)
}

/// Which weapons are about ready.
pub open spec fn watching(reloads: Seq<u32>) -> Seq<bool> {
    Seq::new(4, |w: int| reloads[w] <= WATCH_LEAD_TICKS)
}

impl Ship {
    /// A frigate without targets.
    pub fn new() -> (ship: Self)
        ensures
            ship.weapon_targets@ == seq![None::<u32>, None, None, None],
            !ship.just_fired_missile,
            ship.previous_missile_target_id is None,
            ship.current_missile_target_id is None,
            ship.missile_launch_history@ == Seq::<(u32, u32)>::empty(),
            ship.seen_target_ids@ == Seq::<u32>::empty(),
    {
        let weapon_targets: [Option<u32>; 4] = [None; 4];
        assert(weapon_targets@ =~= seq![None::<u32>, None, None, None]);
        Ship {
            weapon_targets,
            just_fired_missile: false,
            previous_missile_target_id: None,
            current_missile_target_id: None,
            missile_launch_history: Vec::new(),
            seen_target_ids: Vec::new(),
        }
    }

    /// The watch list for the radar: the targets of the weapons that are about ready.
    pub fn watched_contacts(&self, reloads: &[u32; 4]) -> (entries: Vec<(u32, u32)>)
        ensures
            entries@ == watched_targets(self.weapon_targets@, watching(reloads@), 4),
    {
        let mut active: [bool; 4] = [false; 4];
        active[0] = reloads[0] <= WATCH_LEAD_TICKS;
        active[1] = reloads[1] <= WATCH_LEAD_TICKS;
        active[2] = reloads[2] <= WATCH_LEAD_TICKS;
        active[3] = reloads[3] <= WATCH_LEAD_TICKS;
        assert(active@ =~= watching(reloads@));
        watch_targets(&self.weapon_targets, &active, 4)
    }

    /// Notes which fighters were seen, and forgets launches that lie too far back.
    pub fn begin_tick(&mut self, tick: u32, fighters: &Vec<Contact>)
        requires
            launched_before(old(self).missile_launch_history@, tick),
        ensures
            final(self).seen_target_ids@ == seen_after(
                old(self).seen_target_ids@,
                fighters@,
                fighters@.len(),
            ),
            final(self).missile_launch_history@ == kept(
                old(self).missile_launch_history@,
                remembered(old(self).missile_launch_history@, tick),
            ),
            launched_before(final(self).missile_launch_history@, tick),
            final(self).weapon_targets == old(self).weapon_targets,
            final(self).just_fired_missile == old(self).just_fired_missile,
            final(self).previous_missile_target_id == old(self).previous_missile_target_id,
            final(self).current_missile_target_id == old(self).current_missile_target_id,
    {
        note_seen(&mut self.seen_target_ids, fighters);
        forget_launches(&mut self.missile_launch_history, tick);
    }

    /// Shares out the targets: weapons give up what is gone, the launcher also what was
    /// launched at already, and those without a target get one, the launcher first, and all
    /// but the gun only when they are about ready.
    pub fn assign_weapons(&mut self, fighters: &Vec<Contact>, views: &Vec<TargetView>, reloads: &[u32; 4])
        requires
            views.len() == fighters.len(),
        ensures
            final(self).missile_launch_history == old(self).missile_launch_history,
            final(self).seen_target_ids == old(self).seen_target_ids,
            final(self).just_fired_missile == old(self).just_fired_missile,
            final(self).previous_missile_target_id == old(self).previous_missile_target_id,
            final(self).current_missile_target_id == old(self).current_missile_target_id,
            final(self).weapon_targets@ == shared_out(
                old(self).weapon_targets@,
                old(self).missile_launch_history@,
                old(self).seen_target_ids@.len(),
                reloads@,
                fighters@,
                views@,
            ),
    {
        prune_targets(&mut self.weapon_targets, 4, fighters);
        let left = release_target(self.weapon_targets[3], &self.missile_launch_history, fighters);
        self.weapon_targets[3] = left;
        assert(self.weapon_targets@ =~= freed(
            old(self).weapon_targets@,
            old(self).missile_launch_history@,
            fighters@,
        ));
        self.fill(3, reloads[3] <= ASSIGN_LEAD_TICKS, fighters, views);
        self.fill(0, true, fighters, views);
        self.fill(1, reloads[1] <= ASSIGN_LEAD_TICKS, fighters, views);
        self.fill(2, reloads[2] <= ASSIGN_LEAD_TICKS, fighters, views);
    }

    fn fill(&mut self, w: usize, due: bool, fighters: &Vec<Contact>, views: &Vec<TargetView>)
        requires
            w < 4,
            views.len() == fighters.len(),
        ensures
            final(self).missile_launch_history == old(self).missile_launch_history,
            final(self).seen_target_ids == old(self).seen_target_ids,
            final(self).just_fired_missile == old(self).just_fired_missile,
            final(self).previous_missile_target_id == old(self).previous_missile_target_id,
            final(self).current_missile_target_id == old(self).current_missile_target_id,
            final(self).weapon_targets@ == filled(
                old(self).weapon_targets@,
                old(self).missile_launch_history@,
                old(self).seen_target_ids@.len(),
                w as int,
                due,
                fighters@,
                views@,
            ),
    {
        if self.weapon_targets[w].is_some() || !due {
            return;
        }
        let seen: usize = self.seen_target_ids.len();
        let ghost all = frigate_ranks(
            self.weapon_targets@,
            self.missile_launch_history@,
            seen as nat,
            w as int,
            fighters@,
            views@,
        );
        let mut ranks: Vec<Option<TargetRank>> = Vec::new();
        let mut i: usize = 0;
        while i < fighters.len()
            invariant
                0 <= i <= fighters.len(),
                w < 4,
                views.len() == fighters.len(),
                all == frigate_ranks(
                    self.weapon_targets@,
                    self.missile_launch_history@,
                    seen as nat,
                    w as int,
                    fighters@,
                    views@,
                ),
                ranks@ == all.take(i as int),
            decreases fighters.len() - i,
        {
            let id: u32 = fighters[i].id;
            let guns: usize = count_guns(&self.weapon_targets, 4, id, Some(w));
            if seen < MANY_TARGETS && guns > 0 {
                ranks.push(None);
            } else {
                let launches: usize = count_launches(&self.missile_launch_history, id);
                let view = views[i];
                let cost: u64 = if w == 0 {
                    view.off_nose
                } else if w == 3 {
                    u64::MAX - view.reach_time
                } else {
                    view.distance
                };
                ranks.push(
                    Some(
                        TargetRank {
                            taken: guns > 0 || launches > 0,
                            guns,
                            wrong_side: false,
                            cost,
                        },
                    ),
                );
            }
            assert(all.take(i as int + 1) =~= all.take(i as int).push(all[i as int]));
            i = i + 1;
        }
        assert(ranks@ =~= all);
        if let Some(place) = first_best(&ranks) {
            self.weapon_targets[w] = Some(fighters[place].id);
        }
    }

    /// The place of the fighter that weapon `w` aims at.
    pub fn target_place(&self, w: usize, fighters: &Vec<Contact>) -> (place: Option<usize>)
        requires
            w < 4,
        ensures
            as_place(place) == (match self.weapon_targets@[w as int] {
                Some(id) => place_of(fighters@, id),
                None => None::<int>,
            }),
    {
        match self.weapon_targets[w] {
            Some(id) => place_of_id(fighters, id),
            None => None,
        }
    }

    /// The place of the fighter to turn to, where the gun has no target.
    pub fn turn_to(&self, fighters: &Vec<Contact>) -> (place: Option<usize>)
        ensures
            as_place(place) == (if self.weapon_targets@[0] is Some {
                None
            } else {
                fallback_place(self.weapon_targets@, fighters@)
            }),
    {
        if self.weapon_targets[0].is_some() {
            return None;
        }
        fallback_target(&self.weapon_targets, fighters)
    }

    /// Whether the gun fires: it is ready, and off its aim by less than a tenth of a degree.
    pub fn fires_gun(reload: u32, angle: Measure) -> (fires: bool)
        ensures
            fires == (reload == 0 && angle < DEGREES_TENTH),
    {
        reload == 0 && angle < DEGREES_TENTH
    }

    /// Whether a turret fires: it has a solution and is ready.
    pub fn fires_turret(has_solution: bool, reload: u32) -> (fires: bool)
        ensures
            fires == (has_solution && reload == 0),
    {
        has_solution && reload == 0
    }

    /// The place of the target that the missile launched at the tick before is told about,
    /// unless the missile before it went to the same one. The missile is told only once.
    pub fn broadcast(&mut self, fighters: &Vec<Contact>) -> (place: Option<usize>)
        ensures
            !final(self).just_fired_missile,
            final(self).weapon_targets == old(self).weapon_targets,
            final(self).previous_missile_target_id == old(self).previous_missile_target_id,
            final(self).current_missile_target_id == old(self).current_missile_target_id,
            final(self).missile_launch_history == old(self).missile_launch_history,
            final(self).seen_target_ids == old(self).seen_target_ids,
            as_place(place) == (if old(self).just_fired_missile && old(
                self,
            ).current_missile_target_id is Some && old(self).current_missile_target_id != old(
                self,
            ).previous_missile_target_id {
                place_of(fighters@, old(self).current_missile_target_id->0)
            } else {
                None
            }),
    {
        if !self.just_fired_missile {
            return None;
        }
        self.just_fired_missile = false;
        match self.current_missile_target_id {
            Some(id) => {
                let same = match self.previous_missile_target_id {
                    Some(previous) => previous == id,
                    None => false,
                };
                if same {
                    None
                } else {
                    place_of_id(fighters, id)
                }
            },
            None => None,
        }
    }

    /// Launches a missile where the launcher has a target and is ready, and remembers the
    /// launch. Tells whether it does.
    pub fn launch(&mut self, tick: u32, reload: u32) -> (launched: bool)
        ensures
            launched == (old(self).weapon_targets@[3] is Some && reload == 0),
            launched_before(old(self).missile_launch_history@, tick) ==> launched_before(
                final(self).missile_launch_history@,
                tick,
            ),
            final(self).just_fired_missile == launched,
            final(self).weapon_targets == old(self).weapon_targets,
            final(self).seen_target_ids == old(self).seen_target_ids,
            if launched {
                let target = old(self).weapon_targets@[3]->0;
                &&& final(self).previous_missile_target_id == old(self).current_missile_target_id
                &&& final(self).current_missile_target_id == Some(target)
                &&& final(self).missile_launch_history@ == kept(
                    old(self).missile_launch_history@,
                    at_others(old(self).missile_launch_history@, target),
                ).push((target, tick))
            } else {
                &&& final(self).previous_missile_target_id == old(self).previous_missile_target_id
                &&& final(self).current_missile_target_id == old(self).current_missile_target_id
                &&& final(self).missile_launch_history == old(self).missile_launch_history
            },
    {
        self.just_fired_missile = false;
        match self.weapon_targets[3] {
            Some(target) => {
                if reload != 0 {
                    return false;
                }
                remember_launch(&mut self.missile_launch_history, target, tick);
                self.previous_missile_target_id = self.current_missile_target_id;
                self.current_missile_target_id = Some(target);
                self.just_fired_missile = true;
                true
            },
            None => false,
        }
    }
}

/// As long as few targets were seen, a weapon is given no target that another weapon aims at.
pub proof fn law_no_duplicates_while_few_seen(
    slots: Seq<Option<u32>>,
    history: Seq<(u32, u32)>,
    seen: nat,
    w: int,
    fighters: Seq<Contact>,
    views: Seq<TargetView>,
)
    requires
        seen < MANY_TARGETS,
        0 <= w < 4,
        slots.len() == 4,
        crate::weapons::first_best_of(frigate_ranks(slots, history, seen, w, fighters, views)) is Some,
    ensures
        ({
            let ranks = frigate_ranks(slots, history, seen, w, fighters, views);
            let after = assigned(slots, w, fighters, ranks);
            &&& after[w] is Some
            &&& guns_on(slots, 4, after[w]->0, Some(w as usize)) == 0
        }),
{
    let ranks = frigate_ranks(slots, history, seen, w, fighters, views);
    let i = choose|i: int| crate::weapons::is_first_best(ranks, i);
    assert(crate::weapons::is_first_best(ranks, i));
}

/// A weapon of a frigate that has no target and is due is given a fighter in sight, and none
/// only where none comes into question: as long as fewer than four were seen, those that another
/// weapon aims at do not. Where some fighter that comes into question has no weapon on it and no
/// remembered launch at it, the one given has neither as well. Then it has as few weapons on it
/// as any; of these the gun gets the one least off the nose, a turret the closest, the launcher
/// the one that its missile takes longest to reach; and then the first. The other weapons keep
/// their targets, and so does one that has a target or is not due.
#[verifier::rlimit(40)]
pub proof fn law_frigate_assignment(
    slots: Seq<Option<u32>>,
    history: Seq<(u32, u32)>,
    seen: nat,
    w: int,
    due: bool,
    fighters: Seq<Contact>,
    views: Seq<TargetView>,
)
    requires
        slots.len() == 4,
        0 <= w < 4,
        views.len() == fighters.len(),
    ensures
        ({
            let after = filled(slots, history, seen, w, due, fighters, views);
            let aimed_at = |i: int|
                exists|v: int| 0 <= v < 4 && v != w && #[trigger] slots[v] == Some(fighters[i].id);
            let launched_at = |i: int|
                exists|k: int| 0 <= k < history.len() && (#[trigger] history[k]).0 == fighters[i].id;
            let eligible = |i: int| seen >= 4 || !aimed_at(i);
            let clean = |i: int| !aimed_at(i) && !launched_at(i);
            let guns = |i: int| guns_on(slots, 4, fighters[i].id, Some(w as usize));
            let no_worse = |p: int, q: int|
                if w == 0 {
                    views[p].off_nose <= views[q].off_nose
                } else if w == 3 {
                    views[p].reach_time >= views[q].reach_time
                } else {
                    views[p].distance <= views[q].distance
                };
            &&& after.len() == 4
            &&& forall|v: int| 0 <= v < 4 && v != w ==> #[trigger] after[v] == slots[v]
            &&& slots[w] is Some || !due ==> after == slots
            &&& (forall|i: int|
                #![trigger fighters[i]]
                0 <= i < fighters.len() ==> !eligible(i)) ==> after == slots
            &&& slots[w] is None && due && (exists|i: int|
                #![trigger fighters[i]]
                0 <= i < fighters.len() && eligible(i)) ==> exists|p: int|
                {
                    &&& 0 <= p < fighters.len()
                    &&& after[w] == Some(#[trigger] fighters[p].id)
                    &&& eligible(p)
                    &&& forall|q: int|
                        #![trigger fighters[q]]
                        0 <= q < fighters.len() && q != p && eligible(q) ==> {
                            &&& clean(q) ==> clean(p)
                            &&& clean(p) == clean(q) ==> guns(p) <= guns(q)
                            &&& clean(p) == clean(q) && guns(p) == guns(q) ==> no_worse(p, q)
                            &&& clean(p) == clean(q) && guns(p) == guns(q) && no_worse(q, p) ==> p
                                < q
                        }
                }
        }),
{
    let ranks = frigate_ranks(slots, history, seen, w, fighters, views);
    let after = filled(slots, history, seen, w, due, fighters, views);
    let aimed_at = |i: int|
        exists|v: int| 0 <= v < 4 && v != w && #[trigger] slots[v] == Some(fighters[i].id);
    let launched_at = |i: int|
        exists|k: int| 0 <= k < history.len() && (#[trigger] history[k]).0 == fighters[i].id;
    crate::weapons::law_best_rank(ranks);
    assert forall|i: int| #![trigger fighters[i]] 0 <= i < fighters.len() implies {
        let guns = guns_on(slots, 4, fighters[i].id, Some(w as usize));
        &&& guns <= 4
        &&& guns > 0 <==> aimed_at(i)
        &&& ranks[i] is Some <==> seen >= 4 || !aimed_at(i)
        &&& ranks[i] is Some ==> {
            let r = ranks[i]->0;
            &&& r.taken == (aimed_at(i) || launched_at(i))
            &&& r.guns == guns
            &&& !r.wrong_side
            &&& r.cost == frigate_cost(w, views[i])
        }
    } by {
        crate::weapons::law_launches_are_counted(history, fighters[i].id);
        crate::weapons::lemma_guns_on_some(slots, 4, fighters[i].id, Some(w as usize));
    }
    if slots[w] is None && due {
        match crate::weapons::first_best_of(ranks) {
            Some(p) => {
                assert(after[w] == Some(fighters[p].id));
            },
            None => {
                assert forall|i: int| #![trigger fighters[i]] 0 <= i < fighters.len() implies ranks[i] is None by {}
            },
        }
    }
}

/// Where some fighter has no weapon on it and no remembered launch at it, the fighter that a
/// weapon is given has neither.
pub proof fn law_clean_target_first(
    slots: Seq<Option<u32>>,
    history: Seq<(u32, u32)>,
    seen: nat,
    w: int,
    fighters: Seq<Contact>,
    views: Seq<TargetView>,
    clean: int,
)
    requires
        slots.len() == 4,
        0 <= w < 4,
        slots[w] is None,
        views.len() == fighters.len(),
        0 <= clean < fighters.len(),
        forall|v: int| 0 <= v < 4 ==> #[trigger] slots[v] != Some(fighters[clean].id),
        forall|k: int|
            #![trigger history[k]]
            0 <= k < history.len() ==> history[k].0 != fighters[clean].id,
    ensures
        ({
            let after = filled(slots, history, seen, w, true, fighters, views);
            &&& after[w] is Some
            &&& forall|v: int| 0 <= v < 4 && v != w ==> #[trigger] slots[v] != after[w]
            &&& forall|k: int|
                #![trigger history[k]]
                0 <= k < history.len() ==> Some(history[k].0) != after[w]
        }),
{
    law_frigate_assignment(slots, history, seen, w, true, fighters, views);
}

/// A weapon gives up a target that is no longer in sight. The launcher also gives up one that
/// was launched at, where some fighter was not. No weapon gives up anything else.
pub proof fn law_targets_given_up(slots: Seq<Option<u32>>, history: Seq<(u32, u32)>, fighters: Seq<Contact>, w: int)
    requires
        slots.len() == 4,
        0 <= w < 4,
    ensures
        ({
            let after = freed(slots, history, fighters);
            let launched_at = |id: u32|
                exists|k: int| 0 <= k < history.len() && (#[trigger] history[k]).0 == id;
            let in_sight = exists|i: int|
                0 <= i < fighters.len() && Some(#[trigger] fighters[i].id) == slots[w];
            let fresh = exists|i: int|
                0 <= i < fighters.len() && !launched_at(#[trigger] fighters[i].id);
            let moves_on = w == 3 && slots[w] is Some && launched_at(slots[w]->0) && fresh;
            &&& after.len() == 4
            &&& in_sight && !moves_on ==> after[w] == slots[w]
            &&& !in_sight || moves_on ==> after[w] is None
        }),
{
    let left = pruned(slots, 4, fighters);
    crate::weapons::law_gone_targets_are_given_up(slots, 4, fighters, w);
    crate::weapons::law_launcher_moves_on(left[3], history, fighters);
}

/// The radar watches the targets of the weapons that are ready within five ticks.
pub proof fn law_weapons_about_ready(slots: Seq<Option<u32>>, reloads: Seq<u32>, entry: (u32, u32))
    requires
        slots.len() == 4,
        reloads.len() == 4,
    ensures
        watched_targets(slots, watching(reloads), 4).contains(entry) <==> entry.1 == 6 && exists|w: int|
            0 <= w < 4 && #[trigger] slots[w] == Some(entry.0) && reloads[w] <= 5,
{
    crate::weapons::law_watched_targets(slots, watching(reloads), 4, entry);
}

// One weapon gets its target, and the others keep theirs.
proof fn lemma_filled(
    slots: Seq<Option<u32>>,
    history: Seq<(u32, u32)>,
    seen: nat,
    w: int,
    due: bool,
    fighters: Seq<Contact>,
    views: Seq<TargetView>,
)
    requires
        slots.len() == 4,
        0 <= w < 4,
        views.len() == fighters.len(),
    ensures
        ({
            let after = filled(slots, history, seen, w, due, fighters, views);
            &&& after.len() == 4
            &&& forall|v: int| 0 <= v < 4 && v != w ==> #[trigger] after[v] == slots[v]
            &&& slots[w] is Some || !due ==> after[w] == slots[w]
            &&& after[w] == slots[w] || exists|i: int|
                0 <= i < fighters.len() && after[w] == Some(#[trigger] fighters[i].id)
            &&& seen >= 4 && fighters.len() > 0 && due ==> after[w] is Some
        }),
{
    let ranks = frigate_ranks(slots, history, seen, w, fighters, views);
    let after = filled(slots, history, seen, w, due, fighters, views);
    crate::weapons::law_best_rank(ranks);
    if slots[w] is None && due {
        match crate::weapons::first_best_of(ranks) {
            Some(p) => {
                assert(after[w] == Some(fighters[p].id));
            },
            None => {
                if seen >= 4 && fighters.len() > 0 {
                    assert(ranks[0] is Some);
                }
            },
        }
    }
}

/// After the targets were shared out, each weapon aims at a fighter in sight or at nothing. What
/// a weapon did not have to give up it keeps. One that gets a target is the gun, or a weapon that
/// is ready within four ticks; and once four targets were seen, each of these has one, as long
/// as a fighter is in sight.
#[verifier::rlimit(40)]
pub proof fn law_targets_after_sharing_out(
    slots: Seq<Option<u32>>,
    history: Seq<(u32, u32)>,
    seen: nat,
    reloads: Seq<u32>,
    fighters: Seq<Contact>,
    views: Seq<TargetView>,
    w: int,
)
    requires
        slots.len() == 4,
        reloads.len() == 4,
        views.len() == fighters.len(),
        0 <= w < 4,
    ensures
        ({
            let start = freed(slots, history, fighters);
            let after = shared_out(slots, history, seen, reloads, fighters, views);
            &&& after.len() == 4
            &&& after[w] is Some ==> exists|i: int|
                0 <= i < fighters.len() && after[w] == Some(#[trigger] fighters[i].id)
            &&& start[w] is Some ==> after[w] == start[w]
            &&& w != 0 && reloads[w] > 4 ==> after[w] == start[w]
            &&& seen >= 4 && fighters.len() > 0 && (w == 0 || reloads[w] <= 4) ==> after[w] is Some
        }),
{
    let start = freed(slots, history, fighters);
    let one = filled(start, history, seen, 3, reloads[3] <= ASSIGN_LEAD_TICKS, fighters, views);
    let two = filled(one, history, seen, 0, true, fighters, views);
    let three = filled(two, history, seen, 1, reloads[1] <= ASSIGN_LEAD_TICKS, fighters, views);
    law_targets_given_up(slots, history, fighters, w);
    lemma_filled(start, history, seen, 3, reloads[3] <= ASSIGN_LEAD_TICKS, fighters, views);
    lemma_filled(one, history, seen, 0, true, fighters, views);
    lemma_filled(two, history, seen, 1, reloads[1] <= ASSIGN_LEAD_TICKS, fighters, views);
    lemma_filled(three, history, seen, 2, reloads[2] <= ASSIGN_LEAD_TICKS, fighters, views);
    let after = shared_out(slots, history, seen, reloads, fighters, views);
    if start[w] is Some {
        let i = choose|i: int|
            0 <= i < fighters.len() && Some(#[trigger] fighters[i].id) == slots[w];
        assert(start[w] == Some(fighters[i].id));
    }
    if w == 0 {
        assert(after[0] == three[0] && three[0] == two[0] && one[0] == start[0]);
    } else if w == 1 {
        assert(after[1] == three[1] && two[1] == one[1] && one[1] == start[1]);
    } else if w == 2 {
        assert(three[2] == two[2] && two[2] == one[2] && one[2] == start[2]);
    } else {
        assert(after[3] == three[3] && three[3] == two[3] && two[3] == one[3]);
    }
}

/// The launcher chooses before the other weapons do: where a fighter was not launched at and no
/// weapon still aims at it, the launcher gets such a one.
pub proof fn law_launcher_chooses_first(
    slots: Seq<Option<u32>>,
    history: Seq<(u32, u32)>,
    seen: nat,
    reloads: Seq<u32>,
    fighters: Seq<Contact>,
    views: Seq<TargetView>,
    clean: int,
)
    requires
        slots.len() == 4,
        reloads.len() == 4,
        views.len() == fighters.len(),
        freed(slots, history, fighters)[3] is None,
        reloads[3] <= 4,
        0 <= clean < fighters.len(),
        forall|v: int|
            0 <= v < 4 ==> #[trigger] freed(slots, history, fighters)[v] != Some(
                fighters[clean].id,
            ),
        forall|k: int|
            #![trigger history[k]]
            0 <= k < history.len() ==> history[k].0 != fighters[clean].id,
    ensures
        ({
            let start = freed(slots, history, fighters);
            let after = shared_out(slots, history, seen, reloads, fighters, views);
            &&& after[3] is Some
            &&& forall|v: int| 0 <= v < 3 ==> #[trigger] start[v] != after[3]
            &&& forall|k: int|
                #![trigger history[k]]
                0 <= k < history.len() ==> Some(history[k].0) != after[3]
        }),
{
    let start = freed(slots, history, fighters);
    let one = filled(start, history, seen, 3, reloads[3] <= ASSIGN_LEAD_TICKS, fighters, views);
    let two = filled(one, history, seen, 0, true, fighters, views);
    let three = filled(two, history, seen, 1, reloads[1] <= ASSIGN_LEAD_TICKS, fighters, views);
    let after = shared_out(slots, history, seen, reloads, fighters, views);
    law_targets_given_up(slots, history, fighters, 3);
    law_clean_target_first(start, history, seen, 3, fighters, views, clean);
    law_frigate_assignment(start, history, seen, 3, true, fighters, views);
    law_frigate_assignment(one, history, seen, 0, true, fighters, views);
    law_frigate_assignment(two, history, seen, 1, reloads[1] <= ASSIGN_LEAD_TICKS, fighters, views);
    law_frigate_assignment(three, history, seen, 2, reloads[2] <= ASSIGN_LEAD_TICKS, fighters, views);
    assert(after[3] == three[3] && three[3] == two[3] && two[3] == one[3]);
}

} // verus!
