//! A cruiser that tells its missiles their targets on an open channel.
use vstd::prelude::*;

use crate::contact::{place_of, place_of_id, Contact};
use crate::lookup::as_place;
use crate::select::kept;
use crate::weapons::{
    assign_cruiser_weapon, assigned, at_others, cruiser_ranks, fallback_place, fallback_target,
    forget_launches, launch_slot, launched_before, launching_slot, note_seen, prune_targets, pruned,
    release_target, released, remember_launch, remembered, seen_after, watch_targets,
    watched_targets, TargetView, ASSIGN_LEAD_TICKS,
};

verus! {

/// The channel on which missiles are told their targets.
pub const TARGET_CHANNEL: usize = 3;

/// Ticks between two launches, so that each missile can be told its target.
pub const LAUNCH_SPACING: u32 = 3;

/// Ticks for which a missile is told its target.
pub const BROADCAST_TICKS: u32 = 2;

/// The state of the cruiser.
#[derive(Clone, Debug)]
pub struct Ship {
    /// The targets of the cannon and of the two launchers; the last slot is not used.
    pub weapon_targets: [Option<u32>; 4],
    pub last_missile_fired_tick: u32,
    pub broadcast_target_id: Option<u32>,
    pub broadcast_ticks: u32,
    /// Targets launched at, and when.
    pub missile_launch_history: Vec<(u32, u32)>,
    pub seen_target_ids: Vec<u32>,
}

/// The weapons after those whose targets are gone, or for the launchers were launched at
/// already, gave them up.
pub open spec fn freed(slots: Seq<Option<u32>>, history: Seq<(u32, u32)>, fighters: Seq<Contact>) -> Seq<
    Option<u32>,
> {
    let left = pruned(slots, 3, fighters);
    left.update(1, released(left[1], history, fighters)).update(
        2,
        released(left[2], history, fighters),
    )
}

/// The weapons after weapon `w` got a target, where it has none and `due` holds.
pub open spec fn filled(
    slots: Seq<Option<u32>>,
    history: Seq<(u32, u32)>,
    seen: nat,
    w: int,
    due: bool,
    fighters: Seq<Contact>,
    views: Seq<TargetView>,
) -> Seq<Option<u32>> {
    if slots[w] is None && due {
        assigned(slots, w, fighters, cruiser_ranks(slots, history, seen, w, fighters, views))
    } else {
        slots
    }
}

/// The weapons after the targets were shared out: they give up what is to be given up, and
/// those without a target get one, the cannon first, and a launcher only when it is about ready.
pub open spec fn shared_out(
    slots: Seq<Option<u32>>,
    history: Seq<(u32, u32)>,
    seen: nat,
    reload_1: u32,
    reload_2: u32,
    fighters: Seq<Contact>,
    views: Seq<TargetView>,
) -> Seq<Option<u32>> {
    let start = freed(slots, history, fighters);
    let one = filled(start, history, seen, 0, true, fighters, views);
    let two = filled(one, history, seen, 1, reload_1 <= ASSIGN_LEAD_TICKS, fighters, views);
    filled(two, history, seen, 2, reload_2 <= ASSIGN_LEAD_TICKS, fighters, views)
}

/// Whether a missile is launched at `tick`: a launcher has a target and is ready, and the last
/// launch lies far enough back.
pub open spec fn launches_now(last_launch: u32, ready: bool, tick: u32) -> bool {
    ready && tick - last_launch >= LAUNCH_SPACING
}

/// The tick of the last launch after a launch was tried.
pub open spec fn last_launch_after(last_launch: u32, ready: bool, tick: u32) -> u32 {
    if launches_now(last_launch, ready, tick) {
        tick
    } else {
        last_launch
    }
}

/// The tick of the last launch after the first `n` of some tries, each given by its tick and by
/// whether a launcher has a target and is ready.
pub open spec fn last_launch_of(last_launch: u32, tries: Seq<(u32, bool)>, n: nat) -> u32
    decreases n,
{
    if n == 0 {
        last_launch
    } else {
        last_launch_after(
            last_launch_of(last_launch, tries, (n - 1) as nat),
            tries[n - 1].1,
            tries[n - 1].0,
        )
    }
}

/// Whether the try with number `a` launches a missile.
pub open spec fn try_launches(last_launch: u32, tries: Seq<(u32, bool)>, a: int) -> bool {
    launches_now(last_launch_of(last_launch, tries, a as nat), tries[a].1, tries[a].0)
}

impl Ship {
    /// A broadcast is under way for no more than its ticks.
    pub open spec fn wf(self) -> bool {
        self.broadcast_ticks <= BROADCAST_TICKS
    }

    /// A cruiser without targets.
    pub fn new() -> (ship: Self)
        ensures
            ship.wf(),
            ship.weapon_targets@ == seq![None::<u32>, None, None, None],
            ship.last_missile_fired_tick == 0,
            ship.broadcast_target_id is None,
            ship.broadcast_ticks == 0,
            ship.missile_launch_history@ == Seq::<(u32, u32)>::empty(),
            ship.seen_target_ids@ == Seq::<u32>::empty(),
    {
        let weapon_targets: [Option<u32>; 4] = [None; 4];
        assert(weapon_targets@ =~= seq![None::<u32>, None, None, None]);
        Ship {
            weapon_targets,
            last_missile_fired_tick: 0,
            broadcast_target_id: None,
            broadcast_ticks: 0,
            missile_launch_history: Vec::new(),
            seen_target_ids: Vec::new(),
        }
    }

    /// The watch list for the radar: the targets of the weapons.
    pub fn watched_contacts(&self) -> (entries: Vec<(u32, u32)>)
        ensures
            entries@ == watched_targets(self.weapon_targets@, seq![true, true, true, true], 3),
    {
        let active: [bool; 4] = [true; 4];
        assert(active@ =~= seq![true, true, true, true]);
        watch_targets(&self.weapon_targets, &active, 3)
    }

    /// Notes which fighters were seen, and forgets launches that lie too far back.
    pub fn begin_tick(&mut self, tick: u32, fighters: &Vec<Contact>)
        requires
            launched_before(old(self).missile_launch_history@, tick),
        ensures
            final(self).seen_target_ids@ == seen_after(
                old(self).seen_target_ids@,
                fighters@,
                fighters@.len(),
            ),
            final(self).missile_launch_history@ == kept(
                old(self).missile_launch_history@,
                remembered(old(self).missile_launch_history@, tick),
            ),
            launched_before(final(self).missile_launch_history@, tick),
            final(self).weapon_targets == old(self).weapon_targets,
            final(self).last_missile_fired_tick == old(self).last_missile_fired_tick,
            final(self).broadcast_target_id == old(self).broadcast_target_id,
            final(self).broadcast_ticks == old(self).broadcast_ticks,
    {
        note_seen(&mut self.seen_target_ids, fighters);
        forget_launches(&mut self.missile_launch_history, tick);
    }

    /// Shares out the targets: weapons give up what is gone or was launched at already, and
    /// those without a target get one, a launcher only when it is about ready.
    pub fn assign_weapons(&mut self, fighters: &Vec<Contact>, views: &Vec<TargetView>, reload_1: u32, reload_2: u32)
        requires
            views.len() == fighters.len(),
            old(self).missile_launch_history.len() < usize::MAX - 4,
        ensures
            final(self).missile_launch_history == old(self).missile_launch_history,
            final(self).seen_target_ids == old(self).seen_target_ids,
            final(self).last_missile_fired_tick == old(self).last_missile_fired_tick,
            final(self).broadcast_target_id == old(self).broadcast_target_id,
            final(self).broadcast_ticks == old(self).broadcast_ticks,
            final(self).weapon_targets@ == shared_out(
                old(self).weapon_targets@,
                old(self).missile_launch_history@,
                old(self).seen_target_ids@.len(),
                reload_1,
                reload_2,
                fighters@,
                views@,
            ),
    {
        prune_targets(&mut self.weapon_targets, 3, fighters);
        let second = release_target(self.weapon_targets[1], &self.missile_launch_history, fighters);
        let third = release_target(self.weapon_targets[2], &self.missile_launch_history, fighters);
        self.weapon_targets[1] = second;
        self.weapon_targets[2] = third;
        assert(self.weapon_targets@ =~= freed(
            old(self).weapon_targets@,
            old(self).missile_launch_history@,
            fighters@,
        ));
        self.fill(0, true, fighters, views);
        self.fill(1, reload_1 <= ASSIGN_LEAD_TICKS, fighters, views);
        self.fill(2, reload_2 <= ASSIGN_LEAD_TICKS, fighters, views);
    }

    fn fill(&mut self, w: usize, due: bool, fighters: &Vec<Contact>, views: &Vec<TargetView>)
        requires
            w < 3,
            views.len() == fighters.len(),
            old(self).missile_launch_history.len() < usize::MAX - 4,
        ensures
            final(self).missile_launch_history == old(self).missile_launch_history,
            final(self).seen_target_ids == old(self).seen_target_ids,
            final(self).last_missile_fired_tick == old(self).last_missile_fired_tick,
            final(self).broadcast_target_id == old(self).broadcast_target_id,
            final(self).broadcast_ticks == old(self).broadcast_ticks,
            final(self).weapon_targets@ == filled(
                old(self).weapon_targets@,
                old(self).missile_launch_history@,
                old(self).seen_target_ids@.len(),
                w as int,
                due,
                fighters@,
                views@,
            ),
    {
        if self.weapon_targets[w].is_none() && due {
            let seen: usize = self.seen_target_ids.len();
            assign_cruiser_weapon(
                &mut self.weapon_targets,
                &self.missile_launch_history,
                seen,
                w,
                fighters,
                views,
            );
        }
    }

    /// The place of the fighter that the cannon aims at. Where the cannon has no target, that
    /// of the fighter to turn to; the flag tells the two apart.
    pub fn turn_to(&self, fighters: &Vec<Contact>) -> (turn: (bool, Option<usize>))
        ensures
            turn.0 == (self.weapon_targets@[0] is Some),
            as_place(turn.1) == (match self.weapon_targets@[0] {
                Some(id) => place_of(fighters@, id),
                None => fallback_place(self.weapon_targets@, fighters@),
            }),
    {
        match self.weapon_targets[0] {
            Some(id) => (true, place_of_id(fighters, id)),
            None => (false, fallback_target(&self.weapon_targets, fighters)),
        }
    }

    /// Launches a missile where the last launch lies far enough back. Gives the launcher and
    /// the target; the launcher loses the target, and the launch is remembered.
    pub fn launch(&mut self, tick: u32, reload_1: u32, reload_2: u32) -> (launched: Option<(usize, u32)>)
        requires
            old(self).last_missile_fired_tick <= tick,
        ensures
            final(self).last_missile_fired_tick <= tick,
            launched_before(old(self).missile_launch_history@, tick) ==> launched_before(
                final(self).missile_launch_history@,
                tick,
            ),
            final(self).seen_target_ids == old(self).seen_target_ids,
            final(self).broadcast_target_id == old(self).broadcast_target_id,
            final(self).broadcast_ticks == old(self).broadcast_ticks,
            final(self).last_missile_fired_tick == last_launch_after(
                old(self).last_missile_fired_tick,
                launching_slot(old(self).weapon_targets@, reload_1, reload_2) is Some,
                tick,
            ),
            ({
                let slot = launching_slot(old(self).weapon_targets@, reload_1, reload_2);
                if launches_now(old(self).last_missile_fired_tick, slot is Some, tick) {
                    let w = slot->0 as int;
                    let target = old(self).weapon_targets@[w]->0;
                    &&& launched == Some((slot->0, target))
                    &&& final(self).weapon_targets@ == old(self).weapon_targets@.update(w, None)
                    &&& final(self).missile_launch_history@ == kept(
                        old(self).missile_launch_history@,
                        at_others(old(self).missile_launch_history@, target),
                    ).push((target, tick))
                } else {
                    &&& launched is None
                    &&& final(self).weapon_targets@ == old(self).weapon_targets@
                    &&& final(self).missile_launch_history@ == old(self).missile_launch_history@
                }
            }),
    {
        if tick - self.last_missile_fired_tick < LAUNCH_SPACING {
            return None;
        }
        match launch_slot(&self.weapon_targets, reload_1, reload_2) {
            Some(w) => match self.weapon_targets[w] {
                Some(target) => {
                    self.last_missile_fired_tick = tick;
                    remember_launch(&mut self.missile_launch_history, target, tick);
                    self.weapon_targets[w] = None;
                    Some((w, target))
                },
                None => None,
            },
            None => None,
        }
    }

    /// Settles which target the missiles are told about: that of the missile launched now, for
    /// two ticks. Gives its place, where it is seen.
    pub fn broadcast(&mut self, launched: Option<u32>, fighters: &Vec<Contact>) -> (place: Option<usize>)
        requires
            old(self).wf(),
        ensures
            final(self).wf(),
            final(self).weapon_targets == old(self).weapon_targets,
            final(self).last_missile_fired_tick == old(self).last_missile_fired_tick,
            final(self).missile_launch_history == old(self).missile_launch_history,
            final(self).seen_target_ids == old(self).seen_target_ids,
            match launched {
                Some(id) => {
                    &&& final(self).broadcast_target_id == Some(id)
                    &&& final(self).broadcast_ticks == 1
                },
                None => if old(self).broadcast_target_id is None {
                    &&& final(self).broadcast_target_id is None
                    &&& final(self).broadcast_ticks == old(self).broadcast_ticks
                } else if old(self).broadcast_ticks < BROADCAST_TICKS {
                    &&& final(self).broadcast_target_id == old(self).broadcast_target_id
                    &&& final(self).broadcast_ticks == old(self).broadcast_ticks + 1
                } else {
                    final(self).broadcast_target_id is None && final(self).broadcast_ticks == 0
                },
            },
            as_place(place) == (match final(self).broadcast_target_id {
                Some(id) => place_of(fighters@, id),
                None => None::<int>,
            }),
    {
        if launched.is_some() {
            self.broadcast_target_id = launched;
            self.broadcast_ticks = 1;
        } else if self.broadcast_target_id.is_some() {
            self.broadcast_ticks = self.broadcast_ticks + 1;
            if self.broadcast_ticks > BROADCAST_TICKS {
                self.broadcast_target_id = None;
                self.broadcast_ticks = 0;
            }
        }
        match self.broadcast_target_id {
            Some(id) => place_of_id(fighters, id),
            None => None,
        }
    }
}

/// After a launch at a target, that launch is the only one at it that is remembered.
pub proof fn law_launch_is_remembered_once(history: Seq<(u32, u32)>, target: u32, tick: u32)
    ensures
        crate::weapons::launches_at(
            kept(history, at_others(history, target)).push((target, tick)),
            target,
        ) == 1,
{
    let others = kept(history, at_others(history, target));
    assert forall|i: int| #![trigger others[i]] 0 <= i < others.len() implies others[i].0
        != target by {
        assert(others.contains(others[i]));
        crate::select::lemma_kept_contains(history, at_others(history, target), others[i]);
    }
    lemma_no_launches(others, target);
    assert(others.push((target, tick)).drop_last() =~= others);
}

proof fn lemma_no_launches(history: Seq<(u32, u32)>, target: u32)
    requires
        forall|i: int| #![trigger history[i]] 0 <= i < history.len() ==> history[i].0 != target,
    ensures
        crate::weapons::launches_at(history, target) == 0,
    decreases history.len(),
{
    if history.len() > 0 {
        assert forall|i: int| #![trigger history.drop_last()[i]] 0 <= i
            < history.drop_last().len() implies history.drop_last()[i].0 != target by {
            assert(history[i].0 != target);
        }
        assert(history[history.len() - 1].0 != target);
        lemma_no_launches(history.drop_last(), target);
    }
}

/// However often a launch is tried, two launches lie at least three ticks apart.
pub proof fn law_launches_are_spaced(last_launch: u32, tries: Seq<(u32, bool)>, a: int, b: int)
    requires
        0 <= a < b < tries.len(),
        forall|k: int, l: int|
            #![trigger tries[k], tries[l]]
            0 <= k <= l < tries.len() ==> tries[k].0 <= tries[l].0,
        try_launches(last_launch, tries, a),
        try_launches(last_launch, tries, b),
    ensures
        tries[b].0 - tries[a].0 >= 3,
{
    lemma_last_launch_no_earlier(last_launch, tries, a, b as nat);
}

// Behind a launch, the last launch is no earlier than it.
proof fn lemma_last_launch_no_earlier(last_launch: u32, tries: Seq<(u32, bool)>, a: int, n: nat)
    requires
        0 <= a < n <= tries.len(),
        forall|k: int, l: int|
            #![trigger tries[k], tries[l]]
            0 <= k <= l < tries.len() ==> tries[k].0 <= tries[l].0,
        try_launches(last_launch, tries, a),
    ensures
        last_launch_of(last_launch, tries, n) >= tries[a].0,
    decreases n,
{
    if n > a + 1 {
        lemma_last_launch_no_earlier(last_launch, tries, a, (n - 1) as nat);
        assert(tries[a].0 <= tries[n - 1].0);
    }
}

/// A weapon gives up a target that is no longer in sight. A launcher also gives up one that was
/// launched at, where some fighter was not. No weapon gives up anything else.
pub proof fn law_targets_given_up(slots: Seq<Option<u32>>, history: Seq<(u32, u32)>, fighters: Seq<Contact>, w: int)
    requires
        slots.len() == 4,
        0 <= w < 3,
    ensures
        ({
            let after = freed(slots, history, fighters);
            let launched_at = |id: u32|
                exists|k: int| 0 <= k < history.len() && (#[trigger] history[k]).0 == id;
            let in_sight = exists|i: int|
                0 <= i < fighters.len() && Some(#[trigger] fighters[i].id) == slots[w];
            let fresh = exists|i: int|
                0 <= i < fighters.len() && !launched_at(#[trigger] fighters[i].id);
            let moves_on = w > 0 && slots[w] is Some && launched_at(slots[w]->0) && fresh;
            &&& after.len() == 4
            &&& after[3] == slots[3]
            &&& in_sight && !moves_on ==> after[w] == slots[w]
            &&& !in_sight || moves_on ==> after[w] is None
        }),
{
    let left = pruned(slots, 3, fighters);
    crate::weapons::law_gone_targets_are_given_up(slots, 3, fighters, w);
    crate::weapons::law_launcher_moves_on(left[1], history, fighters);
    crate::weapons::law_launcher_moves_on(left[2], history, fighters);
}

// One weapon gets its target, and the others keep theirs.
proof fn lemma_filled(
    slots: Seq<Option<u32>>,
    history: Seq<(u32, u32)>,
    seen: nat,
    w: int,
    due: bool,
    fighters: Seq<Contact>,
    views: Seq<TargetView>,
)
    requires
        slots.len() == 4,
        0 <= w < 3,
        views.len() == fighters.len(),
        history.len() < usize::MAX - 4,
    ensures
        ({
            let after = filled(slots, history, seen, w, due, fighters, views);
            &&& after.len() == 4
            &&& forall|v: int| 0 <= v < 4 && v != w ==> #[trigger] after[v] == slots[v]
            &&& slots[w] is Some || !due ==> after[w] == slots[w]
            &&& after[w] == slots[w] || exists|i: int|
                0 <= i < fighters.len() && after[w] == Some(#[trigger] fighters[i].id)
            &&& seen >= 3 && fighters.len() > 0 && due ==> after[w] is Some
        }),
{
    let ranks = cruiser_ranks(slots, history, seen, w, fighters, views);
    let after = filled(slots, history, seen, w, due, fighters, views);
    crate::weapons::law_best_rank(ranks);
    if slots[w] is None && due {
        match crate::weapons::first_best_of(ranks) {
            Some(p) => {
                assert(after[w] == Some(fighters[p].id));
            },
            None => {
                if seen >= 3 && fighters.len() > 0 {
                    assert(ranks[0] is Some);
                }
            },
        }
    }
}

/// After the targets were shared out, each weapon aims at a fighter in sight or at nothing. What
/// a weapon did not have to give up it keeps. One that gets a target is the cannon, or a launcher
/// that is ready within four ticks; and once three targets were seen, each of these has one, as
/// long as a fighter is in sight.
#[verifier::rlimit(40)]
pub proof fn law_targets_after_sharing_out(
    slots: Seq<Option<u32>>,
    history: Seq<(u32, u32)>,
    seen: nat,
    reload_1: u32,
    reload_2: u32,
    fighters: Seq<Contact>,
    views: Seq<TargetView>,
    w: int,
)
    requires
        slots.len() == 4,
        views.len() == fighters.len(),
        history.len() < usize::MAX - 4,
        0 <= w < 3,
    ensures
        ({
            let start = freed(slots, history, fighters);
            let after = shared_out(slots, history, seen, reload_1, reload_2, fighters, views);
            let due = w == 0 || (w == 1 && reload_1 <= 4) || (w == 2 && reload_2 <= 4);
            &&& after.len() == 4
            &&& after[3] == slots[3]
            &&& after[w] is Some ==> exists|i: int|
                0 <= i < fighters.len() && after[w] == Some(#[trigger] fighters[i].id)
            &&& start[w] is Some || !due ==> after[w] == start[w]
            &&& seen >= 3 && fighters.len() > 0 && due ==> after[w] is Some
        }),
{
    let start = freed(slots, history, fighters);
    let one = filled(start, history, seen, 0, true, fighters, views);
    let two = filled(one, history, seen, 1, reload_1 <= ASSIGN_LEAD_TICKS, fighters, views);
    let after = shared_out(slots, history, seen, reload_1, reload_2, fighters, views);
    law_targets_given_up(slots, history, fighters, w);
    lemma_filled(start, history, seen, 0, true, fighters, views);
    lemma_filled(one, history, seen, 1, reload_1 <= ASSIGN_LEAD_TICKS, fighters, views);
    lemma_filled(two, history, seen, 2, reload_2 <= ASSIGN_LEAD_TICKS, fighters, views);
    if start[w] is Some {
        let i = choose|i: int|
            0 <= i < fighters.len() && Some(#[trigger] fighters[i].id) == slots[w];
        assert(start[w] == Some(fighters[i].id));
    }
    assert(after[3] == two[3] && two[3] == one[3] && one[3] == start[3]);
    if w == 0 {
        assert(after[0] == two[0] && two[0] == one[0]);
    } else if w == 1 {
        assert(after[1] == two[1] && one[1] == start[1]);
    } else {
        assert(two[2] == one[2] && one[2] == start[2]);
    }
}

/// The cannon chooses before the launchers do: as far as it has to choose, it gets a fighter
/// with as few weapons and launches on it as any, before a launcher is given one.
pub proof fn law_cannon_chooses_first(
    slots: Seq<Option<u32>>,
    history: Seq<(u32, u32)>,
    seen: nat,
    reload_1: u32,
    reload_2: u32,
    fighters: Seq<Contact>,
    views: Seq<TargetView>,
    other: int,
)
    requires
        slots.len() == 4,
        views.len() == fighters.len(),
        history.len() < usize::MAX - 4,
        seen >= 3,
        freed(slots, history, fighters)[0] is None,
        0 <= other < fighters.len(),
    ensures
        ({
            let start = freed(slots, history, fighters);
            let after = shared_out(slots, history, seen, reload_1, reload_2, fighters, views);
            let load = |id: u32|
                crate::weapons::guns_on(start, 3, id, Some(0usize)) + crate::weapons::launches_at(
                    history,
                    id,
                );
            after[0] is Some && load(after[0]->0) <= load(fighters[other].id)
        }),
{
    let start = freed(slots, history, fighters);
    let one = filled(start, history, seen, 0, true, fighters, views);
    let two = filled(one, history, seen, 1, reload_1 <= ASSIGN_LEAD_TICKS, fighters, views);
    let after = shared_out(slots, history, seen, reload_1, reload_2, fighters, views);
    law_targets_given_up(slots, history, fighters, 0);
    crate::weapons::law_cruiser_assignment(start, history, seen, 0, fighters, views);
    crate::weapons::law_cruiser_assignment(one, history, seen, 1, fighters, views);
    crate::weapons::law_cruiser_assignment(two, history, seen, 2, fighters, views);
    assert(after[0] == two[0] && two[0] == one[0]);
}

/// A try launches a missile exactly where a launcher is ready and three ticks or more have
/// passed since the last launch; the tick of the last launch moves with it, and stays without.
pub proof fn law_launch_try(last_launch: u32, ready: bool, tick: u32)
    requires
        last_launch <= tick,
    ensures
        launches_now(last_launch, ready, tick) <==> ready && last_launch + 3 <= tick,
        last_launch_after(last_launch, ready, tick) == (if ready && last_launch + 3 <= tick {
            tick
        } else {
            last_launch
        }),
{
}

} // verus!
