//! Sharing targets out among the weapons of a ship.
use vstd::prelude::*;

use crate::class::Class;
use crate::contact::{holds_id, place_of, place_of_id, Contact};
use crate::lookup::as_place;
use crate::measure::Measure;
use crate::select::{kept, lemma_kept_take};

verus! {

/// Ticks for which a launch counts against its target: four seconds.
pub const LAUNCH_MEMORY: u32 = 240;

/// Ticks before a launcher is ready at which it gets a target.
pub const ASSIGN_LEAD_TICKS: u32 = 4;

/// Ticks between scans of the targets of weapons.
pub const WEAPON_INTERVAL: u32 = 6;

/// How many of the first `n` weapons, but for `except`, aim at `id`.
pub open spec fn guns_on(slots: Seq<Option<u32>>, n: nat, id: u32, except: Option<usize>) -> nat
    decreases n,
{
    if n == 0 {
        0
    } else {
        guns_on(slots, (n - 1) as nat, id, except) + (if except != Some((n - 1) as usize)
            && slots[n - 1] == Some(id) {
            1nat
        } else {
            0
        })
    }
}

/// How many of the first `n` weapons, but for `except`, aim at `id`.
pub fn count_guns(slots: &[Option<u32>; 4], n: usize, id: u32, except: Option<usize>) -> (count: usize)
    requires
        n <= 4,
    ensures
        count == guns_on(slots@, n as nat, id, except),
        count <= n,
{
    let mut count: usize = 0;
    let mut w: usize = 0;
    while w < n
        invariant
            0 <= w <= n <= 4,
            count <= w,
            count == guns_on(slots@, w as nat, id, except),
        decreases n - w,
    {
        let excluded = match except {
            Some(e) => e == w,
            None => false,
        };
        let aims = match slots[w] {
            Some(target) => target == id,
            None => false,
        };
        if !excluded && aims {
            count = count + 1;
        }
        w = w + 1;
    }
    count
}

/// How many launches at `id` are remembered.
pub open spec fn launches_at(history: Seq<(u32, u32)>, id: u32) -> nat
    decreases history.len(),
{
    if history.len() == 0 {
        0
    } else {
        launches_at(history.drop_last(), id) + (if history.last().0 == id {
            1nat
        } else {
            0
        })
    }
}

/// How many launches at `id` are remembered.
pub fn count_launches(history: &Vec<(u32, u32)>, id: u32) -> (count: usize)
    ensures
        count == launches_at(history@, id),
        count <= history.len(),
{
    let mut count: usize = 0;
    let mut i: usize = 0;
    assert(history@.take(0) =~= Seq::empty());
    while i < history.len()
        invariant
            0 <= i <= history.len(),
            count <= i,
            count == launches_at(history@.take(i as int), id),
        decreases history.len() - i,
    {
        proof {
            let next = history@.take(i as int + 1);
            assert(next.drop_last() =~= history@.take(i as int));
            assert(next.last() == history@[i as int]);
        }
        if history[i].0 == id {
            count = count + 1;
        }
        i = i + 1;
    }
    assert(history@.take(i as int) =~= history@);
    count
}

/// Which launches are still remembered at `tick`.
pub open spec fn remembered(history: Seq<(u32, u32)>, tick: u32) -> Seq<bool> {
    Seq::new(history.len(), |i: int| tick - history[i].1 <= LAUNCH_MEMORY)
}

/// Whether no launch lies after `tick`.
pub open spec fn launched_before(history: Seq<(u32, u32)>, tick: u32) -> bool {
    forall|i: int| #![trigger history[i]] 0 <= i < history.len() ==> history[i].1 <= tick
}

/// Forgets launches that lie too far back.
pub fn forget_launches(history: &mut Vec<(u32, u32)>, tick: u32)
    requires
        launched_before(old(history)@, tick),
    ensures
        final(history)@ == kept(old(history)@, remembered(old(history)@, tick)),
        launched_before(final(history)@, tick),
{
    proof {
        law_forgetting_keeps_the_past(history@, tick);
    }
    let ghost all = remembered(history@, tick);
    let mut keep: Vec<bool> = Vec::new();
    let mut i: usize = 0;
    while i < history.len()
        invariant
            0 <= i <= history.len(),
            launched_before(history@, tick),
            all == remembered(history@, tick),
            keep@ == all.take(i as int),
        decreases history.len() - i,
    {
        assert(history@[i as int].1 <= tick);
        keep.push(tick - history[i].1 <= LAUNCH_MEMORY);
        assert(all.take(i as int + 1) =~= all.take(i as int).push(all[i as int]));
        i = i + 1;
    }
    assert(keep@ =~= all);
    crate::select::retain_flagged(history, &keep);
}

/// Which launches were at another target than `id`.
pub open spec fn at_others(history: Seq<(u32, u32)>, id: u32) -> Seq<bool> {
    Seq::new(history.len(), |i: int| history[i].0 != id)
}

/// Remembers a launch at `id`; earlier ones at it are forgotten.
pub fn remember_launch(history: &mut Vec<(u32, u32)>, id: u32, tick: u32)
    ensures
        final(history)@ == kept(old(history)@, at_others(old(history)@, id)).push((id, tick)),
        launched_before(old(history)@, tick) ==> launched_before(final(history)@, tick),
{
    proof {
        if launched_before(history@, tick) {
            law_remembering_keeps_the_past(history@, id, tick);
        }
    }
    let ghost all = at_others(history@, id);
    let mut keep: Vec<bool> = Vec::new();
    let mut i: usize = 0;
    while i < history.len()
        invariant
            0 <= i <= history.len(),
            all == at_others(history@, id),
            keep@ == all.take(i as int),
        decreases history.len() - i,
    {
        keep.push(history[i].0 != id);
        assert(all.take(i as int + 1) =~= all.take(i as int).push(all[i as int]));
        i = i + 1;
    }
    assert(keep@ =~= all);
    crate::select::retain_flagged(history, &keep);
    history.push((id, tick));
}

/// How a possible target lies.
#[derive(Clone, Copy, Debug, PartialEq, Eq, Structural)]
pub struct TargetView {
    pub distance: Measure,
    /// Whether it lies straight ahead or to the left.
    pub on_left: bool,
    /// The angle by which it is off the nose.
    pub off_nose: Measure,
    /// The time that a missile takes to reach it.
    pub reach_time: Measure,
}

/// How good a target is for a weapon. Free targets go before taken ones, then those with
/// fewer weapons on them, then those on the weapon's side, then those of lower cost.
#[derive(Clone, Copy, Debug, PartialEq, Eq, Structural)]
pub struct TargetRank {
    pub taken: bool,
    pub guns: usize,
    pub wrong_side: bool,
    pub cost: u64,
}

impl TargetRank {
    /// Whether this target is better than another.
    pub open spec fn better(self, other: TargetRank) -> bool {
        if self.taken != other.taken {
            !self.taken
        } else if self.guns != other.guns {
            self.guns < other.guns
        } else if self.wrong_side != other.wrong_side {
            !self.wrong_side
        } else {
            self.cost < other.cost
        }
    }

    /// Whether this target is better than another.
    pub fn is_better(&self, other: &TargetRank) -> (better: bool)
        ensures
            better == self.better(*other),
    {
        if self.taken != other.taken {
            return !self.taken;
        }
        if self.guns != other.guns {
            return self.guns < other.guns;
        }
        if self.wrong_side != other.wrong_side {
            return !self.wrong_side;
        }
        self.cost < other.cost
    }
}

/// Whether `ranks[i]` is the best rank there is, and the first of that value.
pub open spec fn is_first_best(ranks: Seq<Option<TargetRank>>, i: int) -> bool {
    &&& 0 <= i < ranks.len()
    &&& ranks[i] is Some
    &&& forall|j: int|
        #![trigger ranks[j]]
        0 <= j < ranks.len() && ranks[j] is Some ==> !ranks[j]->0.better(ranks[i]->0)
    &&& forall|j: int|
        #![trigger ranks[j]]
        0 <= j < i && ranks[j] is Some ==> ranks[i]->0.better(ranks[j]->0)
}

/// The place of the best rank, the first among equals.
pub open spec fn first_best_of(ranks: Seq<Option<TargetRank>>) -> Option<int> {
    if exists|i: int| is_first_best(ranks, i) {
        Some(choose|i: int| is_first_best(ranks, i))
    } else {
        None
    }
}

/// The place of the best rank, the first among equals.
pub fn first_best(ranks: &Vec<Option<TargetRank>>) -> (place: Option<usize>)
    ensures
        as_place(place) == first_best_of(ranks@),
        place matches Some(i) ==> is_first_best(ranks@, i as int),
        place is None ==> forall|j: int|
            #![trigger ranks@[j]]
            0 <= j < ranks@.len() ==> ranks@[j] is None,
{
    let mut best: Option<usize> = None;
    let mut i: usize = 0;
    while i < ranks.len()
        invariant
            0 <= i <= ranks.len(),
            best is None ==> forall|j: int|
                #![trigger ranks@[j]]
                0 <= j < i ==> ranks@[j] is None,
            best matches Some(b) ==> b < i && is_first_best(ranks@.take(i as int), b as int),
        decreases ranks.len() - i,
    {
        let ghost seen = ranks@.take(i as int);
        let ghost next = ranks@.take(i as int + 1);
        proof {
            assert(forall|j: int| 0 <= j < i ==> seen[j] == next[j]);
            assert(next[i as int] == ranks@[i as int]);
        }
        if let Some(rank) = ranks[i] {
            match best {
                Some(b) => {
                    if let Some(other) = ranks[b] {
                        if rank.is_better(&other) {
                            best = Some(i);
                        }
                    }
                },
                None => {
                    best = Some(i);
                },
            }
        }
        i = i + 1;
    }
    proof {
        assert(ranks@.take(ranks@.len() as int) =~= ranks@);
        match best {
            Some(b) => {
                let k = choose|k: int| is_first_best(ranks@, k);
                assert(is_first_best(ranks@, k));
                if k < b {
                    assert(ranks@[k] is Some);
                } else if k > b {
                    assert(ranks@[b as int] is Some);
                }
            },
            None => {},
        }
    }
    best
}

/// The weapons after weapon `w` got the best of the targets, if there is any.
pub open spec fn assigned(slots: Seq<Option<u32>>, w: int, fighters: Seq<Contact>, ranks: Seq<Option<TargetRank>>) -> Seq<
    Option<u32>,
> {
    match first_best_of(ranks) {
        Some(i) => slots.update(w, Some(fighters[i].id)),
        None => slots,
    }
}

/// Which contacts are of one class.
pub open spec fn of_class(contacts: Seq<Contact>, class: Class) -> Seq<bool> {
    Seq::new(contacts.len(), |i: int| contacts[i].class == class)
}

/// Which contacts are not missiles.
pub open spec fn no_missiles(contacts: Seq<Contact>) -> Seq<bool> {
    Seq::new(contacts.len(), |i: int| contacts[i].class != Class::Missile)
}

/// The fighters among the contacts, in order.
pub fn fighters_among(contacts: &Vec<Contact>) -> (fighters: Vec<Contact>)
    ensures
        fighters@ == kept(contacts@, of_class(contacts@, Class::Fighter)),
{
    let ghost flags = of_class(contacts@, Class::Fighter);
    let mut out: Vec<Contact> = Vec::new();
    let mut i: usize = 0;
    while i < contacts.len()
        invariant
            0 <= i <= contacts.len(),
            flags == of_class(contacts@, Class::Fighter),
            out@ == kept(contacts@.take(i as int), flags),
        decreases contacts.len() - i,
    {
        proof {
            lemma_kept_take(contacts@, flags, i as int + 1);
        }
        if contacts[i].class == Class::Fighter {
            out.push(contacts[i]);
        }
        i = i + 1;
    }
    assert(contacts@.take(i as int) =~= contacts@);
    out
}

/// The contacts that are not missiles, in order.
pub fn ships_among(contacts: &Vec<Contact>) -> (ships: Vec<Contact>)
    ensures
        ships@ == kept(contacts@, no_missiles(contacts@)),
{
    let ghost flags = no_missiles(contacts@);
    let mut out: Vec<Contact> = Vec::new();
    let mut i: usize = 0;
    while i < contacts.len()
        invariant
            0 <= i <= contacts.len(),
            flags == no_missiles(contacts@),
            out@ == kept(contacts@.take(i as int), flags),
        decreases contacts.len() - i,
    {
        proof {
            lemma_kept_take(contacts@, flags, i as int + 1);
        }
        if contacts[i].class != Class::Missile {
            out.push(contacts[i]);
        }
        i = i + 1;
    }
    assert(contacts@.take(i as int) =~= contacts@);
    out
}

/// The ids seen so far, with those of the first `n` fighters added where they are new.
pub open spec fn seen_after(seen: Seq<u32>, fighters: Seq<Contact>, n: nat) -> Seq<u32>
    decreases n,
{
    if n == 0 {
        seen
    } else {
        let before = seen_after(seen, fighters, (n - 1) as nat);
        if before.contains(fighters[n - 1].id) {
            before
        } else {
            before.push(fighters[n - 1].id)
        }
    }
}

fn holds(ids: &Vec<u32>, id: u32) -> (found: bool)
    ensures
        found == ids@.contains(id),
{
    let mut i: usize = 0;
    while i < ids.len()
        invariant
            0 <= i <= ids.len(),
            forall|j: int| #![trigger ids@[j]] 0 <= j < i ==> ids@[j] != id,
        decreases ids.len() - i,
    {
        if ids[i] == id {
            assert(ids@[i as int] == id);
            return true;
        }
        i = i + 1;
    }
    false
}

/// Adds the ids of fighters that were not seen before.
pub fn note_seen(seen: &mut Vec<u32>, fighters: &Vec<Contact>)
    ensures
        final(seen)@ == seen_after(old(seen)@, fighters@, fighters@.len()),
{
    let mut i: usize = 0;
    while i < fighters.len()
        invariant
            0 <= i <= fighters.len(),
            seen@ == seen_after(old(seen)@, fighters@, i as nat),
        decreases fighters.len() - i,
    {
        if !holds(seen, fighters[i].id) {
            seen.push(fighters[i].id);
        }
        i = i + 1;
    }
}

/// The weapons after the first `n` gave up targets that are gone.
pub open spec fn pruned(slots: Seq<Option<u32>>, n: nat, fighters: Seq<Contact>) -> Seq<Option<u32>> {
    Seq::new(
        slots.len(),
        |w: int|
            if w < n && slots[w] is Some && !holds_id(fighters, slots[w]->0) {
                None
            } else {
                slots[w]
            },
    )
}

/// Makes the first `n` weapons give up targets that are gone.
pub fn prune_targets(slots: &mut [Option<u32>; 4], n: usize, fighters: &Vec<Contact>)
    requires
        n <= 4,
    ensures
        final(slots)@ == pruned(old(slots)@, n as nat, fighters@),
{
    let ghost before = slots@;
    let ghost goal = pruned(before, n as nat, fighters@);
    let mut w: usize = 0;
    while w < n
        invariant
            0 <= w <= n <= 4,
            before.len() == 4,
            goal == pruned(before, n as nat, fighters@),
            forall|k: int| #![trigger goal[k]] 0 <= k < w ==> slots@[k] == goal[k],
            forall|k: int| w <= k < 4 ==> slots@[k] == before[k],
        decreases n - w,
    {
        if let Some(id) = slots[w] {
            if place_of_id(fighters, id).is_none() {
                slots[w] = None;
            }
        }
        assert(slots@[w as int] == goal[w as int]);
        w = w + 1;
    }
    assert(slots@ =~= goal);
}

/// Whether a fighter has not been launched at.
pub open spec fn fresh_target_exists(history: Seq<(u32, u32)>, fighters: Seq<Contact>) -> bool {
    exists|i: int|
        0 <= i < fighters.len() && launches_at(history, #[trigger] fighters[i].id) == 0
}

/// The target of a launcher after it gave it up where it was launched at already and there is
/// one that was not.
pub open spec fn released(slot: Option<u32>, history: Seq<(u32, u32)>, fighters: Seq<Contact>) -> Option<u32> {
    if slot is Some && launches_at(history, slot->0) > 0 && fresh_target_exists(history, fighters) {
        None
    } else {
        slot
    }
}

/// Gives up a target that was launched at already, where there is one that was not.
pub fn release_target(slot: Option<u32>, history: &Vec<(u32, u32)>, fighters: &Vec<Contact>) -> (left: Option<u32>)
    ensures
        left == released(slot, history@, fighters@),
{
    match slot {
        Some(id) => {
            if count_launches(history, id) == 0 {
                return slot;
            }
            let mut i: usize = 0;
            while i < fighters.len()
                invariant
                    0 <= i <= fighters.len(),
                    slot == Some(id),
                    launches_at(history@, id) > 0,
                    forall|j: int|
                        #![trigger fighters@[j]]
                        0 <= j < i ==> launches_at(history@, fighters@[j].id) != 0,
                decreases fighters.len() - i,
            {
                if count_launches(history, fighters[i].id) == 0 {
                    assert(launches_at(history@, fighters@[i as int].id) == 0);
                    return None;
                }
                i = i + 1;
            }
            slot
        },
        None => None,
    }
}

/// The entries of the watch list: the targets of the first `n` weapons that are not idle.
pub open spec fn watched_targets(slots: Seq<Option<u32>>, active: Seq<bool>, n: nat) -> Seq<(u32, u32)>
    decreases n,
{
    if n == 0 {
        Seq::empty()
    } else {
        let before = watched_targets(slots, active, (n - 1) as nat);
        if slots[n - 1] is Some && active[n - 1] {
            before.push((slots[n - 1]->0, WEAPON_INTERVAL))
        } else {
            before
        }
    }
}

/// The watch list: the targets of the first `n` weapons that are not idle.
pub fn watch_targets(slots: &[Option<u32>; 4], active: &[bool; 4], n: usize) -> (entries: Vec<(u32, u32)>)
    requires
        n <= 4,
    ensures
        entries@ == watched_targets(slots@, active@, n as nat),
{
    let mut entries: Vec<(u32, u32)> = Vec::new();
    let mut w: usize = 0;
    while w < n
        invariant
            0 <= w <= n <= 4,
            entries@ == watched_targets(slots@, active@, w as nat),
        decreases n - w,
    {
        if let Some(id) = slots[w] {
            if active[w] {
                entries.push((id, WEAPON_INTERVAL));
            }
        }
        w = w + 1;
    }
    entries
}

/// The place of the target that the ship turns to while its main gun has none: that of the
/// second weapon, else that of the third.
pub open spec fn fallback_place(slots: Seq<Option<u32>>, fighters: Seq<Contact>) -> Option<int> {
    if slots[1] is Some {
        place_of(fighters, slots[1]->0)
    } else if slots[2] is Some {
        place_of(fighters, slots[2]->0)
    } else {
        None
    }
}

/// The place of the target that the ship turns to while its main gun has none.
pub fn fallback_target(slots: &[Option<u32>; 4], fighters: &Vec<Contact>) -> (place: Option<usize>)
    ensures
        as_place(place) == fallback_place(slots@, fighters@),
        place matches Some(i) ==> i < fighters.len(),
{
    match slots[1] {
        Some(id) => place_of_id(fighters, id),
        None => match slots[2] {
            Some(id) => place_of_id(fighters, id),
            None => None,
        },
    }
}

/// The launcher that fires: the second weapon where it has a target and is ready, else the
/// third.
pub open spec fn launching_slot(slots: Seq<Option<u32>>, reload_1: u32, reload_2: u32) -> Option<usize> {
    if slots[1] is Some && reload_1 == 0 {
        Some(1)
    } else if slots[2] is Some && reload_2 == 0 {
        Some(2)
    } else {
        None
    }
}

/// The launcher that fires.
pub fn launch_slot(slots: &[Option<u32>; 4], reload_1: u32, reload_2: u32) -> (slot: Option<usize>)
    ensures
        slot == launching_slot(slots@, reload_1, reload_2),
{
    if slots[1].is_some() && reload_1 == 0 {
        Some(1)
    } else if slots[2].is_some() && reload_2 == 0 {
        Some(2)
    } else {
        None
    }
}

/// Where the cruiser's weapons prefer their targets: the second to the left, the third to the
/// right, the first anywhere.
pub open spec fn on_wrong_side(w: int, view: TargetView) -> bool {
    if w == 1 {
        !view.on_left
    } else if w == 2 {
        view.on_left
    } else {
        false
    }
}

/// The weapons and launches that already count against a target of a cruiser's weapon.
pub open spec fn cruiser_load(slots: Seq<Option<u32>>, history: Seq<(u32, u32)>, w: int, id: u32) -> nat {
    guns_on(slots, 3, id, Some(w as usize)) + launches_at(history, id)
}

/// How good the fighters are for weapon `w` of a cruiser. As long as few were seen, none
/// with a weapon on it comes into question.
pub open spec fn cruiser_ranks(
    slots: Seq<Option<u32>>,
    history: Seq<(u32, u32)>,
    seen: nat,
    w: int,
    fighters: Seq<Contact>,
    views: Seq<TargetView>,
) -> Seq<Option<TargetRank>> {
    Seq::new(
        fighters.len(),
        |i: int|
            {
                let load = cruiser_load(slots, history, w, fighters[i].id);
                if seen < 3 && load > 0 {
                    None
                } else {
                    Some(
                        TargetRank {
                            taken: load > 0,
                            guns: load as usize,
                            wrong_side: on_wrong_side(w, views[i]),
                            cost: views[i].distance,
                        },
                    )
                }
            },
    )
}

/// Gives weapon `w` of a cruiser the best target there is for it, if there is any.
pub fn assign_cruiser_weapon(
    slots: &mut [Option<u32>; 4],
    history: &Vec<(u32, u32)>,
    seen: usize,
    w: usize,
    fighters: &Vec<Contact>,
    views: &Vec<TargetView>,
)
    requires
        w < 3,
        views.len() == fighters.len(),
        history.len() < usize::MAX - 4,
    ensures
        final(slots)@ == assigned(
            old(slots)@,
            w as int,
            fighters@,
            cruiser_ranks(old(slots)@, history@, seen as nat, w as int, fighters@, views@),
        ),
{
    let ghost all = cruiser_ranks(slots@, history@, seen as nat, w as int, fighters@, views@);
    let mut ranks: Vec<Option<TargetRank>> = Vec::new();
    let mut i: usize = 0;
    while i < fighters.len()
        invariant
            0 <= i <= fighters.len(),
            w < 3,
            views.len() == fighters.len(),
            history.len() < usize::MAX - 4,
            all == cruiser_ranks(slots@, history@, seen as nat, w as int, fighters@, views@),
            ranks@ == all.take(i as int),
        decreases fighters.len() - i,
    {
        let id: u32 = fighters[i].id;
        let guns: usize = count_guns(slots, 3, id, Some(w));
        let launches: usize = count_launches(history, id);
        let load: usize = guns + launches;
        if seen < 3 && load > 0 {
            ranks.push(None);
        } else {
            let wrong_side = if w == 1 {
                !views[i].on_left
            } else if w == 2 {
                views[i].on_left
            } else {
                false
            };
            ranks.push(
                Some(
                    TargetRank {
                        taken: load > 0,
                        guns: load,
                        wrong_side,
                        cost: views[i].distance,
                    },
                ),
            );
        }
        assert(all.take(i as int + 1) =~= all.take(i as int).push(all[i as int]));
        i = i + 1;
    }
    assert(ranks@ =~= all);
    if let Some(place) = first_best(&ranks) {
        slots[w] = Some(fighters[place].id);
    }
}

/// As long as few targets were seen, a weapon is given no target that another weapon aims at
/// or that was launched at.
pub proof fn law_no_duplicates_while_few_seen(
    slots: Seq<Option<u32>>,
    history: Seq<(u32, u32)>,
    seen: nat,
    w: int,
    fighters: Seq<Contact>,
    views: Seq<TargetView>,
)
    requires
        seen < 3,
        0 <= w < slots.len(),
        first_best_of(cruiser_ranks(slots, history, seen, w, fighters, views)) is Some,
    ensures
        ({
            let ranks = cruiser_ranks(slots, history, seen, w, fighters, views);
            let after = assigned(slots, w, fighters, ranks);
            &&& after[w] is Some
            &&& cruiser_load(slots, history, w, after[w]->0) == 0
        }),
{
    let ranks = cruiser_ranks(slots, history, seen, w, fighters, views);
    let i = choose|i: int| is_first_best(ranks, i);
    assert(is_first_best(ranks, i));
}

/// A weapon is given a target with as few weapons and launches on it as any that comes into
/// question has.
pub proof fn law_least_loaded_target(
    slots: Seq<Option<u32>>,
    history: Seq<(u32, u32)>,
    seen: nat,
    w: int,
    fighters: Seq<Contact>,
    views: Seq<TargetView>,
    i: int,
    j: int,
)
    requires
        is_first_best(cruiser_ranks(slots, history, seen, w, fighters, views), i),
        0 <= j < fighters.len(),
        cruiser_load(slots, history, w, fighters[i].id) <= usize::MAX,
        cruiser_load(slots, history, w, fighters[j].id) <= usize::MAX,
        cruiser_ranks(slots, history, seen, w, fighters, views)[j] is Some,
    ensures
        cruiser_load(slots, history, w, fighters[i].id) <= cruiser_load(
            slots,
            history,
            w,
            fighters[j].id,
        ),
{
    let ranks = cruiser_ranks(slots, history, seen, w, fighters, views);
    assert(!ranks[j]->0.better(ranks[i]->0));
}

/// After pruning, every weapon's target is there.
pub proof fn law_pruned_targets_are_there(slots: Seq<Option<u32>>, n: nat, fighters: Seq<Contact>, w: int)
    requires
        0 <= w < n <= slots.len(),
        pruned(slots, n, fighters)[w] is Some,
    ensures
        holds_id(fighters, pruned(slots, n, fighters)[w]->0),
{
}

/// What is left of the launches after some were forgotten still lies in the past.
pub proof fn law_forgetting_keeps_the_past(history: Seq<(u32, u32)>, tick: u32)
    requires
        launched_before(history, tick),
    ensures
        launched_before(kept(history, remembered(history, tick)), tick),
{
    let flags = remembered(history, tick);
    let left = kept(history, flags);
    assert forall|i: int| #![trigger left[i]] 0 <= i < left.len() implies left[i].1 <= tick by {
        assert(left.contains(left[i]));
        crate::select::lemma_kept_contains(history, flags, left[i]);
        let k = choose|k: int|
            0 <= k < history.len() && #[trigger] history[k] == left[i] && flags[k];
        assert(history[k].1 <= tick);
    }
}

/// A launch remembered at a tick lies in the past of that tick, as all others do.
pub proof fn law_remembering_keeps_the_past(history: Seq<(u32, u32)>, id: u32, tick: u32)
    requires
        launched_before(history, tick),
    ensures
        launched_before(kept(history, at_others(history, id)).push((id, tick)), tick),
{
    let flags = at_others(history, id);
    let others = kept(history, flags);
    let all = others.push((id, tick));
    assert forall|i: int| #![trigger all[i]] 0 <= i < all.len() implies all[i].1 <= tick by {
        if i < others.len() {
            assert(others.contains(others[i]));
            crate::select::lemma_kept_contains(history, flags, others[i]);
            let k = choose|k: int|
                0 <= k < history.len() && #[trigger] history[k] == others[i] && flags[k];
            assert(history[k].1 <= tick);
        }
    }
}

/// The list of seen targets never loses an id, never lists one twice, and has those of all
/// targets in sight.
pub proof fn law_seen_targets_add_up(seen: Seq<u32>, fighters: Seq<Contact>)
    requires
        seen.no_duplicates(),
    ensures
        seen_after(seen, fighters, fighters.len()).no_duplicates(),
        seen.len() <= seen_after(seen, fighters, fighters.len()).len(),
        seen_after(seen, fighters, fighters.len()).take(seen.len() as int) == seen,
        forall|i: int|
            #![trigger fighters[i]]
            0 <= i < fighters.len() ==> seen_after(seen, fighters, fighters.len()).contains(
                fighters[i].id,
            ),
{
    lemma_seen_after(seen, fighters, fighters.len());
}

proof fn lemma_seen_after(seen: Seq<u32>, fighters: Seq<Contact>, n: nat)
    requires
        seen.no_duplicates(),
        n <= fighters.len(),
    ensures
        seen_after(seen, fighters, n).no_duplicates(),
        seen.len() <= seen_after(seen, fighters, n).len(),
        seen_after(seen, fighters, n).take(seen.len() as int) == seen,
        forall|i: int|
            #![trigger fighters[i]]
            0 <= i < n ==> seen_after(seen, fighters, n).contains(fighters[i].id),
    decreases n,
{
    if n == 0 {
        assert(seen.take(seen.len() as int) =~= seen);
    } else {
        lemma_seen_after(seen, fighters, (n - 1) as nat);
        let before = seen_after(seen, fighters, (n - 1) as nat);
        let after = seen_after(seen, fighters, n);
        if !before.contains(fighters[n - 1].id) {
            assert(after[before.len() as int] == fighters[n - 1].id);
            assert forall|id: u32| before.contains(id) implies after.contains(id) by {
                let k = before.index_of(id);
                assert(after[k] == id);
            }
            assert(after.take(seen.len() as int) =~= before.take(seen.len() as int));
        }
    }
}

/// Weapons on a target are counted one by one: as many as there are among the first `n` that aim
/// at it, the excepted one left out.
pub proof fn law_guns_are_counted(slots: Seq<Option<u32>>, n: nat, id: u32, except: Option<usize>)
    requires
        n <= usize::MAX,
    ensures
        ({
            let guns = Set::new(
                |w: int| 0 <= w < n && slots[w] == Some(id) && except != Some(w as usize),
            );
            guns.finite() && guns.len() == guns_on(slots, n, id, except) && guns.len() <= n
        }),
    decreases n,
{
    let guns = Set::new(|w: int| 0 <= w < n && slots[w] == Some(id) && except != Some(w as usize));
    if n == 0 {
        assert(guns =~= Set::empty());
    } else {
        let m = (n - 1) as nat;
        law_guns_are_counted(slots, m, id, except);
        let fewer = Set::new(
            |w: int| 0 <= w < m && slots[w] == Some(id) && except != Some(w as usize),
        );
        if slots[n - 1] == Some(id) && except != Some((n - 1) as usize) {
            assert(guns =~= fewer.insert(n - 1));
        } else {
            assert(guns =~= fewer);
        }
    }
}

/// Launches at a target are counted one by one: as many as are remembered.
pub proof fn law_launches_are_counted(history: Seq<(u32, u32)>, id: u32)
    ensures
        ({
            let launches = Set::new(|i: int| 0 <= i < history.len() && history[i].0 == id);
            launches.finite() && launches.len() == launches_at(history, id) && launches.len()
                <= history.len()
        }),
        launches_at(history, id) > 0 <==> exists|i: int|
            0 <= i < history.len() && (#[trigger] history[i]).0 == id,
    decreases history.len(),
{
    let launches = Set::new(|i: int| 0 <= i < history.len() && history[i].0 == id);
    if history.len() == 0 {
        assert(launches =~= Set::empty());
    } else {
        let rest = history.drop_last();
        law_launches_are_counted(rest, id);
        let fewer = Set::new(|i: int| 0 <= i < rest.len() && rest[i].0 == id);
        if history.last().0 == id {
            assert(launches =~= fewer.insert(rest.len() as int));
            assert(history[history.len() - 1].0 == id);
        } else {
            assert(launches =~= fewer);
            if launches_at(rest, id) > 0 {
                let i = choose|i: int| 0 <= i < rest.len() && (#[trigger] rest[i]).0 == id;
                assert(history[i].0 == id);
            }
            if exists|i: int| 0 <= i < history.len() && (#[trigger] history[i]).0 == id {
                let i = choose|i: int| 0 <= i < history.len() && (#[trigger] history[i]).0 == id;
                assert(rest[i].0 == id);
            }
        }
    }
}

/// Another weapon aims at a target exactly where weapons are counted on it.
pub proof fn lemma_guns_on_some(slots: Seq<Option<u32>>, n: nat, id: u32, except: Option<usize>)
    requires
        n <= usize::MAX,
    ensures
        guns_on(slots, n, id, except) > 0 <==> exists|w: int|
            0 <= w < n && #[trigger] slots[w] == Some(id) && except != Some(w as usize),
        guns_on(slots, n, id, except) <= n,
    decreases n,
{
    if n > 0 {
        let m = (n - 1) as nat;
        lemma_guns_on_some(slots, m, id, except);
        if slots[n - 1] == Some(id) && except != Some((n - 1) as usize) {
            assert(slots[n - 1] == Some(id));
        }
    }
}

/// Of the targets that come into question a free one is chosen before a taken one, then one
/// with fewer weapons on it, then one on the weapon's side, then one of lower cost, and then the
/// first. One is chosen where there is any.
pub proof fn law_best_rank(ranks: Seq<Option<TargetRank>>)
    ensures
        match first_best_of(ranks) {
            Some(i) => {
                &&& 0 <= i < ranks.len() && ranks[i] is Some
                &&& forall|j: int|
                    #![trigger ranks[j]]
                    0 <= j < ranks.len() && ranks[j] is Some && j != i ==> {
                        let best = ranks[i]->0;
                        let other = ranks[j]->0;
                        &&& best.taken ==> other.taken
                        &&& best.taken == other.taken ==> best.guns <= other.guns
                        &&& best.taken == other.taken && best.guns == other.guns && best.wrong_side
                            ==> other.wrong_side
                        &&& best.taken == other.taken && best.guns == other.guns && best.wrong_side
                            == other.wrong_side ==> best.cost <= other.cost
                        &&& best == other ==> i < j
                    }
            },
            None => forall|j: int| #![trigger ranks[j]] 0 <= j < ranks.len() ==> ranks[j] is None,
        },
{
    match first_best_of(ranks) {
        Some(i) => {
            assert(is_first_best(ranks, i));
        },
        None => {
            assert forall|j: int| #![trigger ranks[j]] 0 <= j < ranks.len() implies ranks[j] is None by {
                if ranks[j] is Some {
                    lemma_best_exists(ranks, ranks.len());
                }
            }
        },
    }
}

// Among the first `n` ranks there is a best one, where there is any.
proof fn lemma_best_exists(ranks: Seq<Option<TargetRank>>, n: nat)
    requires
        n <= ranks.len(),
    ensures
        (exists|j: int| 0 <= j < n && #[trigger] ranks[j] is Some) ==> exists|i: int|
            is_first_best(ranks.take(n as int), i),
        n == ranks.len() && (exists|j: int| 0 <= j < n && #[trigger] ranks[j] is Some) ==> exists|i: int|
            is_first_best(ranks, i),
    decreases n,
{
    let now = ranks.take(n as int);
    if n > 0 {
        let m = (n - 1) as nat;
        lemma_best_exists(ranks, m);
        let old = ranks.take(m as int);
        assert(forall|j: int| 0 <= j < m ==> old[j] == now[j]);
        assert(now[m as int] == ranks[m as int]);
        if exists|j: int| 0 <= j < m && #[trigger] ranks[j] is Some {
            let b = choose|i: int| is_first_best(old, i);
            assert(is_first_best(old, b));
            if ranks[m as int] is Some && ranks[m as int]->0.better(old[b]->0) {
                assert(is_first_best(now, m as int));
            } else {
                assert(is_first_best(now, b));
            }
        } else if ranks[m as int] is Some {
            assert(is_first_best(now, m as int));
        }
    }
    if n == ranks.len() {
        assert(now =~= ranks);
    }
}

/// A weapon of a cruiser is given a fighter in sight, and none only where none comes into
/// question: as long as fewer than three were seen, those with another weapon or a launch on
/// them do not. It goes to a fighter with as few weapons and launches on it as any; of these to
/// one on its side, where it has one: the second weapon's is the left, the third's the right; of
/// these to the closest, and then to the first. The other weapons keep their targets.
#[verifier::rlimit(40)]
pub proof fn law_cruiser_assignment(
    slots: Seq<Option<u32>>,
    history: Seq<(u32, u32)>,
    seen: nat,
    w: int,
    fighters: Seq<Contact>,
    views: Seq<TargetView>,
)
    requires
        slots.len() == 4,
        0 <= w < 3,
        views.len() == fighters.len(),
        history.len() < usize::MAX - 4,
    ensures
        ({
            let after = assigned(
                slots,
                w,
                fighters,
                cruiser_ranks(slots, history, seen, w, fighters, views),
            );
            let load = |i: int|
                guns_on(slots, 3, fighters[i].id, Some(w as usize)) + launches_at(
                    history,
                    fighters[i].id,
                );
            let eligible = |i: int| seen >= 3 || load(i) == 0;
            let wrong = |i: int|
                (w == 1 && !views[i].on_left) || (w == 2 && views[i].on_left);
            &&& after.len() == 4
            &&& forall|v: int| 0 <= v < 4 && v != w ==> #[trigger] after[v] == slots[v]
            &&& (forall|i: int|
                #![trigger fighters[i]]
                0 <= i < fighters.len() ==> !eligible(i)) ==> after == slots
            &&& (exists|i: int|
                #![trigger fighters[i]]
                0 <= i < fighters.len() && eligible(i)) ==> exists|p: int|
                {
                    &&& 0 <= p < fighters.len()
                    &&& after[w] == Some(#[trigger] fighters[p].id)
                    &&& eligible(p)
                    &&& forall|q: int|
                        #![trigger fighters[q]]
                        0 <= q < fighters.len() && q != p && eligible(q) ==> {
                            &&& load(p) <= load(q)
                            &&& load(p) == load(q) && wrong(p) ==> wrong(q)
                            &&& load(p) == load(q) && wrong(p) == wrong(q) ==> views[p].distance
                                <= views[q].distance
                            &&& load(p) == load(q) && wrong(p) == wrong(q) && views[p].distance
                                == views[q].distance ==> p < q
                        }
                }
        }),
{
    let ranks = cruiser_ranks(slots, history, seen, w, fighters, views);
    let after = assigned(slots, w, fighters, ranks);
    law_best_rank(ranks);
    assert forall|i: int| #![trigger fighters[i]] 0 <= i < fighters.len() implies {
        let load = guns_on(slots, 3, fighters[i].id, Some(w as usize)) + launches_at(
            history,
            fighters[i].id,
        );
        &&& load <= usize::MAX
        &&& ranks[i] is Some <==> seen >= 3 || load == 0
        &&& ranks[i] is Some ==> ranks[i] == Some(
            TargetRank {
                taken: load > 0,
                guns: load as usize,
                wrong_side: (w == 1 && !views[i].on_left) || (w == 2 && views[i].on_left),
                cost: views[i].distance,
            },
        )
    } by {
        law_launches_are_counted(history, fighters[i].id);
        lemma_guns_on_some(slots, 3, fighters[i].id, Some(w as usize));
    }
    match first_best_of(ranks) {
        Some(p) => {
            assert(after[w] == Some(fighters[p].id));
        },
        None => {
            assert forall|i: int| #![trigger fighters[i]] 0 <= i < fighters.len() implies ranks[i] is None by {}
        },
    }
}

/// A weapon gives up a target that is no longer in sight, and no other.
pub proof fn law_gone_targets_are_given_up(slots: Seq<Option<u32>>, n: nat, fighters: Seq<Contact>, w: int)
    requires
        0 <= w < slots.len(),
    ensures
        ({
            let after = pruned(slots, n, fighters);
            let in_sight = exists|i: int|
                0 <= i < fighters.len() && Some(#[trigger] fighters[i].id) == slots[w];
            &&& after.len() == slots.len()
            &&& w >= n || in_sight ==> after[w] == slots[w]
            &&& w < n && !in_sight ==> after[w] is None
        }),
{
    if let Some(id) = slots[w] {
        if holds_id(fighters, id) {
            let i = choose|i: int| 0 <= i < fighters.len() && #[trigger] fighters[i].id == id;
            assert(Some(fighters[i].id) == slots[w]);
        }
    }
}

/// A launcher gives up a target that was launched at exactly where some fighter was not launched
/// at.
pub proof fn law_launcher_moves_on(slot: Option<u32>, history: Seq<(u32, u32)>, fighters: Seq<Contact>)
    ensures
        ({
            let launched_at = |id: u32|
                exists|i: int| 0 <= i < history.len() && (#[trigger] history[i]).0 == id;
            let left = released(slot, history, fighters);
            let fresh = exists|i: int|
                0 <= i < fighters.len() && !launched_at(#[trigger] fighters[i].id);
            &&& slot is Some && launched_at(slot->0) && fresh ==> left is None
            &&& !(slot is Some && launched_at(slot->0) && fresh) ==> left == slot
        }),
{
    let launched_at = |id: u32|
        exists|i: int| 0 <= i < history.len() && (#[trigger] history[i]).0 == id;
    if let Some(id) = slot {
        law_launches_are_counted(history, id);
    }
    assert forall|i: int| #![trigger fighters[i]] 0 <= i < fighters.len() implies (launched_at(
        fighters[i].id,
    ) <==> launches_at(history, fighters[i].id) > 0) by {
        law_launches_are_counted(history, fighters[i].id);
    }
    if exists|i: int| 0 <= i < fighters.len() && !launched_at(#[trigger] fighters[i].id) {
        let i = choose|i: int| 0 <= i < fighters.len() && !launched_at(#[trigger] fighters[i].id);
        assert(launches_at(history, fighters[i].id) == 0);
    }
    if fresh_target_exists(history, fighters) {
        let i = choose|i: int|
            0 <= i < fighters.len() && launches_at(history, #[trigger] fighters[i].id) == 0;
        assert(!launched_at(fighters[i].id));
    }
}

/// A launch is remembered for 240 ticks, and then forgotten.
pub proof fn law_launch_memory(history: Seq<(u32, u32)>, tick: u32, launch: (u32, u32))
    requires
        launched_before(history, tick),
    ensures
        kept(history, remembered(history, tick)).contains(launch) <==> history.contains(launch)
            && launch.1 + 240 >= tick,
{
    let flags = remembered(history, tick);
    crate::select::lemma_kept_contains(history, flags, launch);
    if history.contains(launch) && launch.1 + 240 >= tick {
        let i = history.index_of(launch);
        assert(history[i] == launch && flags[i]);
    }
}

/// A new launch at a target takes the place of all earlier ones at it, and leaves those at
/// others.
pub proof fn law_latest_launch_counts(history: Seq<(u32, u32)>, id: u32, tick: u32, launch: (u32, u32))
    ensures
        kept(history, at_others(history, id)).push((id, tick)).contains(launch) <==> launch == (
            id,
            tick,
        ) || (launch.0 != id && history.contains(launch)),
{
    let flags = at_others(history, id);
    let others = kept(history, flags);
    let all = others.push((id, tick));
    crate::select::lemma_kept_contains(history, flags, launch);
    if launch == (id, tick) {
        assert(all[others.len() as int] == launch);
    }
    if launch.0 != id && history.contains(launch) {
        let i = history.index_of(launch);
        assert(history[i] == launch && flags[i]);
        let k = others.index_of(launch);
        assert(all[k] == launch);
    }
    if all.contains(launch) && launch != (id, tick) {
        let k = all.index_of(launch);
        assert(others[k] == launch);
    }
}

/// The radar watches, every 6 ticks, the targets of the weapons that are not idle, and nothing
/// else.
pub proof fn law_watched_targets(slots: Seq<Option<u32>>, active: Seq<bool>, n: nat, entry: (u32, u32))
    ensures
        watched_targets(slots, active, n).contains(entry) <==> entry.1 == 6 && exists|w: int|
            0 <= w < n && #[trigger] slots[w] == Some(entry.0) && active[w],
    decreases n,
{
    if n > 0 {
        let m = (n - 1) as nat;
        law_watched_targets(slots, active, m, entry);
        let list = watched_targets(slots, active, n);
        let shorter = watched_targets(slots, active, m);
        if shorter.contains(entry) {
            let k = shorter.index_of(entry);
            assert(list[k] == entry);
        }
        if slots[n - 1] == Some(entry.0) && active[n - 1] && entry.1 == 6 {
            assert(list[shorter.len() as int] == entry);
        }
        if list.contains(entry) && !shorter.contains(entry) {
            let k = list.index_of(entry);
            if k < shorter.len() {
                assert(shorter[k] == entry);
            }
            assert(slots[n - 1] == Some(entry.0));
        }
    }
}

/// The fighters and the ships among the contacts are what their classes say: fighters alone, and
/// all but missiles.
pub proof fn law_kinds_of_contacts(contacts: Seq<Contact>, contact: Contact)
    ensures
        kept(contacts, of_class(contacts, Class::Fighter)).contains(contact) <==> contacts.contains(
            contact,
        ) && contact.class == Class::Fighter,
        kept(contacts, no_missiles(contacts)).contains(contact) <==> contacts.contains(contact)
            && contact.class != Class::Missile,
{
    let fighters = of_class(contacts, Class::Fighter);
    let ships = no_missiles(contacts);
    crate::select::lemma_kept_contains(contacts, fighters, contact);
    crate::select::lemma_kept_contains(contacts, ships, contact);
    if contacts.contains(contact) {
        let i = contacts.index_of(contact);
        assert(contacts[i] == contact);
    }
}

/// The ship turns to the target of its second weapon, or to that of the third where the second
/// has none; nothing else makes it turn. It turns to the first contact with that id.
pub proof fn law_turning_without_a_main_target(slots: Seq<Option<u32>>, fighters: Seq<Contact>)
    ensures
        ({
            let target = if slots[1] is Some {
                slots[1]
            } else {
                slots[2]
            };
            match fallback_place(slots, fighters) {
                Some(p) => {
                    &&& 0 <= p < fighters.len() && Some(fighters[p].id) == target
                    &&& forall|j: int|
                        #![trigger fighters[j]]
                        0 <= j < p ==> Some(fighters[j].id) != target
                },
                None => forall|j: int|
                    #![trigger fighters[j]]
                    0 <= j < fighters.len() ==> Some(fighters[j].id) != target,
            }
        }),
{
    if let Some(id) = slots[1] {
        crate::contact::law_place_of_id(fighters, id);
    } else if let Some(id) = slots[2] {
        crate::contact::law_place_of_id(fighters, id);
    }
}

/// A launcher fires only when it is ready and has a target; the second weapon goes before the
/// third, and one fires where either can.
pub proof fn law_launcher_that_fires(slots: Seq<Option<u32>>, reload_1: u32, reload_2: u32)
    ensures
        ({
            let slot = launching_slot(slots, reload_1, reload_2);
            let first = slots[1] is Some && reload_1 == 0;
            let second = slots[2] is Some && reload_2 == 0;
            &&& slot == Some(1usize) <==> first
            &&& slot == Some(2usize) <==> second && !first
            &&& slot is None <==> !first && !second
        }),
{
}

/// Nothing is listed as seen but what was listed before and what is in sight.
pub proof fn law_only_what_is_in_sight_is_seen(seen: Seq<u32>, fighters: Seq<Contact>, n: nat, id: u32)
    requires
        n <= fighters.len(),
    ensures
        seen_after(seen, fighters, n).contains(id) <==> seen.contains(id) || exists|i: int|
            0 <= i < n && #[trigger] fighters[i].id == id,
    decreases n,
{
    if n > 0 {
        let m = (n - 1) as nat;
        law_only_what_is_in_sight_is_seen(seen, fighters, m, id);
        let before = seen_after(seen, fighters, m);
        let after = seen_after(seen, fighters, n);
        if before.contains(id) {
            let k = before.index_of(id);
            assert(after[k] == id);
        }
        if fighters[n - 1].id == id && !before.contains(id) {
            assert(after[before.len() as int] == id);
        }
        if after.contains(id) && !before.contains(id) {
            let k = after.index_of(id);
            if k < before.len() {
                assert(before[k] == id);
            }
            assert(fighters[n - 1].id == id);
        }
    }
}

} // verus!
