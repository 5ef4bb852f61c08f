//! What the radars do next: which contacts are due for a tracking scan, in which order,
//! and how the radars are shared out.
use vstd::prelude::*;

use crate::beam::Aim;
use crate::class::Class;
use crate::contact::Contact;
use crate::select::{kept, law_kept_in_order, lemma_kept_take};
use crate::radar::{RadarController, RadarState, NORMAL_INTERVAL, PRIORITY_INTERVAL, SCANS_PER_SWEEP};

verus! {

impl RadarState {
    /// Whether the radar sends out noise.
    pub fn sends_noise(&self) -> (noise: bool)
        ensures
            noise == (self is Jamming),
    {
        match self {
            RadarState::Jamming { .. } => true,
            _ => false,
        }
    }
}

/// The ticks set for `id`: those of the first entry for it.
pub open spec fn set_interval(targets: Seq<(u32, u32)>, id: u32) -> Option<u32>
    decreases targets.len(),
{
    if targets.len() == 0 {
        None
    } else if targets[0].0 == id {
        Some(targets[0].1)
    } else {
        set_interval(targets.skip(1), id)
    }
}

/// The place of one contact in the order of tracking scans: its group, the tick at which
/// it is due, and its place in the contact list.
pub type Turn = (u8, u32, usize);

/// Whether one turn comes before another.
pub open spec fn before(a: Turn, b: Turn) -> bool {
    a.0 < b.0 || (a.0 == b.0 && (a.1 < b.1 || (a.1 == b.1 && a.2 < b.2)))
}

/// Which contacts are confirmed.
pub open spec fn confirmed_flags(contacts: Seq<Contact>) -> Seq<bool> {
    Seq::new(contacts.len(), |i: int| !contacts[i].provisional)
}

/// The confirmed contacts, in order.
pub open spec fn confirmed(contacts: Seq<Contact>) -> Seq<Contact> {
    kept(contacts, confirmed_flags(contacts))
}

/// How many of the duties are scans.
pub open spec fn scans_among(duties: Seq<RadarState>) -> int
    decreases duties.len(),
{
    if duties.len() == 0 {
        0
    } else {
        scans_among(duties.drop_last()) + (if duties.last() == RadarState::Scanning {
            1int
        } else {
            0
        })
    }
}

// What is kept of a prefix is a prefix of what is kept.
proof fn lemma_kept_prefix<T>(items: Seq<T>, keep: Seq<bool>, n: int)
    requires
        0 <= n <= items.len(),
    ensures
        kept(items.take(n), keep).len() <= kept(items, keep).len(),
        forall|j: int|
            #![trigger kept(items, keep)[j]]
            0 <= j < kept(items.take(n), keep).len() ==> kept(items, keep)[j] == kept(
                items.take(n),
                keep,
            )[j],
    decreases items.len() - n,
{
    if n < items.len() {
        lemma_kept_prefix(items, keep, n + 1);
        lemma_kept_take(items, keep, n + 1);
    } else {
        assert(items.take(n) =~= items);
    }
}

/// Which contacts a tracking scan can reach, given what a scan of each would aim at.
pub fn trackable_of(aims: &Vec<Aim>) -> (flags: Vec<bool>)
    ensures
        flags@ == Seq::new(aims@.len(), |i: int| aims@[i].in_range()),
{
    let mut flags: Vec<bool> = Vec::new();
    let mut i: usize = 0;
    while i < aims.len()
        invariant
            0 <= i <= aims.len(),
            flags@ == Seq::new(i as nat, |j: int| aims@[j].in_range()),
        decreases aims.len() - i,
    {
        flags.push(aims[i].reaches());
        assert(flags@ =~= Seq::new((i + 1) as nat, |j: int| aims@[j].in_range()));
        i = i + 1;
    }
    flags
}

impl RadarController {
    /// Whether only missiles just found and contacts with an interval of their own are
    /// tracked.
    pub open spec fn tracks_few(self) -> bool {
        self.jamming_mode && self.priority_targets@.len() > 0
    }

    /// The ticks between two tracking scans of a contact.
    pub open spec fn interval_of(self, contact: Contact) -> u32 {
        if contact.is_new_missile() {
            1
        } else {
            match set_interval(self.priority_targets@, contact.id) {
                Some(ticks) => if ticks == 0 {
                    1
                } else {
                    ticks
                },
                None => if contact.provisional || contact.prioritize_scan {
                    PRIORITY_INTERVAL
                } else {
                    NORMAL_INTERVAL
                },
            }
        }
    }

    /// The group of a contact: missiles just found before those with priority before the
    /// rest. None where the contact is not tracked.
    pub open spec fn group_of(self, contact: Contact) -> Option<u8> {
        let has_interval = set_interval(self.priority_targets@, contact.id) is Some;
        if contact.is_new_missile() {
            Some(0)
        } else if has_interval {
            Some(1)
        } else if self.tracks_few() {
            None
        } else if contact.provisional || contact.prioritize_scan {
            Some(1)
        } else {
            Some(2)
        }
    }

    /// The wait of a contact since its last measurement: its interval, once more for each
    /// retry.
    pub open spec fn wait_of(self, contact: Contact) -> int {
        self.interval_of(contact) * (1 + contact.tracking_retry_count)
    }

    /// The tick at which a contact is due. A provisional one is due at once.
    pub open spec fn due_tick(self, contact: Contact, tick: u32) -> u32 {
        if contact.provisional {
            tick
        } else {
            ((contact.last_measurement_tick + self.wait_of(contact)) % 0x1_0000_0000) as u32
        }
    }

    /// Whether no wait is too long to be counted.
    pub open spec fn waits_ok(self) -> bool {
        forall|i: int|
            #![trigger self.contacts@[i]]
            0 <= i < self.contacts@.len() && self.group_of(self.contacts@[i]) is Some
                && !self.contacts@[i].provisional ==> self.wait_of(self.contacts@[i]) <= u32::MAX
    }

    /// The turn of the contact at place `i`.
    pub open spec fn turn_of(self, i: int, tick: u32) -> Turn {
        (
            self.group_of(self.contacts@[i])->0,
            self.due_tick(self.contacts@[i], tick),
            i as usize,
        )
    }

    /// Whether the contact at place `i` is to be scanned at `tick`.
    pub open spec fn is_due(self, i: int, tick: u32, trackable: Seq<bool>) -> bool {
        &&& 0 <= i < self.contacts@.len()
        &&& self.group_of(self.contacts@[i]) is Some
        &&& self.due_tick(self.contacts@[i], tick) <= tick
        &&& trackable[i]
    }

    /// Whether `order` lists the places of all contacts that are due, by their turns.
    pub open spec fn is_tracking_order(self, order: Seq<usize>, tick: u32, trackable: Seq<bool>) -> bool {
        &&& forall|a: int|
            #![trigger order[a]]
            0 <= a < order.len() ==> self.is_due(order[a] as int, tick, trackable)
        &&& forall|i: int| self.is_due(i, tick, trackable) ==> order.contains(i as usize)
        &&& forall|a: int, b: int|
            #![trigger order[a], order[b]]
            0 <= a < b < order.len() ==> before(
                self.turn_of(order[a] as int, tick),
                self.turn_of(order[b] as int, tick),
            )
    }

    /// The places of the contacts that are due, by their turns.
    pub open spec fn tracking_order(self, tick: u32, trackable: Seq<bool>) -> Seq<usize> {
        choose|order: Seq<usize>| self.is_tracking_order(order, tick, trackable)
    }

    /// There is only one order of the contacts that are due.
    pub proof fn lemma_tracking_order_unique(self, order: Seq<usize>, tick: u32, trackable: Seq<bool>)
        requires
            self.is_tracking_order(order, tick, trackable),
            trackable.len() == self.contacts@.len(),
        ensures
            self.tracking_order(tick, trackable) == order,
    {
        let other = self.tracking_order(tick, trackable);
        assert(self.is_tracking_order(other, tick, trackable));
        self.lemma_orders_agree(order, other, tick, trackable, order.len());
        self.lemma_orders_agree(other, order, tick, trackable, other.len());
        assert(order =~= other);
    }

    proof fn lemma_orders_agree(
        self,
        one: Seq<usize>,
        two: Seq<usize>,
        tick: u32,
        trackable: Seq<bool>,
        n: nat,
    )
        requires
            self.is_tracking_order(one, tick, trackable),
            self.is_tracking_order(two, tick, trackable),
            n <= one.len(),
        ensures
            n <= two.len(),
            forall|a: int| #![trigger one[a]] 0 <= a < n ==> one[a] == two[a],
        decreases n,
    {
        if n > 0 {
            let k = n - 1;
            self.lemma_orders_agree(one, two, tick, trackable, k as nat);
            assert(self.is_due(one[k] as int, tick, trackable));
            assert(two.contains(one[k]));
            let p = two.index_of(one[k]);
            assert(two[p] == one[k]);
            if p < k {
                assert(one[p] == two[p]);
                assert(before(self.turn_of(one[p] as int, tick), self.turn_of(one[k] as int, tick)));
            }
            assert(self.is_due(two[k] as int, tick, trackable));
            assert(one.contains(two[k]));
            let q = one.index_of(two[k]);
            assert(one[q] == two[k]);
            if q < k {
                assert(one[q] == two[q]);
                assert(before(self.turn_of(two[q] as int, tick), self.turn_of(two[k] as int, tick)));
            }
            if p > k {
                assert(before(self.turn_of(two[k] as int, tick), self.turn_of(two[p] as int, tick)));
                if q > k {
                    assert(before(
                        self.turn_of(one[k] as int, tick),
                        self.turn_of(one[q] as int, tick),
                    ));
                }
            }
        }
    }

    /// The duties of `radars` radars: the contacts that are due are tracked, in order;
    /// in jamming mode the radars left over jam the contacts in reach, in the order of the
    /// contact list; the rest scan.
    pub open spec fn duties(self, radars: nat, tick: u32, trackable: Seq<bool>) -> Seq<RadarState> {
        let due = self.tracking_order(tick, trackable);
        let reachable = kept(self.contacts@, trackable);
        Seq::new(
            radars,
            |r: int|
                if r < due.len() {
                    RadarState::Tracking { contact_id: self.contacts@[due[r] as int].id }
                } else if self.jamming_mode && r - due.len() < reachable.len() {
                    RadarState::Jamming { contact_id: reachable[r - due.len()].id }
                } else {
                    RadarState::Scanning
                },
        )
    }

    /// The ticks set for `id`, if any.
    pub fn priority_interval(&self, id: u32) -> (ticks: Option<u32>)
        ensures
            ticks == set_interval(self.priority_targets@, id),
    {
        let mut i: usize = 0;
        assert(self.priority_targets@.skip(0) =~= self.priority_targets@);
        while i < self.priority_targets.len()
            invariant
                0 <= i <= self.priority_targets.len(),
                set_interval(self.priority_targets@, id) == set_interval(
                    self.priority_targets@.skip(i as int),
                    id,
                ),
            decreases self.priority_targets.len() - i,
        {
            let entry = self.priority_targets[i];
            proof {
                let rest = self.priority_targets@.skip(i as int);
                assert(rest[0] == entry);
                assert(rest.skip(1) =~= self.priority_targets@.skip(i as int + 1));
            }
            if entry.0 == id {
                return Some(entry.1);
            }
            i = i + 1;
        }
        None
    }

    /// Whether `id` has an interval of its own.
    pub fn is_priority_target(&self, id: u32) -> (is: bool)
        ensures
            is == (set_interval(self.priority_targets@, id) is Some),
    {
        self.priority_interval(id).is_some()
    }

    /// The ticks between two tracking scans of a contact.
    pub fn tracking_interval(&self, contact: &Contact) -> (ticks: u32)
        ensures
            ticks == self.interval_of(*contact),
    {
        if contact.new_missile() {
            return 1;
        }
        match self.priority_interval(contact.id) {
            Some(ticks) => if ticks == 0 {
                1
            } else {
                ticks
            },
            None => if contact.provisional || contact.prioritize_scan {
                PRIORITY_INTERVAL
            } else {
                NORMAL_INTERVAL
            },
        }
    }

    /// The group of a contact, where it is to be tracked.
    pub fn priority_group(&self, contact: &Contact) -> (group: Option<u8>)
        ensures
            group == self.group_of(*contact),
    {
        if contact.new_missile() {
            Some(0)
        } else if self.is_priority_target(contact.id) {
            Some(1)
        } else if self.jamming_mode && self.priority_targets.len() > 0 {
            None
        } else if contact.provisional || contact.prioritize_scan {
            Some(1)
        } else {
            Some(2)
        }
    }

    /// Whether no wait is too long to be counted.
    pub fn waits_in_range(&self) -> (ok: bool)
        ensures
            ok == self.waits_ok(),
    {
        let mut i: usize = 0;
        while i < self.contacts.len()
            invariant
                0 <= i <= self.contacts.len(),
                forall|j: int|
                    #![trigger self.contacts@[j]]
                    0 <= j < i && self.group_of(self.contacts@[j]) is Some
                        && !self.contacts@[j].provisional ==> self.wait_of(self.contacts@[j])
                        <= u32::MAX,
            decreases self.contacts.len() - i,
        {
            let contact = self.contacts[i];
            if self.priority_group(&contact).is_some() && !contact.provisional {
                let interval: u32 = self.tracking_interval(&contact);
                let turns: u64 = contact.tracking_retry_count as u64 + 1;
                proof {
                    assert(interval * turns <= 0xffff_ffff * 0x1_0000_0000) by (nonlinear_arith)
                        requires
                            interval <= 0xffff_ffff,
                            turns <= 0x1_0000_0000,
                    ;
                }
                if interval as u64 * turns > u32::MAX as u64 {
                    assert(self.wait_of(self.contacts@[i as int]) > u32::MAX);
                    return false;
                }
            }
            i = i + 1;
        }
        true
    }

    /// The places of the contacts that are due for a tracking scan at `tick`, in the
    /// order of their turns. `trackable` tells, for each contact, whether a tracking scan
    /// can reach it (`trackable_of`).
    #[verifier::spinoff_prover]
    #[verifier::rlimit(60)]
    pub fn tracking_jobs(&self, tick: u32, trackable: &Vec<bool>) -> (order: Vec<usize>)
        requires
            self.waits_ok(),
            trackable.len() == self.contacts.len(),
        ensures
            self.is_tracking_order(order@, tick, trackable@),
            order@ == self.tracking_order(tick, trackable@),
    {
        let mut turns: Vec<Turn> = Vec::new();
        let mut i: usize = 0;
        while i < self.contacts.len()
            invariant
                0 <= i <= self.contacts.len(),
                trackable.len() == self.contacts.len(),
                self.waits_ok(),
                forall|a: int|
                    #![trigger turns@[a]]
                    0 <= a < turns@.len() ==> turns@[a].2 < i && self.is_due(
                        turns@[a].2 as int,
                        tick,
                        trackable@,
                    ) && turns@[a] == self.turn_of(turns@[a].2 as int, tick),
                forall|j: int|
                    #![trigger self.is_due(j, tick, trackable@)]
                    0 <= j < i && self.is_due(j, tick, trackable@) ==> exists|a: int|
                        0 <= a < turns@.len() && (#[trigger] turns@[a]).2 == j,
                forall|a: int, b: int|
                    #![trigger turns@[a], turns@[b]]
                    0 <= a < b < turns@.len() ==> before(turns@[a], turns@[b]),
            decreases self.contacts.len() - i,
        {
            let contact = self.contacts[i];
            let ghost old_turns = turns@;
            if let Some(group) = self.priority_group(&contact) {
                let due: u32 = if contact.provisional {
                    tick
                } else {
                    let interval: u32 = self.tracking_interval(&contact);
                    assert(self.wait_of(self.contacts@[i as int]) <= u32::MAX);
                    assert(1 + contact.tracking_retry_count <= u32::MAX) by {
                        assert(interval >= 1);
                        assert(interval * (1 + contact.tracking_retry_count) >= 1
                            + contact.tracking_retry_count) by (nonlinear_arith)
                            requires
                                interval >= 1,
                        ;
                    }
                    contact.last_measurement_tick.wrapping_add(
                        interval * (1 + contact.tracking_retry_count),
                    )
                };
                if due <= tick && trackable[i] {
                    let turn: Turn = (group, due, i);
                    let mut p: usize = 0;
                    while p < turns.len() && (turns[p].0 < group || (turns[p].0 == group
                        && turns[p].1 <= due))
                        invariant
                            0 <= p <= turns.len(),
                            turns@ == old_turns,
                            turn == (group, due, i),
                            forall|a: int|
                                #![trigger turns@[a]]
                                0 <= a < turns@.len() ==> turns@[a].2 < i,
                            forall|a: int|
                                #![trigger turns@[a]]
                                0 <= a < p ==> before(turns@[a], turn),
                        decreases turns.len() - p,
                    {
                        p = p + 1;
                    }
                    turns.insert(p, turn);
                    proof {
                        assert forall|a: int, b: int|
                            #![trigger turns@[a], turns@[b]]
                            0 <= a < b < turns@.len() implies before(turns@[a], turns@[b]) by {
                            if a > p {
                                assert(turns@[a] == old_turns[a - 1]);
                                assert(turns@[b] == old_turns[b - 1]);
                            } else if a < p {
                                assert(turns@[a] == old_turns[a]);
                                if b > p {
                                    assert(turns@[b] == old_turns[b - 1]);
                                } else if b < p {
                                    assert(turns@[b] == old_turns[b]);
                                }
                            } else {
                                assert(turns@[b] == old_turns[b - 1]);
                                if b - 1 > p {
                                    assert(before(old_turns[p as int], old_turns[b - 1]));
                                }
                            }
                        }
                        assert forall|j: int|
                            #![trigger self.is_due(j, tick, trackable@)]
                            0 <= j < i + 1 && self.is_due(j, tick, trackable@) implies exists|a: int|
                            0 <= a < turns@.len() && (#[trigger] turns@[a]).2 == j by {
                            if j == i {
                                assert(turns@[p as int].2 == j);
                            } else {
                                let a = choose|a: int|
                                    0 <= a < old_turns.len() && (#[trigger] old_turns[a]).2 == j;
                                if a < p {
                                    assert(turns@[a].2 == j);
                                } else {
                                    assert(turns@[a + 1].2 == j);
                                }
                            }
                        }
                        assert forall|a: int| #![trigger turns@[a]] 0 <= a < turns@.len() implies turns@[a].2
                            < i + 1 && self.is_due(turns@[a].2 as int, tick, trackable@)
                            && turns@[a] == self.turn_of(turns@[a].2 as int, tick) by {
                            if a < p {
                                assert(turns@[a] == old_turns[a]);
                            } else if a > p {
                                assert(turns@[a] == old_turns[a - 1]);
                            }
                        }
                    }
                }
            }
            i = i + 1;
        }
        let mut order: Vec<usize> = Vec::new();
        let mut k: usize = 0;
        while k < turns.len()
            invariant
                0 <= k <= turns.len(),
                order.len() == k,
                forall|a: int| #![trigger order@[a]] 0 <= a < k ==> order@[a] == turns@[a].2,
            decreases turns.len() - k,
        {
            order.push(turns[k].2);
            k = k + 1;
        }
        proof {
            assert forall|j: int| self.is_due(j, tick, trackable@) implies order@.contains(
                j as usize,
            ) by {
                let a = choose|a: int| 0 <= a < turns@.len() && (#[trigger] turns@[a]).2 == j;
                assert(order@[a] == j as usize);
            }
            self.lemma_tracking_order_unique(order@, tick, trackable@);
        }
        order
    }

    /// Whether some contact is not a missile.
    pub fn has_non_missile(&self) -> (has: bool)
        ensures
            has == exists|i: int|
                0 <= i < self.contacts@.len() && #[trigger] self.contacts@[i].class
                    != Class::Missile,
    {
        let mut i: usize = 0;
        while i < self.contacts.len()
            invariant
                0 <= i <= self.contacts.len(),
                forall|j: int|
                    #![trigger self.contacts@[j]]
                    0 <= j < i ==> self.contacts@[j].class == Class::Missile,
            decreases self.contacts.len() - i,
        {
            if self.contacts[i].class != Class::Missile {
                assert(self.contacts@[i as int].class != Class::Missile);
                return true;
            }
            i = i + 1;
        }
        false
    }

    /// How many radars a ship of class `class` drives.
    pub fn num_radars(class: Class) -> (radars: usize)
        ensures
            radars == class.radars(),
    {
        if class == Class::Cruiser {
            2
        } else {
            1
        }
    }

    /// Shares out the radars of a ship of class `class` for the next tick, counts the
    /// scans that this makes, and notes which contacts are confirmed. `trackable` tells, for
    /// each contact, whether a tracking scan can reach it (`trackable_of`). Gives the duty of
    /// each radar.
    pub fn generate_new_scans(&mut self, class: Class, tick: u32, trackable: &Vec<bool>) -> (duties: Vec<
        RadarState,
    >)
        requires
            old(self).room_for_sweeps(),
            old(self).waits_ok(),
            old(self).radar_states.len() == 2,
            old(self).scan_ticks < SCANS_PER_SWEEP,
            trackable.len() == old(self).contacts.len(),
        ensures
            duties@ == old(self).duties(class.radars(), tick, trackable@),
            old(self).wf() ==> final(self).wf(),
            final(self).contacts@ == old(self).contacts@,
            final(self).next_contact_id == old(self).next_contact_id,
            final(self).current_target_id == old(self).current_target_id,
            final(self).priority_targets == old(self).priority_targets,
            final(self).jamming_mode == old(self).jamming_mode,
            final(self).new_missile_scan_ticks == old(self).new_missile_scan_ticks,
            final(self).radar_states@ == duties@ + old(self).radar_states@.skip(
                class.radars() as int,
            ),
            final(self).non_provisional_contacts@ == confirmed(old(self).contacts@),
            final(self).scan_ticks == (old(self).scan_ticks + scans_among(duties@))
                % SCANS_PER_SWEEP as int,
            final(self).full_scans == old(self).full_scans + (old(self).scan_ticks + scans_among(
                duties@,
            )) / SCANS_PER_SWEEP as int,
            final(self).scan_ticks < 11,
            11 * final(self).full_scans + final(self).scan_ticks == 11 * old(self).full_scans + old(
                self,
            ).scan_ticks + scans_among(duties@),
    {
        let radars: usize = Self::num_radars(class);
        let due = self.tracking_jobs(tick, trackable);
        let ghost reachable = kept(self.contacts@, trackable@);
        let ghost plan = self.duties(class.radars(), tick, trackable@);
        let mut duties: Vec<RadarState> = Vec::new();
        let mut k: usize = 0;
        while k < due.len() && duties.len() < radars
            invariant
                0 <= k <= due.len(),
                duties.len() == k,
                k <= radars,
                radars == class.radars(),
                self.is_tracking_order(due@, tick, trackable@),
                due@ == self.tracking_order(tick, trackable@),
                plan == self.duties(class.radars(), tick, trackable@),
                duties@ == plan.take(k as int),
            decreases due.len() - k,
        {
            assert(self.is_due(due@[k as int] as int, tick, trackable@));
            duties.push(RadarState::Tracking { contact_id: self.contacts[due[k]].id });
            assert(plan.take(k as int + 1) =~= plan.take(k as int).push(plan[k as int]));
            k = k + 1;
        }
        if self.jamming_mode {
            let mut i: usize = 0;
            let ghost mut n: int = 0;
            proof {
                assert(self.contacts@.take(0) =~= Seq::empty());
            }
            while i < self.contacts.len() && duties.len() < radars
                invariant
                    0 <= i <= self.contacts.len(),
                    trackable.len() == self.contacts.len(),
                    self.jamming_mode,
                    radars == class.radars(),
                    duties.len() <= radars,
                    due@ == self.tracking_order(tick, trackable@),
                    reachable == kept(self.contacts@, trackable@),
                    plan == self.duties(class.radars(), tick, trackable@),
                    duties@ == plan.take(duties@.len() as int),
                    n == kept(self.contacts@.take(i as int), trackable@).len(),
                    duties.len() < radars || n > 0 ==> duties@.len() == due@.len() + n,
                decreases self.contacts.len() - i,
            {
                proof {
                    lemma_kept_take(self.contacts@, trackable@, i as int + 1);
                    lemma_kept_prefix(self.contacts@, trackable@, i as int + 1);
                }
                if trackable[i] {
                    let ghost at = duties@.len() as int;
                    duties.push(RadarState::Jamming { contact_id: self.contacts[i].id });
                    proof {
                        assert(plan.take(at + 1) =~= plan.take(at).push(plan[at]));
                        n = n + 1;
                    }
                }
                i = i + 1;
            }
            proof {
                if duties@.len() < radars {
                    assert(self.contacts@.take(i as int) =~= self.contacts@);
                }
            }
        }
        while duties.len() < radars
            invariant
                duties.len() <= radars,
                radars == class.radars(),
                due@ == self.tracking_order(tick, trackable@),
                reachable == kept(self.contacts@, trackable@),
                plan == self.duties(class.radars(), tick, trackable@),
                duties@ == plan.take(duties@.len() as int),
                duties.len() < radars ==> duties@.len() >= due@.len() + (if self.jamming_mode {
                    reachable.len() as int
                } else {
                    0
                }),
            decreases radars - duties.len(),
        {
            let ghost at = duties@.len() as int;
            duties.push(RadarState::Scanning);
            assert(plan.take(at + 1) =~= plan.take(at).push(plan[at]));
        }
        assert(duties@ =~= plan);
        let mut r: usize = 0;
        let ghost states = self.radar_states@;
        while r < radars
            invariant
                0 <= r <= radars <= 2,
                radars == class.radars(),
                duties.len() == radars,
                duties@ == plan,
                plan == old(self).duties(class.radars(), tick, trackable@),
                self.contacts@ == old(self).contacts@,
                self.next_contact_id == old(self).next_contact_id,
                self.current_target_id == old(self).current_target_id,
                self.priority_targets == old(self).priority_targets,
                self.jamming_mode == old(self).jamming_mode,
                self.new_missile_scan_ticks == old(self).new_missile_scan_ticks,
                states == old(self).radar_states@,
                states.len() == 2,
                self.radar_states@ == duties@.take(r as int) + states.skip(r as int),
                old(self).scan_ticks < SCANS_PER_SWEEP,
                old(self).full_scans < u32::MAX,
                0 <= scans_among(duties@.take(r as int)) <= r,
                self.scan_ticks < SCANS_PER_SWEEP,
                self.scan_ticks + SCANS_PER_SWEEP * (self.full_scans - old(self).full_scans)
                    == old(self).scan_ticks + scans_among(duties@.take(r as int)),
                old(self).full_scans <= self.full_scans <= old(self).full_scans + r,
            decreases radars - r,
        {
            let duty = duties[r];
            self.radar_states.set(r, duty);
            proof {
                let next = duties@.take(r as int + 1);
                assert(next.drop_last() =~= duties@.take(r as int));
                assert(next.last() == duty);
                assert(self.radar_states@ =~= next + states.skip(r as int + 1));
            }
            if let RadarState::Scanning = duty {
                self.scan_ticks = self.scan_ticks + 1;
                if self.scan_ticks >= SCANS_PER_SWEEP {
                    self.scan_ticks = self.scan_ticks - SCANS_PER_SWEEP;
                    self.full_scans = self.full_scans + 1;
                }
            }
            r = r + 1;
        }
        proof {
            assert(duties@.take(radars as int) =~= duties@);
        }
        self.note_confirmed();
        duties
    }

    // Notes which contacts are confirmed.
    fn note_confirmed(&mut self)
        ensures
            final(self).contacts@ == old(self).contacts@,
            final(self).non_provisional_contacts@ == confirmed(old(self).contacts@),
            final(self).next_contact_id == old(self).next_contact_id,
            final(self).radar_states == old(self).radar_states,
            final(self).current_target_id == old(self).current_target_id,
            final(self).full_scans == old(self).full_scans,
            final(self).priority_targets == old(self).priority_targets,
            final(self).scan_ticks == old(self).scan_ticks,
            final(self).jamming_mode == old(self).jamming_mode,
            final(self).new_missile_scan_ticks == old(self).new_missile_scan_ticks,
    {
        let ghost flags = confirmed_flags(self.contacts@);
        let mut out: Vec<Contact> = Vec::new();
        let mut i: usize = 0;
        while i < self.contacts.len()
            invariant
                0 <= i <= self.contacts.len(),
                flags == confirmed_flags(self.contacts@),
                out@ == kept(self.contacts@.take(i as int), flags),
            decreases self.contacts.len() - i,
        {
            proof {
                lemma_kept_take(self.contacts@, flags, i as int + 1);
            }
            if !self.contacts[i].provisional {
                out.push(self.contacts[i]);
            }
            i = i + 1;
        }
        assert(self.contacts@.take(i as int) =~= self.contacts@);
        self.non_provisional_contacts = out;
    }
}

/// Missiles just found are tracked before anything else.
pub proof fn law_new_missiles_first(
    controller: RadarController,
    order: Seq<usize>,
    tick: u32,
    trackable: Seq<bool>,
    a: int,
    b: int,
)
    requires
        controller.is_tracking_order(order, tick, trackable),
        0 <= a < b < order.len(),
        controller.contacts@[order[b] as int].is_new_missile(),
    ensures
        controller.contacts@[order[a] as int].is_new_missile(),
{
    assert(controller.is_due(order[a] as int, tick, trackable));
    assert(before(
        controller.turn_of(order[a] as int, tick),
        controller.turn_of(order[b] as int, tick),
    ));
}

/// Within a group, contacts are tracked by the tick at which they are due.
pub proof fn law_due_order_within_group(
    controller: RadarController,
    order: Seq<usize>,
    tick: u32,
    trackable: Seq<bool>,
    a: int,
    b: int,
)
    requires
        controller.is_tracking_order(order, tick, trackable),
        0 <= a < b < order.len(),
        controller.group_of(controller.contacts@[order[a] as int]) == controller.group_of(
            controller.contacts@[order[b] as int],
        ),
    ensures
        controller.due_tick(controller.contacts@[order[a] as int], tick) <= controller.due_tick(
            controller.contacts@[order[b] as int],
            tick,
        ),
{
    assert(before(
        controller.turn_of(order[a] as int, tick),
        controller.turn_of(order[b] as int, tick),
    ));
}

/// A provisional contact in reach is due at every tick, unless only chosen contacts are
/// tracked.
pub proof fn law_provisional_contact_is_due(controller: RadarController, i: int, tick: u32, trackable: Seq<bool>)
    requires
        0 <= i < controller.contacts@.len(),
        controller.contacts@[i].provisional,
        trackable[i],
        !controller.tracks_few(),
    ensures
        controller.is_due(i, tick, trackable),
{
}

/// In jamming mode with chosen contacts, nothing is tracked but those and missiles just
/// found.
pub proof fn law_jamming_tracks_few(
    controller: RadarController,
    i: int,
    tick: u32,
    trackable: Seq<bool>,
)
    requires
        controller.tracks_few(),
        controller.is_due(i, tick, trackable),
    ensures
        controller.contacts@[i].is_new_missile() || set_interval(
            controller.priority_targets@,
            controller.contacts@[i].id,
        ) is Some,
{
}

/// Each radar gets one duty, and none jams outside jamming mode.
pub proof fn law_every_radar_has_a_duty(controller: RadarController, radars: nat, tick: u32, trackable: Seq<bool>, r: int)
    requires
        0 <= r < radars,
    ensures
        controller.duties(radars, tick, trackable).len() == radars,
        controller.duties(radars, tick, trackable)[r] is Jamming ==> controller.jamming_mode,
{
}

/// A radar scans or jams only when every contact that is due is tracked by some radar.
pub proof fn law_tracking_goes_first(
    controller: RadarController,
    order: Seq<usize>,
    radars: nat,
    tick: u32,
    trackable: Seq<bool>,
    r: int,
    i: int,
)
    requires
        controller.is_tracking_order(order, tick, trackable),
        trackable.len() == controller.contacts@.len(),
        0 <= r < radars,
        !(controller.duties(radars, tick, trackable)[r] is Tracking),
        controller.is_due(i, tick, trackable),
    ensures
        controller.duties(radars, tick, trackable).contains(
            RadarState::Tracking { contact_id: controller.contacts@[i].id },
        ),
{
    controller.lemma_tracking_order_unique(order, tick, trackable);
    assert(controller.contacts.len() == controller.contacts@.len());
    assert(order.contains(i as usize));
    let a = order.index_of(i as usize);
    let duties = controller.duties(radars, tick, trackable);
    assert(a < r);
    assert(duties[a] == (RadarState::Tracking { contact_id: controller.contacts@[i].id }));
}

/// The ticks set for an id are those of the first entry for it, and none where it has no entry.
pub proof fn law_first_entry_sets_interval(targets: Seq<(u32, u32)>, id: u32)
    ensures
        match set_interval(targets, id) {
            Some(ticks) => exists|e: int|
                {
                    &&& 0 <= e < targets.len()
                    &&& #[trigger] targets[e] == (id, ticks)
                    &&& forall|f: int| #![trigger targets[f]] 0 <= f < e ==> targets[f].0 != id
                },
            None => forall|f: int|
                #![trigger targets[f]]
                0 <= f < targets.len() ==> targets[f].0 != id,
        },
    decreases targets.len(),
{
    if targets.len() > 0 {
        if targets[0].0 == id {
            assert(targets[0] == (id, set_interval(targets, id)->0));
        } else {
            let rest = targets.skip(1);
            law_first_entry_sets_interval(rest, id);
            match set_interval(rest, id) {
                Some(ticks) => {
                    let e = choose|e: int|
                        {
                            &&& 0 <= e < rest.len()
                            &&& #[trigger] rest[e] == (id, ticks)
                            &&& forall|f: int| #![trigger rest[f]] 0 <= f < e ==> rest[f].0 != id
                        };
                    assert(targets[e + 1] == (id, ticks));
                    assert forall|f: int| #![trigger targets[f]] 0 <= f < e + 1 implies targets[f].0
                        != id by {
                        if f > 0 {
                            assert(rest[f - 1].0 != id);
                        }
                    }
                },
                None => {
                    assert forall|f: int| #![trigger targets[f]] 0 <= f < targets.len() implies targets[f].0
                        != id by {
                        if f > 0 {
                            assert(rest[f - 1].0 != id);
                        }
                    }
                },
            }
        }
    }
}

/// A contact that has an interval of its own, is provisional or has scanning priority never
/// waits behind one that is none of these nor a missile just found; and nothing goes before a
/// missile just found but another one.
pub proof fn law_priority_goes_before_the_rest(
    controller: RadarController,
    order: Seq<usize>,
    tick: u32,
    trackable: Seq<bool>,
    a: int,
    b: int,
)
    requires
        controller.is_tracking_order(order, tick, trackable),
        0 <= a < b < order.len(),
    ensures
        ({
            let contacts = controller.contacts@;
            let targets = controller.priority_targets@;
            let new = |i: int|
                contacts[i].class == Class::Missile && contacts[i].missile_scan_ticks_remaining > 0;
            let preferred = |i: int|
                {
                    ||| contacts[i].provisional
                    ||| contacts[i].prioritize_scan
                    ||| exists|e: int|
                        0 <= e < targets.len() && (#[trigger] targets[e]).0 == contacts[i].id
                };
            &&& new(order[b] as int) ==> new(order[a] as int)
            &&& preferred(order[b] as int) ==> preferred(order[a] as int) || new(order[a] as int)
        }),
{
    let contacts = controller.contacts@;
    assert(controller.is_due(order[a] as int, tick, trackable));
    assert(controller.is_due(order[b] as int, tick, trackable));
    assert(before(
        controller.turn_of(order[a] as int, tick),
        controller.turn_of(order[b] as int, tick),
    ));
    law_first_entry_sets_interval(controller.priority_targets@, contacts[order[a] as int].id);
    law_first_entry_sets_interval(controller.priority_targets@, contacts[order[b] as int].id);
}

/// Among contacts of the same standing (missiles just found, contacts that are preferred, and
/// the rest) the one that was due earlier goes first, and the one that stands earlier in the
/// contact list among those due at the same tick.
pub proof fn law_longest_due_goes_first(
    controller: RadarController,
    order: Seq<usize>,
    tick: u32,
    trackable: Seq<bool>,
    a: int,
    b: int,
)
    requires
        controller.is_tracking_order(order, tick, trackable),
        0 <= a < b < order.len(),
        ({
            let contacts = controller.contacts@;
            let targets = controller.priority_targets@;
            let new = |i: int|
                contacts[i].class == Class::Missile && contacts[i].missile_scan_ticks_remaining > 0;
            let preferred = |i: int|
                {
                    ||| contacts[i].provisional
                    ||| contacts[i].prioritize_scan
                    ||| exists|e: int|
                        0 <= e < targets.len() && (#[trigger] targets[e]).0 == contacts[i].id
                };
            &&& new(order[a] as int) == new(order[b] as int)
            &&& new(order[a] as int) || preferred(order[a] as int) == preferred(order[b] as int)
        }),
    ensures
        ({
            let due = |i: int| controller.due_tick(controller.contacts@[i], tick);
            &&& due(order[a] as int) <= due(order[b] as int)
            &&& due(order[a] as int) == due(order[b] as int) ==> order[a] < order[b]
        }),
{
    let contacts = controller.contacts@;
    assert(controller.is_due(order[a] as int, tick, trackable));
    assert(controller.is_due(order[b] as int, tick, trackable));
    assert(before(
        controller.turn_of(order[a] as int, tick),
        controller.turn_of(order[b] as int, tick),
    ));
    law_first_entry_sets_interval(controller.priority_targets@, contacts[order[a] as int].id);
    law_first_entry_sets_interval(controller.priority_targets@, contacts[order[b] as int].id);
}

/// A missile just found is scanned at every tick; a contact with an interval of its own at that
/// interval, but not twice in a tick; a provisional or prioritised one every 6 ticks; any other
/// every 20.
pub proof fn law_intervals(controller: RadarController, contact: Contact)
    ensures
        ({
            let targets = controller.priority_targets@;
            let interval = controller.interval_of(contact);
            let new = contact.class == Class::Missile && contact.missile_scan_ticks_remaining > 0;
            let listed = exists|e: int|
                0 <= e < targets.len() && (#[trigger] targets[e]).0 == contact.id;
            &&& interval >= 1
            &&& new ==> interval == 1
            &&& !new && listed ==> exists|e: int|
                {
                    &&& 0 <= e < targets.len()
                    &&& (#[trigger] targets[e]).0 == contact.id
                    &&& targets[e].1 > 0 ==> interval == targets[e].1
                    &&& targets[e].1 == 0 ==> interval == 1
                    &&& forall|f: int|
                        #![trigger targets[f]]
                        0 <= f < e ==> targets[f].0 != contact.id
                }
            &&& !new && !listed && (contact.provisional || contact.prioritize_scan) ==> interval == 6
            &&& !new && !listed && !contact.provisional && !contact.prioritize_scan ==> interval
                == 20
        }),
{
    law_first_entry_sets_interval(controller.priority_targets@, contact.id);
}

/// A provisional contact is due at once. Any other is due one interval after its last
/// measurement, and one interval later for each tracking scan that failed since.
pub proof fn law_due_tick(controller: RadarController, contact: Contact, tick: u32)
    ensures
        contact.provisional ==> controller.due_tick(contact, tick) == tick,
        ({
            let wait = controller.interval_of(contact) * (contact.tracking_retry_count + 1);
            !contact.provisional && contact.last_measurement_tick + wait <= u32::MAX
                ==> controller.due_tick(contact, tick) == contact.last_measurement_tick + wait
        }),
{
    let interval = controller.interval_of(contact);
    let retries = contact.tracking_retry_count;
    assert(interval * (1 + retries) >= 0) by (nonlinear_arith);
    assert(interval * (1 + retries) == interval * (retries + 1)) by (nonlinear_arith);
}

/// A tracking order lists each contact that is in reach and due, once and no other; in jamming
/// mode with chosen contacts only those and missiles just found.
pub proof fn law_due_contacts_are_listed(
    controller: RadarController,
    order: Seq<usize>,
    tick: u32,
    trackable: Seq<bool>,
    i: usize,
)
    requires
        controller.is_tracking_order(order, tick, trackable),
        i < controller.contacts@.len(),
    ensures
        order.no_duplicates(),
        ({
            let c = controller.contacts@[i as int];
            let targets = controller.priority_targets@;
            let new = c.class == Class::Missile && c.missile_scan_ticks_remaining > 0;
            let listed = exists|e: int| 0 <= e < targets.len() && (#[trigger] targets[e]).0 == c.id;
            let left_out = controller.jamming_mode && targets.len() > 0 && !new && !listed;
            order.contains(i) <==> trackable[i as int] && !left_out && controller.due_tick(c, tick)
                <= tick
        }),
{
    let c = controller.contacts@[i as int];
    law_first_entry_sets_interval(controller.priority_targets@, c.id);
    if order.contains(i) {
        let a = order.index_of(i);
        assert(controller.is_due(order[a] as int, tick, trackable));
    }
    if controller.is_due(i as int, tick, trackable) {
        assert(order.contains(i as int as usize));
    }
    assert forall|a: int, b: int|
        0 <= a < order.len() && 0 <= b < order.len() && a != b implies order[a] != order[b] by {
        let turn_a = controller.turn_of(order[a] as int, tick);
        let turn_b = controller.turn_of(order[b] as int, tick);
        if a < b {
            assert(before(turn_a, turn_b));
        } else {
            assert(before(turn_b, turn_a));
        }
    }
}

/// The radars track the contacts that are due, in their order. In jamming mode those left over
/// jam the contacts in reach, one each, in the order of the contact list; `places` are theirs.
/// The rest scan.
pub proof fn law_radars_are_shared_out(
    controller: RadarController,
    order: Seq<usize>,
    radars: nat,
    tick: u32,
    trackable: Seq<bool>,
) -> (places: Seq<int>)
    requires
        controller.is_tracking_order(order, tick, trackable),
        trackable.len() == controller.contacts@.len(),
    ensures
        forall|k: int|
            #![trigger places[k]]
            0 <= k < places.len() ==> 0 <= places[k] < trackable.len() && trackable[places[k]],
        forall|a: int, b: int|
            #![trigger places[a], places[b]]
            0 <= a < b < places.len() ==> places[a] < places[b],
        forall|i: int| 0 <= i < trackable.len() && #[trigger] trackable[i] ==> places.contains(i),
        controller.duties(radars, tick, trackable).len() == radars,
        forall|r: int|
            #![trigger controller.duties(radars, tick, trackable)[r]]
            0 <= r < radars ==> {
                let duty = controller.duties(radars, tick, trackable)[r];
                let rest = r - order.len();
                &&& rest < 0 ==> duty == (RadarState::Tracking {
                    contact_id: controller.contacts@[order[r] as int].id,
                })
                &&& rest >= 0 && controller.jamming_mode && rest < places.len() ==> duty == (
                RadarState::Jamming { contact_id: controller.contacts@[places[rest]].id })
                &&& rest >= 0 && !(controller.jamming_mode && rest < places.len()) ==> duty
                    == RadarState::Scanning
            },
{
    controller.lemma_tracking_order_unique(order, tick, trackable);
    let places = law_kept_in_order(controller.contacts@, trackable);
    let duties = controller.duties(radars, tick, trackable);
    assert forall|r: int| #![trigger duties[r]] 0 <= r < radars implies {
        let rest = r - order.len();
        &&& rest < 0 ==> duties[r] == (RadarState::Tracking {
            contact_id: controller.contacts@[order[r] as int].id,
        })
        &&& rest >= 0 && controller.jamming_mode && rest < places.len() ==> duties[r] == (
        RadarState::Jamming { contact_id: controller.contacts@[places[rest]].id })
        &&& rest >= 0 && !(controller.jamming_mode && rest < places.len()) ==> duties[r]
            == RadarState::Scanning
    } by {
        let rest = r - order.len();
        if rest >= 0 && rest < places.len() {
            assert(0 <= places[rest] < controller.contacts@.len());
        }
    }
    places
}

/// The scans that count towards a sweep are those of the radars that scan: as many as there are
/// such radars.
pub proof fn law_scans_are_counted(duties: Seq<RadarState>)
    ensures
        ({
            let scanning = Set::new(
                |r: int| 0 <= r < duties.len() && duties[r] == RadarState::Scanning,
            );
            scanning.finite() && scanning.len() == scans_among(duties)
        }),
    decreases duties.len(),
{
    let scanning = Set::new(|r: int| 0 <= r < duties.len() && duties[r] == RadarState::Scanning);
    if duties.len() == 0 {
        assert(scanning =~= Set::empty());
    } else {
        let rest = duties.drop_last();
        law_scans_are_counted(rest);
        let fewer = Set::new(|r: int| 0 <= r < rest.len() && rest[r] == RadarState::Scanning);
        if duties.last() == RadarState::Scanning {
            assert(scanning =~= fewer.insert(rest.len() as int));
        } else {
            assert(scanning =~= fewer);
        }
    }
}

/// The contacts that are listed as confirmed are those that are not provisional, and no other.
pub proof fn law_confirmed_contacts(contacts: Seq<Contact>, contact: Contact)
    ensures
        confirmed(contacts).contains(contact) <==> contacts.contains(contact)
            && !contact.provisional,
{
    let flags = confirmed_flags(contacts);
    crate::select::lemma_kept_contains(contacts, flags, contact);
    if contacts.contains(contact) && !contact.provisional {
        let i = contacts.index_of(contact);
        assert(contacts[i] == contact && flags[i]);
    }
}

/// The waits are in range exactly where, for each confirmed contact that may be tracked, its
/// interval times one more than its failed scans fits into 32 bits. In jamming mode with chosen
/// contacts, only those and missiles just found may be tracked.
pub proof fn law_waits_in_range(controller: RadarController)
    ensures
        controller.waits_ok() <==> forall|i: int|
            #![trigger controller.contacts@[i]]
            0 <= i < controller.contacts@.len() ==> {
                let c = controller.contacts@[i];
                let targets = controller.priority_targets@;
                let new = c.class == Class::Missile && c.missile_scan_ticks_remaining > 0;
                let listed = exists|e: int|
                    0 <= e < targets.len() && (#[trigger] targets[e]).0 == c.id;
                let left_out = controller.jamming_mode && targets.len() > 0 && !new && !listed;
                c.provisional || left_out || controller.interval_of(c) * (1
                    + c.tracking_retry_count) <= u32::MAX
            },
{
    assert forall|i: int| #![trigger controller.contacts@[i]] 0 <= i < controller.contacts@.len() implies {
        let c = controller.contacts@[i];
        let targets = controller.priority_targets@;
        let new = c.class == Class::Missile && c.missile_scan_ticks_remaining > 0;
        let listed = exists|e: int| 0 <= e < targets.len() && (#[trigger] targets[e]).0 == c.id;
        controller.group_of(c) is None <==> controller.jamming_mode && targets.len() > 0 && !new
            && !listed
    } by {
        law_first_entry_sets_interval(controller.priority_targets@, controller.contacts@[i].id);
    }
}

} // verus!
