//! Radar contacts: their bookkeeping, and the list operations on them.
//!
//! A contact here holds what decides whether it is tracked, confirmed or dropped. Its
//! estimated position and velocity live with the estimator, under the same id.
use vstd::prelude::*;

use crate::class::Class;
use crate::measure::KEY_OF_5;
use crate::select::kept;

verus! {

/// Tracking scans that may fail in a row before a contact is given up.
pub const MAX_TRACKING_RETRIES: u32 = 3;

/// Tracking scans that a provisional contact gets to be confirmed.
pub const MAX_CONFIRMATION_ATTEMPTS: u32 = 3;

/// Ticks in range without a measurement after which a contact is dropped.
pub const MAX_UNSCANNED_TICKS: u32 = 120;

/// Scans in a row with little improvement that end a contact's priority.
pub const LOW_IMPROVEMENT_LIMIT: u32 = 2;

/// The bookkeeping of one radar contact.
#[derive(Clone, Copy, Debug, PartialEq, Eq, Structural)]
pub struct Contact {
    pub id: u32,
    pub class: Class,
    pub last_measurement_tick: u32,
    pub provisional: bool,
    pub tracking_retry_count: u32,
    pub confirmation_attempts: u32,
    pub unscanned_in_range_ticks: u32,
    pub prioritize_scan: bool,
    pub low_improvement_consecutive_scans: u32,
    pub missile_scan_ticks_remaining: u32,
}

/// Whether a measurement improves a position little: by less than 5 percent. The percentage is
/// given by its order key.
pub open spec fn is_little(percent: u64) -> bool {
    percent < KEY_OF_5
}

/// Whether a measurement improves a position little: by less than 5 percent. The percentage is
/// given by its order key.
pub fn improves_little(percent: u64) -> (little: bool)
    ensures
        little == is_little(percent),
{
    percent < KEY_OF_5
}

impl Contact {
    /// A missile that is still owed scans from its discovery.
    pub open spec fn is_new_missile(self) -> bool {
        self.class == Class::Missile && self.missile_scan_ticks_remaining > 0
    }

    /// A contact first seen at `tick`.
    pub open spec fn fresh(id: u32, class: Class, tick: u32, provisional: bool, missile_ticks: u32) -> Contact {
        Contact {
            id,
            class,
            last_measurement_tick: tick,
            provisional,
            tracking_retry_count: 0,
            confirmation_attempts: 0,
            unscanned_in_range_ticks: 0,
            prioritize_scan: class == Class::Missile,
            low_improvement_consecutive_scans: 0,
            missile_scan_ticks_remaining: if class == Class::Missile {
                missile_ticks
            } else {
                0
            },
        }
    }

    /// Consecutive low-improvement scans after one more measurement. Only a
    /// prioritised contact keeps count.
    pub open spec fn low_scans_after(self, low_improvement: bool) -> int {
        if !self.prioritize_scan {
            self.low_improvement_consecutive_scans as int
        } else if low_improvement {
            self.low_improvement_consecutive_scans + 1
        } else {
            0
        }
    }

    /// The contact after it was measured at `tick`.
    pub open spec fn measured(self, tick: u32, low_improvement: bool) -> Contact {
        let low = self.low_scans_after(low_improvement);
        Contact {
            last_measurement_tick: tick,
            tracking_retry_count: 0,
            low_improvement_consecutive_scans: low as u32,
            prioritize_scan: self.prioritize_scan && low < LOW_IMPROVEMENT_LIMIT,
            missile_scan_ticks_remaining: if self.missile_scan_ticks_remaining > 0 {
                (self.missile_scan_ticks_remaining - 1) as u32
            } else {
                0
            },
            ..self
        }
    }

    /// The contact after a tracking scan that did or did not tell it from all earlier
    /// contacts.
    pub open spec fn after_attempt(self, distinct: bool) -> Contact {
        if self.provisional {
            Contact {
                confirmation_attempts: (self.confirmation_attempts + 1) as u32,
                provisional: !distinct,
                ..self
            }
        } else {
            self
        }
    }

    /// Whether the contact stayed provisional for too many tracking scans.
    pub open spec fn attempts_spent(self) -> bool {
        self.provisional && self.confirmation_attempts >= MAX_CONFIRMATION_ATTEMPTS
    }

    /// The contact at the end of `tick`, with its count of ticks in range without a
    /// measurement brought up to date.
    pub open spec fn aged(self, tick: u32, in_range: bool) -> Contact {
        Contact {
            unscanned_in_range_ticks: if self.last_measurement_tick == tick {
                0
            } else if in_range {
                (self.unscanned_in_range_ticks + 1) as u32
            } else {
                self.unscanned_in_range_ticks
            },
            ..self
        }
    }

    /// Whether an aged contact survives the clean-up of `tick`.
    pub open spec fn survives(self, tick: u32, receding: bool) -> bool {
        &&& !(self.class.is_munition() && receding)
        &&& !(self.tracking_retry_count >= MAX_TRACKING_RETRIES && self.last_measurement_tick
            != tick)
        &&& self.unscanned_in_range_ticks <= MAX_UNSCANNED_TICKS
    }

    /// Whether one more measurement can be counted.
    pub open spec fn can_be_measured(self) -> bool {
        self.prioritize_scan ==> self.low_improvement_consecutive_scans < u32::MAX
    }

    /// Whether one more attempt at its confirmation can be counted.
    pub open spec fn can_be_confirmed(self) -> bool {
        self.provisional ==> self.confirmation_attempts < u32::MAX
    }

    /// Whether one more retry by each of two radars can be counted.
    pub open spec fn can_be_missed(self) -> bool {
        self.tracking_retry_count <= u32::MAX - 2
    }

    /// Whether one more tick in range without a measurement can be counted.
    pub open spec fn can_age(self) -> bool {
        self.unscanned_in_range_ticks < u32::MAX
    }

    /// Whether no counter of the contact is about to run over.
    pub open spec fn has_headroom(self) -> bool {
        self.can_be_measured() && self.can_be_confirmed() && self.can_be_missed() && self.can_age()
    }

    /// A contact first seen at `tick`.
    pub fn discovered(id: u32, class: Class, tick: u32, provisional: bool, missile_ticks: u32) -> (contact: Self)
        ensures
            contact == Contact::fresh(id, class, tick, provisional, missile_ticks),
    {
        let missile = class == Class::Missile;
        Contact {
            id,
            class,
            last_measurement_tick: tick,
            provisional,
            tracking_retry_count: 0,
            confirmation_attempts: 0,
            unscanned_in_range_ticks: 0,
            prioritize_scan: missile,
            low_improvement_consecutive_scans: 0,
            missile_scan_ticks_remaining: if missile {
                missile_ticks
            } else {
                0
            },
        }
    }

    /// Whether the contact is a missile that is still owed scans from its discovery.
    pub fn new_missile(&self) -> (new: bool)
        ensures
            new == self.is_new_missile(),
    {
        self.class == Class::Missile && self.missile_scan_ticks_remaining > 0
    }

    /// Takes a measurement made at `tick`.
    pub fn take_measurement(&mut self, tick: u32, low_improvement: bool)
        requires
            old(self).can_be_measured(),
        ensures
            *final(self) == old(self).measured(tick, low_improvement),
    {
        self.last_measurement_tick = tick;
        if self.prioritize_scan {
            if low_improvement {
                self.low_improvement_consecutive_scans = self.low_improvement_consecutive_scans + 1;
            } else {
                self.low_improvement_consecutive_scans = 0;
            }
            if self.low_improvement_consecutive_scans >= LOW_IMPROVEMENT_LIMIT {
                self.prioritize_scan = false;
            }
        }
        self.tracking_retry_count = 0;
        if self.missile_scan_ticks_remaining > 0 {
            self.missile_scan_ticks_remaining = self.missile_scan_ticks_remaining - 1;
        }
    }

    /// Counts a tracking scan towards the contact's confirmation.
    pub fn attempt_confirmation(&mut self, distinct: bool)
        requires
            old(self).can_be_confirmed(),
        ensures
            *final(self) == old(self).after_attempt(distinct),
    {
        if self.provisional {
            self.confirmation_attempts = self.confirmation_attempts + 1;
            if distinct {
                self.provisional = false;
            }
        }
    }

    /// Brings the count of ticks in range without a measurement up to date.
    pub fn age(&mut self, tick: u32, in_range: bool)
        requires
            old(self).can_age(),
        ensures
            *final(self) == old(self).aged(tick, in_range),
    {
        if self.last_measurement_tick == tick {
            self.unscanned_in_range_ticks = 0;
        } else if in_range {
            self.unscanned_in_range_ticks = self.unscanned_in_range_ticks + 1;
        }
    }

    /// Whether the contact survives the clean-up of `tick`.
    pub fn keeps(&self, tick: u32, receding: bool) -> (keep: bool)
        ensures
            keep == self.survives(tick, receding),
    {
        if (self.class == Class::Missile || self.class == Class::Torpedo) && receding {
            return false;
        }
        if self.tracking_retry_count >= MAX_TRACKING_RETRIES && self.last_measurement_tick != tick {
            return false;
        }
        self.unscanned_in_range_ticks <= MAX_UNSCANNED_TICKS
    }
}

/// Whether `contacts[i]` is the first contact with this id.
pub open spec fn is_first_with_id(contacts: Seq<Contact>, id: u32, i: int) -> bool {
    &&& 0 <= i < contacts.len()
    &&& contacts[i].id == id
    &&& forall|j: int| #![trigger contacts[j]] 0 <= j < i ==> contacts[j].id != id
}

/// The place of the first contact with this id.
pub open spec fn place_of(contacts: Seq<Contact>, id: u32) -> Option<int> {
    if exists|i: int| is_first_with_id(contacts, id, i) {
        Some(choose|i: int| is_first_with_id(contacts, id, i))
    } else {
        None
    }
}

/// Whether some contact has this id.
pub open spec fn holds_id(contacts: Seq<Contact>, id: u32) -> bool {
    exists|i: int| 0 <= i < contacts.len() && #[trigger] contacts[i].id == id
}

/// Whether no two contacts share an id.
pub open spec fn ids_distinct(contacts: Seq<Contact>) -> bool {
    forall|i: int, j: int|
        #![trigger contacts[i], contacts[j]]
        0 <= i < j < contacts.len() ==> contacts[i].id != contacts[j].id
}

/// Whether every id is positive and below `bound`.
pub open spec fn ids_below(contacts: Seq<Contact>, bound: int) -> bool {
    forall|i: int|
        #![trigger contacts[i]]
        0 <= i < contacts.len() ==> 0 < contacts[i].id < bound
}

/// There is at most one first contact with an id.
pub proof fn lemma_place_unique(contacts: Seq<Contact>, id: u32, i: int)
    requires
        is_first_with_id(contacts, id, i),
    ensures
        place_of(contacts, id) == Some(i),
        holds_id(contacts, id),
{
    let k = choose|k: int| is_first_with_id(contacts, id, k);
    assert(is_first_with_id(contacts, id, k));
    if k < i {
        assert(contacts[k].id != id);
    } else if i < k {
        assert(contacts[i].id != id);
    }
}

/// An id that no contact has has no place.
pub proof fn lemma_place_none(contacts: Seq<Contact>, id: u32)
    requires
        forall|j: int| #![trigger contacts[j]] 0 <= j < contacts.len() ==> contacts[j].id != id,
    ensures
        place_of(contacts, id) is None,
        !holds_id(contacts, id),
{
}

/// The place of the first contact with this id, if there is one.
pub fn place_of_id(contacts: &Vec<Contact>, id: u32) -> (place: Option<usize>)
    ensures
        place matches Some(i) ==> is_first_with_id(contacts@, id, i as int),
        place is Some <==> holds_id(contacts@, id),
        place_of(contacts@, id) == (match place {
            Some(i) => Some(i as int),
            None => None::<int>,
        }),
{
    let mut i: usize = 0;
    while i < contacts.len()
        invariant
            0 <= i <= contacts.len(),
            forall|j: int| #![trigger contacts@[j]] 0 <= j < i ==> contacts@[j].id != id,
        decreases contacts.len() - i,
    {
        if contacts[i].id == id {
            proof {
                lemma_place_unique(contacts@, id, i as int);
            }
            return Some(i);
        }
        i = i + 1;
    }
    proof {
        lemma_place_none(contacts@, id);
    }
    None
}

/// Keeping some of the contacts keeps ids distinct and bounded.
pub proof fn lemma_kept_ids(contacts: Seq<Contact>, keep: Seq<bool>, bound: int)
    requires
        ids_distinct(contacts),
        ids_below(contacts, bound),
    ensures
        ids_distinct(kept(contacts, keep)),
        ids_below(kept(contacts, keep), bound),
        forall|i: int|
            #![trigger kept(contacts, keep)[i]]
            0 <= i < kept(contacts, keep).len() ==> holds_id(contacts, kept(contacts, keep)[i].id),
    decreases contacts.len(),
{
    if contacts.len() > 0 {
        let rest = contacts.drop_last();
        let n = contacts.len() - 1;
        assert(forall|i: int| 0 <= i < rest.len() ==> rest[i] == contacts[i]);
        lemma_kept_ids(rest, keep, bound);
        let k = kept(contacts, keep);
        let kr = kept(rest, keep);
        assert forall|i: int| #![trigger k[i]] 0 <= i < k.len() implies holds_id(
            contacts,
            k[i].id,
        ) by {
            if i < kr.len() {
                assert(holds_id(rest, kr[i].id));
                let j = choose|j: int| 0 <= j < rest.len() && #[trigger] rest[j].id == kr[i].id;
                assert(contacts[j].id == k[i].id);
            } else {
                assert(contacts[n].id == k[i].id);
            }
        }
        if keep[n] {
            assert forall|i: int, j: int| #![trigger k[i], k[j]] 0 <= i < j < k.len() implies k[i].id
                != k[j].id by {
                if j == kr.len() {
                    assert(holds_id(rest, kr[i].id));
                    let p = choose|p: int| 0 <= p < rest.len() && #[trigger] rest[p].id == kr[i].id;
                    assert(contacts[p].id != contacts[n].id);
                }
            }
        }
    }
}

/// Replacing a contact by one of the same id keeps ids distinct and bounded.
pub proof fn lemma_update_ids(contacts: Seq<Contact>, place: int, contact: Contact, bound: int)
    requires
        ids_distinct(contacts),
        ids_below(contacts, bound),
        0 <= place < contacts.len(),
        contact.id == contacts[place].id,
    ensures
        ids_distinct(contacts.update(place, contact)),
        ids_below(contacts.update(place, contact), bound),
{
    let after = contacts.update(place, contact);
    assert forall|i: int, j: int| #![trigger after[i], after[j]] 0 <= i < j < after.len() implies after[i].id
        != after[j].id by {
        assert(contacts[i].id != contacts[j].id);
    }
    assert forall|i: int| #![trigger after[i]] 0 <= i < after.len() implies 0 < after[i].id
        < bound by {
        assert(0 < contacts[i].id < bound);
    }
}

/// Adding a contact with the bound as its id keeps ids distinct, and bounded by the next.
pub proof fn lemma_push_ids(contacts: Seq<Contact>, contact: Contact)
    requires
        ids_distinct(contacts),
        ids_below(contacts, contact.id as int),
        contact.id > 0,
    ensures
        ids_distinct(contacts.push(contact)),
        ids_below(contacts.push(contact), contact.id + 1),
{
    let after = contacts.push(contact);
    assert forall|i: int| #![trigger after[i]] 0 <= i < after.len() implies 0 < after[i].id
        < contact.id + 1 by {
        if i < contacts.len() {
            assert(0 < contacts[i].id < contact.id);
        }
    }
    assert forall|i: int, j: int| #![trigger after[i], after[j]] 0 <= i < j < after.len() implies after[i].id
        != after[j].id by {
        assert(contacts[i].id < contact.id);
        if j < contacts.len() {
            assert(contacts[i].id != contacts[j].id);
        }
    }
}

/// Two scans in a row with little improvement end a contact's scanning priority.
pub proof fn law_low_improvement_ends_priority(contact: Contact, first: u32, second: u32)
    requires
        contact.low_improvement_consecutive_scans < LOW_IMPROVEMENT_LIMIT,
    ensures
        !contact.measured(first, true).measured(second, true).prioritize_scan,
{
}

/// A measurement that improves a prioritised contact keeps its priority and starts the
/// count of low improvements over.
pub proof fn law_improvement_keeps_priority(contact: Contact, tick: u32)
    requires
        contact.prioritize_scan,
    ensures
        contact.measured(tick, false).prioritize_scan,
        contact.measured(tick, false).low_improvement_consecutive_scans == 0,
{
}

/// A contact found as a missile stays new for as many measurements as it is owed.
pub proof fn law_new_missile_is_owed_scans(contact: Contact, tick: u32, low_improvement: bool)
    requires
        contact.is_new_missile(),
    ensures
        contact.measured(tick, low_improvement).missile_scan_ticks_remaining
            == contact.missile_scan_ticks_remaining - 1,
        contact.measured(tick, low_improvement).is_new_missile() <==>
            contact.missile_scan_ticks_remaining > 1,
{
}

/// A contact that is measured at a tick is not dropped in the clean-up of that tick,
/// unless it is a missile or torpedo that moves away.
pub proof fn law_measured_contact_survives(contact: Contact, tick: u32, low_improvement: bool, in_range: bool)
    ensures
        contact.measured(tick, low_improvement).aged(tick, in_range).survives(tick, false),
{
}

/// A contact that stays in range is dropped once it was not measured for more ticks than
/// are allowed.
pub proof fn law_unscanned_contact_is_dropped(contact: Contact, tick: u32, receding: bool)
    requires
        contact.last_measurement_tick != tick,
        MAX_UNSCANNED_TICKS <= contact.unscanned_in_range_ticks < u32::MAX,
    ensures
        !contact.aged(tick, true).survives(tick, receding),
{
}

/// A contact that could not be told from earlier ones is dropped after its last attempt,
/// and one that could be is confirmed at once.
pub proof fn law_confirmation(contact: Contact, distinct: bool)
    requires
        contact.provisional,
        contact.confirmation_attempts < u32::MAX,
    ensures
        distinct ==> !contact.after_attempt(distinct).provisional,
        !distinct ==> (contact.after_attempt(distinct).attempts_spent() <==>
            contact.confirmation_attempts + 1 >= MAX_CONFIRMATION_ATTEMPTS),
{
}

/// A measurement sets the tick of the last one, ends the row of failed tracking scans, and uses
/// up one of the scans owed to a new missile. It says nothing about what the contact is, and
/// does not confirm it.
pub proof fn law_measurement_bookkeeping(contact: Contact, tick: u32, low_improvement: bool)
    ensures
        ({
            let after = contact.measured(tick, low_improvement);
            &&& after.id == contact.id && after.class == contact.class
            &&& after.provisional == contact.provisional
            &&& after.confirmation_attempts == contact.confirmation_attempts
            &&& after.unscanned_in_range_ticks == contact.unscanned_in_range_ticks
            &&& after.last_measurement_tick == tick
            &&& after.tracking_retry_count == 0
            &&& contact.missile_scan_ticks_remaining == 0 ==> after.missile_scan_ticks_remaining
                == 0
            &&& contact.missile_scan_ticks_remaining > 0 ==> after.missile_scan_ticks_remaining
                == contact.missile_scan_ticks_remaining - 1
        }),
{
}

/// A contact has scanning priority after a measurement exactly where it had it before and
/// improved, or improved little for less than the second time in a row. Without priority
/// nothing is counted.
pub proof fn law_priority_after_measurement(contact: Contact, tick: u32, low_improvement: bool)
    requires
        contact.low_improvement_consecutive_scans < u32::MAX,
    ensures
        ({
            let after = contact.measured(tick, low_improvement);
            let count = contact.low_improvement_consecutive_scans;
            &&& after.prioritize_scan == (contact.prioritize_scan && (!low_improvement || count + 1
                < 2))
            &&& !contact.prioritize_scan ==> after.low_improvement_consecutive_scans == count
            &&& contact.prioritize_scan && low_improvement ==> after.low_improvement_consecutive_scans
                == count + 1
            &&& contact.prioritize_scan && !low_improvement ==> after.low_improvement_consecutive_scans
                == 0
        }),
{
}

/// A new contact starts with all counts at zero; missiles, and nothing else, have scanning
/// priority and are owed scans.
pub proof fn law_fresh_contact(id: u32, class: Class, tick: u32, provisional: bool, missile_ticks: u32)
    ensures
        ({
            let contact = Contact::fresh(id, class, tick, provisional, missile_ticks);
            &&& contact.id == id && contact.class == class && contact.last_measurement_tick == tick
            &&& contact.provisional == provisional
            &&& contact.tracking_retry_count == 0 && contact.confirmation_attempts == 0
            &&& contact.unscanned_in_range_ticks == 0
                && contact.low_improvement_consecutive_scans == 0
            &&& contact.prioritize_scan == (class == Class::Missile)
            &&& class == Class::Missile ==> contact.missile_scan_ticks_remaining == missile_ticks
            &&& class != Class::Missile ==> contact.missile_scan_ticks_remaining == 0
        }),
{
}

/// A tracking scan confirms a provisional contact exactly where it tells it from all earlier
/// ones, and counts an attempt in any case. It leaves a confirmed contact alone, and changes
/// nothing else.
pub proof fn law_confirmation_attempt(contact: Contact, distinct: bool)
    requires
        contact.confirmation_attempts < u32::MAX,
    ensures
        ({
            let after = contact.after_attempt(distinct);
            &&& !contact.provisional ==> after == contact
            &&& contact.provisional ==> after.confirmation_attempts == contact.confirmation_attempts
                + 1 && after.provisional == !distinct
            &&& after == (Contact {
                provisional: after.provisional,
                confirmation_attempts: after.confirmation_attempts,
                ..contact
            })
            &&& after.attempts_spent() <==> after.provisional && after.confirmation_attempts >= 3
        }),
{
}

/// The count of ticks without a measurement starts over at a measurement, grows by one in range,
/// and rests out of range. Ageing changes nothing else.
pub proof fn law_ageing(contact: Contact, tick: u32, in_range: bool)
    requires
        contact.unscanned_in_range_ticks < u32::MAX,
    ensures
        ({
            let after = contact.aged(tick, in_range);
            let count = contact.unscanned_in_range_ticks;
            &&& contact.last_measurement_tick == tick ==> after.unscanned_in_range_ticks == 0
            &&& contact.last_measurement_tick != tick && in_range ==> after.unscanned_in_range_ticks
                == count + 1
            &&& contact.last_measurement_tick != tick && !in_range ==> after.unscanned_in_range_ticks
                == count
            &&& after == (Contact {
                unscanned_in_range_ticks: after.unscanned_in_range_ticks,
                ..contact
            })
        }),
{
}

/// A contact is dropped for three reasons and no other: it is a missile or torpedo that moves
/// away, its tracking scans failed too often without a measurement at this tick, or it was not
/// measured for too long.
pub proof fn law_reasons_to_drop(contact: Contact, tick: u32, receding: bool)
    ensures
        !contact.survives(tick, receding) <==> {
            ||| receding && (contact.class == Class::Missile || contact.class == Class::Torpedo)
            ||| contact.last_measurement_tick != tick && contact.tracking_retry_count >= 3
            ||| contact.unscanned_in_range_ticks > 120
        },
{
}

/// The place of an id is that of the first contact which has it, and an id that some contact
/// has has a place.
pub proof fn law_place_of_id(contacts: Seq<Contact>, id: u32)
    ensures
        match place_of(contacts, id) {
            Some(p) => {
                &&& 0 <= p < contacts.len()
                &&& contacts[p].id == id
                &&& forall|j: int| #![trigger contacts[j]] 0 <= j < p ==> contacts[j].id != id
            },
            None => forall|j: int|
                #![trigger contacts[j]]
                0 <= j < contacts.len() ==> contacts[j].id != id,
        },
{
    match place_of(contacts, id) {
        Some(p) => {
            assert(is_first_with_id(contacts, id, p));
        },
        None => {
            assert forall|j: int| #![trigger contacts[j]] 0 <= j < contacts.len() implies contacts[j].id
                != id by {
                if contacts[j].id == id {
                    lemma_place_exists(contacts, id, j);
                }
            }
        },
    }
}

// An id that some contact has has a first place.
proof fn lemma_place_exists(contacts: Seq<Contact>, id: u32, i: int)
    requires
        0 <= i < contacts.len(),
        contacts[i].id == id,
    ensures
        exists|p: int| is_first_with_id(contacts, id, p),
    decreases i,
{
    if !is_first_with_id(contacts, id, i) {
        let j = choose|j: int| #![trigger contacts[j]] 0 <= j < i && contacts[j].id == id;
        lemma_place_exists(contacts, id, j);
    }
}

} // verus!
