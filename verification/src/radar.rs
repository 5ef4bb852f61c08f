//! The radar controller: which contacts exist, which hit belongs to which of them, and
//! what each radar does next.
//!
//! Geometry stays outside. Each operation takes, for every contact, what the estimator
//! found out about it (a `Sighting` of a hit, whether it is in range, and so on), in the
//! order of the contact list.
use vstd::prelude::*;

use crate::class::Class;
use crate::measure::{Measure, KEY_OF_5, METERS_15, METERS_30, RADIO_PING_SNR};
use crate::contact::{
    holds_id, ids_below, ids_distinct, improves_little, is_first_with_id, is_little,
    lemma_kept_ids, lemma_push_ids, lemma_update_ids, place_of, place_of_id, Contact,
};
use crate::select::{
    first_min, first_min_of, kept, law_first_min, law_kept_in_order, retain_flagged, FARTHEST,
};

verus! {

/// Scans that make up one full sweep.
pub const SCANS_PER_SWEEP: u32 = 11;

/// Scans that a newly found missile is owed, unless set otherwise.
pub const DEFAULT_NEW_MISSILE_SCANS: u32 = 8;

/// Ticks between tracking scans of a contact that is provisional or prioritised.
pub const PRIORITY_INTERVAL: u32 = 6;

/// Ticks between tracking scans of any other contact.
pub const NORMAL_INTERVAL: u32 = 20;

/// What a radar is doing.
#[derive(Clone, Copy, Debug, PartialEq, Eq, Structural)]
pub enum RadarState {
    Scanning,
    Tracking { contact_id: u32 },
    Jamming { contact_id: u32 },
}

/// A radar return, or a position report from the radio.
#[derive(Clone, Copy, Debug, PartialEq, Eq, Structural)]
pub struct ScanHit {
    pub class: Class,
    /// The bit pattern of the signal-to-noise ratio. One value is that of reports by radio.
    pub snr: u64,
    /// The distance from the ship.
    pub range: Measure,
    /// The range up to which the beam that made the hit is reliable; none where no beam did.
    pub reliable_range: Option<Measure>,
    /// The radius of confidence about the hit.
    pub radius: Measure,
    /// The distance below which an expected position matches on the hit's account.
    pub gate: Measure,
    /// Whether the object moves away from the ship.
    pub receding: bool,
}

impl ScanHit {
    /// Whether this is a report by radio, which needs no confirmation.
    pub open spec fn is_ping(self) -> bool {
        self.snr == RADIO_PING_SNR
    }

    /// Whether the hit lies beyond the reliable range of its beam.
    pub open spec fn unreliable(self) -> bool {
        self.reliable_range is Some && self.range > self.reliable_range->0
    }

    /// The hit as a report by radio, made by no beam.
    pub open spec fn as_ping(self) -> ScanHit {
        ScanHit { snr: RADIO_PING_SNR, reliable_range: None, ..self }
    }

    /// Whether this is a report by radio.
    pub fn radio_ping(&self) -> (ping: bool)
        ensures
            ping == self.is_ping(),
    {
        self.snr == RADIO_PING_SNR
    }

    /// Whether the hit lies beyond the reliable range of its beam.
    pub fn beyond_reliable(&self) -> (beyond: bool)
        ensures
            beyond == self.unreliable(),
    {
        match self.reliable_range {
            Some(range) => self.range > range,
            None => false,
        }
    }
}

/// How a hit relates to one contact.
#[derive(Clone, Copy, Debug, PartialEq, Eq, Structural)]
pub struct Sighting {
    /// The distance of the hit from the contact's expected position.
    pub distance: Measure,
    /// The distance below which the hit matches on the contact's account.
    pub gate: Measure,
    /// Whether the contact's boundary reaches into the beam, where both are there.
    pub boundary_in_beam: Option<bool>,
    /// Whether the circle of uncertainty about the contact does, where there is a beam.
    pub circle_in_beam: Option<bool>,
    /// By how many percent measuring the contact with this hit would improve its position,
    /// as an order key.
    pub improvement: u64,
    /// Whether the contact moves away from the ship as it stands.
    pub receding: bool,
    /// Whether it would, once measured with this hit.
    pub receding_if_measured: bool,
}

impl Sighting {
    /// Whether the contact lies outside the beam that made the hit.
    pub open spec fn out_of_beam(self) -> bool {
        self.boundary_in_beam == Some(false) || self.circle_in_beam == Some(false)
    }

    /// The distance of the hit, where it may be a hit on this contact: the contact lies in
    /// the beam, and it is closer than the contact's gate radius or the hit's own.
    pub open spec fn match_key(self, hit: ScanHit) -> Option<u64> {
        if !self.out_of_beam() && (self.distance < self.gate || self.distance < hit.gate) {
            Some(self.distance)
        } else {
            None
        }
    }

    /// Whether the hit is close enough to be taken for the contact.
    pub open spec fn confusable(self) -> bool {
        self.distance <= METERS_30
    }

    /// Whether the hit is so close that both must be the same object.
    pub open spec fn duplicate(self) -> bool {
        self.distance < METERS_15
    }

    /// The distance of the hit, where it may be a hit on this contact.
    pub fn gate_key(&self, hit: &ScanHit) -> (key: Option<u64>)
        ensures
            key == self.match_key(*hit),
    {
        if let Some(overlaps) = self.boundary_in_beam {
            if !overlaps {
                return None;
            }
        }
        if let Some(overlaps) = self.circle_in_beam {
            if !overlaps {
                return None;
            }
        }
        if self.distance < self.gate || self.distance < hit.gate {
            Some(self.distance)
        } else {
            None
        }
    }
}

/// What a hit did to the contact list.
#[derive(Clone, Copy, Debug, PartialEq, Eq, Structural)]
pub enum HitEffect {
    /// The first contact with this id was measured.
    Measured { contact_id: u32 },
    /// A contact was added.
    Added { contact_id: u32 },
    /// Nothing.
    Ignored,
}

impl HitEffect {
    /// The id of the contact that was measured or added, or 0.
    pub open spec fn id_or_zero(self) -> u32 {
        match self {
            HitEffect::Measured { contact_id } => contact_id,
            HitEffect::Added { contact_id } => contact_id,
            HitEffect::Ignored => 0,
        }
    }
}

/// What came of a hit on a radar.
#[derive(Clone, Copy, Debug, PartialEq, Eq, Structural)]
pub struct TrackReport {
    pub effect: HitEffect,
    /// The followed contact, where the scan missed it: its search boundary is to grow.
    pub missed: Option<u32>,
}

/// The distances among which a hit is matched.
pub open spec fn match_keys(contacts: Seq<Contact>, hit: ScanHit, sightings: Seq<Sighting>) -> Seq<
    Option<u64>,
> {
    Seq::new(
        contacts.len(),
        |i: int|
            if contacts[i].class == hit.class {
                sightings[i].match_key(hit)
            } else {
                None
            },
    )
}

/// The id and distance of the contact that a hit belongs to: of those of its class whose
/// gates it passes, the closest, and the first among equals.
pub open spec fn best_match(contacts: Seq<Contact>, hit: ScanHit, sightings: Seq<Sighting>) -> Option<
    (u32, u64),
> {
    match first_min_of(match_keys(contacts, hit, sightings)) {
        Some(i) => Some((contacts[i].id, sightings[i].distance)),
        None => None,
    }
}

/// Which contacts stay when missiles and torpedoes that move away are dropped.
pub open spec fn approaching(contacts: Seq<Contact>, receding: Seq<bool>) -> Seq<bool> {
    Seq::new(contacts.len(), |i: int| !(contacts[i].class.is_munition() && receding[i]))
}

/// Which contacts move away once the one at `place` has been measured.
pub open spec fn receding_after(sightings: Seq<Sighting>, place: int) -> Seq<bool> {
    Seq::new(
        sightings.len(),
        |i: int|
            if i == place {
                sightings[i].receding_if_measured
            } else {
                sightings[i].receding
            },
    )
}

/// Which contacts move away as they stand, followed by `last`.
pub open spec fn receding_with(sightings: Seq<Sighting>, last: bool) -> Seq<bool> {
    Seq::new(sightings.len(), |i: int| sightings[i].receding).push(last)
}

/// The contact at `place`, measured with a hit at `tick`; a report by radio confirms it.
pub open spec fn measured_by(contact: Contact, tick: u32, hit: ScanHit, sighting: Sighting) -> Contact {
    let measured = contact.measured(tick, is_little(sighting.improvement));
    if hit.is_ping() {
        Contact { provisional: false, ..measured }
    } else {
        measured
    }
}

/// Whether an earlier contact than `id` is close enough to the hit to be taken for it.
pub open spec fn earlier_confusable(contacts: Seq<Contact>, sightings: Seq<Sighting>, id: u32) -> bool {
    exists|j: int|
        0 <= j < contacts.len() && #[trigger] contacts[j].id < id && sightings[j].confusable()
}

/// Whether an earlier contact than `id` must be the same object as the hit.
pub open spec fn earlier_duplicate(contacts: Seq<Contact>, sightings: Seq<Sighting>, id: u32) -> bool {
    exists|j: int|
        0 <= j < contacts.len() && #[trigger] contacts[j].id < id && sightings[j].duplicate()
}

/// Whether a contact of the hit's class lies within the hit's confidence radius.
pub open spec fn already_known(contacts: Seq<Contact>, sightings: Seq<Sighting>, hit: ScanHit) -> bool {
    exists|j: int|
        0 <= j < contacts.len() && #[trigger] contacts[j].class == hit.class
            && sightings[j].distance <= hit.radius
}

/// The contact that a tracking scan measured, after its confirmation was attempted.
pub open spec fn tracked_contact(contacts: Seq<Contact>, place: int, tick: u32, sightings: Seq<Sighting>) -> Contact {
    contacts[place].measured(tick, is_little(sightings[place].improvement)).after_attempt(
        !earlier_confusable(contacts, sightings, contacts[place].id),
    )
}

/// Which contacts stay after a tracking scan that measured `followed`: the measured one
/// goes when it could not be confirmed in time or is a duplicate of an earlier one, and
/// later duplicates of it go.
pub open spec fn tracking_keeps(contacts: Seq<Contact>, sightings: Seq<Sighting>, followed: Contact) -> Seq<
    bool,
> {
    Seq::new(
        contacts.len(),
        |j: int|
            if followed.attempts_spent() {
                contacts[j].id != followed.id
            } else if contacts[j].id == followed.id {
                !earlier_duplicate(contacts, sightings, followed.id)
            } else {
                !(contacts[j].id > followed.id && sightings[j].duplicate())
            },
    )
}

/// The contacts after the first `n` radars reported whether they found anything: a
/// tracking radar that found nothing counts a retry for its contact.
pub open spec fn after_misses(contacts: Seq<Contact>, states: Seq<RadarState>, found: Seq<bool>, n: nat) -> Seq<
    Contact,
>
    decreases n,
{
    if n == 0 {
        contacts
    } else {
        let before = after_misses(contacts, states, found, (n - 1) as nat);
        match missed_place(before, states[n - 1], found[n - 1]) {
            Some(place) => before.update(
                place,
                Contact {
                    tracking_retry_count: (before[place].tracking_retry_count + 1) as u32,
                    ..before[place]
                },
            ),
            None => before,
        }
    }
}

/// The place of the contact that a radar was tracking and did not find.
pub open spec fn missed_place(contacts: Seq<Contact>, state: RadarState, found: bool) -> Option<int> {
    match state {
        RadarState::Tracking { contact_id } if !found => place_of(contacts, contact_id),
        _ => None,
    }
}

/// The ids of the contacts that tracking radars among the first `n` did not find.
pub open spec fn missed_ids(contacts: Seq<Contact>, states: Seq<RadarState>, found: Seq<bool>, n: nat) -> Seq<
    u32,
>
    decreases n,
{
    if n == 0 {
        Seq::empty()
    } else {
        let before = missed_ids(contacts, states, found, (n - 1) as nat);
        match missed_place(
            after_misses(contacts, states, found, (n - 1) as nat),
            states[n - 1],
            found[n - 1],
        ) {
            Some(place) => before.push(states[n - 1]->Tracking_contact_id),
            None => before,
        }
    }
}

/// How many of the first `n` radars were tracking the contact `id` and found nothing.
pub open spec fn misses_on(states: Seq<RadarState>, found: Seq<bool>, n: nat, id: u32) -> nat
    decreases n,
{
    if n == 0 {
        0
    } else {
        misses_on(states, found, (n - 1) as nat, id) + (if states[n - 1] == (RadarState::Tracking {
            contact_id: id,
        }) && !found[n - 1] {
            1nat
        } else {
            0
        })
    }
}

/// How far a contact is, up to where the radar reaches it, and whether it moves away.
#[derive(Clone, Copy, Debug, PartialEq, Eq, Structural)]
pub struct RangeView {
    pub distance: Measure,
    pub max_range: Measure,
    pub receding: bool,
}

impl RangeView {
    /// Whether the contact is within the reach of the radar.
    pub open spec fn in_range(self) -> bool {
        self.distance <= self.max_range
    }
}

/// The contacts with their counts of ticks in range without a measurement brought up to
/// date at `tick`.
pub open spec fn aged_contacts(contacts: Seq<Contact>, tick: u32, views: Seq<RangeView>) -> Seq<Contact> {
    Seq::new(contacts.len(), |i: int| contacts[i].aged(tick, views[i].in_range()))
}

/// Which contacts survive the clean-up of `tick`.
pub open spec fn survivors(contacts: Seq<Contact>, tick: u32, views: Seq<RangeView>) -> Seq<bool> {
    Seq::new(contacts.len(), |i: int| contacts[i].survives(tick, views[i].receding))
}

/// Whether a confirmed contact has this id.
pub open spec fn holds_confirmed(contacts: Seq<Contact>, id: u32) -> bool {
    exists|i: int|
        0 <= i < contacts.len() && #[trigger] contacts[i].id == id && !contacts[i].provisional
}

/// The distances among which a target is chosen: those of the confirmed contacts.
pub open spec fn target_keys(contacts: Seq<Contact>, distances: Seq<u64>) -> Seq<Option<u64>> {
    Seq::new(
        contacts.len(),
        |i: int|
            if contacts[i].provisional {
                None
            } else {
                Some(distances[i])
            },
    )
}

/// The id of the contact to aim for.
pub open spec fn next_target(contacts: Seq<Contact>, current: Option<u32>, distances: Seq<u64>) -> Option<
    u32,
> {
    if current is Some && holds_confirmed(contacts, current->0) {
        current
    } else {
        match first_min_of(target_keys(contacts, distances)) {
            Some(i) => Some(contacts[i].id),
            None => None,
        }
    }
}

/// The contact list and the radars' duties.
#[derive(Clone, Debug)]
pub struct RadarController {
    pub contacts: Vec<Contact>,
    /// The confirmed contacts as of the last planning.
    pub non_provisional_contacts: Vec<Contact>,
    pub next_contact_id: u32,
    pub radar_states: Vec<RadarState>,
    pub current_target_id: Option<u32>,
    pub full_scans: u32,
    /// Contacts to be followed at intervals of their own: id and ticks.
    pub priority_targets: Vec<(u32, u32)>,
    pub scan_ticks: u32,
    pub jamming_mode: bool,
    pub new_missile_scan_ticks: u32,
}

impl RadarController {
    /// Ids are distinct, positive, and below the next one to be given out; the radars'
    /// states are there; the sweep counter is below a full sweep.
    pub open spec fn wf(self) -> bool {
        &&& ids_distinct(self.contacts@)
        &&& ids_below(self.contacts@, self.next_contact_id as int)
        &&& self.next_contact_id > 0
        &&& self.radar_states.len() == 2
        &&& self.scan_ticks < SCANS_PER_SWEEP
    }

    /// Whether a hit can be taken in: an id is left, and measurements can be counted.
    pub open spec fn room_for_hits(self) -> bool {
        &&& self.next_contact_id < u32::MAX
        &&& forall|i: int|
            #![trigger self.contacts@[i]]
            0 <= i < self.contacts@.len() ==> self.contacts@[i].can_be_measured()
    }

    /// Whether a hit on a tracking radar can be taken in: attempts at confirmation can be
    /// counted as well.
    pub open spec fn room_for_tracking_hits(self) -> bool {
        &&& self.room_for_hits()
        &&& forall|i: int|
            #![trigger self.contacts@[i]]
            0 <= i < self.contacts@.len() ==> self.contacts@[i].can_be_confirmed()
    }

    /// Whether the scans that found nothing can be counted: for each contact, as many retries
    /// as there are radars that were tracking it and missed it.
    pub open spec fn room_for_misses(self, found: Seq<bool>) -> bool {
        forall|i: int|
            #![trigger self.contacts@[i]]
            0 <= i < self.contacts@.len() && place_of(self.contacts@, self.contacts@[i].id)
                == Some(i) ==> self.contacts@[i].tracking_retry_count + misses_on(
                self.radar_states@,
                found,
                found.len(),
                self.contacts@[i].id,
            ) <= u32::MAX
    }

    /// Whether a miss by each of two radars can be counted for every contact.
    pub open spec fn room_for_any_misses(self) -> bool {
        forall|i: int|
            #![trigger self.contacts@[i]]
            0 <= i < self.contacts@.len() ==> self.contacts@[i].can_be_missed()
    }

    /// Whether ticks without a measurement can be counted.
    pub open spec fn room_for_ageing(self) -> bool {
        forall|i: int|
            #![trigger self.contacts@[i]]
            0 <= i < self.contacts@.len() ==> self.contacts@[i].can_age()
    }

    /// Whether one more full sweep can be counted.
    pub open spec fn room_for_sweeps(self) -> bool {
        self.full_scans < u32::MAX
    }

    /// Whether no counter is about to run over.
    pub open spec fn counters_ok(self) -> bool {
        &&& self.room_for_tracking_hits()
        &&& self.room_for_any_misses()
        &&& self.room_for_ageing()
        &&& self.room_for_sweeps()
    }

    /// Whether all but the contact list and the next id is as in `before`.
    pub open spec fn same_duties(self, before: RadarController) -> bool {
        &&& self.non_provisional_contacts == before.non_provisional_contacts
        &&& self.radar_states == before.radar_states
        &&& self.current_target_id == before.current_target_id
        &&& self.full_scans == before.full_scans
        &&& self.priority_targets == before.priority_targets
        &&& self.scan_ticks == before.scan_ticks
        &&& self.jamming_mode == before.jamming_mode
        &&& self.new_missile_scan_ticks == before.new_missile_scan_ticks
    }

    /// What a hit that no radar was tracking for makes of the contacts and of the next
    /// id, and its effect: it measures the contact that it belongs to, or adds one,
    /// unless it lies beyond the reliable range of its beam. In the first two cases
    /// missiles and torpedoes that move away are dropped after it.
    pub open spec fn scan_outcome(self, tick: u32, hit: ScanHit, sightings: Seq<Sighting>) -> (
        Seq<Contact>,
        int,
        HitEffect,
    ) {
        let contacts = self.contacts@;
        let next = self.next_contact_id;
        match best_match(contacts, hit, sightings) {
            Some((best_id, _)) => {
                let place = place_of(contacts, best_id)->0;
                let measured = contacts.update(
                    place,
                    measured_by(contacts[place], tick, hit, sightings[place]),
                );
                (
                    kept(measured, approaching(measured, receding_after(sightings, place))),
                    next as int,
                    HitEffect::Measured { contact_id: best_id },
                )
            },
            None => if hit.unreliable() {
                (contacts, next as int, HitEffect::Ignored)
            } else {
                let grown = contacts.push(
                    Contact::fresh(
                        next,
                        hit.class,
                        tick,
                        !hit.is_ping(),
                        self.new_missile_scan_ticks,
                    ),
                );
                (
                    kept(grown, approaching(grown, receding_with(sightings, hit.receding))),
                    next + 1,
                    HitEffect::Added { contact_id: next },
                )
            },
        }
    }

    /// What a hit on a tracking radar makes of the contacts and of the next id, and its
    /// effect: it measures the contact that it belongs to, attempts that contact's
    /// confirmation and drops duplicates; or it adds a provisional contact, unless it
    /// lies beyond the reliable range of its beam or a contact of its class is within
    /// its confidence radius.
    pub open spec fn tracking_outcome(self, tick: u32, hit: ScanHit, sightings: Seq<Sighting>) -> (
        Seq<Contact>,
        int,
        HitEffect,
    ) {
        let contacts = self.contacts@;
        let next = self.next_contact_id;
        match best_match(contacts, hit, sightings) {
            Some((best_id, _)) => {
                let place = place_of(contacts, best_id)->0;
                let followed = tracked_contact(contacts, place, tick, sightings);
                (
                    kept(
                        contacts.update(place, followed),
                        tracking_keeps(contacts, sightings, followed),
                    ),
                    next as int,
                    HitEffect::Measured { contact_id: best_id },
                )
            },
            None => if hit.unreliable() || already_known(contacts, sightings, hit) {
                (contacts, next as int, HitEffect::Ignored)
            } else {
                (
                    contacts.push(
                        Contact::fresh(next, hit.class, tick, true, self.new_missile_scan_ticks),
                    ),
                    next + 1,
                    HitEffect::Added { contact_id: next },
                )
            },
        }
    }

    /// With at most two radars, room for any misses is room for those that there are.
    pub proof fn law_headroom_covers_misses(self, found: Seq<bool>)
        requires
            self.room_for_any_misses(),
            found.len() <= 2,
        ensures
            self.room_for_misses(found),
    {
        assert forall|i: int|
            #![trigger self.contacts@[i]]
            0 <= i < self.contacts@.len() implies self.contacts@[i].tracking_retry_count
            + misses_on(self.radar_states@, found, found.len(), self.contacts@[i].id)
            <= u32::MAX by {
            assert(self.contacts@[i].can_be_missed());
            reveal_with_fuel(misses_on, 3);
        }
    }

    // The retry of a contact that radar `r` missed can be counted.
    proof fn lemma_misses_fit(self, found: Seq<bool>, r: int, id: u32)
        requires
            self.room_for_misses(found),
            0 <= r < found.len(),
            self.radar_states@[r] == (RadarState::Tracking { contact_id: id }),
            !found[r],
        ensures
            ({
                let after = after_misses(self.contacts@, self.radar_states@, found, r as nat);
                place_of(after, id) matches Some(p) ==> after[p].tracking_retry_count < u32::MAX
            }),
    {
        lemma_miss_counts(self, found, r as nat, id);
        lemma_misses_grow(self.radar_states@, found, (r + 1) as nat, found.len(), id);
        if let Some(p) = place_of(self.contacts@, id) {
            assert(is_first_with_id(self.contacts@, id, p));
            assert(self.contacts@[p].id == id);
        }
    }

    /// A controller without contacts; every radar scans.
    pub fn new() -> (controller: Self)
        ensures
            controller.wf(),
            controller.contacts@ == Seq::<Contact>::empty(),
            controller.non_provisional_contacts@ == Seq::<Contact>::empty(),
            controller.next_contact_id == 1,
            controller.radar_states@ == seq![RadarState::Scanning, RadarState::Scanning],
            controller.current_target_id is None,
            controller.full_scans == 0,
            controller.priority_targets@ == Seq::<(u32, u32)>::empty(),
            controller.scan_ticks == 0,
            !controller.jamming_mode,
            controller.new_missile_scan_ticks == 8,
    {
        let mut radar_states: Vec<RadarState> = Vec::new();
        radar_states.push(RadarState::Scanning);
        radar_states.push(RadarState::Scanning);
        RadarController {
            contacts: Vec::new(),
            non_provisional_contacts: Vec::new(),
            next_contact_id: 1,
            radar_states,
            current_target_id: None,
            full_scans: 0,
            priority_targets: Vec::new(),
            scan_ticks: 0,
            jamming_mode: false,
            new_missile_scan_ticks: DEFAULT_NEW_MISSILE_SCANS,
        }
    }

    /// Whether no counter is about to run over.
    pub fn has_headroom(&self) -> (ok: bool)
        ensures
            ok == self.counters_ok(),
    {
        if self.next_contact_id == u32::MAX || self.full_scans == u32::MAX {
            return false;
        }
        let mut i: usize = 0;
        while i < self.contacts.len()
            invariant
                0 <= i <= self.contacts.len(),
                forall|j: int|
                    #![trigger self.contacts@[j]]
                    0 <= j < i ==> self.contacts@[j].has_headroom(),
            decreases self.contacts.len() - i,
        {
            let c = self.contacts[i];
            if c.tracking_retry_count > u32::MAX - 2 || (c.provisional && c.confirmation_attempts
                == u32::MAX) || c.unscanned_in_range_ticks == u32::MAX || (c.prioritize_scan
                && c.low_improvement_consecutive_scans == u32::MAX) {
                assert(!self.contacts@[i as int].has_headroom());
                return false;
            }
            i = i + 1;
        }
        true
    }

    /// The confirmed contacts as of the last planning.
    pub fn contacts(&self) -> (contacts: &Vec<Contact>)
        ensures
            contacts@ == self.non_provisional_contacts@,
    {
        &self.non_provisional_contacts
    }

    /// Whether a contact has this id.
    pub fn has_contact(&self, id: u32) -> (has: bool)
        ensures
            has == holds_id(self.contacts@, id),
    {
        place_of_id(&self.contacts, id).is_some()
    }

    /// The first contact with this id.
    pub fn get_contact(&self, id: u32) -> (contact: Option<Contact>)
        ensures
            contact == (match place_of(self.contacts@, id) {
                Some(i) => Some(self.contacts@[i]),
                None => None::<Contact>,
            }),
    {
        match place_of_id(&self.contacts, id) {
            Some(i) => Some(self.contacts[i]),
            None => None,
        }
    }

    /// The contact that a hit belongs to, and its distance from the hit.
    pub fn find_best_matching_contact(&self, hit: &ScanHit, sightings: &Vec<Sighting>) -> (best: Option<
        (u32, u64),
    >)
        requires
            sightings.len() == self.contacts.len(),
        ensures
            best == best_match(self.contacts@, *hit, sightings@),
            best matches Some(b) ==> holds_id(self.contacts@, b.0),
    {
        let mut keys: Vec<Option<u64>> = Vec::new();
        let mut i: usize = 0;
        while i < self.contacts.len()
            invariant
                0 <= i <= self.contacts.len(),
                sightings.len() == self.contacts.len(),
                keys@ == match_keys(self.contacts@, *hit, sightings@).take(i as int),
            decreases self.contacts.len() - i,
        {
            if self.contacts[i].class == hit.class {
                keys.push(sightings[i].gate_key(hit));
            } else {
                keys.push(None);
            }
            proof {
                let all = match_keys(self.contacts@, *hit, sightings@);
                assert(all.take(i as int + 1) =~= all.take(i as int).push(all[i as int]));
            }
            i = i + 1;
        }
        assert(keys@ =~= match_keys(self.contacts@, *hit, sightings@));
        match first_min(&keys) {
            Some(i) => {
                assert(self.contacts@[i as int].id == self.contacts@[i as int].id);
                Some((self.contacts[i].id, sightings[i].distance))
            },
            None => None,
        }
    }

    /// Takes in a hit that no radar was tracking for: measures the contact that it
    /// belongs to, or adds one, unless it lies beyond the reliable range of its beam.
    /// Then drops missiles and torpedoes that move away. Gives the id of the contact, or
    /// 0 where the hit was not taken in.
    pub fn process_scan_hit(&mut self, tick: u32, hit: ScanHit, sightings: &Vec<Sighting>) -> (id: u32)
        requires
            old(self).room_for_hits(),
            sightings.len() == old(self).contacts.len(),
        ensures
            final(self).same_duties(*old(self)),
            old(self).wf() ==> final(self).wf(),
            final(self).contacts@ == old(self).scan_outcome(tick, hit, sightings@).0,
            final(self).next_contact_id == old(self).scan_outcome(tick, hit, sightings@).1,
            id == old(self).scan_outcome(tick, hit, sightings@).2.id_or_zero(),
    {
        proof {
            if self.wf() {
                law_scan_keeps_ids(*self, tick, hit, sightings@);
            }
        }
        let mut receding: Vec<bool> = Vec::new();
        let mut i: usize = 0;
        while i < sightings.len()
            invariant
                0 <= i <= sightings.len(),
                receding@ == Seq::new(i as nat, |j: int| sightings@[j].receding),
            decreases sightings.len() - i,
        {
            receding.push(sightings[i].receding);
            i = i + 1;
        }
        match self.find_best_matching_contact(&hit, sightings) {
            Some((best_id, _)) => {
                match place_of_id(&self.contacts, best_id) {
                    Some(place) => {
                        let mut contact = self.contacts[place];
                        assert(self.contacts@[place as int].can_be_measured());
                        contact.take_measurement(tick, improves_little(sightings[place].improvement));
                        if hit.radio_ping() {
                            contact.provisional = false;
                        }
                        self.contacts.set(place, contact);
                        receding.set(place, sightings[place].receding_if_measured);
                        assert(receding@ =~= receding_after(sightings@, place as int));
                    },
                    None => {
                        assert(false);
                    },
                }
                self.drop_receding(&receding);
                best_id
            },
            None => {
                if hit.beyond_reliable() {
                    return 0;
                }
                let new_id: u32 = self.next_contact_id;
                let contact = Contact::discovered(
                    new_id,
                    hit.class,
                    tick,
                    !hit.radio_ping(),
                    self.new_missile_scan_ticks,
                );
                self.contacts.push(contact);
                self.next_contact_id = new_id + 1;
                receding.push(hit.receding);
                assert(receding@ =~= receding_with(sightings@, hit.receding));
                self.drop_receding(&receding);
                new_id
            },
        }
    }

    /// Drops missiles and torpedoes that move away.
    pub fn drop_receding(&mut self, receding: &Vec<bool>)
        requires
            receding.len() == old(self).contacts.len(),
        ensures
            final(self).same_duties(*old(self)),
            old(self).wf() ==> final(self).wf(),
            final(self).next_contact_id == old(self).next_contact_id,
            final(self).contacts@ == kept(
                old(self).contacts@,
                approaching(old(self).contacts@, receding@),
            ),
    {
        let mut keep: Vec<bool> = Vec::new();
        let mut i: usize = 0;
        while i < self.contacts.len()
            invariant
                0 <= i <= self.contacts.len(),
                receding.len() == self.contacts.len(),
                keep@ == approaching(self.contacts@, receding@).take(i as int),
            decreases self.contacts.len() - i,
        {
            let class = self.contacts[i].class;
            let munition = class == Class::Missile || class == Class::Torpedo;
            keep.push(!(munition && receding[i]));
            proof {
                let all = approaching(self.contacts@, receding@);
                assert(all.take(i as int + 1) =~= all.take(i as int).push(all[i as int]));
            }
            i = i + 1;
        }
        assert(keep@ =~= approaching(self.contacts@, receding@));
        proof {
            if self.wf() {
                lemma_kept_ids(self.contacts@, keep@, self.next_contact_id as int);
            }
        }
        retain_flagged(&mut self.contacts, &keep);
    }

    /// How many ticks ago a position report with the tick byte `sent` was made.
    pub fn ping_age(tick: u32, sent: u8) -> (age: u8)
        ensures
            age == (tick - sent) % 256,
    {
        let low: u8 = (tick % 256) as u8;
        low.wrapping_sub(sent)
    }

    /// Takes in a position report from the radio, as a hit that needs no confirmation.
    pub fn add_radio_ping(&mut self, tick: u32, report: ScanHit, sightings: &Vec<Sighting>) -> (id: u32)
        requires
            old(self).room_for_hits(),
            sightings.len() == old(self).contacts.len(),
        ensures
            final(self).same_duties(*old(self)),
            old(self).wf() ==> final(self).wf(),
            ({
                let hit = report.as_ping();
                let outcome = old(self).scan_outcome(tick, hit, sightings@);
                &&& final(self).contacts@ == outcome.0
                &&& final(self).next_contact_id == outcome.1
                &&& id == outcome.2.id_or_zero()
            }),
    {
        let hit = ScanHit { snr: RADIO_PING_SNR, reliable_range: None, ..report };
        self.process_scan_hit(tick, hit, sightings)
    }

    /// Takes in which radars found something. A tracking radar that found nothing counts
    /// a retry for its contact; the ids of these contacts are given, in the order of the
    /// radars, so that their search boundaries grow. Also tells whether there was any hit.
    pub fn process_scans(&mut self, found: &Vec<bool>) -> (intake: (bool, Vec<u32>))
        requires
            old(self).room_for_misses(found@),
            found.len() <= old(self).radar_states.len(),
        ensures
            final(self).same_duties(*old(self)),
            old(self).wf() ==> final(self).wf(),
            final(self).next_contact_id == old(self).next_contact_id,
            final(self).contacts@ == after_misses(
                old(self).contacts@,
                old(self).radar_states@,
                found@,
                found@.len(),
            ),
            intake.0 == found@.contains(true),
            intake.1@ == missed_ids(
                old(self).contacts@,
                old(self).radar_states@,
                found@,
                found@.len(),
            ),
    {
        let mut hit_seen = false;
        let mut missed: Vec<u32> = Vec::new();
        let ghost before = self.contacts@;
        let mut i: usize = 0;
        while i < found.len()
            invariant
                0 <= i <= found.len(),
                old(self).room_for_misses(found@),
                found.len() <= self.radar_states.len(),
                self.same_duties(*old(self)),
                self.next_contact_id == old(self).next_contact_id,
                before == old(self).contacts@,
                self.contacts@ == after_misses(before, self.radar_states@, found@, i as nat),
                missed@ == missed_ids(before, self.radar_states@, found@, i as nat),
                hit_seen == exists|j: int| 0 <= j < i && #[trigger] found@[j],
            decreases found.len() - i,
        {
            if found[i] {
                hit_seen = true;
            } else if let RadarState::Tracking { contact_id } = self.radar_states[i] {
                if let Some(place) = place_of_id(&self.contacts, contact_id) {
                    let mut contact = self.contacts[place];
                    proof {
                        old(self).lemma_misses_fit(found@, i as int, contact_id);
                    }
                    contact.tracking_retry_count = contact.tracking_retry_count + 1;
                    self.contacts.set(place, contact);
                    missed.push(contact_id);
                }
            }
            i = i + 1;
        }
        proof {
            if hit_seen {
                let j = choose|j: int| 0 <= j < found@.len() && #[trigger] found@[j];
                assert(found@[j] == true);
            }
            law_misses_keep_ids(before, self.radar_states@, found@, found@.len());
            if old(self).wf() {
                let after = self.contacts@;
                assert forall|a: int, b: int|
                    #![trigger after[a], after[b]]
                    0 <= a < b < after.len() implies after[a].id != after[b].id by {
                    assert(before[a].id != before[b].id);
                }
                assert forall|a: int| #![trigger after[a]] 0 <= a < after.len() implies 0
                    < after[a].id < self.next_contact_id by {
                    assert(0 < before[a].id < self.next_contact_id);
                }
            }
        }
        (hit_seen, missed)
    }

    /// Takes in a hit on a radar that is tracking the contact `contact_id`.
    pub fn process_tracking_hit(
        &mut self,
        contact_id: u32,
        tick: u32,
        hit: ScanHit,
        sightings: &Vec<Sighting>,
    ) -> (report: TrackReport)
        requires
            old(self).room_for_tracking_hits(),
            sightings.len() == old(self).contacts.len(),
        ensures
            final(self).same_duties(*old(self)),
            old(self).wf() ==> final(self).wf(),
            final(self).contacts@ == old(self).tracking_outcome(tick, hit, sightings@).0,
            final(self).next_contact_id == old(self).tracking_outcome(tick, hit, sightings@).1,
            report.effect == old(self).tracking_outcome(tick, hit, sightings@).2,
            report.missed == (if report.effect != (HitEffect::Measured { contact_id }) && holds_id(
                final(self).contacts@,
                contact_id,
            ) {
                Some(contact_id)
            } else {
                None
            }),
    {
        proof {
            if self.wf() {
                law_tracking_keeps_ids(*self, tick, hit, sightings@);
            }
        }
        let best = self.find_best_matching_contact(&hit, sightings);
        let effect = match best {
            Some((best_id, _)) => {
                match place_of_id(&self.contacts, best_id) {
                    Some(place) => self.measure_while_tracking(place, tick, sightings),
                    None => {
                        assert(false);
                    },
                }
                HitEffect::Measured { contact_id: best_id }
            },
            None => {
                if !hit.beyond_reliable() && !self.knows(&hit, sightings) {
                    let new_id: u32 = self.next_contact_id;
                    let contact = Contact::discovered(
                        new_id,
                        hit.class,
                        tick,
                        true,
                        self.new_missile_scan_ticks,
                    );
                    self.contacts.push(contact);
                    self.next_contact_id = new_id + 1;
                    HitEffect::Added { contact_id: new_id }
                } else {
                    HitEffect::Ignored
                }
            },
        };
        let found_it = match best {
            Some((best_id, _)) => best_id == contact_id,
            None => false,
        };
        let missed = if !found_it && self.has_contact(contact_id) {
            Some(contact_id)
        } else {
            None
        };
        TrackReport { effect, missed }
    }

    // Measures the contact at `place`, attempts its confirmation, and drops duplicates.
    fn measure_while_tracking(&mut self, place: usize, tick: u32, sightings: &Vec<Sighting>)
        requires
            old(self).room_for_tracking_hits(),
            sightings.len() == old(self).contacts.len(),
            place < old(self).contacts.len(),
        ensures
            final(self).same_duties(*old(self)),
            old(self).wf() ==> final(self).wf(),
            final(self).next_contact_id == old(self).next_contact_id,
            ({
                let followed = tracked_contact(old(self).contacts@, place as int, tick, sightings@);
                final(self).contacts@ == kept(
                    old(self).contacts@.update(place as int, followed),
                    tracking_keeps(old(self).contacts@, sightings@, followed),
                )
            }),
    {
        let ghost before = self.contacts@;
        let best_id: u32 = self.contacts[place].id;
        let mut earlier_confusable_seen = false;
        let mut earlier_duplicate_seen = false;
        let mut i: usize = 0;
        while i < self.contacts.len()
            invariant
                0 <= i <= self.contacts.len(),
                sightings.len() == self.contacts.len(),
                earlier_confusable_seen == exists|j: int|
                    0 <= j < i && #[trigger] self.contacts@[j].id < best_id
                        && sightings@[j].confusable(),
                earlier_duplicate_seen == exists|j: int|
                    0 <= j < i && #[trigger] self.contacts@[j].id < best_id
                        && sightings@[j].duplicate(),
            decreases self.contacts.len() - i,
        {
            if self.contacts[i].id < best_id {
                assert(self.contacts@[i as int].id < best_id);
                if sightings[i].distance <= METERS_30 {
                    earlier_confusable_seen = true;
                }
                if sightings[i].distance < METERS_15 {
                    earlier_duplicate_seen = true;
                }
            }
            i = i + 1;
        }
        let mut contact = self.contacts[place];
        assert(before[place as int].can_be_measured() && before[place as int].can_be_confirmed());
        contact.take_measurement(tick, improves_little(sightings[place].improvement));
        contact.attempt_confirmation(!earlier_confusable_seen);
        let spent = contact.provisional && contact.confirmation_attempts
            >= crate::contact::MAX_CONFIRMATION_ATTEMPTS;
        let mut keep: Vec<bool> = Vec::new();
        let ghost flags = tracking_keeps(before, sightings@, contact);
        let mut k: usize = 0;
        while k < self.contacts.len()
            invariant
                0 <= k <= self.contacts.len(),
                sightings.len() == self.contacts.len(),
                self.contacts@ == before,
                contact.id == best_id,
                spent == contact.attempts_spent(),
                earlier_duplicate_seen == earlier_duplicate(before, sightings@, best_id),
                flags == tracking_keeps(before, sightings@, contact),
                keep@ == flags.take(k as int),
            decreases self.contacts.len() - k,
        {
            let other: u32 = self.contacts[k].id;
            let stays = if spent {
                other != best_id
            } else if other == best_id {
                !earlier_duplicate_seen
            } else {
                !(other > best_id && sightings[k].distance < METERS_15)
            };
            keep.push(stays);
            assert(flags.take(k as int + 1) =~= flags.take(k as int).push(flags[k as int]));
            k = k + 1;
        }
        assert(keep@ =~= flags);
        proof {
            if self.wf() {
                lemma_update_ids(before, place as int, contact, self.next_contact_id as int);
                lemma_kept_ids(
                    before.update(place as int, contact),
                    flags,
                    self.next_contact_id as int,
                );
            }
        }
        self.contacts.set(place, contact);
        retain_flagged(&mut self.contacts, &keep);
    }

    // Whether a contact of the hit's class lies within its confidence radius.
    fn knows(&self, hit: &ScanHit, sightings: &Vec<Sighting>) -> (known: bool)
        requires
            sightings.len() == self.contacts.len(),
        ensures
            known == already_known(self.contacts@, sightings@, *hit),
    {
        let mut i: usize = 0;
        while i < self.contacts.len()
            invariant
                0 <= i <= self.contacts.len(),
                sightings.len() == self.contacts.len(),
                forall|j: int|
                    #![trigger self.contacts@[j]]
                    0 <= j < i ==> !(self.contacts@[j].class == hit.class && sightings@[j].distance
                        <= hit.radius),
            decreases self.contacts.len() - i,
        {
            if self.contacts[i].class == hit.class && sightings[i].distance <= hit.radius {
                assert(self.contacts@[i as int].class == hit.class);
                return true;
            }
            i = i + 1;
        }
        false
    }

    /// Takes in a hit on one of the radars, by what that radar was doing.
    pub fn process_radar_hit(
        &mut self,
        radar: usize,
        tick: u32,
        hit: ScanHit,
        sightings: &Vec<Sighting>,
    ) -> (report: TrackReport)
        requires
            match old(self).radar_states@[radar as int] {
                RadarState::Tracking { .. } => old(self).room_for_tracking_hits(),
                _ => old(self).room_for_hits(),
            },
            sightings.len() == old(self).contacts.len(),
            radar < old(self).radar_states.len(),
        ensures
            final(self).same_duties(*old(self)),
            old(self).wf() ==> final(self).wf(),
            match old(self).radar_states@[radar as int] {
                RadarState::Tracking { contact_id } => {
                    let outcome = old(self).tracking_outcome(tick, hit, sightings@);
                    &&& final(self).contacts@ == outcome.0
                    &&& final(self).next_contact_id == outcome.1
                    &&& report.effect == outcome.2
                    &&& report.missed == (if report.effect != (HitEffect::Measured { contact_id })
                        && holds_id(final(self).contacts@, contact_id) {
                        Some(contact_id)
                    } else {
                        None
                    })
                },
                _ => {
                    let outcome = old(self).scan_outcome(tick, hit, sightings@);
                    &&& final(self).contacts@ == outcome.0
                    &&& final(self).next_contact_id == outcome.1
                    &&& report.effect == outcome.2
                    &&& report.missed is None
                },
            },
    {
        match self.radar_states[radar] {
            RadarState::Tracking { contact_id } => self.process_tracking_hit(
                contact_id,
                tick,
                hit,
                sightings,
            ),
            _ => {
                let matched = self.find_best_matching_contact(&hit, sightings);
                let next_before: u32 = self.next_contact_id;
                let id: u32 = self.process_scan_hit(tick, hit, sightings);
                let effect = match matched {
                    Some(_) => HitEffect::Measured { contact_id: id },
                    None => if self.next_contact_id != next_before {
                        HitEffect::Added { contact_id: id }
                    } else {
                        HitEffect::Ignored
                    },
                };
                TrackReport { effect, missed: None }
            },
        }
    }

    /// Ages every contact and drops those that do not survive the clean-up of `tick`.
    /// `views` tells how each contact lies.
    pub fn cleanup(&mut self, tick: u32, views: &Vec<RangeView>)
        requires
            old(self).room_for_ageing(),
            views.len() == old(self).contacts.len(),
        ensures
            final(self).same_duties(*old(self)),
            old(self).wf() ==> final(self).wf(),
            final(self).next_contact_id == old(self).next_contact_id,
            ({
                let aged = aged_contacts(old(self).contacts@, tick, views@);
                final(self).contacts@ == kept(aged, survivors(aged, tick, views@))
            }),
    {
        let ghost before = self.contacts@;
        let ghost aged = aged_contacts(before, tick, views@);
        let mut keep: Vec<bool> = Vec::new();
        let mut i: usize = 0;
        while i < self.contacts.len()
            invariant
                0 <= i <= self.contacts.len(),
                self.contacts.len() == before.len(),
                views.len() == before.len(),
                aged == aged_contacts(before, tick, views@),
                self.same_duties(*old(self)),
                self.next_contact_id == old(self).next_contact_id,
                forall|j: int|
                    #![trigger before[j]]
                    0 <= j < before.len() ==> before[j].can_age(),
                forall|j: int| #![trigger aged[j]] 0 <= j < i ==> self.contacts@[j] == aged[j],
                forall|j: int| i <= j < before.len() ==> self.contacts@[j] == before[j],
                keep@ == survivors(aged, tick, views@).take(i as int),
            decreases self.contacts.len() - i,
        {
            let mut contact = self.contacts[i];
            assert(before[i as int].can_age());
            contact.age(tick, views[i].distance <= views[i].max_range);
            assert(contact == aged[i as int]);
            self.contacts.set(i, contact);
            keep.push(contact.keeps(tick, views[i].receding));
            proof {
                let all = survivors(aged, tick, views@);
                assert(all.take(i as int + 1) =~= all.take(i as int).push(all[i as int]));
            }
            i = i + 1;
        }
        assert(self.contacts@ =~= aged);
        proof {
            if old(self).wf() {
                law_cleanup_keeps_ids(
                    before,
                    self.next_contact_id as int,
                    tick,
                    views@,
                );
            }
        }
        assert(keep@ =~= survivors(aged, tick, views@));
        retain_flagged(&mut self.contacts, &keep);
    }

    /// The contact to aim for: the one chosen before as long as it is there and confirmed,
    /// else the confirmed one that will be closest. `future_distances` tells, for each
    /// contact, how far it will be.
    pub fn update_target(&mut self, future_distances: &Vec<u64>) -> (target: Option<Contact>)
        requires
            future_distances.len() == old(self).contacts.len(),
        ensures
            old(self).wf() ==> final(self).wf(),
            final(self).contacts == old(self).contacts,
            final(self).non_provisional_contacts == old(self).non_provisional_contacts,
            final(self).next_contact_id == old(self).next_contact_id,
            final(self).radar_states == old(self).radar_states,
            final(self).full_scans == old(self).full_scans,
            final(self).priority_targets == old(self).priority_targets,
            final(self).scan_ticks == old(self).scan_ticks,
            final(self).jamming_mode == old(self).jamming_mode,
            final(self).new_missile_scan_ticks == old(self).new_missile_scan_ticks,
            final(self).current_target_id == next_target(
                old(self).contacts@,
                old(self).current_target_id,
                future_distances@,
            ),
            target == (match final(self).current_target_id {
                Some(id) => match place_of(old(self).contacts@, id) {
                    Some(i) => Some(old(self).contacts@[i]),
                    None => None,
                },
                None => None::<Contact>,
            }),
    {
        if let Some(id) = self.current_target_id {
            if !self.has_confirmed(id) {
                self.current_target_id = None;
            }
        }
        if self.current_target_id.is_none() {
            let mut keys: Vec<Option<u64>> = Vec::new();
            let ghost all = target_keys(self.contacts@, future_distances@);
            let mut i: usize = 0;
            while i < self.contacts.len()
                invariant
                    0 <= i <= self.contacts.len(),
                    future_distances.len() == self.contacts.len(),
                    all == target_keys(self.contacts@, future_distances@),
                    keys@ == all.take(i as int),
                decreases self.contacts.len() - i,
            {
                if self.contacts[i].provisional {
                    keys.push(None);
                } else {
                    keys.push(Some(future_distances[i]));
                }
                assert(all.take(i as int + 1) =~= all.take(i as int).push(all[i as int]));
                i = i + 1;
            }
            assert(keys@ =~= all);
            self.current_target_id = match first_min(&keys) {
                Some(i) => Some(self.contacts[i].id),
                None => None,
            };
        }
        match self.current_target_id {
            Some(id) => self.get_contact(id),
            None => None,
        }
    }

    // Whether a confirmed contact has this id.
    fn has_confirmed(&self, id: u32) -> (has: bool)
        ensures
            has == holds_confirmed(self.contacts@, id),
    {
        let mut i: usize = 0;
        while i < self.contacts.len()
            invariant
                0 <= i <= self.contacts.len(),
                forall|j: int|
                    #![trigger self.contacts@[j]]
                    0 <= j < i ==> !(self.contacts@[j].id == id && !self.contacts@[j].provisional),
            decreases self.contacts.len() - i,
        {
            if self.contacts[i].id == id && !self.contacts[i].provisional {
                assert(self.contacts@[i as int].id == id);
                return true;
            }
            i = i + 1;
        }
        false
    }
}

/// Where there is a match, some contact of the hit's class has the matched id.
proof fn lemma_match_place(contacts: Seq<Contact>, hit: ScanHit, sightings: Seq<Sighting>)
    requires
        sightings.len() == contacts.len(),
        best_match(contacts, hit, sightings) is Some,
    ensures
        ({
            let (id, _) = best_match(contacts, hit, sightings)->0;
            let place = place_of(contacts, id);
            &&& place is Some
            &&& 0 <= place->0 < contacts.len()
            &&& contacts[place->0].id == id
        }),
{
    let keys = match_keys(contacts, hit, sightings);
    let i = choose|i: int| crate::select::is_first_min(keys, i);
    assert(crate::select::is_first_min(keys, i));
    let id = contacts[i].id;
    lemma_some_place(contacts, i);
    let p = choose|p: int| is_first_with_id(contacts, id, p);
    assert(is_first_with_id(contacts, id, p));
}

// The id of a contact has a first place.
proof fn lemma_some_place(contacts: Seq<Contact>, i: int)
    requires
        0 <= i < contacts.len(),
    ensures
        exists|p: int| is_first_with_id(contacts, contacts[i].id, p),
    decreases i,
{
    if forall|j: int| #![trigger contacts[j]] 0 <= j < i ==> contacts[j].id != contacts[i].id {
        assert(is_first_with_id(contacts, contacts[i].id, i));
    } else {
        let j = choose|j: int|
            #![trigger contacts[j]]
            0 <= j < i && contacts[j].id == contacts[i].id;
        lemma_some_place(contacts, j);
    }
}

/// Ids stay distinct and below the next one, whatever a hit on a scanning or jamming
/// radar, or a report by radio, does to the contact list.
pub proof fn law_scan_keeps_ids(controller: RadarController, tick: u32, hit: ScanHit, sightings: Seq<Sighting>)
    requires
        controller.wf(),
        sightings.len() == controller.contacts@.len(),
    ensures
        ids_distinct(controller.scan_outcome(tick, hit, sightings).0),
        ids_below(
            controller.scan_outcome(tick, hit, sightings).0,
            controller.scan_outcome(tick, hit, sightings).1,
        ),
{
    let contacts = controller.contacts@;
    let next = controller.next_contact_id;
    match best_match(contacts, hit, sightings) {
        Some((best_id, _)) => {
            lemma_match_place(contacts, hit, sightings);
            let place = place_of(contacts, best_id)->0;
            let contact = measured_by(contacts[place], tick, hit, sightings[place]);
            lemma_update_ids(contacts, place, contact, next as int);
            let measured = contacts.update(place, contact);
            lemma_kept_ids(
                measured,
                approaching(measured, receding_after(sightings, place)),
                next as int,
            );
        },
        None => if !hit.unreliable() {
            let contact = Contact::fresh(
                next,
                hit.class,
                tick,
                !hit.is_ping(),
                controller.new_missile_scan_ticks,
            );
            lemma_push_ids(contacts, contact);
            let grown = contacts.push(contact);
            lemma_kept_ids(
                grown,
                approaching(grown, receding_with(sightings, hit.receding)),
                next + 1,
            );
        },
    }
}

/// Ids stay distinct and below the next one, whatever a hit on a tracking radar does to
/// the contact list.
pub proof fn law_tracking_keeps_ids(controller: RadarController, tick: u32, hit: ScanHit, sightings: Seq<Sighting>)
    requires
        controller.wf(),
        sightings.len() == controller.contacts@.len(),
    ensures
        ids_distinct(controller.tracking_outcome(tick, hit, sightings).0),
        ids_below(
            controller.tracking_outcome(tick, hit, sightings).0,
            controller.tracking_outcome(tick, hit, sightings).1,
        ),
{
    let contacts = controller.contacts@;
    let next = controller.next_contact_id;
    match best_match(contacts, hit, sightings) {
        Some((best_id, _)) => {
            lemma_match_place(contacts, hit, sightings);
            let place = place_of(contacts, best_id)->0;
            let followed = tracked_contact(contacts, place, tick, sightings);
            lemma_update_ids(contacts, place, followed, next as int);
            lemma_kept_ids(
                contacts.update(place, followed),
                tracking_keeps(contacts, sightings, followed),
                next as int,
            );
        },
        None => {
            lemma_push_ids(
                contacts,
                Contact::fresh(next, hit.class, tick, true, controller.new_missile_scan_ticks),
            );
        },
    }
}

/// Ids stay as they are when radars report what they found.
pub proof fn law_misses_keep_ids(contacts: Seq<Contact>, states: Seq<RadarState>, found: Seq<bool>, n: nat)
    ensures
        after_misses(contacts, states, found, n).len() == contacts.len(),
        forall|i: int|
            #![trigger contacts[i]]
            0 <= i < contacts.len() ==> after_misses(contacts, states, found, n)[i].id
                == contacts[i].id,
    decreases n,
{
    if n > 0 {
        law_misses_keep_ids(contacts, states, found, (n - 1) as nat);
        let before = after_misses(contacts, states, found, (n - 1) as nat);
        if let Some(place) = missed_place(before, states[n - 1], found[n - 1]) {
            let id = states[n - 1]->Tracking_contact_id;
            let p = choose|p: int| is_first_with_id(before, id, p);
            assert(is_first_with_id(before, id, p));
        }
    }
}

// More radars miss no fewer times.
proof fn lemma_misses_grow(states: Seq<RadarState>, found: Seq<bool>, m: nat, n: nat, id: u32)
    requires
        m <= n,
    ensures
        misses_on(states, found, m, id) <= misses_on(states, found, n, id),
    decreases n,
{
    if m < n {
        lemma_misses_grow(states, found, m, (n - 1) as nat, id);
    }
}

// Misses leave a contact at its place, and count one retry each.
proof fn lemma_miss_counts(controller: RadarController, found: Seq<bool>, n: nat, id: u32)
    requires
        controller.room_for_misses(found),
        n <= found.len(),
    ensures
        ({
            let contacts = controller.contacts@;
            let states = controller.radar_states@;
            let after = after_misses(contacts, states, found, n);
            &&& place_of(after, id) == place_of(contacts, id)
            &&& place_of(contacts, id) matches Some(p) ==> after[p].tracking_retry_count
                == contacts[p].tracking_retry_count + misses_on(states, found, n, id)
        }),
    decreases n,
{
    let contacts = controller.contacts@;
    let states = controller.radar_states@;
    let after = after_misses(contacts, states, found, n);
    law_misses_keep_ids(contacts, states, found, n);
    match place_of(contacts, id) {
        Some(p) => {
            assert(is_first_with_id(contacts, id, p));
            assert forall|j: int| #![trigger after[j]] 0 <= j < p implies after[j].id != id by {
                assert(contacts[j].id != id);
            }
            assert(after[p].id == contacts[p].id);
            assert(is_first_with_id(after, id, p));
            crate::contact::lemma_place_unique(after, id, p);
            if n > 0 {
                let before = after_misses(contacts, states, found, (n - 1) as nat);
                law_misses_keep_ids(contacts, states, found, (n - 1) as nat);
                lemma_miss_counts(controller, found, (n - 1) as nat, id);
                lemma_misses_grow(states, found, n, found.len(), id);
                if let Some(q) = missed_place(before, states[n - 1], found[n - 1]) {
                    let other = states[n - 1]->Tracking_contact_id;
                    assert(is_first_with_id(before, other, q));
                    assert(before[q].id == contacts[q].id);
                }
            }
        },
        None => {
            if let Some(q) = place_of(after, id) {
                assert(is_first_with_id(after, id, q));
                assert(contacts[q].id == id);
                assert forall|j: int| #![trigger contacts[j]] 0 <= j < q implies contacts[j].id
                    != id by {
                    assert(after[j].id != id);
                }
                assert(is_first_with_id(contacts, id, q));
            }
        },
    }
}

/// The clean-up keeps ids distinct and bounded.
pub proof fn law_cleanup_keeps_ids(
    contacts: Seq<Contact>,
    bound: int,
    tick: u32,
    views: Seq<RangeView>,
)
    requires
        ids_distinct(contacts),
        ids_below(contacts, bound),
    ensures
        ({
            let aged = aged_contacts(contacts, tick, views);
            let left = kept(aged, survivors(aged, tick, views));
            ids_distinct(left) && ids_below(left, bound)
        }),
{
    let aged = aged_contacts(contacts, tick, views);
    assert forall|i: int, j: int| #![trigger aged[i], aged[j]] 0 <= i < j < aged.len() implies aged[i].id
        != aged[j].id by {
        assert(contacts[i].id != contacts[j].id);
    }
    assert forall|i: int| #![trigger aged[i]] 0 <= i < aged.len() implies 0 < aged[i].id < bound by {
        assert(0 < contacts[i].id < bound);
    }
    lemma_kept_ids(aged, survivors(aged, tick, views), bound);
}

/// A contact that a report by radio measured or added is confirmed, if it is there at all.
pub proof fn law_radio_ping_confirms(
    controller: RadarController,
    tick: u32,
    report: ScanHit,
    sightings: Seq<Sighting>,
    contact: Contact,
)
    requires
        controller.wf(),
        sightings.len() == controller.contacts@.len(),
        ({
            let hit = report.as_ping();
            let outcome = controller.scan_outcome(tick, hit, sightings);
            outcome.0.contains(contact) && contact.id == outcome.2.id_or_zero()
        }),
    ensures
        !contact.provisional,
{
    let contacts = controller.contacts@;
    let hit = report.as_ping();
    match best_match(contacts, hit, sightings) {
        Some((best_id, _)) => {
            lemma_match_place(contacts, hit, sightings);
            let place = place_of(contacts, best_id)->0;
            let changed = measured_by(contacts[place], tick, hit, sightings[place]);
            let measured = contacts.update(place, changed);
            let flags = approaching(measured, receding_after(sightings, place));
            crate::select::lemma_kept_contains(measured, flags, contact);
            let i = choose|i: int|
                0 <= i < measured.len() && #[trigger] measured[i] == contact && flags[i];
            if i != place {
                assert(contacts[i].id != contacts[place].id);
            }
        },
        None => {
            let grown = contacts.push(
                Contact::fresh(
                    controller.next_contact_id,
                    hit.class,
                    tick,
                    false,
                    controller.new_missile_scan_ticks,
                ),
            );
            let flags = approaching(grown, receding_with(sightings, hit.receding));
            crate::select::lemma_kept_contains(grown, flags, contact);
            let i = choose|i: int|
                0 <= i < grown.len() && #[trigger] grown[i] == contact && flags[i];
            if i < contacts.len() {
                assert(contacts[i].id < controller.next_contact_id);
            }
        },
    }
}

/// A hit that is taken in is known by its id right away, unless it is a missile or torpedo
/// that moves away: such a one is not kept.
pub proof fn law_new_contact_is_kept_unless_receding(
    controller: RadarController,
    tick: u32,
    hit: ScanHit,
    sightings: Seq<Sighting>,
)
    requires
        controller.wf(),
        sightings.len() == controller.contacts@.len(),
        best_match(controller.contacts@, hit, sightings) is None,
        !hit.unreliable(),
    ensures
        holds_id(
            controller.scan_outcome(tick, hit, sightings).0,
            controller.next_contact_id,
        ) <==> !(hit.class.is_munition() && hit.receding),
{
    let contacts = controller.contacts@;
    let contact = Contact::fresh(
        controller.next_contact_id,
        hit.class,
        tick,
        !hit.is_ping(),
        controller.new_missile_scan_ticks,
    );
    let grown = contacts.push(contact);
    let flags = approaching(grown, receding_with(sightings, hit.receding));
    let left = kept(grown, flags);
    crate::select::lemma_kept_contains(grown, flags, contact);
    assert(grown[contacts.len() as int] == contact);
    if flags[contacts.len() as int] {
        let i = left.index_of(contact);
        assert(left[i].id == controller.next_contact_id);
    } else if holds_id(left, controller.next_contact_id) {
        let i = choose|i: int|
            0 <= i < left.len() && #[trigger] left[i].id == controller.next_contact_id;
        assert(left.contains(left[i]));
        crate::select::lemma_kept_contains(grown, flags, left[i]);
        let j = choose|j: int| 0 <= j < grown.len() && #[trigger] grown[j] == left[i] && flags[j];
        if j < contacts.len() {
            assert(contacts[j].id < controller.next_contact_id);
        }
    }
}

/// No missile or torpedo that moves away is left after a hit was taken in.
pub proof fn law_receding_munitions_are_dropped(contacts: Seq<Contact>, receding: Seq<bool>, contact: Contact)
    requires
        receding.len() == contacts.len(),
        kept(contacts, approaching(contacts, receding)).contains(contact),
    ensures
        exists|i: int|
            0 <= i < contacts.len() && #[trigger] contacts[i] == contact && !(
            contact.class.is_munition() && receding[i]),
{
    let flags = approaching(contacts, receding);
    crate::select::lemma_kept_contains(contacts, flags, contact);
    let i = choose|i: int| 0 <= i < contacts.len() && #[trigger] contacts[i] == contact && flags[i];
    assert(contacts[i] == contact);
}

// With distinct ids, the contact that a hit belongs to is found by its id at its own place.
proof fn lemma_best_match(contacts: Seq<Contact>, hit: ScanHit, sightings: Seq<Sighting>)
    requires
        ids_distinct(contacts),
        sightings.len() == contacts.len(),
    ensures
        match best_match(contacts, hit, sightings) {
            Some((id, distance)) => {
                let m = first_min_of(match_keys(contacts, hit, sightings))->0;
                &&& 0 <= m < contacts.len()
                &&& id == contacts[m].id && distance == sightings[m].distance
                &&& place_of(contacts, id) == Some(m)
            },
            None => first_min_of(match_keys(contacts, hit, sightings)) is None,
        },
{
    law_first_min(match_keys(contacts, hit, sightings));
    if let Some(m) = first_min_of(match_keys(contacts, hit, sightings)) {
        assert forall|j: int| #![trigger contacts[j]] 0 <= j < m implies contacts[j].id
            != contacts[m].id by {}
        assert(is_first_with_id(contacts, contacts[m].id, m));
        crate::contact::lemma_place_unique(contacts, contacts[m].id, m);
    }
}

/// A hit belongs to a contact of its class whose expected position lies in the beam, and closer
/// to the hit than the contact's gate or the hit's own. Of these it belongs to the closest, and
/// to the first among equals. There is none only where no contact fits.
pub proof fn law_hit_belongs_to_the_closest_fit(
    contacts: Seq<Contact>,
    hit: ScanHit,
    sightings: Seq<Sighting>,
)
    requires
        ids_distinct(contacts),
        sightings.len() == contacts.len(),
    ensures
        ({
            let fits = |i: int|
                {
                    &&& contacts[i].class == hit.class
                    &&& sightings[i].boundary_in_beam != Some(false)
                    &&& sightings[i].circle_in_beam != Some(false)
                    &&& sightings[i].distance < sightings[i].gate || sightings[i].distance < hit.gate
                    &&& sightings[i].distance < FARTHEST
                };
            match best_match(contacts, hit, sightings) {
                Some((id, distance)) => exists|p: int|
                    {
                        &&& 0 <= p < contacts.len()
                        &&& #[trigger] contacts[p].id == id
                        &&& sightings[p].distance == distance
                        &&& fits(p)
                        &&& forall|q: int|
                            #![trigger contacts[q]]
                            0 <= q < contacts.len() && fits(q) ==> distance <= sightings[q].distance
                                && (q < p ==> distance < sightings[q].distance)
                    },
                None => forall|q: int|
                    #![trigger contacts[q]]
                    0 <= q < contacts.len() ==> !fits(q),
            }
        }),
{
    let keys = match_keys(contacts, hit, sightings);
    law_first_min(keys);
    lemma_best_match(contacts, hit, sightings);
    match first_min_of(keys) {
        Some(m) => {
            assert(keys[m] is Some);
            let (id, _) = best_match(contacts, hit, sightings)->0;
            assert(contacts[m].id == id);
            assert forall|q: int|
                #![trigger contacts[q]]
                0 <= q < contacts.len() && contacts[q].class == hit.class && sightings[q].boundary_in_beam
                    != Some(false) && sightings[q].circle_in_beam != Some(false) && (
                sightings[q].distance < sightings[q].gate || sightings[q].distance
                    < hit.gate) implies keys[q] == Some(sightings[q].distance) by {}
        },
        None => {
            assert forall|q: int|
                #![trigger contacts[q]]
                0 <= q < contacts.len() && contacts[q].class == hit.class && sightings[q].boundary_in_beam
                    != Some(false) && sightings[q].circle_in_beam != Some(false) && (
                sightings[q].distance < sightings[q].gate || sightings[q].distance
                    < hit.gate) implies sightings[q].distance >= FARTHEST by {
                assert(keys[q] == Some(sightings[q].distance));
            }
        },
    }
}

/// A hit that no radar was tracking for measures the contact that it belongs to. Where it
/// belongs to none it adds one under the next id, unless it lies beyond the reliable range of
/// its beam; then it does nothing at all.
pub proof fn law_scan_effect(controller: RadarController, tick: u32, hit: ScanHit, sightings: Seq<Sighting>)
    requires
        controller.wf(),
        sightings.len() == controller.contacts@.len(),
    ensures
        ({
            let contacts = controller.contacts@;
            let next = controller.next_contact_id;
            let (after, next_after, effect) = controller.scan_outcome(tick, hit, sightings);
            match best_match(contacts, hit, sightings) {
                Some((id, _)) => effect == (HitEffect::Measured { contact_id: id }) && next_after
                    == next,
                None => if hit.reliable_range is Some && hit.range > hit.reliable_range->0 {
                    effect == HitEffect::Ignored && next_after == next && after == contacts
                } else {
                    effect == (HitEffect::Added { contact_id: next }) && next_after == next + 1
                },
            }
        }),
{
}

/// A hit that is no report by radio, taken in outside a tracking scan, confirms no contact and
/// takes back no confirmation.
pub proof fn law_search_hit_does_not_confirm(
    controller: RadarController,
    tick: u32,
    hit: ScanHit,
    sightings: Seq<Sighting>,
    i: int,
    k: int,
)
    requires
        controller.wf(),
        sightings.len() == controller.contacts@.len(),
        hit.snr != RADIO_PING_SNR,
        0 <= i < controller.contacts@.len(),
        0 <= k < controller.scan_outcome(tick, hit, sightings).0.len(),
        controller.scan_outcome(tick, hit, sightings).0[k].id == controller.contacts@[i].id,
    ensures
        controller.scan_outcome(tick, hit, sightings).0[k].provisional
            == controller.contacts@[i].provisional,
{
    law_scan_changes_one_contact(controller, tick, hit, sightings, k);
    let after = controller.scan_outcome(tick, hit, sightings).0;
    let contacts = controller.contacts@;
    if after[k].id != controller.next_contact_id {
        let p = choose|p: int| 0 <= p < contacts.len() && #[trigger] contacts[p].id == after[k].id;
        if p < i {
            assert(contacts[p].id != contacts[i].id);
        } else if i < p {
            assert(contacts[i].id != contacts[p].id);
        }
    }
}

/// A hit outside a tracking scan leaves each contact that stays as it was, but for the one that
/// it measures: that one takes the measurement, and is confirmed by a report by radio. A contact
/// that it adds is provisional unless it was reported by radio.
#[verifier::rlimit(40)]
pub proof fn law_scan_changes_one_contact(
    controller: RadarController,
    tick: u32,
    hit: ScanHit,
    sightings: Seq<Sighting>,
    k: int,
)
    requires
        controller.wf(),
        sightings.len() == controller.contacts@.len(),
        0 <= k < controller.scan_outcome(tick, hit, sightings).0.len(),
    ensures
        ({
            let contacts = controller.contacts@;
            let (after, _, effect) = controller.scan_outcome(tick, hit, sightings);
            let c = after[k];
            if c.id == controller.next_contact_id {
                &&& effect == (HitEffect::Added { contact_id: c.id })
                &&& c.class == hit.class
                &&& c.provisional == (hit.snr != RADIO_PING_SNR)
                &&& c == Contact::fresh(
                    c.id,
                    hit.class,
                    tick,
                    c.provisional,
                    controller.new_missile_scan_ticks,
                )
            } else {
                exists|p: int|
                    {
                        &&& 0 <= p < contacts.len()
                        &&& #[trigger] contacts[p].id == c.id
                        &&& effect != (HitEffect::Measured { contact_id: c.id }) ==> c == contacts[p]
                        &&& effect == (HitEffect::Measured { contact_id: c.id }) ==> {
                            &&& c.provisional == (contacts[p].provisional && hit.snr
                                != RADIO_PING_SNR)
                            &&& c == (Contact {
                                provisional: c.provisional,
                                ..contacts[p].measured(tick, sightings[p].improvement < KEY_OF_5)
                            })
                        }
                    }
            }
        }),
{
    let contacts = controller.contacts@;
    let next = controller.next_contact_id;
    let (after, _, effect) = controller.scan_outcome(tick, hit, sightings);
    lemma_best_match(contacts, hit, sightings);
    match best_match(contacts, hit, sightings) {
        Some((best_id, _)) => {
            let place = place_of(contacts, best_id)->0;
            let measured = contacts.update(
                place,
                measured_by(contacts[place], tick, hit, sightings[place]),
            );
            let flags = approaching(measured, receding_after(sightings, place));
            let places = law_kept_in_order(measured, flags);
            let p = places[k];
            assert(0 < contacts[p].id < next);
            assert(contacts[p].id == after[k].id);
            if p != place {
                assert(contacts[p].id != contacts[place].id) by {
                    if p < place {
                        assert(contacts[p].id != contacts[place].id);
                    } else {
                        assert(contacts[place].id != contacts[p].id);
                    }
                }
            }
        },
        None => if hit.unreliable() {
            assert(0 < contacts[k].id < next);
        } else {
            let grown = contacts.push(
                Contact::fresh(
                    next,
                    hit.class,
                    tick,
                    !hit.is_ping(),
                    controller.new_missile_scan_ticks,
                ),
            );
            let flags = approaching(grown, receding_with(sightings, hit.receding));
            let places = law_kept_in_order(grown, flags);
            let p = places[k];
            if p < contacts.len() {
                assert(0 < contacts[p].id < next);
                assert(contacts[p].id == after[k].id);
            }
        },
    }
}

/// A hit outside a tracking scan that is taken in drops the missiles and torpedoes that move
/// away, by their new course where it measured them, and no other contact. One that is not
/// taken in drops nothing.
pub proof fn law_scan_drops_receding_munitions_only(
    controller: RadarController,
    tick: u32,
    hit: ScanHit,
    sightings: Seq<Sighting>,
    i: int,
)
    requires
        controller.wf(),
        sightings.len() == controller.contacts@.len(),
        0 <= i < controller.contacts@.len(),
    ensures
        ({
            let c = controller.contacts@[i];
            let (after, _, effect) = controller.scan_outcome(tick, hit, sightings);
            let moves_away = if effect == (HitEffect::Measured { contact_id: c.id }) {
                sightings[i].receding_if_measured
            } else {
                sightings[i].receding
            };
            holds_id(after, c.id) <==> effect == HitEffect::Ignored || !moves_away || (c.class
                != Class::Missile && c.class != Class::Torpedo)
        }),
{
    let contacts = controller.contacts@;
    let next = controller.next_contact_id;
    let c = contacts[i];
    let (after, _, effect) = controller.scan_outcome(tick, hit, sightings);
    lemma_best_match(contacts, hit, sightings);
    assert(0 < contacts[i].id < next);
    match best_match(contacts, hit, sightings) {
        Some((best_id, _)) => {
            let place = place_of(contacts, best_id)->0;
            let measured = contacts.update(
                place,
                measured_by(contacts[place], tick, hit, sightings[place]),
            );
            let flags = approaching(measured, receding_after(sightings, place));
            assert(measured[i].id == c.id && measured[i].class == c.class);
            lemma_update_ids(contacts, place, measured[place], next as int);
            lemma_kept_holds(measured, flags, i);
            if i < place {
                assert(contacts[i].id != contacts[place].id);
            } else if place < i {
                assert(contacts[place].id != contacts[i].id);
            }
        },
        None => if hit.unreliable() {
            assert(after[i].id == c.id);
        } else {
            let contact = Contact::fresh(
                next,
                hit.class,
                tick,
                !hit.is_ping(),
                controller.new_missile_scan_ticks,
            );
            let grown = contacts.push(contact);
            let flags = approaching(grown, receding_with(sightings, hit.receding));
            lemma_push_ids(contacts, contact);
            assert(grown[i] == c);
            lemma_kept_holds(grown, flags, i);
        },
    }
}

// With distinct ids, an id is left exactly where its contact is kept.
proof fn lemma_kept_holds(contacts: Seq<Contact>, flags: Seq<bool>, i: int)
    requires
        ids_distinct(contacts),
        0 <= i < contacts.len(),
    ensures
        holds_id(kept(contacts, flags), contacts[i].id) <==> flags[i],
{
    let left = kept(contacts, flags);
    let places = law_kept_in_order(contacts, flags);
    if flags[i] {
        assert(places.contains(i));
        let k = places.index_of(i);
        assert(left[k].id == contacts[i].id);
    }
    if holds_id(left, contacts[i].id) {
        let k = choose|k: int| 0 <= k < left.len() && #[trigger] left[k].id == contacts[i].id;
        let p = places[k];
        if p < i {
            assert(contacts[p].id != contacts[i].id);
        } else if i < p {
            assert(contacts[i].id != contacts[p].id);
        }
    }
}

/// A hit on a tracking radar measures the contact that it belongs to. Where it belongs to none
/// it adds one under the next id, unless it lies beyond the reliable range of its beam or a
/// contact of its class lies within its radius of confidence; then it does nothing at all.
pub proof fn law_tracking_effect(controller: RadarController, tick: u32, hit: ScanHit, sightings: Seq<Sighting>)
    requires
        controller.wf(),
        sightings.len() == controller.contacts@.len(),
    ensures
        ({
            let contacts = controller.contacts@;
            let next = controller.next_contact_id;
            let (after, next_after, effect) = controller.tracking_outcome(tick, hit, sightings);
            let beyond = hit.reliable_range is Some && hit.range > hit.reliable_range->0;
            let known = exists|j: int|
                0 <= j < contacts.len() && #[trigger] contacts[j].class == hit.class
                    && sightings[j].distance <= hit.radius;
            match best_match(contacts, hit, sightings) {
                Some((id, _)) => effect == (HitEffect::Measured { contact_id: id }) && next_after
                    == next,
                None => if beyond || known {
                    effect == HitEffect::Ignored && next_after == next && after == contacts
                } else {
                    effect == (HitEffect::Added { contact_id: next }) && next_after == next + 1
                },
            }
        }),
{
}

/// A tracking scan leaves each contact that stays as it was, but for the one that it measures.
/// That one takes the measurement and, where it is provisional, one attempt at its confirmation:
/// it is confirmed exactly where no contact with a smaller id lies within 30 m of the hit. A
/// contact that is added is provisional.
#[verifier::rlimit(40)]
pub proof fn law_tracking_changes_one_contact(
    controller: RadarController,
    tick: u32,
    hit: ScanHit,
    sightings: Seq<Sighting>,
    k: int,
)
    requires
        controller.wf(),
        controller.room_for_tracking_hits(),
        sightings.len() == controller.contacts@.len(),
        0 <= k < controller.tracking_outcome(tick, hit, sightings).0.len(),
    ensures
        ({
            let contacts = controller.contacts@;
            let (after, _, effect) = controller.tracking_outcome(tick, hit, sightings);
            let c = after[k];
            if c.id == controller.next_contact_id {
                &&& effect == (HitEffect::Added { contact_id: c.id })
                &&& c.class == hit.class
                &&& c.provisional
                &&& c == Contact::fresh(
                    c.id,
                    hit.class,
                    tick,
                    true,
                    controller.new_missile_scan_ticks,
                )
            } else {
                exists|p: int|
                    {
                        &&& 0 <= p < contacts.len()
                        &&& #[trigger] contacts[p].id == c.id
                        &&& effect != (HitEffect::Measured { contact_id: c.id }) ==> c == contacts[p]
                        &&& effect == (HitEffect::Measured { contact_id: c.id }) ==> {
                            let confusable = exists|j: int|
                                0 <= j < contacts.len() && #[trigger] contacts[j].id < c.id
                                    && sightings[j].distance <= METERS_30;
                            &&& c.provisional == (contacts[p].provisional && confusable)
                            &&& c.confirmation_attempts == contacts[p].confirmation_attempts + (
                            if contacts[p].provisional {
                                1int
                            } else {
                                0
                            })
                            &&& c == (Contact {
                                provisional: c.provisional,
                                confirmation_attempts: c.confirmation_attempts,
                                ..contacts[p].measured(tick, sightings[p].improvement < KEY_OF_5)
                            })
                        }
                    }
            }
        }),
{
    let contacts = controller.contacts@;
    let next = controller.next_contact_id;
    let (after, _, effect) = controller.tracking_outcome(tick, hit, sightings);
    lemma_best_match(contacts, hit, sightings);
    match best_match(contacts, hit, sightings) {
        Some((best_id, _)) => {
            let place = place_of(contacts, best_id)->0;
            let followed = tracked_contact(contacts, place, tick, sightings);
            let measured = contacts.update(place, followed);
            let flags = tracking_keeps(contacts, sightings, followed);
            let places = law_kept_in_order(measured, flags);
            let p = places[k];
            assert(0 < contacts[p].id < next);
            assert(contacts[p].id == after[k].id);
            assert(contacts[place].can_be_confirmed());
            if p == place {
                let id = contacts[place].id;
                assert(earlier_confusable(contacts, sightings, id) == exists|j: int|
                    0 <= j < contacts.len() && #[trigger] contacts[j].id < id
                        && sightings[j].distance <= METERS_30);
            } else if p < place {
                assert(contacts[p].id != contacts[place].id);
            } else {
                assert(contacts[place].id != contacts[p].id);
            }
        },
        None => if k < contacts.len() {
            assert(0 < contacts[k].id < next);
            assert(contacts[k].id == after[k].id);
        },
    }
}

/// A tracking scan drops the contact that it measured where that one is still provisional after
/// its last attempt, or where a contact with a smaller id lies within 15 m of the hit. Unless
/// its attempts are spent, it also drops the contacts with greater ids that lie within 15 m of
/// the hit. It drops nothing else.
#[verifier::rlimit(40)]
pub proof fn law_tracking_drops_duplicates_only(
    controller: RadarController,
    tick: u32,
    hit: ScanHit,
    sightings: Seq<Sighting>,
    i: int,
)
    requires
        controller.wf(),
        controller.room_for_tracking_hits(),
        sightings.len() == controller.contacts@.len(),
        0 <= i < controller.contacts@.len(),
    ensures
        ({
            let contacts = controller.contacts@;
            let (after, _, effect) = controller.tracking_outcome(tick, hit, sightings);
            match effect {
                HitEffect::Measured { contact_id } => exists|p: int|
                    {
                        let confusable = exists|j: int|
                            0 <= j < contacts.len() && #[trigger] contacts[j].id < contact_id
                                && sightings[j].distance <= METERS_30;
                        let repeats = exists|j: int|
                            0 <= j < contacts.len() && #[trigger] contacts[j].id < contact_id
                                && sightings[j].distance < METERS_15;
                        let spent = contacts[p].provisional && confusable
                            && contacts[p].confirmation_attempts + 1 >= 3;
                        &&& 0 <= p < contacts.len()
                        &&& #[trigger] contacts[p].id == contact_id
                        &&& holds_id(after, contacts[i].id) <==> (if contacts[i].id == contact_id {
                            !spent && !repeats
                        } else {
                            spent || contacts[i].id < contact_id || sightings[i].distance
                                >= METERS_15
                        })
                    },
                _ => holds_id(after, contacts[i].id),
            }
        }),
{
    let contacts = controller.contacts@;
    let next = controller.next_contact_id;
    let (after, _, effect) = controller.tracking_outcome(tick, hit, sightings);
    lemma_best_match(contacts, hit, sightings);
    match best_match(contacts, hit, sightings) {
        Some((best_id, _)) => {
            let place = place_of(contacts, best_id)->0;
            let followed = tracked_contact(contacts, place, tick, sightings);
            let measured = contacts.update(place, followed);
            let flags = tracking_keeps(contacts, sightings, followed);
            lemma_update_ids(contacts, place, followed, next as int);
            assert(measured[i].id == contacts[i].id);
            lemma_kept_holds(measured, flags, i);
            assert(contacts[place].can_be_confirmed());
            assert(contacts[place].id == best_id);
            assert(earlier_confusable(contacts, sightings, best_id) == exists|j: int|
                0 <= j < contacts.len() && #[trigger] contacts[j].id < best_id
                    && sightings[j].distance <= METERS_30);
            assert(earlier_duplicate(contacts, sightings, best_id) == exists|j: int|
                0 <= j < contacts.len() && #[trigger] contacts[j].id < best_id
                    && sightings[j].distance < METERS_15);
        },
        None => {
            assert(after[i].id == contacts[i].id);
        },
    }
}

/// Radars that found nothing count retries for the contacts that they were tracking, one for
/// each such radar, and change nothing else.
pub proof fn law_misses_count_retries(
    controller: RadarController,
    found: Seq<bool>,
    i: int,
)
    requires
        controller.wf(),
        controller.room_for_misses(found),
        found.len() <= controller.radar_states@.len(),
        0 <= i < controller.contacts@.len(),
    ensures
        ({
            let c = controller.contacts@[i];
            let states = controller.radar_states@;
            let after = after_misses(controller.contacts@, states, found, found.len());
            let misses = Set::new(
                |r: int|
                    0 <= r < found.len() && states[r] == (RadarState::Tracking { contact_id: c.id })
                        && !found[r],
            );
            &&& misses.finite()
            &&& after.len() == controller.contacts@.len()
            &&& after[i] == (Contact {
                tracking_retry_count: (c.tracking_retry_count + misses.len()) as u32,
                ..c
            })
            &&& c.tracking_retry_count + misses.len() <= u32::MAX
        }),
{
    let contacts = controller.contacts@;
    let states = controller.radar_states@;
    let n = found.len();
    let c = contacts[i];
    assert forall|j: int| #![trigger contacts[j]] 0 <= j < i implies contacts[j].id != c.id by {}
    assert(is_first_with_id(contacts, c.id, i));
    crate::contact::lemma_place_unique(contacts, c.id, i);
    law_misses_keep_ids(contacts, states, found, n);
    lemma_miss_counts(controller, found, n, c.id);
    lemma_misses_on_is_count(states, found, n, c.id);
    lemma_misses_change_retries_only(contacts, states, found, n, i);
}

// The number of misses is the size of the set of radars that missed.
proof fn lemma_misses_on_is_count(states: Seq<RadarState>, found: Seq<bool>, n: nat, id: u32)
    ensures
        ({
            let misses = Set::new(
                |r: int|
                    0 <= r < n && states[r] == (RadarState::Tracking { contact_id: id })
                        && !found[r],
            );
            misses.finite() && misses.len() == misses_on(states, found, n, id)
        }),
    decreases n,
{
    let misses = Set::new(
        |r: int|
            0 <= r < n && states[r] == (RadarState::Tracking { contact_id: id }) && !found[r],
    );
    if n == 0 {
        assert(misses =~= Set::empty());
    } else {
        lemma_misses_on_is_count(states, found, (n - 1) as nat, id);
        let before = Set::new(
            |r: int|
                0 <= r < n - 1 && states[r] == (RadarState::Tracking { contact_id: id })
                    && !found[r],
        );
        if states[n - 1] == (RadarState::Tracking { contact_id: id }) && !found[n - 1] {
            assert(misses =~= before.insert(n - 1));
        } else {
            assert(misses =~= before);
        }
    }
}

// Misses change the counts of retries alone.
proof fn lemma_misses_change_retries_only(
    contacts: Seq<Contact>,
    states: Seq<RadarState>,
    found: Seq<bool>,
    n: nat,
    i: int,
)
    requires
        0 <= i < contacts.len(),
    ensures
        ({
            let after = after_misses(contacts, states, found, n);
            after[i] == (Contact {
                tracking_retry_count: after[i].tracking_retry_count,
                ..contacts[i]
            })
        }),
    decreases n,
{
    if n > 0 {
        let before = after_misses(contacts, states, found, (n - 1) as nat);
        law_misses_keep_ids(contacts, states, found, (n - 1) as nat);
        lemma_misses_change_retries_only(contacts, states, found, (n - 1) as nat, i);
        if let Some(place) = missed_place(before, states[n - 1], found[n - 1]) {
            crate::contact::law_place_of_id(before, states[n - 1]->Tracking_contact_id);
        }
    }
}

/// The contacts reported as missed are those that some radar was tracking and did not find, as
/// far as they are there.
pub proof fn law_missed_contacts_are_reported(
    contacts: Seq<Contact>,
    states: Seq<RadarState>,
    found: Seq<bool>,
    n: nat,
    id: u32,
)
    ensures
        missed_ids(contacts, states, found, n).contains(id) <==> holds_id(contacts, id) && exists|r: int|
            0 <= r < n && #[trigger] states[r] == (RadarState::Tracking { contact_id: id })
                && !found[r],
    decreases n,
{
    if n > 0 {
        law_missed_contacts_are_reported(contacts, states, found, (n - 1) as nat, id);
        let list = missed_ids(contacts, states, found, n);
        let shorter = missed_ids(contacts, states, found, (n - 1) as nat);
        let before = after_misses(contacts, states, found, (n - 1) as nat);
        law_misses_keep_ids(contacts, states, found, (n - 1) as nat);
        if shorter.contains(id) {
            let k = shorter.index_of(id);
            assert(list[k] == id);
        }
        if states[n - 1] == (RadarState::Tracking { contact_id: id }) && !found[n - 1] {
            crate::contact::law_place_of_id(before, id);
            match place_of(before, id) {
                Some(p) => {
                    assert(contacts[p].id == id);
                    assert(list[shorter.len() as int] == id);
                },
                None => {
                    if holds_id(contacts, id) {
                        let j = choose|j: int|
                            0 <= j < contacts.len() && #[trigger] contacts[j].id == id;
                        assert(before[j].id != id);
                    }
                },
            }
        }
        if list.contains(id) && !shorter.contains(id) {
            let k = list.index_of(id);
            if k < shorter.len() {
                assert(shorter[k] == id);
            }
            assert(states[n - 1] == (RadarState::Tracking { contact_id: id }));
        }
    }
}

/// The clean-up drops missiles and torpedoes that move away, contacts whose tracking scans
/// failed three times without a measurement at this tick, and contacts that were in range for
/// more than 120 ticks without a measurement, this one counted. All others stay.
pub proof fn law_cleanup_drops(
    contacts: Seq<Contact>,
    tick: u32,
    views: Seq<RangeView>,
    i: int,
)
    requires
        ids_distinct(contacts),
        views.len() == contacts.len(),
        0 <= i < contacts.len(),
        contacts[i].unscanned_in_range_ticks < u32::MAX,
    ensures
        ({
            let aged = aged_contacts(contacts, tick, views);
            let left = kept(aged, survivors(aged, tick, views));
            let c = contacts[i];
            let in_range = views[i].distance <= views[i].max_range;
            let unscanned = if c.last_measurement_tick == tick {
                0
            } else if in_range {
                c.unscanned_in_range_ticks + 1
            } else {
                c.unscanned_in_range_ticks as int
            };
            let drops = {
                ||| views[i].receding && (c.class == Class::Missile || c.class == Class::Torpedo)
                ||| c.tracking_retry_count >= 3 && c.last_measurement_tick != tick
                ||| unscanned > 120
            };
            &&& drops ==> !holds_id(left, c.id)
            &&& !drops ==> left.contains(
                Contact { unscanned_in_range_ticks: unscanned as u32, ..c },
            )
        }),
{
    let aged = aged_contacts(contacts, tick, views);
    let flags = survivors(aged, tick, views);
    assert forall|a: int, b: int| #![trigger aged[a], aged[b]] 0 <= a < b < aged.len() implies aged[a].id
        != aged[b].id by {
        assert(contacts[a].id != contacts[b].id);
    }
    assert(aged[i].id == contacts[i].id);
    lemma_kept_holds(aged, flags, i);
    crate::select::lemma_kept_contains(aged, flags, aged[i]);
}

/// The target chosen before is kept as long as a confirmed contact has its id. Else the target
/// is a confirmed contact at a finite distance; no confirmed one will be closer, and none as
/// close stands before it. There is no target only where there is no such contact.
pub proof fn law_target_choice(contacts: Seq<Contact>, current: Option<u32>, distances: Seq<u64>)
    requires
        distances.len() == contacts.len(),
    ensures
        ({
            let stays = current is Some && exists|i: int|
                0 <= i < contacts.len() && #[trigger] contacts[i].id == current->0
                    && !contacts[i].provisional;
            if stays {
                next_target(contacts, current, distances) == current
            } else {
                match next_target(contacts, current, distances) {
                    Some(id) => exists|p: int|
                        {
                            &&& 0 <= p < contacts.len()
                            &&& #[trigger] contacts[p].id == id && !contacts[p].provisional
                            &&& distances[p] < FARTHEST
                            &&& forall|j: int|
                                #![trigger contacts[j]]
                                0 <= j < contacts.len() && !contacts[j].provisional ==> distances[p]
                                    <= distances[j] && (j < p ==> distances[p] < distances[j])
                        },
                    None => forall|j: int|
                        #![trigger contacts[j]]
                        0 <= j < contacts.len() ==> contacts[j].provisional || distances[j]
                            >= FARTHEST,
                }
            }
        }),
{
    let keys = target_keys(contacts, distances);
    law_first_min(keys);
    assert forall|j: int|
        #![trigger contacts[j]]
        0 <= j < contacts.len() && !contacts[j].provisional implies keys[j] == Some(
        distances[j],
    ) by {}
    if let Some(m) = first_min_of(keys) {
        assert(keys[m] is Some);
    }
}

/// A report by radio is always taken in, however far away what it reports is: it measures the
/// contact that it belongs to, or adds one.
pub proof fn law_radio_report_is_taken_in(controller: RadarController, tick: u32, report: ScanHit, sightings: Seq<Sighting>)
    ensures
        controller.scan_outcome(tick, report.as_ping(), sightings).2 != HitEffect::Ignored,
        report.as_ping() == (ScanHit { snr: RADIO_PING_SNR, reliable_range: None, ..report }),
{
}

/// Taking in hits, misses and the clean-up change nothing but the contact list and the next id.
pub proof fn law_duties_stay(before: RadarController, after: RadarController)
    requires
        after.same_duties(before),
    ensures
        after == (RadarController {
            contacts: after.contacts,
            next_contact_id: after.next_contact_id,
            ..before
        }),
{
}

/// There is headroom exactly where an id and a full sweep are left to be counted, and each
/// contact can take two more failed scans, one more tick in range, one more attempt at its
/// confirmation where it is provisional, and one more little improvement where it has priority.
pub proof fn law_headroom(controller: RadarController)
    ensures
        controller.counters_ok() <==> {
            &&& controller.next_contact_id < u32::MAX && controller.full_scans < u32::MAX
            &&& forall|i: int|
                #![trigger controller.contacts@[i]]
                0 <= i < controller.contacts@.len() ==> {
                    let c = controller.contacts@[i];
                    &&& c.tracking_retry_count + 2 <= u32::MAX
                    &&& c.unscanned_in_range_ticks + 1 <= u32::MAX
                    &&& c.provisional ==> c.confirmation_attempts + 1 <= u32::MAX
                    &&& c.prioritize_scan ==> c.low_improvement_consecutive_scans + 1 <= u32::MAX
                }
        },
{
    if controller.counters_ok() {
        assert forall|i: int|
            #![trigger controller.contacts@[i]]
            0 <= i < controller.contacts@.len() implies controller.contacts@[i].has_headroom() by {}
    }
}

} // verus!
