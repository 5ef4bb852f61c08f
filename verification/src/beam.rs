//! Which beam a tracking scan uses, so that it sees its contact and as few others as
//! possible.
use vstd::prelude::*;

use crate::contact::Contact;
use crate::measure::Measure;
use crate::radar::RadarController;
use crate::select::{first_min, first_min_of, law_first_min, FARTHEST};

verus! {

/// The narrowest beam: 0.005 radians.
pub const NARROWEST: Measure = 0x3f74_7ae1_47ae_147b;

/// Ticks behind a scan, a quarter of a second, within which its width bounds that of the next.
pub const RECENT_TICKS: u32 = 15;

/// Where, within a boundary too wide for one beam, the beam points.
#[derive(Clone, Copy, Debug, PartialEq, Eq, Structural)]
pub enum BeamAim {
    Center,
    Left,
    Right,
}

/// On which side of the line to the target another contact lies, and by what angle.
#[derive(Clone, Copy, Debug, PartialEq, Eq, Structural)]
pub enum Bearing {
    Left(u64),
    Right(u64),
    Same,
}

/// Whether another contact is farther away than the target or closer, and by how much.
#[derive(Clone, Copy, Debug, PartialEq, Eq, Structural)]
pub enum Depth {
    Behind(u64),
    Front(u64),
    Same,
}

/// How another contact lies relative to the target of a tracking scan.
#[derive(Clone, Copy, Debug, PartialEq, Eq, Structural)]
pub struct Neighbour {
    /// Its distance from the target.
    pub distance: Measure,
    /// Whether the beam that was planned first sees it.
    pub in_initial_beam: bool,
    pub bearing: Bearing,
    pub depth: Depth,
}

/// What a tracking scan does.
#[derive(Clone, Copy, Debug, PartialEq, Eq, Structural)]
pub enum BeamPlan {
    /// The target is out of range: no scan.
    OutOfRange,
    /// The boundary is wider than a beam: scan part of it.
    Bisected { aim: BeamAim },
    /// The beam that was planned first, of this width.
    Initial { width: Measure },
    /// The best of several beams: the one planned first, of this width, and it cut off halfway
    /// to each of these contacts.
    Alternatives {
        width: Measure,
        left: Option<u32>,
        right: Option<u32>,
        behind: Option<u32>,
        front: Option<u32>,
    },
}

/// The beams among which the best is chosen.
#[derive(Clone, Copy, Debug, PartialEq, Eq, Structural)]
pub enum BeamKind {
    Initial,
    LeftMid,
    RightMid,
    BehindMid,
    FrontMid,
}

/// What makes a beam better or worse: how many other contacts it sees, then its width,
/// then its depth. Less is better.
#[derive(Clone, Copy, Debug, PartialEq, Eq, Structural)]
pub struct BeamScore {
    pub matches: usize,
    pub width: u64,
    pub depth: u64,
}

impl BeamScore {
    /// Whether this score is better than another.
    pub open spec fn better(self, other: BeamScore) -> bool {
        self.matches < other.matches || (self.matches == other.matches && (self.width < other.width
            || (self.width == other.width && self.depth < other.depth)))
    }
}

/// What a tracking scan aims at.
#[derive(Clone, Copy, Debug, PartialEq, Eq, Structural)]
pub struct Aim {
    /// The distance of the target, and up to where the radar reaches it.
    pub distance: Measure,
    pub max_range: Measure,
    /// The width of the target's boundary, where it has one, and that of the beam that
    /// found it.
    pub boundary_width: Option<Measure>,
    pub discovery_width: Measure,
    /// The width that the target's uncertainty asks for, that of the last beam at it, and how
    /// many ticks ago it was measured.
    pub planned_width: Measure,
    pub last_width: Option<Measure>,
    pub elapsed_ticks: u32,
    /// The distance from the target within which other contacts matter.
    pub vicinity: Measure,
}

impl Aim {
    /// Whether the target is within the reach of the radar.
    pub open spec fn in_range(self) -> bool {
        self.distance <= self.max_range
    }

    /// Whether the target is within the reach of the radar, so that it can be tracked.
    pub fn reaches(&self) -> (reach: bool)
        ensures
            reach == self.in_range(),
    {
        self.distance <= self.max_range
    }

    /// Whether the target's boundary is wider than the beam that found it.
    pub open spec fn wide(self) -> bool {
        self.boundary_width is Some && self.boundary_width->0 > self.discovery_width
    }

    /// The width of the beam that is planned first: that of the boundary, but no less than the
    /// narrowest beam; without a boundary what the uncertainty asks for, bounded by a recent
    /// beam.
    pub open spec fn first_width(self) -> Measure {
        match self.boundary_width {
            Some(width) => if width < NARROWEST {
                NARROWEST
            } else {
                width
            },
            None => bounded_width(self.planned_width, self.last_width, self.elapsed_ticks),
        }
    }

    /// The width of the beam that is planned first.
    pub fn beam_width(&self) -> (width: Measure)
        ensures
            width == self.first_width(),
    {
        match self.boundary_width {
            Some(width) => if width < NARROWEST {
                NARROWEST
            } else {
                width
            },
            None => initial_width(self.planned_width, self.last_width, self.elapsed_ticks),
        }
    }
}

/// A width, but no more than that of the last beam, where that was used within the last quarter
/// of a second.
pub open spec fn bounded_width(planned: Measure, last: Option<Measure>, elapsed_ticks: u32) -> Measure {
    match last {
        Some(l) if elapsed_ticks <= RECENT_TICKS && l < planned => l,
        _ => planned,
    }
}

/// The part of the boundary that the next attempt scans.
pub open spec fn aim_of(retries: u32) -> BeamAim {
    if retries == 1 {
        BeamAim::Left
    } else if retries == 2 {
        BeamAim::Right
    } else {
        BeamAim::Center
    }
}

/// Whether the contact at place `i` is another one, close to the target.
pub open spec fn is_nearby(contacts: Seq<Contact>, target: u32, vicinity: Measure, neighbours: Seq<Neighbour>, i: int) -> bool {
    contacts[i].id != target && neighbours[i].distance <= vicinity
}

/// The angles by which nearby contacts lie to the left of the target.
pub open spec fn left_keys(contacts: Seq<Contact>, target: u32, vicinity: Measure, neighbours: Seq<Neighbour>) -> Seq<Option<u64>> {
    Seq::new(
        contacts.len(),
        |i: int|
            match neighbours[i].bearing {
                Bearing::Left(angle) if is_nearby(contacts, target, vicinity, neighbours, i) => Some(angle),
                _ => None,
            },
    )
}

/// The angles by which nearby contacts lie to the right of the target.
pub open spec fn right_keys(contacts: Seq<Contact>, target: u32, vicinity: Measure, neighbours: Seq<Neighbour>) -> Seq<Option<u64>> {
    Seq::new(
        contacts.len(),
        |i: int|
            match neighbours[i].bearing {
                Bearing::Right(angle) if is_nearby(contacts, target, vicinity, neighbours, i) => Some(angle),
                _ => None,
            },
    )
}

/// The distances by which nearby contacts lie behind the target.
pub open spec fn behind_keys(contacts: Seq<Contact>, target: u32, vicinity: Measure, neighbours: Seq<Neighbour>) -> Seq<Option<u64>> {
    Seq::new(
        contacts.len(),
        |i: int|
            match neighbours[i].depth {
                Depth::Behind(distance) if is_nearby(contacts, target, vicinity, neighbours, i) => Some(
                    distance,
                ),
                _ => None,
            },
    )
}

/// The distances by which nearby contacts lie in front of the target.
pub open spec fn front_keys(contacts: Seq<Contact>, target: u32, vicinity: Measure, neighbours: Seq<Neighbour>) -> Seq<Option<u64>> {
    Seq::new(
        contacts.len(),
        |i: int|
            match neighbours[i].depth {
                Depth::Front(distance) if is_nearby(contacts, target, vicinity, neighbours, i) => Some(
                    distance,
                ),
                _ => None,
            },
    )
}

/// The id of the contact with the smallest key, the first among equals.
pub open spec fn closest(contacts: Seq<Contact>, keys: Seq<Option<u64>>) -> Option<u32> {
    match first_min_of(keys) {
        Some(i) => Some(contacts[i].id),
        None => None,
    }
}

/// Whether the beam that was planned first sees a nearby contact.
pub open spec fn initial_beam_confused(contacts: Seq<Contact>, target: u32, vicinity: Measure, neighbours: Seq<Neighbour>) -> bool {
    exists|i: int|
        0 <= i < contacts.len() && #[trigger] is_nearby(contacts, target, vicinity, neighbours, i)
            && neighbours[i].in_initial_beam
}

/// How many of the nearby contacts among the first `n` a beam sees.
pub open spec fn matches_of(
    contacts: Seq<Contact>,
    target: u32,
    vicinity: Measure,
    neighbours: Seq<Neighbour>,
    seen: Seq<bool>,
    n: nat,
) -> nat
    decreases n,
{
    if n == 0 {
        0
    } else {
        matches_of(contacts, target, vicinity, neighbours, seen, (n - 1) as nat) + (if is_nearby(
            contacts,
            target,
            vicinity,
            neighbours,
            n - 1,
        ) && seen[n - 1] {
            1nat
        } else {
            0
        })
    }
}

fn closest_of(contacts: &Vec<Contact>, keys: &Vec<Option<u64>>) -> (id: Option<u32>)
    requires
        keys.len() == contacts.len(),
    ensures
        id == closest(contacts@, keys@),
{
    match first_min(keys) {
        Some(i) => Some(contacts[i].id),
        None => None,
    }
}

/// The width of the beam that is planned first for a target without a boundary: no wider than
/// the last one, where that was used within the last quarter of a second.
pub fn initial_width(planned: Measure, last: Option<Measure>, elapsed_ticks: u32) -> (width: Measure)
    ensures
        width == bounded_width(planned, last, elapsed_ticks),
{
    match last {
        Some(l) => if elapsed_ticks <= RECENT_TICKS && l < planned {
            l
        } else {
            planned
        },
        None => planned,
    }
}

/// Whether a tracking scan aims at where the last beam pointed: the target may be farther off
/// its expected position than that beam is wide there.
pub fn aims_at_last_beam(spread: Measure, beam_width: Measure) -> (last: bool)
    ensures
        last == (spread > beam_width),
{
    spread > beam_width
}

/// The part of the boundary that the next attempt scans.
pub fn bisect_aim(retries: u32) -> (aim: BeamAim)
    ensures
        aim == aim_of(retries),
{
    match retries {
        1 => BeamAim::Left,
        2 => BeamAim::Right,
        _ => BeamAim::Center,
    }
}

impl RadarController {
    /// What a tracking scan of `contact` does.
    pub open spec fn beam_plan(self, contact: Contact, aim: Aim, neighbours: Seq<Neighbour>) -> BeamPlan {
        if !aim.in_range() {
            BeamPlan::OutOfRange
        } else if aim.wide() {
            BeamPlan::Bisected { aim: aim_of(contact.tracking_retry_count) }
        } else if !initial_beam_confused(self.contacts@, contact.id, aim.vicinity, neighbours) {
            BeamPlan::Initial { width: aim.first_width() }
        } else {
            BeamPlan::Alternatives {
                width: aim.first_width(),
                left: closest(
                    self.contacts@,
                    left_keys(self.contacts@, contact.id, aim.vicinity, neighbours),
                ),
                right: closest(
                    self.contacts@,
                    right_keys(self.contacts@, contact.id, aim.vicinity, neighbours),
                ),
                behind: closest(
                    self.contacts@,
                    behind_keys(self.contacts@, contact.id, aim.vicinity, neighbours),
                ),
                front: closest(
                    self.contacts@,
                    front_keys(self.contacts@, contact.id, aim.vicinity, neighbours),
                ),
            }
        }
    }

    /// What a tracking scan of `contact` does. `neighbours` tells how each contact lies
    /// relative to it.
    pub fn generate_tracking_scan(
        &self,
        contact: &Contact,
        aim: &Aim,
        neighbours: &Vec<Neighbour>,
    ) -> (plan: BeamPlan)
        requires
            neighbours.len() == self.contacts.len(),
        ensures
            plan == self.beam_plan(*contact, *aim, neighbours@),
    {
        if aim.distance > aim.max_range {
            return BeamPlan::OutOfRange;
        }
        let wide = match aim.boundary_width {
            Some(width) => width > aim.discovery_width,
            None => false,
        };
        if wide {
            return BeamPlan::Bisected { aim: bisect_aim(contact.tracking_retry_count) };
        }
        let target: u32 = contact.id;
        let ghost all_left = left_keys(self.contacts@, target, aim.vicinity, neighbours@);
        let ghost all_right = right_keys(self.contacts@, target, aim.vicinity, neighbours@);
        let ghost all_behind = behind_keys(self.contacts@, target, aim.vicinity, neighbours@);
        let ghost all_front = front_keys(self.contacts@, target, aim.vicinity, neighbours@);
        let mut left: Vec<Option<u64>> = Vec::new();
        let mut right: Vec<Option<u64>> = Vec::new();
        let mut behind: Vec<Option<u64>> = Vec::new();
        let mut front: Vec<Option<u64>> = Vec::new();
        let mut confused = false;
        let mut i: usize = 0;
        while i < self.contacts.len()
            invariant
                0 <= i <= self.contacts.len(),
                neighbours.len() == self.contacts.len(),
                all_left == left_keys(self.contacts@, target, aim.vicinity, neighbours@),
                all_right == right_keys(self.contacts@, target, aim.vicinity, neighbours@),
                all_behind == behind_keys(self.contacts@, target, aim.vicinity, neighbours@),
                all_front == front_keys(self.contacts@, target, aim.vicinity, neighbours@),
                left@ == all_left.take(i as int),
                right@ == all_right.take(i as int),
                behind@ == all_behind.take(i as int),
                front@ == all_front.take(i as int),
                confused == exists|j: int|
                    0 <= j < i && #[trigger] is_nearby(self.contacts@, target, aim.vicinity, neighbours@, j)
                        && neighbours@[j].in_initial_beam,
            decreases self.contacts.len() - i,
        {
            let n = neighbours[i];
            let near = self.contacts[i].id != target && n.distance <= aim.vicinity;
            assert(near == is_nearby(self.contacts@, target, aim.vicinity, neighbours@, i as int));
            if near && n.in_initial_beam {
                confused = true;
            }
            left.push(match n.bearing {
                Bearing::Left(angle) => if near {
                    Some(angle)
                } else {
                    None
                },
                _ => None,
            });
            right.push(match n.bearing {
                Bearing::Right(angle) => if near {
                    Some(angle)
                } else {
                    None
                },
                _ => None,
            });
            behind.push(match n.depth {
                Depth::Behind(distance) => if near {
                    Some(distance)
                } else {
                    None
                },
                _ => None,
            });
            front.push(match n.depth {
                Depth::Front(distance) => if near {
                    Some(distance)
                } else {
                    None
                },
                _ => None,
            });
            proof {
                let k = i as int;
                assert(all_left.take(k + 1) =~= all_left.take(k).push(all_left[k]));
                assert(all_right.take(k + 1) =~= all_right.take(k).push(all_right[k]));
                assert(all_behind.take(k + 1) =~= all_behind.take(k).push(all_behind[k]));
                assert(all_front.take(k + 1) =~= all_front.take(k).push(all_front[k]));
            }
            i = i + 1;
        }
        if !confused {
            return BeamPlan::Initial { width: aim.beam_width() };
        }
        assert(left@ =~= all_left);
        assert(right@ =~= all_right);
        assert(behind@ =~= all_behind);
        assert(front@ =~= all_front);
        BeamPlan::Alternatives {
            width: aim.beam_width(),
            left: closest_of(&self.contacts, &left),
            right: closest_of(&self.contacts, &right),
            behind: closest_of(&self.contacts, &behind),
            front: closest_of(&self.contacts, &front),
        }
    }

    /// How many nearby contacts a beam sees; `seen` tells, for each contact, whether the
    /// beam sees it.
    pub fn contacts_matched_by_beam(
        &self,
        contact: &Contact,
        aim: &Aim,
        neighbours: &Vec<Neighbour>,
        seen: &Vec<bool>,
    ) -> (count: usize)
        requires
            neighbours.len() == self.contacts.len(),
            seen.len() == self.contacts.len(),
        ensures
            count == matches_of(
                self.contacts@,
                contact.id,
                aim.vicinity,
                neighbours@,
                seen@,
                self.contacts@.len(),
            ),
    {
        let mut count: usize = 0;
        let mut i: usize = 0;
        while i < self.contacts.len()
            invariant
                0 <= i <= self.contacts.len(),
                neighbours.len() == self.contacts.len(),
                seen.len() == self.contacts.len(),
                count <= i,
                count == matches_of(
                    self.contacts@,
                    contact.id,
                    aim.vicinity,
                    neighbours@,
                    seen@,
                    i as nat,
                ),
            decreases self.contacts.len() - i,
        {
            if self.contacts[i].id != contact.id && neighbours[i].distance <= aim.vicinity && seen[i] {
                count = count + 1;
            }
            i = i + 1;
        }
        count
    }
}

/// The beams that come into question, in the order in which ties are decided.
pub open spec fn candidates_of(left: bool, right: bool, behind: bool, front: bool) -> Seq<BeamKind> {
    seq![BeamKind::Initial] + (if left {
        seq![BeamKind::LeftMid]
    } else {
        Seq::empty()
    }) + (if right {
        seq![BeamKind::RightMid]
    } else {
        Seq::empty()
    }) + (if behind {
        seq![BeamKind::BehindMid]
    } else {
        Seq::empty()
    }) + (if front {
        seq![BeamKind::FrontMid]
    } else {
        Seq::empty()
    })
}

/// The beams that come into question, in the order in which ties are decided.
pub fn beam_candidates(left: bool, right: bool, behind: bool, front: bool) -> (kinds: Vec<BeamKind>)
    ensures
        kinds@ == candidates_of(left, right, behind, front),
{
    let mut kinds: Vec<BeamKind> = Vec::new();
    kinds.push(BeamKind::Initial);
    if left {
        kinds.push(BeamKind::LeftMid);
    }
    if right {
        kinds.push(BeamKind::RightMid);
    }
    if behind {
        kinds.push(BeamKind::BehindMid);
    }
    if front {
        kinds.push(BeamKind::FrontMid);
    }
    assert(kinds@ =~= candidates_of(left, right, behind, front));
    kinds
}

/// Whether `scores[i]` is the best score, and the first of that value.
pub open spec fn is_best(scores: Seq<BeamScore>, i: int) -> bool {
    &&& 0 <= i < scores.len()
    &&& forall|j: int| #![trigger scores[j]] 0 <= j < scores.len() ==> !scores[j].better(scores[i])
    &&& forall|j: int| #![trigger scores[j]] 0 <= j < i ==> scores[i].better(scores[j])
}

/// The beam with the best score, the first among equals.
pub fn choose_beam(scores: &Vec<BeamScore>) -> (choice: Option<usize>)
    ensures
        choice is None <==> scores@.len() == 0,
        choice matches Some(i) ==> is_best(scores@, i as int),
{
    if scores.len() == 0 {
        return None;
    }
    let mut best: usize = 0;
    let mut i: usize = 1;
    while i < scores.len()
        invariant
            1 <= i <= scores.len(),
            best < i,
            forall|j: int|
                #![trigger scores@[j]]
                0 <= j < i ==> !scores@[j].better(scores@[best as int]),
            forall|j: int|
                #![trigger scores@[j]]
                0 <= j < best ==> scores@[best as int].better(scores@[j]),
        decreases scores.len() - i,
    {
        let a = scores[i];
        let b = scores[best];
        let improves = a.matches < b.matches || (a.matches == b.matches && (a.width < b.width || (
        a.width == b.width && a.depth < b.depth)));
        if improves {
            best = i;
        }
        i = i + 1;
    }
    Some(best)
}

/// The kind of beam with the best score, the first among equals, and its place. `scores` holds
/// the score of each of the kinds that come into question.
pub fn choose_kind(kinds: &Vec<BeamKind>, scores: &Vec<BeamScore>) -> (choice: Option<(usize, BeamKind)>)
    requires
        scores.len() == kinds.len(),
    ensures
        choice is Some <==> scores@.len() > 0,
        choice matches Some((i, kind)) ==> is_best(scores@, i as int) && kind == kinds@[i as int],
{
    match choose_beam(scores) {
        Some(i) => Some((i, kinds[i])),
        None => None,
    }
}

/// The beam that a tracking scan with alternatives uses is one of those that come into question
/// for its plan: the one planned first, or it cut off on a side where there is a contact.
pub proof fn law_chosen_beam_is_a_candidate(
    left: bool,
    right: bool,
    behind: bool,
    front: bool,
    scores: Seq<BeamScore>,
    i: int,
)
    requires
        scores.len() == candidates_of(left, right, behind, front).len(),
        is_best(scores, i),
    ensures
        ({
            let kind = candidates_of(left, right, behind, front)[i];
            &&& kind == BeamKind::LeftMid ==> left
            &&& kind == BeamKind::RightMid ==> right
            &&& kind == BeamKind::BehindMid ==> behind
            &&& kind == BeamKind::FrontMid ==> front
        }),
{
}

/// A beam that sees fewer other contacts is always preferred.
pub proof fn law_fewest_matches_win(scores: Seq<BeamScore>, i: int, j: int)
    requires
        is_best(scores, i),
        0 <= j < scores.len(),
    ensures
        scores[i].matches <= scores[j].matches,
{
    assert(!scores[j].better(scores[i]));
}

/// There is only one best beam.
pub proof fn law_best_beam_is_unique(scores: Seq<BeamScore>, i: int, j: int)
    requires
        is_best(scores, i),
        is_best(scores, j),
    ensures
        i == j,
{
    if i < j {
        assert(scores[j].better(scores[i]));
    } else if j < i {
        assert(scores[i].better(scores[j]));
    }
}

/// A target out of reach is not scanned. A boundary wider than the beam that found the target
/// is scanned in part: on the left after one failed scan, on the right after two, else in the
/// middle. Else there is one beam, unless it sees a contact other than the target that lies in
/// its vicinity; then there are alternatives to it.
pub proof fn law_kinds_of_scans(
    controller: RadarController,
    contact: Contact,
    aim: Aim,
    neighbours: Seq<Neighbour>,
)
    requires
        neighbours.len() == controller.contacts@.len(),
    ensures
        ({
            let contacts = controller.contacts@;
            let plan = controller.beam_plan(contact, aim, neighbours);
            let reached = aim.distance <= aim.max_range;
            let wide = aim.boundary_width is Some && aim.boundary_width->0 > aim.discovery_width;
            let confused = exists|j: int|
                0 <= j < contacts.len() && #[trigger] contacts[j].id != contact.id
                    && neighbours[j].distance <= aim.vicinity && neighbours[j].in_initial_beam;
            &&& plan is OutOfRange <==> !reached
            &&& plan is Bisected <==> reached && wide
            &&& plan is Initial <==> reached && !wide && !confused
            &&& plan is Alternatives <==> reached && !wide && confused
            &&& plan is Bisected && contact.tracking_retry_count == 1 ==> plan->aim == BeamAim::Left
            &&& plan is Bisected && contact.tracking_retry_count == 2 ==> plan->aim == BeamAim::Right
            &&& plan is Bisected && contact.tracking_retry_count != 1 && contact.tracking_retry_count
                != 2 ==> plan->aim == BeamAim::Center
        }),
{
    let contacts = controller.contacts@;
    if exists|j: int|
        0 <= j < contacts.len() && #[trigger] contacts[j].id != contact.id
            && neighbours[j].distance <= aim.vicinity && neighbours[j].in_initial_beam {
        let j = choose|j: int|
            0 <= j < contacts.len() && #[trigger] contacts[j].id != contact.id
                && neighbours[j].distance <= aim.vicinity && neighbours[j].in_initial_beam;
        assert(is_nearby(contacts, contact.id, aim.vicinity, neighbours, j));
    }
    if initial_beam_confused(contacts, contact.id, aim.vicinity, neighbours) {
        let j = choose|j: int|
            0 <= j < contacts.len() && #[trigger] is_nearby(
                contacts,
                contact.id,
                aim.vicinity,
                neighbours,
                j,
            ) && neighbours[j].in_initial_beam;
        assert(contacts[j].id != contact.id);
    }
}

/// The first beam is as wide as the target's boundary, but no narrower than the narrowest beam.
/// Without a boundary it is never wider than planned, nor than a beam of the last quarter of a
/// second; and as wide as planned where no recent beam was narrower.
pub proof fn law_width_of_the_first_beam(
    controller: RadarController,
    contact: Contact,
    aim: Aim,
    neighbours: Seq<Neighbour>,
    width: Measure,
)
    requires
        ({
            let plan = controller.beam_plan(contact, aim, neighbours);
            ||| plan is Initial && plan->Initial_width == width
            ||| plan is Alternatives && plan->Alternatives_width == width
        }),
    ensures
        ({
            let recent = aim.last_width is Some && aim.elapsed_ticks <= 15;
            &&& aim.boundary_width matches Some(w) ==> width >= w && width >= 0x3f74_7ae1_47ae_147b
                && (width == w || width == 0x3f74_7ae1_47ae_147b)
            &&& aim.boundary_width is None ==> {
                &&& width <= aim.planned_width
                &&& recent ==> width <= aim.last_width->0
                &&& width == aim.planned_width || (recent && width == aim.last_width->0)
            }
        }),
{
}

/// Where there are alternatives, the beam cut off short of a contact to the left of the target is among
/// them exactly where a contact other than the target lies there in its vicinity, at a finite
/// angle. The contact named is one of these; none of them is off by a smaller angle, and none off as much
/// stands before it.
pub proof fn law_left_alternative(
    controller: RadarController,
    contact: Contact,
    aim: Aim,
    neighbours: Seq<Neighbour>,
)
    requires
        neighbours.len() == controller.contacts@.len(),
        controller.beam_plan(contact, aim, neighbours) is Alternatives,
    ensures
        ({
            let contacts = controller.contacts@;
            let off = |i: int, by: u64|
                {
                    &&& contacts[i].id != contact.id
                    &&& neighbours[i].distance <= aim.vicinity
                    &&& neighbours[i].bearing == Bearing::Left(by)
                    &&& by < FARTHEST
                };
            match controller.beam_plan(contact, aim, neighbours)->left {
                Some(id) => exists|p: int, by: u64|
                    {
                        &&& 0 <= p < contacts.len()
                        &&& contacts[p].id == id
                        &&& #[trigger] off(p, by)
                        &&& forall|q: int, other: u64|
                            0 <= q < contacts.len() && #[trigger] off(q, other) ==> by <= other && (
                            q < p ==> by < other)
                    },
                None => forall|q: int, other: u64|
                    0 <= q < contacts.len() ==> !#[trigger] off(q, other),
            }
        }),
{
    let contacts = controller.contacts@;
    let keys = left_keys(contacts, contact.id, aim.vicinity, neighbours);
    let off = |i: int, by: u64|
        {
            &&& contacts[i].id != contact.id
            &&& neighbours[i].distance <= aim.vicinity
            &&& neighbours[i].bearing == Bearing::Left(by)
            &&& by < FARTHEST
        };
    law_first_min(keys);
    assert forall|q: int, other: u64|
        0 <= q < contacts.len() && #[trigger] off(q, other) implies keys[q] == Some(other) by {}
    if let Some(m) = first_min_of(keys) {
        assert(off(m, keys[m]->0));
    }
}

/// Where there are alternatives, the beam cut off short of a contact to the right of the target is among
/// them exactly where a contact other than the target lies there in its vicinity, at a finite
/// angle. The contact named is one of these; none of them is off by a smaller angle, and none off as much
/// stands before it.
pub proof fn law_right_alternative(
    controller: RadarController,
    contact: Contact,
    aim: Aim,
    neighbours: Seq<Neighbour>,
)
    requires
        neighbours.len() == controller.contacts@.len(),
        controller.beam_plan(contact, aim, neighbours) is Alternatives,
    ensures
        ({
            let contacts = controller.contacts@;
            let off = |i: int, by: u64|
                {
                    &&& contacts[i].id != contact.id
                    &&& neighbours[i].distance <= aim.vicinity
                    &&& neighbours[i].bearing == Bearing::Right(by)
                    &&& by < FARTHEST
                };
            match controller.beam_plan(contact, aim, neighbours)->right {
                Some(id) => exists|p: int, by: u64|
                    {
                        &&& 0 <= p < contacts.len()
                        &&& contacts[p].id == id
                        &&& #[trigger] off(p, by)
                        &&& forall|q: int, other: u64|
                            0 <= q < contacts.len() && #[trigger] off(q, other) ==> by <= other && (
                            q < p ==> by < other)
                    },
                None => forall|q: int, other: u64|
                    0 <= q < contacts.len() ==> !#[trigger] off(q, other),
            }
        }),
{
    let contacts = controller.contacts@;
    let keys = right_keys(contacts, contact.id, aim.vicinity, neighbours);
    let off = |i: int, by: u64|
        {
            &&& contacts[i].id != contact.id
            &&& neighbours[i].distance <= aim.vicinity
            &&& neighbours[i].bearing == Bearing::Right(by)
            &&& by < FARTHEST
        };
    law_first_min(keys);
    assert forall|q: int, other: u64|
        0 <= q < contacts.len() && #[trigger] off(q, other) implies keys[q] == Some(other) by {}
    if let Some(m) = first_min_of(keys) {
        assert(off(m, keys[m]->0));
    }
}

/// Where there are alternatives, the beam cut off short of a contact behind the target is among
/// them exactly where a contact other than the target lies there in its vicinity, at a finite
/// distance. The contact named is one of these; none of them is off by less, and none off as much
/// stands before it.
pub proof fn law_behind_alternative(
    controller: RadarController,
    contact: Contact,
    aim: Aim,
    neighbours: Seq<Neighbour>,
)
    requires
        neighbours.len() == controller.contacts@.len(),
        controller.beam_plan(contact, aim, neighbours) is Alternatives,
    ensures
        ({
            let contacts = controller.contacts@;
            let off = |i: int, by: u64|
                {
                    &&& contacts[i].id != contact.id
                    &&& neighbours[i].distance <= aim.vicinity
                    &&& neighbours[i].depth == Depth::Behind(by)
                    &&& by < FARTHEST
                };
            match controller.beam_plan(contact, aim, neighbours)->behind {
                Some(id) => exists|p: int, by: u64|
                    {
                        &&& 0 <= p < contacts.len()
                        &&& contacts[p].id == id
                        &&& #[trigger] off(p, by)
                        &&& forall|q: int, other: u64|
                            0 <= q < contacts.len() && #[trigger] off(q, other) ==> by <= other && (
                            q < p ==> by < other)
                    },
                None => forall|q: int, other: u64|
                    0 <= q < contacts.len() ==> !#[trigger] off(q, other),
            }
        }),
{
    let contacts = controller.contacts@;
    let keys = behind_keys(contacts, contact.id, aim.vicinity, neighbours);
    let off = |i: int, by: u64|
        {
            &&& contacts[i].id != contact.id
            &&& neighbours[i].distance <= aim.vicinity
            &&& neighbours[i].depth == Depth::Behind(by)
            &&& by < FARTHEST
        };
    law_first_min(keys);
    assert forall|q: int, other: u64|
        0 <= q < contacts.len() && #[trigger] off(q, other) implies keys[q] == Some(other) by {}
    if let Some(m) = first_min_of(keys) {
        assert(off(m, keys[m]->0));
    }
}

/// Where there are alternatives, the beam cut off short of a contact in front of the target is among
/// them exactly where a contact other than the target lies there in its vicinity, at a finite
/// distance. The contact named is one of these; none of them is off by less, and none off as much
/// stands before it.
pub proof fn law_front_alternative(
    controller: RadarController,
    contact: Contact,
    aim: Aim,
    neighbours: Seq<Neighbour>,
)
    requires
        neighbours.len() == controller.contacts@.len(),
        controller.beam_plan(contact, aim, neighbours) is Alternatives,
    ensures
        ({
            let contacts = controller.contacts@;
            let off = |i: int, by: u64|
                {
                    &&& contacts[i].id != contact.id
                    &&& neighbours[i].distance <= aim.vicinity
                    &&& neighbours[i].depth == Depth::Front(by)
                    &&& by < FARTHEST
                };
            match controller.beam_plan(contact, aim, neighbours)->front {
                Some(id) => exists|p: int, by: u64|
                    {
                        &&& 0 <= p < contacts.len()
                        &&& contacts[p].id == id
                        &&& #[trigger] off(p, by)
                        &&& forall|q: int, other: u64|
                            0 <= q < contacts.len() && #[trigger] off(q, other) ==> by <= other && (
                            q < p ==> by < other)
                    },
                None => forall|q: int, other: u64|
                    0 <= q < contacts.len() ==> !#[trigger] off(q, other),
            }
        }),
{
    let contacts = controller.contacts@;
    let keys = front_keys(contacts, contact.id, aim.vicinity, neighbours);
    let off = |i: int, by: u64|
        {
            &&& contacts[i].id != contact.id
            &&& neighbours[i].distance <= aim.vicinity
            &&& neighbours[i].depth == Depth::Front(by)
            &&& by < FARTHEST
        };
    law_first_min(keys);
    assert forall|q: int, other: u64|
        0 <= q < contacts.len() && #[trigger] off(q, other) implies keys[q] == Some(other) by {}
    if let Some(m) = first_min_of(keys) {
        assert(off(m, keys[m]->0));
    }
}

/// The contacts that a beam is counted to see are those other than the target that lie in its
/// vicinity and that the beam sees: as many as there are.
pub proof fn law_matches_are_counted(
    contacts: Seq<Contact>,
    target: u32,
    vicinity: Measure,
    neighbours: Seq<Neighbour>,
    seen: Seq<bool>,
    n: nat,
)
    ensures
        ({
            let matched = Set::new(
                |i: int|
                    0 <= i < n && contacts[i].id != target && neighbours[i].distance <= vicinity
                        && seen[i],
            );
            &&& matched.finite()
            &&& matched.len() == matches_of(contacts, target, vicinity, neighbours, seen, n)
        }),
    decreases n,
{
    let matched = Set::new(
        |i: int|
            0 <= i < n && contacts[i].id != target && neighbours[i].distance <= vicinity && seen[i],
    );
    if n == 0 {
        assert(matched =~= Set::empty());
    } else {
        let m = (n - 1) as nat;
        law_matches_are_counted(contacts, target, vicinity, neighbours, seen, m);
        let fewer = Set::new(
            |i: int|
                0 <= i < m && contacts[i].id != target && neighbours[i].distance <= vicinity
                    && seen[i],
        );
        if contacts[n - 1].id != target && neighbours[n - 1].distance <= vicinity && seen[n - 1] {
            assert(matched =~= fewer.insert(n - 1));
        } else {
            assert(matched =~= fewer);
        }
    }
}

/// The beam planned first always comes into question, and it is tried before all others; a beam
/// cut off on a side comes into question, once, exactly where there is a contact on that side.
pub proof fn law_candidates(left: bool, right: bool, behind: bool, front: bool)
    ensures
        ({
            let kinds = candidates_of(left, right, behind, front);
            &&& kinds.len() > 0 && kinds[0] == BeamKind::Initial
            &&& kinds.no_duplicates()
            &&& kinds.contains(BeamKind::LeftMid) <==> left
            &&& kinds.contains(BeamKind::RightMid) <==> right
            &&& kinds.contains(BeamKind::BehindMid) <==> behind
            &&& kinds.contains(BeamKind::FrontMid) <==> front
        }),
{
    let kinds = candidates_of(left, right, behind, front);
    let a: int = if left {
        2
    } else {
        1
    };
    let b: int = if right {
        a + 1
    } else {
        a
    };
    let c: int = if behind {
        b + 1
    } else {
        b
    };
    if left {
        assert(kinds[1] == BeamKind::LeftMid);
    }
    if right {
        assert(kinds[a] == BeamKind::RightMid);
    }
    if behind {
        assert(kinds[b] == BeamKind::BehindMid);
    }
    if front {
        assert(kinds[c] == BeamKind::FrontMid);
    }
}

/// The best beam sees no more other contacts than any other; of those that see as few it is the
/// narrowest, of those as narrow the least deep, and of those as shallow the first.
pub proof fn law_best_beam(scores: Seq<BeamScore>, i: int, j: int)
    requires
        is_best(scores, i),
        0 <= j < scores.len(),
        i != j,
    ensures
        scores[i].matches <= scores[j].matches,
        scores[i].matches == scores[j].matches ==> scores[i].width <= scores[j].width,
        scores[i].matches == scores[j].matches && scores[i].width == scores[j].width
            ==> scores[i].depth <= scores[j].depth,
        scores[i] == scores[j] ==> i < j,
{
    assert(!scores[j].better(scores[i]));
    if j < i {
        assert(scores[i].better(scores[j]));
    }
}

} // verus!
