//! The search pattern of a scanning radar: which slice comes next, and how slices are cut
//! short in front of contacts that are known already.
use vstd::prelude::*;

use crate::measure::{Measure, FULL_CIRCLE, METERS_100};
use crate::select::{first_min, first_min_of, FARTHEST};

verus! {

/// A slice of the search pattern, before it is cut short.
#[derive(Clone, Copy, Debug, PartialEq, Eq, Structural)]
pub enum BasicSlice {
    /// The slice with this number out of those laid over the expected position of a target.
    Biased { index: usize },
    /// The next slice of the sweep. With `restore`, width and range start over from their
    /// base values, and so does the angle swept.
    Sweep { restore: bool },
}

/// A contact's boundary in front of the radar.
#[derive(Clone, Copy, Debug, PartialEq, Eq, Structural)]
pub struct Obstacle {
    pub contact_id: u32,
    /// The distance of the closest point of the boundary within the slice, where there is one.
    pub distance: Option<u64>,
    /// How far behind the near end of the slice that point lies.
    pub depth: Measure,
}

/// What becomes of a slice.
#[derive(Clone, Copy, Debug, PartialEq, Eq, Structural)]
pub enum SliceVerdict {
    /// Take another slice.
    Retry,
    /// Scan the slice as it is.
    Use,
    /// Scan the slice up to the obstacle with this place in the list, and scan behind it
    /// next time.
    CutAt { place: usize },
}

/// What decides between the slices of the search pattern.
#[derive(Clone, Copy, Debug, PartialEq, Eq, Structural)]
pub struct DefaultScanSliceGenerator {
    pub hit_seen_in_cycle: bool,
    pub has_non_missile_contact: bool,
    /// The contact that the last slice ended at.
    pub avoided_contact_id: Option<u32>,
    pub slice_index: usize,
}

/// The distances of the obstacles that a slice may be cut at: all but the one that is being
/// avoided.
pub open spec fn cut_keys(obstacles: Seq<Obstacle>, avoided: Option<u32>) -> Seq<Option<u64>> {
    Seq::new(
        obstacles.len(),
        |i: int|
            if avoided == Some(obstacles[i].contact_id) {
                None
            } else {
                obstacles[i].distance
            },
    )
}

/// What becomes of a slice that is deep enough: it is cut at the closest obstacle, unless what
/// would be left is shorter than 100 m.
pub open spec fn cut_verdict(obstacles: Seq<Obstacle>, avoided: Option<u32>) -> SliceVerdict {
    match first_min_of(cut_keys(obstacles, avoided)) {
        Some(i) => if obstacles[i].depth < METERS_100 {
            SliceVerdict::Use
        } else {
            SliceVerdict::CutAt { place: i as usize }
        },
        None => SliceVerdict::Use,
    }
}

/// What becomes of a slice of some depth; there is none where the contact that was being
/// avoided is gone. One shorter than 100 m is not worth a scan.
pub open spec fn slice_verdict(depth: Option<Measure>, obstacles: Seq<Obstacle>, avoided: Option<u32>) -> SliceVerdict {
    if depth is None || depth->0 < METERS_100 {
        SliceVerdict::Retry
    } else {
        cut_verdict(obstacles, avoided)
    }
}

/// The depth of what is scanned, where a scan comes of it.
pub open spec fn scanned_depth(verdict: SliceVerdict, depth: Option<Measure>, obstacles: Seq<Obstacle>) -> Option<
    Measure,
> {
    match verdict {
        SliceVerdict::Retry => None,
        SliceVerdict::Use => depth,
        SliceVerdict::CutAt { place } => Some(obstacles[place as int].depth),
    }
}

impl DefaultScanSliceGenerator {
    /// A search pattern at its start.
    pub fn new() -> (generator: Self)
        ensures
            generator == (DefaultScanSliceGenerator {
                hit_seen_in_cycle: false,
                has_non_missile_contact: false,
                avoided_contact_id: None,
                slice_index: 0,
            }),
    {
        DefaultScanSliceGenerator {
            hit_seen_in_cycle: false,
            has_non_missile_contact: false,
            avoided_contact_id: None,
            slice_index: 0,
        }
    }

    /// Notes that a scan found something.
    pub fn notify_hit(&mut self)
        ensures
            *final(self) == (DefaultScanSliceGenerator { hit_seen_in_cycle: true, ..*old(self) }),
    {
        self.hit_seen_in_cycle = true;
    }

    /// Notes whether a contact other than a missile is known.
    pub fn notify_non_missile_contact(&mut self, has: bool)
        ensures
            *final(self) == (DefaultScanSliceGenerator { has_non_missile_contact: has, ..*old(self) }),
    {
        self.has_non_missile_contact = has;
    }

    /// The next slice. `biased` tells how many slices are laid over the expected position of
    /// a target, where one is expected.
    pub fn generate_basic_slice(&mut self, biased: Option<usize>) -> (slice: BasicSlice)
        ensures
            match biased {
                Some(n) => {
                    let index = if old(self).slice_index >= n {
                        0
                    } else {
                        old(self).slice_index
                    };
                    &&& slice == (BasicSlice::Biased { index })
                    &&& *final(self) == (DefaultScanSliceGenerator {
                        slice_index: (index + 1) as usize,
                        hit_seen_in_cycle: false,
                        ..*old(self)
                    })
                },
                None => {
                    &&& slice == (BasicSlice::Sweep { restore: old(self).has_non_missile_contact })
                    &&& *final(self) == (DefaultScanSliceGenerator {
                        slice_index: 0,
                        hit_seen_in_cycle: old(self).hit_seen_in_cycle && !old(
                            self,
                        ).has_non_missile_contact,
                        ..*old(self)
                    })
                },
            },
    {
        match biased {
            Some(n) => {
                if self.slice_index >= n {
                    self.slice_index = 0;
                }
                let index: usize = self.slice_index;
                self.slice_index = index + 1;
                self.hit_seen_in_cycle = false;
                BasicSlice::Biased { index }
            },
            None => {
                self.slice_index = 0;
                if self.has_non_missile_contact {
                    self.hit_seen_in_cycle = false;
                }
                BasicSlice::Sweep { restore: self.has_non_missile_contact }
            },
        }
    }

    /// Ends a step of the sweep after which the angle `swept` has been covered. Tells
    /// whether that completes a circle, with which the angle swept starts over, and whether
    /// the next circle is to reach farther with a narrower beam.
    pub fn finish_sweep(&mut self, swept: Measure) -> (end: (bool, bool))
        ensures
            end.0 == (swept >= FULL_CIRCLE),
            end.1 == (end.0 && !old(self).has_non_missile_contact && !old(self).hit_seen_in_cycle),
            *final(self) == (DefaultScanSliceGenerator {
                hit_seen_in_cycle: old(self).hit_seen_in_cycle && !end.0,
                ..*old(self)
            }),
    {
        if swept < FULL_CIRCLE {
            return (false, false);
        }
        let deepen = !self.has_non_missile_contact && !self.hit_seen_in_cycle;
        self.hit_seen_in_cycle = false;
        (true, deepen)
    }

    /// Judges a slice by its depth. There is none where the contact that was being avoided is
    /// gone. `obstacles` lists what lies in it.
    pub fn next_slice(&mut self, depth: Option<Measure>, obstacles: &Vec<Obstacle>) -> (verdict: SliceVerdict)
        ensures
            verdict == slice_verdict(depth, obstacles@, old(self).avoided_contact_id),
            *final(self) == (DefaultScanSliceGenerator {
                avoided_contact_id: match verdict {
                    SliceVerdict::CutAt { place } => Some(obstacles@[place as int].contact_id),
                    _ => None,
                },
                ..*old(self)
            }),
            scanned_depth(verdict, depth, obstacles@) matches Some(d) ==> d >= METERS_100,
    {
        let avoided = self.avoided_contact_id;
        self.avoided_contact_id = None;
        let deep = match depth {
            Some(d) => d >= METERS_100,
            None => false,
        };
        if !deep {
            return SliceVerdict::Retry;
        }
        let ghost all = cut_keys(obstacles@, avoided);
        let mut keys: Vec<Option<u64>> = Vec::new();
        let mut i: usize = 0;
        while i < obstacles.len()
            invariant
                0 <= i <= obstacles.len(),
                all == cut_keys(obstacles@, avoided),
                keys@ == all.take(i as int),
            decreases obstacles.len() - i,
        {
            let obstacle = obstacles[i];
            let skip = match avoided {
                Some(id) => id == obstacle.contact_id,
                None => false,
            };
            if skip {
                keys.push(None);
            } else {
                keys.push(obstacle.distance);
            }
            assert(all.take(i as int + 1) =~= all.take(i as int).push(all[i as int]));
            i = i + 1;
        }
        assert(keys@ =~= all);
        match first_min(&keys) {
            Some(place) => {
                if obstacles[place].depth < METERS_100 {
                    return SliceVerdict::Use;
                }
                self.avoided_contact_id = Some(obstacles[place].contact_id);
                SliceVerdict::CutAt { place }
            },
            None => SliceVerdict::Use,
        }
    }
}

/// A slice is never cut short at the contact that it starts behind.
pub proof fn law_avoided_contact_is_not_cut_at(obstacles: Seq<Obstacle>, avoided: u32, place: usize)
    requires
        obstacles.len() <= usize::MAX,
        cut_verdict(obstacles, Some(avoided)) == (SliceVerdict::CutAt { place }),
    ensures
        place < obstacles.len(),
        obstacles[place as int].contact_id != avoided,
{
    let keys = cut_keys(obstacles, Some(avoided));
    let i = choose|i: int| crate::select::is_first_min(keys, i);
    assert(crate::select::is_first_min(keys, i));
}

/// No slice shorter than 100 m is scanned, neither a whole one nor one that is cut short in
/// front of a contact.
pub proof fn law_no_short_slice(depth: Option<Measure>, obstacles: Seq<Obstacle>, avoided: Option<u32>)
    requires
        obstacles.len() <= usize::MAX,
    ensures
        scanned_depth(slice_verdict(depth, obstacles, avoided), depth, obstacles) matches Some(d)
            ==> d >= METERS_100,
{
    let keys = cut_keys(obstacles, avoided);
    if first_min_of(keys) is Some {
        let i = choose|i: int| crate::select::is_first_min(keys, i);
        assert(crate::select::is_first_min(keys, i));
    }
}

/// A slice that is missing or shorter than 100 m is not scanned. Else it is cut at the closest
/// obstacle, the one being avoided left out and the first among equals, unless less than 100 m
/// would be left; then, and without an obstacle, it is scanned whole.
pub proof fn law_slice_verdict(depth: Option<Measure>, obstacles: Seq<Obstacle>, avoided: Option<u32>)
    requires
        obstacles.len() <= usize::MAX,
    ensures
        ({
            let verdict = slice_verdict(depth, obstacles, avoided);
            let blocks = |i: int|
                {
                    &&& obstacles[i].distance is Some
                    &&& obstacles[i].distance->0 < FARTHEST
                    &&& avoided != Some(obstacles[i].contact_id)
                };
            let closest = |p: int|
                {
                    &&& 0 <= p < obstacles.len() && blocks(p)
                    &&& forall|j: int|
                        #![trigger obstacles[j]]
                        0 <= j < obstacles.len() && blocks(j) ==> obstacles[p].distance->0
                            <= obstacles[j].distance->0 && (j < p ==> obstacles[p].distance->0
                            < obstacles[j].distance->0)
                };
            &&& verdict == SliceVerdict::Retry <==> depth is None || depth->0 < METERS_100
            &&& verdict matches SliceVerdict::CutAt { place } ==> closest(place as int)
                && obstacles[place as int].depth >= METERS_100
            &&& verdict == SliceVerdict::Use ==> forall|p: int|
                #![trigger obstacles[p]]
                0 <= p < obstacles.len() && closest(p) ==> obstacles[p].depth < METERS_100
            &&& forall|p: int|
                #![trigger obstacles[p]]
                verdict == SliceVerdict::Use && 0 <= p < obstacles.len() && blocks(p) ==> exists|q: int|
                    #[trigger] closest(q)
        }),
{
    let keys = cut_keys(obstacles, avoided);
    crate::select::law_first_min(keys);
    let blocks = |i: int|
        {
            &&& obstacles[i].distance is Some
            &&& obstacles[i].distance->0 < FARTHEST
            &&& avoided != Some(obstacles[i].contact_id)
        };
    let closest = |p: int|
        {
            &&& 0 <= p < obstacles.len() && blocks(p)
            &&& forall|j: int|
                #![trigger obstacles[j]]
                0 <= j < obstacles.len() && blocks(j) ==> obstacles[p].distance->0
                    <= obstacles[j].distance->0 && (j < p ==> obstacles[p].distance->0
                    < obstacles[j].distance->0)
        };
    assert forall|j: int|
        #![trigger obstacles[j]]
        0 <= j < obstacles.len() && blocks(j) implies keys[j] == obstacles[j].distance by {}
    if let Some(m) = first_min_of(keys) {
        assert(blocks(m));
        assert(closest(m));
        assert forall|p: int| #![trigger obstacles[p]] 0 <= p < obstacles.len() && closest(p) implies p
            == m by {
            assert(keys[m] is Some);
            assert(blocks(p));
        }
    }
}

/// What is scanned of a slice is as deep as it is, or as the obstacle lies behind its near end
/// where it is cut; nothing is scanned where another slice is taken.
pub proof fn law_scanned_depth(depth: Option<Measure>, obstacles: Seq<Obstacle>, avoided: Option<u32>)
    ensures
        ({
            let verdict = slice_verdict(depth, obstacles, avoided);
            let scanned = scanned_depth(verdict, depth, obstacles);
            &&& scanned is None <==> verdict == SliceVerdict::Retry
            &&& verdict == SliceVerdict::Use ==> scanned == depth
            &&& verdict matches SliceVerdict::CutAt { place } ==> scanned == Some(
                obstacles[place as int].depth,
            )
        }),
{
}

} // verus!
