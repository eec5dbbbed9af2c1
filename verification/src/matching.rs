//! Selecting the best supported locale for desired locales.
//!
//! The search walks a candidate list accumulating a rank penalty per
//! position, keeps the candidate with the lowest distance-plus-rank
//! cost below the cutoff, returns at once on an exact (distance
//! zero) match, and stops early when the accumulated penalty alone
//! already reaches the best cost.  When nothing acceptable exists the
//! unknown code comes back with the conventional distance 1000.

use vstd::prelude::*;
use crate::code::LanguageCode;
use crate::distance::{distance_spec, lemma_distance_bounds};
use crate::fields::EMPTY_CODE;

verus! {

/// The search state advancing over `list` from position `i`: the
/// best candidate so far with its distance and cost, and the rank
/// penalty accumulated so far.
pub open spec fn find_from(
    d: u64,
    list: Seq<u64>,
    i: int,
    penalty: int,
    cutoff: int,
    best: u64,
    best_dist: int,
    best_cost: int,
    rank: int,
) -> (u64, int)
    decreases list.len() - i,
{
    if i < 0 || i >= list.len() {
        (best, best_dist)
    } else {
        let dist = distance_spec(d, list[i]);
        let cost = dist + rank;
        if dist == 0 {
            (list[i], 0)
        } else {
            let b = if dist < cutoff && cost < best_cost {
                (list[i], dist, cost)
            } else {
                (best, best_dist, best_cost)
            };
            let nrank = rank + penalty;
            if nrank >= b.2 {
                (b.0, b.1)
            } else {
                find_from(d, list, i + 1, penalty, cutoff, b.0, b.1, b.2, nrank)
            }
        }
    }
}

/// What `find_match` returns: the search started on the unknown
/// code with distance and cost 1000.
pub open spec fn find_match_spec(d: u64, list: Seq<u64>, penalty: int, cutoff: int) -> (u64, int) {
    find_from(d, list, 0, penalty, cutoff, EMPTY_CODE, 1000, 1000, 0)
}

/// With no rank penalty, the search returns a distance-zero
/// candidate whenever the list holds one.
pub proof fn lemma_find_from_zero(
    d: u64,
    list: Seq<u64>,
    i: int,
    cutoff: int,
    best: u64,
    best_dist: int,
    best_cost: int,
)
    requires
        0 <= i,
        1 <= best_cost,
        exists|j: int| i <= j < list.len() && distance_spec(d, #[trigger] list[j]) == 0,
    ensures
        find_from(d, list, i, 0, cutoff, best, best_dist, best_cost, 0).1 == 0,
        distance_spec(d, find_from(d, list, i, 0, cutoff, best, best_dist, best_cost, 0).0) == 0,
    decreases list.len() - i,
{
    let w = choose|j: int| i <= j < list.len() && distance_spec(d, #[trigger] list[j]) == 0;
    assert(i <= w < list.len());
    let dist = distance_spec(d, list[i]);
    if dist == 0 {
    } else {
        lemma_distance_bounds(d, list[i]);
        assert(w > i);
        if dist < cutoff && dist + 0 < best_cost {
            lemma_find_from_zero(d, list, i + 1, cutoff, list[i], dist, dist);
        } else {
            lemma_find_from_zero(d, list, i + 1, cutoff, best, best_dist, best_cost);
        }
    }
}

/// Exact-match precedence: when some supported code is maximize-equal
/// to the desired one, the penalty-free search returns distance 0 and
/// a code whose distance from the desired one is 0.
pub proof fn lemma_match_exact(d: u64, list: Seq<u64>, cutoff: int)
    requires
        exists|j: int| 0 <= j < list.len() && distance_spec(d, #[trigger] list[j]) == 0,
    ensures
        find_match_spec(d, list, 0, cutoff).1 == 0,
        distance_spec(d, find_match_spec(d, list, 0, cutoff).0) == 0,
{
    lemma_find_from_zero(d, list, 0, cutoff, EMPTY_CODE, 1000, 1000);
}

/// The views of a list of codes.
pub open spec fn code_views(list: Seq<LanguageCode>) -> Seq<u64> {
    list.map_values(|x: LanguageCode| x@)
}

/// What `match_supported_with_cutoff` yields for one desired code:
/// an equal supported code wins with distance 0, else the
/// penalty-free search decides.
pub open spec fn supported_result(d: u64, supported: Seq<u64>, cutoff: int) -> (u64, int) {
    if exists|j: int| 0 <= j < supported.len() && #[trigger] supported[j] == d {
        (d, 0)
    } else {
        find_match_spec(d, supported, 0, cutoff)
    }
}

/// The list-against-list search: each desired code is matched
/// against the supported list, with the rank penalty accumulating
/// over desired positions.
pub open spec fn match_lists_from(
    desired: Seq<u64>,
    supported: Seq<u64>,
    i: int,
    penalty: int,
    cutoff: int,
    best: u64,
    best_dist: int,
    best_cost: int,
    rank: int,
) -> (u64, int)
    decreases desired.len() - i,
{
    if i < 0 || i >= desired.len() {
        (best, best_dist)
    } else {
        let dist = supported_result(desired[i], supported, cutoff).1;
        let cost = dist + rank;
        let b = if dist < cutoff && cost < best_cost {
            (desired[i], dist, cost)
        } else {
            (best, best_dist, best_cost)
        };
        let nrank = rank + penalty;
        if nrank >= b.2 {
            (b.0, b.1)
        } else {
            match_lists_from(desired, supported, i + 1, penalty, cutoff, b.0, b.1, b.2, nrank)
        }
    }
}

pub open spec fn match_lists_spec(
    desired: Seq<u64>,
    supported: Seq<u64>,
    penalty: int,
    cutoff: int,
) -> (u64, int) {
    match_lists_from(desired, supported, 0, penalty, cutoff, EMPTY_CODE, 1000, 1000, 0)
}

impl LanguageCode {
    /// Search `possibilities` for the closest acceptable match to
    /// this code, adding `rank_penalty` to the cost of each position
    /// past the first.  An exact match returns at once; when no
    /// distance falls below `cutoff`, the unknown code comes back
    /// with distance 1000.
    pub fn find_match(
        self,
        rank_penalty: i32,
        cutoff: i32,
        possibilities: &Vec<LanguageCode>,
    ) -> (r: (LanguageCode, i32))
        requires
            0 <= rank_penalty <= i32::MAX - 2000,
        ensures
            (r.0@, r.1 as int) == find_match_spec(
                self@,
                code_views(possibilities@),
                rank_penalty as int,
                cutoff as int,
            ),
            0 <= r.1 <= 1000,
    {
        let ghost views = code_views(possibilities@);
        let mut rank_cost: i32 = 0;
        let mut best_match = LanguageCode::new(EMPTY_CODE);
        let mut best_distance: i32 = 1000;
        let mut best_cost: i32 = 1000;
        let mut i: usize = 0;
        while i < possibilities.len()
            invariant
                0 <= i <= possibilities@.len(),
                views == code_views(possibilities@),
                views.len() == possibilities@.len(),
                forall|k: int| 0 <= k < views.len() ==> views[k] == #[trigger] possibilities@[k]@,
                0 <= rank_penalty <= i32::MAX - 2000,
                0 <= rank_cost < best_cost,
                1 <= best_cost <= 1000,
                0 <= best_distance <= 1000,
                find_match_spec(self@, views, rank_penalty as int, cutoff as int) == find_from(
                    self@,
                    views,
                    i as int,
                    rank_penalty as int,
                    cutoff as int,
                    best_match@,
                    best_distance as int,
                    best_cost as int,
                    rank_cost as int,
                ),
            decreases possibilities@.len() - i,
        {
            let other = possibilities[i];
            let distance: i32 = self.match_distance(other);
            let cost: i32 = distance + rank_cost;
            if distance == 0 {
                return (other, 0);
            }
            if distance < cutoff && cost < best_cost {
                best_match = other;
                best_cost = cost;
                best_distance = distance;
            }
            rank_cost = rank_cost + rank_penalty;
            if rank_cost >= best_cost {
                return (best_match, best_distance);
            }
            i += 1;
        }
        (best_match, best_distance)
    }

    /// Pick the best of the user's `desired` codes for this
    /// supported code, with the default rank penalty of 5 and the
    /// given cutoff.
    pub fn match_desired_with_cutoff(self, cutoff: i32, desired: &Vec<LanguageCode>) -> (r: (
        LanguageCode,
        i32,
    ))
        ensures
            (r.0@, r.1 as int) == find_match_spec(self@, code_views(desired@), 5, cutoff as int),
    {
        self.find_match(5, cutoff, desired)
    }

    /// Pick the best of the user's `desired` codes for this
    /// supported code, with the default cutoff of 25.
    pub fn match_desired(self, desired: &Vec<LanguageCode>) -> (r: (LanguageCode, i32))
        ensures
            (r.0@, r.1 as int) == find_match_spec(self@, code_views(desired@), 5, 25),
    {
        self.find_match(5, 25, desired)
    }

    /// Pick the best supported code for this desired one: any code
    /// equal to this one wins outright with distance 0, else the
    /// penalty-free search decides.
    pub fn match_supported_with_cutoff(self, cutoff: i32, supported: &Vec<LanguageCode>) -> (r: (
        LanguageCode,
        i32,
    ))
        ensures
            (exists|j: int|
                0 <= j < supported@.len() && (#[trigger] supported@[j])@ == self@) ==> (r.0@
                == self@ && r.1 == 0),
            !(exists|j: int| 0 <= j < supported@.len() && (#[trigger] supported@[j])@ == self@)
                ==> (r.0@, r.1 as int) == find_match_spec(
                self@,
                code_views(supported@),
                0,
                cutoff as int,
            ),
            (r.0@, r.1 as int) == supported_result(self@, code_views(supported@), cutoff as int),
            0 <= r.1 <= 1000,
    {
        let mut i: usize = 0;
        while i < supported.len()
            invariant
                0 <= i <= supported@.len(),
                forall|k: int| 0 <= k < i ==> (#[trigger] supported@[k])@ != self@,
            decreases supported@.len() - i,
        {
            let other = supported[i];
            if other == self {
                proof {
                    let views = code_views(supported@);
                    assert(views[i as int] == supported@[i as int]@);
                    assert(views[i as int] == self@);
                }
                return (other, 0);
            }
            i += 1;
        }
        proof {
            let views = code_views(supported@);
            assert(forall|k: int| 0 <= k < views.len() ==> views[k] == #[trigger] supported@[k]@);
            assert(!(exists|j: int| 0 <= j < views.len() && #[trigger] views[j] == self@));
        }
        self.find_match(0, cutoff, supported)
    }

    /// Pick the best supported code for this desired one, with the
    /// default cutoff of 25.  A supported code equal to this one wins
    /// outright with distance 0, whatever its position.
    pub fn match_supported(self, supported: &Vec<LanguageCode>) -> (r: (LanguageCode, i32))
        ensures
            (exists|j: int|
                0 <= j < supported@.len() && (#[trigger] supported@[j])@ == self@) ==> (r.0@
                == self@ && r.1 == 0),
            !(exists|j: int| 0 <= j < supported@.len() && (#[trigger] supported@[j])@ == self@)
                ==> (r.0@, r.1 as int) == find_match_spec(self@, code_views(supported@), 0, 25),
            (r.0@, r.1 as int) == supported_result(self@, code_views(supported@), 25),
            (exists|j: int|
                0 <= j < supported@.len() && distance_spec(self@, (
                #[trigger] supported@[j])@) == 0) ==> (r.1 == 0 && distance_spec(self@, r.0@)
                == 0),
    {
        let r = self.match_supported_with_cutoff(25, supported);
        proof {
            if exists|j: int|
                0 <= j < supported@.len() && distance_spec(self@, (#[trigger] supported@[j])@)
                    == 0 {
                if exists|j: int| 0 <= j < supported@.len() && (#[trigger] supported@[j])@
                    == self@ {
                    assert(distance_spec(self@, r.0@) == 0) by {
                        crate::distance::lemma_distance_self(self@);
                    }
                } else {
                    let w = choose|j: int|
                        0 <= j < supported@.len() && distance_spec(self@, (
                        #[trigger] supported@[j])@) == 0;
                    let views = code_views(supported@);
                    assert(views[w] == supported@[w]@);
                    assert(distance_spec(self@, views[w]) == 0);
                    lemma_match_exact(self@, views, 25);
                }
            }
        }
        r
    }
}

/// Match every desired code against the supported list, in order of
/// preference: each position past the first adds `rank_penalty` to
/// its cost, the best acceptable result wins, and the unknown code
/// with distance 1000 comes back when nothing is acceptable.
pub fn match_lists_with_cutoff(
    rank_penalty: i32,
    cutoff: i32,
    desired: &Vec<LanguageCode>,
    supported: &Vec<LanguageCode>,
) -> (r: (LanguageCode, i32))
    requires
        0 <= rank_penalty <= i32::MAX - 2000,
    ensures
        (r.0@, r.1 as int) == match_lists_spec(
            code_views(desired@),
            code_views(supported@),
            rank_penalty as int,
            cutoff as int,
        ),
{
    let ghost dv = code_views(desired@);
    let ghost sv = code_views(supported@);
    let mut rank_cost: i32 = 0;
    let mut best_match = LanguageCode::new(EMPTY_CODE);
    let mut best_distance: i32 = 1000;
    let mut best_cost: i32 = 1000;
    let mut i: usize = 0;
    while i < desired.len()
        invariant
            0 <= i <= desired@.len(),
            dv == code_views(desired@),
            sv == code_views(supported@),
            dv.len() == desired@.len(),
            forall|k: int| 0 <= k < dv.len() ==> dv[k] == #[trigger] desired@[k]@,
            0 <= rank_penalty <= i32::MAX - 2000,
            0 <= rank_cost < best_cost,
            1 <= best_cost <= 1000,
            0 <= best_distance <= 1000,
            match_lists_spec(dv, sv, rank_penalty as int, cutoff as int) == match_lists_from(
                dv,
                sv,
                i as int,
                rank_penalty as int,
                cutoff as int,
                best_match@,
                best_distance as int,
                best_cost as int,
                rank_cost as int,
            ),
        decreases desired@.len() - i,
    {
        let d = desired[i];
        let m = d.match_supported_with_cutoff(cutoff, supported);
        let distance: i32 = m.1;
        let cost: i32 = distance + rank_cost;
        proof {
            assert(distance as int == supported_result(dv[i as int], sv, cutoff as int).1);
        }
        if distance < cutoff && cost < best_cost {
            best_match = d;
            best_cost = cost;
            best_distance = distance;
        }
        rank_cost = rank_cost + rank_penalty;
        if rank_cost >= best_cost {
            return (best_match, best_distance);
        }
        i += 1;
    }
    (best_match, best_distance)
}

} // verus!
