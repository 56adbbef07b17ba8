//! The reference CPU oracles of the browser accelerator probe: Link
//! incidence matching and the canonicalization plan of a candidate batch.
use vstd::prelude::*;

verus! {

/// Capacity of each pair table of the canonicalization planner.
pub const MAX_CANONICAL_PAIRS: usize = 64;

/// The probe's identification word.
pub fn amemory_probe() -> (word: u32)
    ensures
        word == 0xA013,
{
    0xA013
}

/// The CPU control step: the successor, wrapping at the `u32` bound.
pub fn amemory_cpu_step(value: u32) -> (next: u32)
    ensures
        next == (value as int + 1) % 0x1_0000_0000,
{
    value.wrapping_add(1)
}

/// Incidence flags of one Link `(start, end)` against a query pair: bit 0
/// when the START poles agree, bit 1 when the END poles agree, bit 2 when
/// both agree.
pub fn amemory_incidence_flag(start: u32, end: u32, query_start: u32, query_end: u32) -> (flags: u32)
    ensures
        flags == (if start == query_start {
            1u32
        } else {
            0u32
        }) + (if end == query_end {
            2u32
        } else {
            0u32
        }) + (if start == query_start && end == query_end {
            4u32
        } else {
            0u32
        }),
{
    let mut flags: u32 = 0;
    if start == query_start {
        flags = flags + 1;
    }
    if end == query_end {
        flags = flags + 2;
    }
    if flags == 3 {
        flags = flags + 4;
    }
    flags
}

/// The canonicalization plan flags of a candidate occurrence: bit 0 when the
/// pair already exists among the committed pairs, bit 1 when it occurred
/// earlier in the candidate batch, bit 2 when this occurrence is the first
/// new representative of the pair.
pub open spec fn plan_flags(exists: bool, prior: bool) -> int {
    (if exists {
        1u32
    } else {
        0u32
    }) + (if prior {
        2u32
    } else {
        0u32
    }) + (if !exists && !prior {
        4u32
    } else {
        0u32
    })
}

/// `pair` is among the first `count` committed pairs.
pub open spec fn committed(existing: Seq<(u32, u32)>, count: int, pair: (u32, u32)) -> bool {
    exists|e: int| 0 <= e < count && #[trigger] existing[e] == pair
}

/// The candidate at `index` occurred earlier in the batch.
pub open spec fn earlier(candidates: Seq<(u32, u32)>, index: int) -> bool {
    exists|j: int| 0 <= j < index && #[trigger] candidates[j] == candidates[index]
}

/// The candidate at `index` is the representative of a new pair: the pair
/// is not committed and this is its first occurrence in the batch.
pub open spec fn representative(
    existing: Seq<(u32, u32)>,
    count: int,
    candidates: Seq<(u32, u32)>,
    index: int,
) -> bool {
    !committed(existing, count, candidates[index]) && !earlier(candidates, index)
}

/// Two tables of pairs: the committed (existing) pairs and a candidate batch.
pub struct CanonicalPlanner {
    existing_start: [u32; 64],
    existing_end: [u32; 64],
    candidate_start: [u32; 64],
    candidate_end: [u32; 64],
}

impl CanonicalPlanner {
    /// The committed pair at each slot.
    pub closed spec fn existing(&self) -> Seq<(u32, u32)> {
        Seq::new(64, |i: int| (self.existing_start@[i], self.existing_end@[i]))
    }

    /// The candidate pair at each slot.
    pub closed spec fn candidates(&self) -> Seq<(u32, u32)> {
        Seq::new(64, |i: int| (self.candidate_start@[i], self.candidate_end@[i]))
    }

    pub fn new() -> (planner: Self)
        ensures
            planner.existing() == Seq::new(64, |i: int| (0u32, 0u32)),
            planner.candidates() == Seq::new(64, |i: int| (0u32, 0u32)),
    {
        let planner = Self {
            existing_start: [0u32; 64],
            existing_end: [0u32; 64],
            candidate_start: [0u32; 64],
            candidate_end: [0u32; 64],
        };
        proof {
            assert(planner.existing() =~= Seq::new(64, |i: int| (0u32, 0u32)));
            assert(planner.candidates() =~= Seq::new(64, |i: int| (0u32, 0u32)));
        }
        planner
    }

    /// Stores a committed pair; 1 on success, 0 when `index` is out of range.
    pub fn set_existing(&mut self, index: u32, start: u32, end: u32) -> (ok: u32)
        ensures
            index < 64 ==> ok == 1 && final(self).existing() == old(self).existing().update(
                index as int,
                (start, end),
            ),
            index >= 64 ==> ok == 0 && final(self).existing() == old(self).existing(),
            final(self).candidates() == old(self).candidates(),
    {
        let i = index as usize;
        if i >= MAX_CANONICAL_PAIRS {
            return 0;
        }
        self.existing_start[i] = start;
        self.existing_end[i] = end;
        proof {
            assert(self.existing() =~= old(self).existing().update(index as int, (start, end)));
            assert(self.candidates() =~= old(self).candidates());
        }
        1
    }

    /// Stores a candidate pair; 1 on success, 0 when `index` is out of range.
    pub fn set_candidate(&mut self, index: u32, start: u32, end: u32) -> (ok: u32)
        ensures
            index < 64 ==> ok == 1 && final(self).candidates() == old(self).candidates().update(
                index as int,
                (start, end),
            ),
            index >= 64 ==> ok == 0 && final(self).candidates() == old(self).candidates(),
            final(self).existing() == old(self).existing(),
    {
        let i = index as usize;
        if i >= MAX_CANONICAL_PAIRS {
            return 0;
        }
        self.candidate_start[i] = start;
        self.candidate_end[i] = end;
        proof {
            assert(self.candidates() =~= old(self).candidates().update(index as int, (start, end)));
            assert(self.existing() =~= old(self).existing());
        }
        1
    }

    /// The plan flags of candidate `index` against the first
    /// `existing_count` committed pairs; `u32::MAX` when out of range.
    pub fn canonical_flag(&self, index: u32, existing_count: u32) -> (flags: u32)
        ensures
            index >= 64 || existing_count > 64 ==> flags == u32::MAX,
            index < 64 && existing_count <= 64 ==> flags == plan_flags(
                committed(self.existing(), existing_count as int, self.candidates()[index as int]),
                earlier(self.candidates(), index as int),
            ),
    {
        let i = index as usize;
        let n_existing = existing_count as usize;
        if i >= MAX_CANONICAL_PAIRS || n_existing > MAX_CANONICAL_PAIRS {
            return u32::MAX;
        }

        let start = self.candidate_start[i];
        let end = self.candidate_end[i];
        let ghost pair = self.candidates()[i as int];

        let mut exists = false;
        let mut e: usize = 0;
        while e < n_existing
            invariant_except_break
                !exists,
                forall|k: int| 0 <= k < e ==> #[trigger] self.existing()[k] != pair,
            invariant
                e <= n_existing <= 64,
                i < 64,
                pair == (start, end),
            ensures
                exists <==> (exists|k: int| 0 <= k < n_existing && #[trigger] self.existing()[k] == pair),
            decreases n_existing - e,
        {
            let same = self.existing_start[e] == start && self.existing_end[e] == end;
            proof {
                assert(self.existing()[e as int] == (self.existing_start@[e as int], self.existing_end@[e as int]));
            }
            if same {
                exists = true;
                proof {
                    assert(self.existing()[e as int] == pair);
                }
                break;
            }
            e += 1;
        }

        let mut prior = false;
        let mut j: usize = 0;
        while j < i
            invariant_except_break
                !prior,
                forall|k: int| 0 <= k < j ==> #[trigger] self.candidates()[k] != pair,
            invariant
                j <= i < 64,
                pair == (start, end),
            ensures
                prior <==> (exists|k: int| 0 <= k < i && #[trigger] self.candidates()[k] == pair),
            decreases i - j,
        {
            let same = self.candidate_start[j] == start && self.candidate_end[j] == end;
            proof {
                assert(self.candidates()[j as int] == (self.candidate_start@[j as int], self.candidate_end@[j as int]));
            }
            if same {
                prior = true;
                proof {
                    assert(self.candidates()[j as int] == pair);
                }
                break;
            }
            j += 1;
        }

        let mut flags: u32 = 0;
        if exists {
            flags = flags + 1;
        }
        if prior {
            flags = flags + 2;
        }
        if !exists && !prior {
            flags = flags + 4;
        }
        flags
    }
}

/// The first occurrence of a candidate pair in the batch is at or before `i`.
proof fn lemma_first_occurrence(candidates: Seq<(u32, u32)>, i: int) -> (r: int)
    requires
        0 <= i < candidates.len(),
    ensures
        0 <= r <= i,
        candidates[r] == candidates[i],
        !earlier(candidates, r),
    decreases i,
{
    if earlier(candidates, i) {
        let j = choose|j: int| 0 <= j < i && #[trigger] candidates[j] == candidates[i];
        lemma_first_occurrence(candidates, j)
    } else {
        i
    }
}

/// Every candidate pair that is not committed has exactly one
/// representative in the batch, its first occurrence; a committed pair has
/// none.
pub proof fn law_single_representative(planner: &CanonicalPlanner, existing_count: u32, i: int)
    requires
        existing_count <= 64,
        0 <= i < 64,
    ensures
        !committed(planner.existing(), existing_count as int, planner.candidates()[i]) ==> exists|r: int|
            0 <= r <= i && planner.candidates()[r] == planner.candidates()[i] && #[trigger] representative(
                planner.existing(),
                existing_count as int,
                planner.candidates(),
                r,
            ),
        committed(planner.existing(), existing_count as int, planner.candidates()[i]) ==> !representative(
            planner.existing(),
            existing_count as int,
            planner.candidates(),
            i,
        ),
        forall|r1: int, r2: int|
            0 <= r1 < 64 && 0 <= r2 < 64 && planner.candidates()[r1] == planner.candidates()[r2]
                && #[trigger] representative(
                planner.existing(),
                existing_count as int,
                planner.candidates(),
                r1,
            ) && #[trigger] representative(
                planner.existing(),
                existing_count as int,
                planner.candidates(),
                r2,
            ) ==> r1 == r2,
{
    let existing = planner.existing();
    let candidates = planner.candidates();
    let count = existing_count as int;
    if !committed(existing, count, candidates[i]) {
        let r = lemma_first_occurrence(candidates, i);
        assert(representative(existing, count, candidates, r));
    }
    assert forall|r1: int, r2: int|
        0 <= r1 < 64 && 0 <= r2 < 64 && candidates[r1] == candidates[r2] && #[trigger] representative(
            existing,
            count,
            candidates,
            r1,
        ) && #[trigger] representative(existing, count, candidates, r2) implies r1 == r2 by {
        if r1 < r2 {
            assert(candidates[r1] == candidates[r2]);
            assert(earlier(candidates, r2));
        } else if r2 < r1 {
            assert(candidates[r2] == candidates[r1]);
            assert(earlier(candidates, r1));
        }
    }
}

} // verus!
