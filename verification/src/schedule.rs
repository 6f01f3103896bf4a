//! The lookup from window boundaries to leaders.

use solana_pubkey::Pubkey;
use std::collections::HashMap;
use vstd::prelude::*;

verus! {

broadcast use vstd::std_specs::hash::group_hash_axioms;

/// `solana_pubkey::Pubkey`, the identity of a leader. The library only carries
/// such values from the schedule to its caller and never looks inside one.
#[verifier::external_type_specification]
#[verifier::external_body]
pub struct ExPubkey(Pubkey);

/// The failure of a single lookup, such as a fetch that is still in flight.
#[derive(Debug, Clone, Copy, PartialEq, Eq, Structural)]
pub struct LookupError;

/// What the schedule holds for a window boundary.
#[derive(Debug, Clone, Copy, PartialEq, Eq)]
pub enum ScheduleEntry {
    /// The leader of the window is known.
    Leader(Pubkey),
    /// The schedule covers the window but cannot answer for it right now.
    Unavailable,
}

/// A schedule of leaders by window boundary. A boundary without an entry lies
/// outside the range that the schedule covers.
#[derive(Debug)]
pub struct LeaderSchedule {
    entries: HashMap<u64, ScheduleEntry>,
}

impl View for LeaderSchedule {
    type V = Map<u64, ScheduleEntry>;

    closed spec fn view(&self) -> Map<u64, ScheduleEntry> {
        self.entries@
    }
}

/// What a lookup of `boundary` returns from a schedule with these entries.
pub open spec fn lookup(entries: Map<u64, ScheduleEntry>, boundary: u64) -> Result<
    Option<Pubkey>,
    LookupError,
> {
    if entries.dom().contains(boundary) {
        match entries[boundary] {
            ScheduleEntry::Leader(leader) => Ok(Some(leader)),
            ScheduleEntry::Unavailable => Err(LookupError),
        }
    } else {
        Ok(None)
    }
}

/// The leader that a schedule with these entries gives for `boundary`, where
/// it knows one. A boundary that it does not cover and a failed lookup both
/// give `None`.
pub open spec fn known_leader(entries: Map<u64, ScheduleEntry>, boundary: u64) -> Option<Pubkey> {
    match lookup(entries, boundary) {
        Ok(Some(leader)) => Some(leader),
        _ => None,
    }
}

/// `known_leader` for fixed entries, as a function of the boundary.
pub open spec fn leader_of(entries: Map<u64, ScheduleEntry>) -> spec_fn(u64) -> Option<Pubkey> {
    |boundary: u64| known_leader(entries, boundary)
}

/// The leaders of `boundaries` that a schedule with these entries knows, in
/// the order of `boundaries`. Boundaries without a known leader leave no trace.
pub open spec fn resolved(entries: Map<u64, ScheduleEntry>, boundaries: Seq<u64>) -> Seq<Pubkey> {
    boundaries.filter_map(leader_of(entries))
}

/// Whether a schedule with these entries gives no leader for a boundary, as a
/// function of the boundary.
pub open spec fn leaderless(entries: Map<u64, ScheduleEntry>) -> spec_fn(u64) -> bool {
    |boundary: u64| known_leader(entries, boundary) is None
}

/// Those of `boundaries` that a schedule with these entries passes over: the
/// ones it does not cover and the ones whose lookup fails.
pub open spec fn passed_over(entries: Map<u64, ScheduleEntry>, boundaries: Seq<u64>) -> Seq<u64> {
    boundaries.filter(leaderless(entries))
}

/// Every boundary either yields a leader or is passed over: the resolved
/// leaders and the boundaries passed over add up to all the boundaries.
pub proof fn lemma_resolved_len(entries: Map<u64, ScheduleEntry>, boundaries: Seq<u64>)
    ensures
        resolved(entries, boundaries).len() + passed_over(entries, boundaries).len()
            == boundaries.len(),
        resolved(entries, boundaries).len() <= boundaries.len(),
    decreases boundaries.len(),
{
    if boundaries.len() == 0 {
        reveal(Seq::filter);
    } else {
        let earlier = boundaries.drop_last();
        lemma_resolved_len(entries, earlier);
        assert(earlier.push(boundaries.last()) =~= boundaries);
        earlier.lemma_filter_push(boundaries.last(), leaderless(entries));
    }
}

/// Whether `positions` shows that `leaders` are the known leaders of
/// `boundaries`, in the order of `boundaries`: there is one position for each
/// leader, the positions increase strictly, each names the boundary whose
/// leader stands at that place of `leaders`, and no boundary with a known
/// leader is missing.
pub open spec fn is_order_witness(
    entries: Map<u64, ScheduleEntry>,
    boundaries: Seq<u64>,
    leaders: Seq<Pubkey>,
    positions: Seq<int>,
) -> bool {
    &&& positions.len() == leaders.len()
    &&& forall|j: int| 0 <= j < positions.len() ==> 0 <= #[trigger] positions[j] < boundaries.len()
    &&& forall|j: int, k: int|
        0 <= j < k < positions.len() ==> #[trigger] positions[j] < #[trigger] positions[k]
    &&& forall|j: int|
        0 <= j < positions.len() ==> known_leader(entries, boundaries[#[trigger] positions[j]])
            == Some(leaders[j])
    &&& forall|i: int|
        0 <= i < boundaries.len() && known_leader(entries, #[trigger] boundaries[i]) is Some
            ==> positions.contains(i)
}

/// The positions in `boundaries` of those with a known leader, in increasing
/// order.
spec fn kept_positions(entries: Map<u64, ScheduleEntry>, boundaries: Seq<u64>) -> Seq<int>
    decreases boundaries.len(),
{
    if boundaries.len() == 0 {
        Seq::empty()
    } else {
        let earlier = kept_positions(entries, boundaries.drop_last());
        if known_leader(entries, boundaries.last()) is Some {
            earlier.push(boundaries.len() - 1)
        } else {
            earlier
        }
    }
}

/// What `kept_positions` is: as many positions as there are resolved leaders,
/// strictly increasing, each naming the boundary of the leader at its place,
/// and none of the boundaries with a known leader left out.
proof fn lemma_kept_positions(entries: Map<u64, ScheduleEntry>, boundaries: Seq<u64>)
    ensures
        is_order_witness(
            entries,
            boundaries,
            resolved(entries, boundaries),
            kept_positions(entries, boundaries),
        ),
    decreases boundaries.len(),
{
    let positions = kept_positions(entries, boundaries);
    if boundaries.len() > 0 {
        let earlier = boundaries.drop_last();
        let last = boundaries.len() - 1;
        let before = kept_positions(entries, earlier);
        lemma_kept_positions(entries, earlier);
        assert forall|i: int|
            0 <= i < boundaries.len() && known_leader(entries, #[trigger] boundaries[i]) is Some
            implies positions.contains(i) by {
            if i < last {
                assert(earlier[i] == boundaries[i]);
                let j = choose|j: int| 0 <= j < before.len() && before[j] == i;
                assert(positions[j] == i);
            } else {
                assert(positions[positions.len() - 1] == i);
            }
        }
    }
}

/// The resolved leaders come in the order of their boundaries, and each
/// boundary with a known leader gives exactly one of them.
pub proof fn lemma_resolved_order(entries: Map<u64, ScheduleEntry>, boundaries: Seq<u64>) -> (positions:
    Seq<int>)
    ensures
        is_order_witness(entries, boundaries, resolved(entries, boundaries), positions),
{
    lemma_kept_positions(entries, boundaries);
    kept_positions(entries, boundaries)
}

/// Only the resolved leaders come with such positions: leaders that stand in
/// the order of their boundaries, one for each boundary with a known leader,
/// are the resolved leaders.
pub proof fn lemma_order_determines_leaders(
    entries: Map<u64, ScheduleEntry>,
    boundaries: Seq<u64>,
    leaders: Seq<Pubkey>,
    positions: Seq<int>,
)
    requires
        is_order_witness(entries, boundaries, leaders, positions),
    ensures
        leaders == resolved(entries, boundaries),
    decreases boundaries.len(),
{
    if boundaries.len() == 0 {
        if positions.len() > 0 {
            assert(0 <= positions[0] < boundaries.len());
        }
        assert(leaders =~= resolved(entries, boundaries));
    } else {
        let earlier = boundaries.drop_last();
        let last = boundaries.len() - 1;
        if known_leader(entries, boundaries[last]) is Some {
            // The last boundary has a position, and as the positions increase
            // it is the last of them. The others witness the same of `earlier`.
            let at = choose|j: int| 0 <= j < positions.len() && positions[j] == last;
            if at < positions.len() - 1 {
                assert(positions[at] < positions[positions.len() - 1]);
            }
            let fewer = positions.drop_last();
            assert forall|j: int| 0 <= j < fewer.len() implies 0 <= #[trigger] fewer[j]
                < earlier.len() by {
                assert(positions[j] < positions[at]);
            }
            assert forall|i: int|
                0 <= i < earlier.len() && known_leader(entries, #[trigger] earlier[i]) is Some
                implies fewer.contains(i) by {
                assert(earlier[i] == boundaries[i]);
                let j = choose|j: int| 0 <= j < positions.len() && positions[j] == i;
                assert(fewer[j] == i);
            }
            lemma_order_determines_leaders(entries, earlier, leaders.drop_last(), fewer);
            assert(leaders =~= leaders.drop_last().push(leaders.last()));
        } else {
            // No position names the last boundary, so the positions witness
            // the same of `earlier`.
            assert forall|j: int| 0 <= j < positions.len() implies 0 <= #[trigger] positions[j]
                < earlier.len() by {
                assert(known_leader(entries, boundaries[positions[j]]) is Some);
            }
            assert forall|i: int|
                0 <= i < earlier.len() && known_leader(entries, #[trigger] earlier[i]) is Some
                implies positions.contains(i) by {
                assert(earlier[i] == boundaries[i]);
            }
            lemma_order_determines_leaders(entries, earlier, leaders, positions);
        }
    }
}

impl LeaderSchedule {
    /// A schedule that covers no window.
    pub fn new() -> (schedule: LeaderSchedule)
        ensures
            schedule@ == Map::<u64, ScheduleEntry>::empty(),
    {
        LeaderSchedule { entries: HashMap::new() }
    }

    /// Records `leader` for the window that starts at `boundary`.
    pub fn set_leader(&mut self, boundary: u64, leader: Pubkey)
        ensures
            final(self)@ == old(self)@.insert(boundary, ScheduleEntry::Leader(leader)),
    {
        self.entries.insert(boundary, ScheduleEntry::Leader(leader));
    }

    /// Marks the window that starts at `boundary` as one that lookups fail for.
    pub fn set_unavailable(&mut self, boundary: u64)
        ensures
            final(self)@ == old(self)@.insert(boundary, ScheduleEntry::Unavailable),
    {
        self.entries.insert(boundary, ScheduleEntry::Unavailable);
    }

    /// Drops what the schedule holds for `boundary`, as when the covered range
    /// moves on.
    pub fn forget(&mut self, boundary: u64)
        ensures
            final(self)@ == old(self)@.remove(boundary),
    {
        self.entries.remove(&boundary);
    }

    /// Looks up the leader of the window that starts at `boundary`.
    pub fn get_leader(&self, boundary: u64) -> (found: Result<Option<Pubkey>, LookupError>)
        ensures
            found == lookup(self@, boundary),
    {
        match self.entries.get(&boundary) {
            Some(ScheduleEntry::Leader(leader)) => Ok(Some(*leader)),
            Some(ScheduleEntry::Unavailable) => Err(LookupError),
            None => Ok(None),
        }
    }

    /// Looks up each of `boundaries` in turn and collects the leaders that are
    /// known. A boundary that the schedule does not cover, or whose lookup
    /// fails, is passed over, so the result may be shorter than `boundaries`.
    pub fn resolve(&self, boundaries: &[u64]) -> (leaders: Vec<Pubkey>)
        ensures
            leaders@ == resolved(self@, boundaries@),
            leaders@.len() == boundaries@.len() - passed_over(self@, boundaries@).len(),
            exists|positions: Seq<int>| #[trigger]
                is_order_witness(self@, boundaries@, leaders@, positions),
    {
        proof {
            lemma_resolved_len(self@, boundaries@);
            let positions = lemma_resolved_order(self@, boundaries@);
            assert(is_order_witness(
                self@,
                boundaries@,
                resolved(self@, boundaries@),
                positions,
            ));
        }
        let mut leaders: Vec<Pubkey> = Vec::new();
        let mut i: usize = 0;
        while i < boundaries.len()
            invariant
                i <= boundaries@.len(),
                leaders@ == resolved(self@, boundaries@.take(i as int)),
            decreases boundaries@.len() - i,
        {
            proof {
                boundaries@.lemma_filter_map_take_succ(leader_of(self@), i as int);
            }
            match self.get_leader(boundaries[i]) {
                Ok(Some(leader)) => leaders.push(leader),
                Ok(None) => {},
                Err(_) => {},
            }
            i = i + 1;
        }
        proof {
            assert(boundaries@.take(i as int) =~= boundaries@);
        }
        leaders
    }
}

} // verus!
