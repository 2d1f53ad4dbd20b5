//! What a search may spend, and what it has spent.

use vstd::prelude::*;

verus! {

/// A number one higher, unless it is the highest.
pub open spec fn one_more(count: u64) -> u64 {
    if count < u64::MAX {
        (count + 1) as u64
    } else {
        u64::MAX
    }
}

/// The sum of two numbers, or the highest number where the sum lies beyond it.
pub open spec fn capped_sum(a: u64, b: u64) -> u64 {
    if a + b <= u64::MAX {
        (a + b) as u64
    } else {
        u64::MAX
    }
}

/// What a search may visit and what it has done so far. A count at its highest value stays there.
#[derive(Clone, Copy, Debug, PartialEq, Eq, Structural)]
pub struct SearchBudget {
    pub node_limit: Option<u64>,
    /// How often the search has asked whether it can go on.
    pub polls: u64,
    pub nodes: u64,
    pub pruned_states: u64,
    pub cache_hits: u64,
    pub cache_misses: u64,
}

/// The counts of a search.
#[derive(Clone, Copy, Debug, PartialEq, Eq, Structural)]
pub struct SearchStats {
    pub predicted_states: u64,
    pub pruned_states: u64,
    pub cache_hits: u64,
    pub cache_misses: u64,
}

/// Whether a stop signal can be asked at any time.
pub open spec fn can_be_polled<S>(stop: S) -> bool where S: Fn(u64) -> bool {
    forall|poll: u64| #[trigger] call_requires(stop, (poll,))
}

impl SearchBudget {
    /// A budget of which nothing is spent.
    pub open spec fn fresh(node_limit: Option<u64>) -> Self {
        SearchBudget {
            node_limit,
            polls: 0,
            nodes: 0,
            pruned_states: 0,
            cache_hits: 0,
            cache_misses: 0,
        }
    }

    /// Whether the node limit is reached.
    pub open spec fn is_used_up(self) -> bool {
        self.node_limit is Some && self.nodes >= self.node_limit->Some_0
    }

    /// Whether the search can go on, where the stop signal answers each poll like this.
    pub open spec fn allows(self, stop: spec_fn(u64) -> bool) -> bool {
        !stop(self.polls) && !self.is_used_up()
    }

    /// The budget after one more poll.
    pub open spec fn polled(self) -> Self {
        SearchBudget { polls: one_more(self.polls), ..self }
    }

    /// The budget after one more position.
    pub open spec fn visited(self) -> Self {
        SearchBudget { nodes: one_more(self.nodes), ..self }
    }

    /// The budget after one more cut.
    pub open spec fn pruned(self) -> Self {
        SearchBudget { pruned_states: one_more(self.pruned_states), ..self }
    }

    /// The budget after one more look into the cache.
    pub open spec fn probed(self, hit: bool) -> Self {
        if hit {
            SearchBudget { cache_hits: one_more(self.cache_hits), ..self }
        } else {
            SearchBudget { cache_misses: one_more(self.cache_misses), ..self }
        }
    }

    /// The counts of the budget.
    pub open spec fn counts(self) -> SearchStats {
        SearchStats {
            predicted_states: self.nodes,
            pruned_states: self.pruned_states,
            cache_hits: self.cache_hits,
            cache_misses: self.cache_misses,
        }
    }

    /// A budget with a node limit.
    pub fn new(node_limit: Option<u64>) -> (budget: Self)
        ensures
            budget == Self::fresh(node_limit),
    {
        SearchBudget {
            node_limit,
            polls: 0,
            nodes: 0,
            pruned_states: 0,
            cache_hits: 0,
            cache_misses: 0,
        }
    }

    /// A budget without a node limit.
    pub fn unlimited() -> (budget: Self)
        ensures
            budget == Self::fresh(None),
    {
        SearchBudget::new(None)
    }

    /// Whether the search can go on: neither was it told to stop nor is the node limit reached.
    pub fn can_continue<S>(&mut self, stop: &S) -> (go_on: bool) where S: Fn(u64) -> bool
        requires
            can_be_polled(*stop),
        ensures
            *final(self) == old(self).polled(),
            old(self).is_used_up() ==> !go_on,
            exists|told: bool| #[trigger]
                call_ensures(*stop, (old(self).polls,), told) && go_on == (!told && !old(
                    self,
                ).is_used_up()),
    {
        let told: bool = stop(self.polls);
        let open = match self.node_limit {
            Some(limit) => self.nodes < limit,
            None => true,
        };
        self.polls = self.polls.saturating_add(1);
        assert(call_ensures(*stop, (old(self).polls,), told));
        !told && open
    }

    /// Counts a position.
    pub fn record_node(&mut self)
        ensures
            *final(self) == old(self).visited(),
    {
        self.nodes = self.nodes.saturating_add(1);
    }

    /// Counts a cut.
    pub fn record_prune(&mut self)
        ensures
            *final(self) == old(self).pruned(),
    {
        self.pruned_states = self.pruned_states.saturating_add(1);
    }

    /// Counts a look into the cache that found something.
    pub fn record_cache_hit(&mut self)
        ensures
            *final(self) == old(self).probed(true),
    {
        self.cache_hits = self.cache_hits.saturating_add(1);
    }

    /// Counts a look into the cache that found nothing.
    pub fn record_cache_miss(&mut self)
        ensures
            *final(self) == old(self).probed(false),
    {
        self.cache_misses = self.cache_misses.saturating_add(1);
    }

    /// The counts so far.
    pub fn stats(&self) -> (stats: SearchStats)
        ensures
            stats == self.counts(),
    {
        SearchStats {
            predicted_states: self.nodes,
            pruned_states: self.pruned_states,
            cache_hits: self.cache_hits,
            cache_misses: self.cache_misses,
        }
    }
}

impl Default for SearchStats {
    fn default() -> (stats: Self)
        ensures
            stats == Self::none(),
    {
        SearchStats { predicted_states: 0, pruned_states: 0, cache_hits: 0, cache_misses: 0 }
    }
}

impl SearchStats {
    /// No counts.
    pub open spec fn none() -> Self {
        SearchStats { predicted_states: 0, pruned_states: 0, cache_hits: 0, cache_misses: 0 }
    }

    /// The counts of two searches.
    pub open spec fn joined(self, other: SearchStats) -> Self {
        SearchStats {
            predicted_states: capped_sum(self.predicted_states, other.predicted_states),
            pruned_states: capped_sum(self.pruned_states, other.pruned_states),
            cache_hits: capped_sum(self.cache_hits, other.cache_hits),
            cache_misses: capped_sum(self.cache_misses, other.cache_misses),
        }
    }

    /// Adds the counts of another search.
    pub fn add(&mut self, other: SearchStats)
        ensures
            *final(self) == old(self).joined(other),
    {
        self.predicted_states = self.predicted_states.saturating_add(other.predicted_states);
        self.pruned_states = self.pruned_states.saturating_add(other.pruned_states);
        self.cache_hits = self.cache_hits.saturating_add(other.cache_hits);
        self.cache_misses = self.cache_misses.saturating_add(other.cache_misses);
    }
}

/// A search may visit exactly as many positions as its limit says, and any number where it has
/// none; and it goes on only as long as it is not told to stop.
pub proof fn a_budget_ends_at_its_limit(budget: SearchBudget, stop: spec_fn(u64) -> bool)
    ensures
        budget.node_limit is None && !stop(budget.polls) ==> budget.allows(stop),
        forall|limit: u64|
            budget.node_limit == Some(limit) && !stop(budget.polls) ==> (budget.allows(stop)
                <==> budget.nodes < limit),
        stop(budget.polls) ==> !budget.allows(stop),
{
}

/// Every event is counted once and for itself alone.
pub proof fn every_event_is_counted_once(budget: SearchBudget)
    requires
        budget.polls < u64::MAX,
        budget.nodes < u64::MAX,
        budget.pruned_states < u64::MAX,
        budget.cache_hits < u64::MAX,
        budget.cache_misses < u64::MAX,
    ensures
        budget.polled() == (SearchBudget { polls: (budget.polls + 1) as u64, ..budget }),
        budget.visited() == (SearchBudget { nodes: (budget.nodes + 1) as u64, ..budget }),
        budget.pruned() == (SearchBudget {
            pruned_states: (budget.pruned_states + 1) as u64,
            ..budget
        }),
        budget.probed(true) == (SearchBudget {
            cache_hits: (budget.cache_hits + 1) as u64,
            ..budget
        }),
        budget.probed(false) == (SearchBudget {
            cache_misses: (budget.cache_misses + 1) as u64,
            ..budget
        }),
        budget.counts().predicted_states == budget.nodes,
        budget.counts().pruned_states == budget.pruned_states,
        budget.counts().cache_hits == budget.cache_hits,
        budget.counts().cache_misses == budget.cache_misses,
{
}

/// A fresh budget has counted nothing and keeps the limit that it was given.
pub proof fn a_fresh_budget_has_counted_nothing(limit: Option<u64>)
    ensures
        SearchBudget::fresh(limit).node_limit == limit,
        SearchBudget::fresh(limit).polls == 0,
        SearchBudget::fresh(limit).counts().predicted_states == 0,
        SearchBudget::fresh(limit).counts().pruned_states == 0,
        SearchBudget::fresh(limit).counts().cache_hits == 0,
        SearchBudget::fresh(limit).counts().cache_misses == 0,
{
}

/// The counts of two searches are added up, each for itself; no count is added to nothing, and
/// the order does not matter.
pub proof fn counts_are_added_up(a: SearchStats, b: SearchStats)
    ensures
        a.predicted_states + b.predicted_states <= u64::MAX ==> a.joined(b).predicted_states
            == a.predicted_states + b.predicted_states,
        a.pruned_states + b.pruned_states <= u64::MAX ==> a.joined(b).pruned_states
            == a.pruned_states + b.pruned_states,
        a.cache_hits + b.cache_hits <= u64::MAX ==> a.joined(b).cache_hits == a.cache_hits
            + b.cache_hits,
        a.cache_misses + b.cache_misses <= u64::MAX ==> a.joined(b).cache_misses == a.cache_misses
            + b.cache_misses,
        a.joined(b) == b.joined(a),
        a.joined(SearchStats::none()) == a,
{
}

} // verus!
