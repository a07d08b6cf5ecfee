//! The traversal engine: selects the next query, resolves the chosen
//! answer, and decides which query comes next.
//!
//! The engine owns a store, a set of already-visited query ids, and an
//! optional pinned successor (set when a chosen answer carries an explicit
//! link).  Each step's candidate is the pinned query if it still resolves,
//! and otherwise the unvisited query with the smallest id — ids grow in
//! insertion order, so the default policy is deterministic first-inserted
//! first.  An explicit link deliberately overrides the ask-each-query-once
//! default: a pinned query is re-asked even when it was already visited.
//!
//! Everything here is a decision; the waiting for user input and the
//! execution of outcomes happen outside, and their results are handed back
//! in as plain values.

use vstd::prelude::*;

use crate::error::WeidError;
use crate::outcome::OutcomeId;
use crate::qa::Query;
use crate::querylist::{AnswerId, QueryId, QueryList, StoreModel};

verus! {

/// Ghost model of a [`Querier`].
#[verifier::ext_equal]
pub struct QuerierModel {
    pub store: StoreModel,
    pub next: Option<QueryId>,
    pub visited: Seq<QueryId>,
}

impl QuerierModel {
    /// The smallest not-yet-visited query id at or after `i`, if any.
    pub open spec fn first_unvisited_from(self, i: int) -> Option<QueryId>
        decreases self.store.queries.len() - i,
    {
        if i < 0 || i >= self.store.queries.len() {
            None
        } else if !self.visited.contains(i as usize) {
            Some(i as usize)
        } else {
            self.first_unvisited_from(i + 1)
        }
    }

    /// The default selection policy: the unvisited query with the smallest
    /// id, which is the first-inserted unvisited query.
    pub open spec fn default_pick(self) -> Option<QueryId> {
        self.first_unvisited_from(0)
    }

    /// Whether the pinned successor still resolves to a stored query.
    pub open spec fn pinned_resolves(self) -> bool {
        self.next matches Some(p) && p < self.store.queries.len()
    }

    /// The candidate for the next step: the pinned successor if it
    /// resolves, and otherwise the default policy's pick.
    pub open spec fn candidate(self) -> Option<QueryId> {
        if self.pinned_resolves() {
            self.next
        } else {
            self.default_pick()
        }
    }
}

/// The traversal engine.
#[derive(Debug)]
pub struct Querier {
    ql: QueryList,
    next: Option<QueryId>,
    visited: Vec<QueryId>,
}

impl View for Querier {
    type V = QuerierModel;

    closed spec fn view(&self) -> QuerierModel {
        QuerierModel { store: self.ql@, next: self.next, visited: self.visited@ }
    }
}

impl Querier {
    /// An engine over the given store, with nothing visited and no pinned
    /// successor.
    pub fn new(qlist: QueryList) -> (r: Querier)
        ensures
            r@.store == qlist@,
            r@.next is None,
            r@.visited =~= Seq::<QueryId>::empty(),
    {
        Querier { ql: qlist, next: None, visited: Vec::new() }
    }

    /// The store this engine traverses.
    pub fn store(&self) -> (r: &QueryList)
        ensures
            r@ == self@.store,
    {
        &self.ql
    }

    /// Whether a query id has already been visited in this session.
    pub fn is_visited(&self, qid: QueryId) -> (r: bool)
        ensures
            r == self@.visited.contains(qid),
    {
        let mut k: usize = 0;
        while k < self.visited.len()
            invariant
                0 <= k <= self.visited@.len(),
                forall|j: int| 0 <= j < k ==> self.visited@[j] != qid,
            decreases self.visited@.len() - k,
        {
            if self.visited[k] == qid {
                return true;
            }
            k = k + 1;
        }
        false
    }

    /// The default policy's pick: the first-inserted query that has not
    /// been visited, or `None` when every stored query has been.
    pub fn pick_next_query(&self) -> (r: Option<QueryId>)
        ensures
            r == self@.default_pick(),
            r matches Some(q) ==> q < self@.store.queries.len() && !self@.visited.contains(q)
                && forall|j: QueryId| j < q ==> self@.visited.contains(j),
            r is None ==> forall|q: QueryId|
                q < self@.store.queries.len() ==> self@.visited.contains(q),
    {
        let n = self.ql.next_id();
        let mut i: usize = 0;
        while i < n
            invariant
                n == self@.store.queries.len(),
                0 <= i <= n,
                self@.default_pick() == self@.first_unvisited_from(i as int),
                forall|j: QueryId| j < i ==> self@.visited.contains(j),
            decreases n - i,
        {
            if !self.is_visited(i) {
                return Some(i);
            }
            i = i + 1;
        }
        None
    }

    /// The candidate query for the next step: the pinned successor if it
    /// still resolves, and otherwise the default policy's pick.
    pub fn next_candidate(&self) -> (r: Option<QueryId>)
        ensures
            r == self@.candidate(),
            r matches Some(q) ==> q < self@.store.queries.len(),
    {
        match self.next {
            Some(p) => {
                if p < self.ql.next_id() {
                    Some(p)
                } else {
                    self.pick_next_query()
                }
            },
            None => self.pick_next_query(),
        }
    }

    /// Look up a query of the store by id.
    pub fn get_query(&self, qid: QueryId) -> (r: Option<Query>)
        ensures
            r matches Some(q) ==> qid < self@.store.queries.len() && q@ == self@.store.queries[qid as int],
            r is None ==> qid >= self@.store.queries.len(),
    {
        self.ql.get_query(qid)
    }

    /// The candidate query's record itself: the pinned successor if it
    /// resolves, and otherwise the default policy's pick.  `None` means the
    /// traversal is done.
    pub fn get_next_query(&self) -> (r: Option<Query>)
        ensures
            r is Some <==> self@.candidate() is Some,
            r matches Some(q) ==> q@ == self@.store.queries[self@.candidate()->0 as int],
    {
        match self.next_candidate() {
            Some(qid) => self.get_query(qid),
            None => None,
        }
    }

    /// Record that a query has been asked in this session.
    pub fn mark_visited(&mut self, qid: QueryId)
        ensures
            final(self)@ =~= (QuerierModel {
                visited: old(self)@.visited.push(qid),
                ..old(self)@
            }),
    {
        self.visited.push(qid)
    }

    /// Commit one traversal step: record the asked query as visited, and
    /// pin the chosen answer's explicit link as the next candidate — or
    /// clear the pin when the answer has none, so the next step falls back
    /// to the default policy.
    pub fn complete_step(&mut self, qid: QueryId, aid: AnswerId)
        ensures
            final(self)@.store == old(self)@.store,
            final(self)@.visited == old(self)@.visited.push(qid),
            final(self)@.next == if old(self)@.store.paths.dom().contains(aid) {
                Some(old(self)@.store.paths[aid])
            } else {
                None::<QueryId>
            },
    {
        self.visited.push(qid);
        self.next = self.ql.get_path(aid);
    }

    /// Ask every remaining query once, under the default policy, and return
    /// the visit order.
    ///
    /// This is the traversal-termination law: a session over a store with N
    /// queries and no explicit links performs exactly N steps before the
    /// candidate runs out, visits the queries in insertion order, and asks
    /// each exactly once.
    pub fn visit_all(&mut self) -> (order: Vec<QueryId>)
        ensures
            final(self)@.store == old(self)@.store,
            final(self)@.next == old(self)@.next,
            final(self)@.visited =~= old(self)@.visited + order@,
            forall|t: int|
                0 <= t < order@.len() ==> (#[trigger] order@[t]) < old(self)@.store.queries.len()
                    && !old(self)@.visited.contains(order@[t]),
            forall|t1: int, t2: int|
                0 <= t1 < t2 < order@.len() ==> #[trigger] order@[t1] < #[trigger] order@[t2],
            forall|q: QueryId|
                q < old(self)@.store.queries.len() ==> old(self)@.visited.contains(q)
                    || order@.contains(q),
            old(self)@.visited.len() == 0 ==> order@.len() == old(self)@.store.queries.len()
                && forall|t: int| 0 <= t < order@.len() ==> #[trigger] order@[t] == t,
    {
        let nn: usize = self.ql.next_id();
        let ghost n = nn as int;
        let mut order: Vec<QueryId> = Vec::new();
        let ghost mut lb: int = 0;
        loop
            invariant
                self@.store == old(self)@.store,
                self@.next == old(self)@.next,
                n == self@.store.queries.len(),
                n == nn as int,
                self@.visited =~= old(self)@.visited + order@,
                0 <= lb <= n,
                forall|j: QueryId| j < lb ==> self@.visited.contains(j),
                forall|t: int|
                    0 <= t < order@.len() ==> (#[trigger] order@[t]) < lb && !old(
                        self,
                    )@.visited.contains(order@[t]),
                forall|t1: int, t2: int|
                    0 <= t1 < t2 < order@.len() ==> #[trigger] order@[t1] < #[trigger] order@[t2],
                old(self)@.visited.len() == 0 ==> forall|t: int|
                    0 <= t < order@.len() ==> #[trigger] order@[t] == t,
                old(self)@.visited.len() == 0 ==> order@.len() == lb,
            ensures
                self@.store == old(self)@.store,
                self@.next == old(self)@.next,
                self@.visited =~= old(self)@.visited + order@,
                forall|t: int|
                    0 <= t < order@.len() ==> (#[trigger] order@[t]) < n && !old(
                        self,
                    )@.visited.contains(order@[t]),
                forall|t1: int, t2: int|
                    0 <= t1 < t2 < order@.len() ==> #[trigger] order@[t1] < #[trigger] order@[t2],
                forall|q: QueryId| q < n ==> self@.visited.contains(q),
                old(self)@.visited.len() == 0 ==> forall|t: int|
                    0 <= t < order@.len() ==> #[trigger] order@[t] == t,
                old(self)@.visited.len() == 0 ==> order@.len() == lb == n,
            decreases n - lb,
        {
            match self.pick_next_query() {
                None => {
                    proof {
                        if old(self)@.visited.len() == 0 && lb < n {
                            assert(self@.visited.contains(lb as usize));
                            let t = choose|t: int|
                                0 <= t < self@.visited.len() && self@.visited[t] == lb as usize;
                            assert((old(self)@.visited + order@)[t] == order@[t]);
                            assert(lb == (lb as usize) as int);
                            assert(order@[t] == lb as usize);
                            assert(order@[t] < lb);
                            assert(false);
                        }
                    }
                    break ;
                },
                Some(q) => {
                    proof {
                        assert(q >= lb);
                        if old(self)@.visited.len() == 0 {
                            let len0 = order@.len() as int;
                            if (q as int) < len0 {
                                assert(order@[q as int] == q);
                                assert(self@.visited[q as int] == q);
                                assert(self@.visited.contains(q));
                                assert(false);
                            } else if (q as int) > len0 {
                                assert(self@.visited.contains(len0 as usize));
                                let t = choose|t: int|
                                    0 <= t < self@.visited.len() && self@.visited[t] == len0
                                        as usize;
                                assert(order@[t] == t);
                                assert(false);
                            }
                            assert(q as int == len0);
                        }
                    }
                    let ghost visited_before = self@.visited;
                    proof {
                        if old(self)@.visited.contains(q) {
                            let t = choose|t: int|
                                0 <= t < old(self)@.visited.len() && old(self)@.visited[t] == q;
                            assert(visited_before[t] == q);
                            assert(visited_before.contains(q));
                            assert(false);
                        }
                    }
                    self.mark_visited(q);
                    order.push(q);
                    proof {
                        assert(self@.visited =~= old(self)@.visited + order@);
                        lb = q + 1;
                        assert forall|j: QueryId| j < lb implies self@.visited.contains(j) by {
                            if j < q {
                                assert(visited_before.contains(j));
                                let t = choose|t: int|
                                    0 <= t < visited_before.len() && visited_before[t] == j;
                                assert(self@.visited[t] == j);
                            } else {
                                assert(self@.visited.last() == q);
                            }
                        }
                    }
                },
            }
        }
        proof {
            if old(self)@.visited.len() == 0 {
                assert forall|q: QueryId| q < n implies order@.contains(q) by {
                    assert(self@.visited.contains(q));
                    let t = choose|t: int| 0 <= t < self@.visited.len() && self@.visited[t] == q;
                    assert(order@[t] == q);
                }
                assert(lb == n);
            }
            assert forall|q: QueryId|
                q < old(self)@.store.queries.len() && !old(self)@.visited.contains(
                    q,
                ) implies order@.contains(q) by {
                assert(self@.visited.contains(q));
                let t = choose|t: int| 0 <= t < self@.visited.len() && self@.visited[t] == q;
                assert(order@[t - old(self)@.visited.len()] == q);
            }
        }
        order
    }
}

/// The index of the first failed result, or the sequence's length when
/// every result succeeded.
pub open spec fn first_failure(rs: Seq<Option<Seq<char>>>) -> int
    decreases rs.len(),
{
    if rs.len() == 0 {
        0
    } else if rs[0] is None {
        0
    } else {
        1 + first_failure(rs.drop_first())
    }
}

/// Position and bounds of the first failure.
pub proof fn lemma_first_failure(rs: Seq<Option<Seq<char>>>)
    ensures
        0 <= first_failure(rs) <= rs.len(),
        forall|j: int| 0 <= j < first_failure(rs) ==> rs[j] is Some,
        first_failure(rs) < rs.len() ==> rs[first_failure(rs)] is None,
    decreases rs.len(),
{
    if rs.len() > 0 && rs[0] is Some {
        lemma_first_failure(rs.drop_first());
        assert forall|j: int| 0 <= j < first_failure(rs) implies rs[j] is Some by {
            if j > 0 {
                assert(rs.drop_first()[j - 1] is Some);
            }
        }
    }
}

/// What one traversal step reports for an answer's ordered outcome list,
/// given the result each execution produced (`None` is a failure): the
/// (id, text) pairs in the stored order when every outcome succeeded, and
/// an execution error as soon as one failed.
pub open spec fn step_results(outcomes: Seq<OutcomeId>, rs: Seq<Option<Seq<char>>>) -> Result<
    Seq<(OutcomeId, Seq<char>)>,
    WeidError,
> {
    if first_failure(rs) < rs.len() {
        Err(WeidError::OutcomeExecutionError)
    } else {
        Ok(Seq::new(outcomes.len(), |i: int| (outcomes[i], rs[i]->0)))
    }
}

/// Outcomes after a failure are never consulted: two result sequences that
/// agree up to and including the first failure give the same step report,
/// whatever the later executions would have produced.
pub proof fn lemma_step_results_prefix(
    outcomes: Seq<OutcomeId>,
    r1: Seq<Option<Seq<char>>>,
    r2: Seq<Option<Seq<char>>>,
    k: int,
)
    requires
        r1.len() == outcomes.len(),
        r2.len() == outcomes.len(),
        0 <= k < r1.len(),
        r1[k] is None,
        forall|j: int| 0 <= j <= k ==> r1[j] == r2[j],
    ensures
        step_results(outcomes, r1) == step_results(outcomes, r2),
        step_results(outcomes, r1) == Err::<Seq<(OutcomeId, Seq<char>)>, WeidError>(
            WeidError::OutcomeExecutionError,
        ),
{
    lemma_first_failure(r1);
    lemma_first_failure(r2);
    assert(first_failure(r1) <= k);
    assert(r2[k] is None);
    assert(first_failure(r2) <= k);
}

/// Execute-in-order semantics of one step's outcome phase: given the
/// chosen answer's ordered outcome ids and the textual result each
/// execution produced (`None` for a failure), assemble the step's report.
/// Outcome executions happen strictly in the stored order, each completing
/// before the next starts, and the first failure aborts the rest of the
/// step.
pub fn run_outcome_sequence(outcomes: &Vec<OutcomeId>, results: &Vec<Option<String>>) -> (r: Result<
    Vec<(OutcomeId, String)>,
    WeidError,
>)
    requires
        outcomes@.len() == results@.len(),
    ensures
        ({
            let sr = step_results(outcomes@, results.deep_view());
            match r {
                Ok(v) => sr matches Ok(pairs) && v@.len() == pairs.len() && forall|i: int|
                    0 <= i < v@.len() ==> (#[trigger] v@[i]).0 == pairs[i].0 && v@[i].1@
                        == pairs[i].1,
                Err(e) => sr matches Err(e2) && e == e2,
            }
        }),
{
    proof {
        lemma_first_failure(results.deep_view());
    }
    let mut out: Vec<(OutcomeId, String)> = Vec::new();
    let mut i: usize = 0;
    while i < outcomes.len()
        invariant
            outcomes@.len() == results@.len(),
            0 <= i <= outcomes@.len(),
            forall|j: int| 0 <= j < i ==> (#[trigger] results.deep_view()[j]) is Some,
            first_failure(results.deep_view()) >= i,
            out@.len() == i,
            forall|j: int|
                0 <= j < i ==> (#[trigger] out@[j]).0 == outcomes@[j] && out@[j].1@
                    == results.deep_view()[j]->0,
        decreases outcomes@.len() - i,
    {
        match &results[i] {
            None => {
                proof {
                    lemma_first_failure(results.deep_view());
                    assert(results.deep_view()[i as int] is None);
                    lemma_first_failure_at(results.deep_view(), i as int);
                }
                return Err(WeidError::OutcomeExecutionError);
            },
            Some(text) => {
                out.push((outcomes[i], text.clone()));
                proof {
                    assert(results.deep_view()[i as int] is Some);
                    lemma_first_failure_past(results.deep_view(), i + 1);
                }
                i = i + 1;
            },
        }
    }
    proof {
        assert(first_failure(results.deep_view()) >= results.deep_view().len());
        lemma_first_failure(results.deep_view());
        let sr = step_results(outcomes@, results.deep_view());
        assert(sr matches Ok(pairs) && out@.len() == pairs.len());
    }
    Ok(out)
}

/// A failed result bounds the first failure from above.
proof fn lemma_first_failure_at(rs: Seq<Option<Seq<char>>>, k: int)
    requires
        0 <= k < rs.len(),
        rs[k] is None,
    ensures
        first_failure(rs) <= k,
    decreases rs.len(),
{
    if k > 0 && !(rs[0] is None) {
        lemma_first_failure_at(rs.drop_first(), k - 1);
    }
}

/// Successes up to a point bound the first failure from below.
proof fn lemma_first_failure_past(rs: Seq<Option<Seq<char>>>, k: int)
    requires
        0 <= k <= rs.len(),
        forall|j: int| 0 <= j < k ==> (#[trigger] rs[j]) is Some,
    ensures
        first_failure(rs) >= k,
    decreases k,
{
    if k > 0 {
        assert(rs[0] is Some);
        assert forall|j: int| 0 <= j < k - 1 implies (#[trigger] rs.drop_first()[j]) is Some by {
            assert(rs[j + 1] is Some);
        }
        lemma_first_failure_past(rs.drop_first(), k - 1);
    } else {
        lemma_first_failure(rs);
    }
}

} // verus!
