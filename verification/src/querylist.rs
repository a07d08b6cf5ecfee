//! The graph store: the owning collection of all queries, answers and
//! outcomes, plus the explicit traversal links between them.
//!
//! Identifiers are store-local and monotonically increasing: each of the
//! three collections is a dense vector whose indices are the ids, so a fresh
//! id is the collection's current length and ids are never reused.  Every
//! mutation follows copy-modify-validate-commit: a change that would leave a
//! reference dangling is rejected and the store is left untouched.

use vstd::prelude::*;
use vstd::pervasive::VecAdditionalExecFns;

use crate::error::WeidError;
use crate::outcome::{Outcome, OutcomeId, OutcomeModel};
use crate::qa::{copy_vec, Answer, AnswerModel, Query, QueryModel, Seed};

verus! {

/// Identifier of a [`Query`] inside a store.
pub type QueryId = usize;

/// Identifier of an [`Answer`] inside a store.
#[derive(Clone, Copy, Debug, PartialEq, Eq, Structural, Hash)]
pub struct AnswerId {
    pub id: usize,
}

/// The map an association list denotes: later entries overwrite earlier
/// ones.
pub open spec fn assoc_map(s: Seq<(AnswerId, QueryId)>) -> Map<AnswerId, QueryId>
    decreases s.len(),
{
    if s.len() == 0 {
        Map::empty()
    } else {
        assoc_map(s.drop_last()).insert(s.last().0, s.last().1)
    }
}

/// A key that appears nowhere in the list is not in the map.
proof fn lemma_assoc_absent(s: Seq<(AnswerId, QueryId)>, k: AnswerId)
    requires
        forall|j: int| 0 <= j < s.len() ==> (#[trigger] s[j]).0 != k,
    ensures
        !assoc_map(s).dom().contains(k),
    decreases s.len(),
{
    if s.len() > 0 {
        lemma_assoc_absent(s.drop_last(), k);
    }
}

/// The last entry with a given key decides the map's value at that key.
proof fn lemma_assoc_found(s: Seq<(AnswerId, QueryId)>, k: AnswerId, i: int)
    requires
        0 <= i < s.len(),
        s[i].0 == k,
        forall|j: int| i < j < s.len() ==> (#[trigger] s[j]).0 != k,
    ensures
        assoc_map(s).dom().contains(k),
        assoc_map(s)[k] == s[i].1,
    decreases s.len(),
{
    if i == s.len() - 1 {
    } else {
        lemma_assoc_found(s.drop_last(), k, i);
    }
}

/// Ghost model of a [`QueryList`]: the three collections as sequences
/// (indices are the ids) and the explicit links as a map.
#[verifier::ext_equal]
pub struct StoreModel {
    pub queries: Seq<QueryModel>,
    pub answers: Seq<AnswerModel>,
    pub outcomes: Seq<OutcomeModel>,
    pub paths: Map<AnswerId, QueryId>,
}

impl StoreModel {
    /// Every outcome id the answer references exists in the store.
    pub open spec fn answer_ok(self, a: AnswerModel) -> bool {
        forall|k: int| 0 <= k < a.outcomes.len() ==> (#[trigger] a.outcomes[k]) < self.outcomes.len()
    }

    /// Every answer id the query references exists in the store, and so does
    /// the outcome its seed may reference.
    pub open spec fn query_ok(self, q: QueryModel) -> bool {
        &&& forall|k: int|
            0 <= k < q.answers.len() ==> (#[trigger] q.answers[k]).id < self.answers.len()
        &&& q.seed is OutcomeRef ==> q.seed.outcome_ref() < self.outcomes.len()
    }

    /// Referential integrity of the whole store: no record references an id
    /// that is not present.  This holds after every successful mutation.
    pub open spec fn valid(self) -> bool {
        &&& forall|i: int| 0 <= i < self.queries.len() ==> self.query_ok(#[trigger] self.queries[i])
        &&& forall|i: int| 0 <= i < self.answers.len() ==> self.answer_ok(#[trigger] self.answers[i])
    }
}

/// One sequence laid over another: the right operand's entries win where
/// both are present, and the rest of the longer one is kept.
pub open spec fn merge_seq<T>(a: Seq<T>, b: Seq<T>) -> Seq<T> {
    Seq::new(
        if a.len() >= b.len() {
            a.len()
        } else {
            b.len()
        },
        |i: int|
            if i < b.len() {
                b[i]
            } else {
                a[i]
            },
    )
}

/// The union of two stores: colliding ids resolve to the right operand's
/// record, and explicit links of the right operand win.
pub open spec fn merge_model(a: StoreModel, b: StoreModel) -> StoreModel {
    StoreModel {
        queries: merge_seq(a.queries, b.queries),
        answers: merge_seq(a.answers, b.answers),
        outcomes: merge_seq(a.outcomes, b.outcomes),
        paths: a.paths.union_prefer_right(b.paths),
    }
}

/// The union of two valid stores is valid: every merged record comes from
/// one of the two stores, and each collection of the union is at least as
/// long as the one the record's references were checked against.  A merge
/// of two stores that each kept their integrity is therefore always
/// committed.
pub proof fn lemma_merge_of_valid_stores(a: StoreModel, b: StoreModel)
    requires
        a.valid(),
        b.valid(),
    ensures
        merge_model(a, b).valid(),
{
    let m = merge_model(a, b);
    assert forall|i: int| 0 <= i < m.queries.len() implies m.query_ok(#[trigger] m.queries[i]) by {
        if i < b.queries.len() {
            assert(b.query_ok(b.queries[i]));
        } else {
            assert(a.query_ok(a.queries[i]));
        }
    }
    assert forall|i: int| 0 <= i < m.answers.len() implies m.answer_ok(#[trigger] m.answers[i]) by {
        if i < b.answers.len() {
            assert(b.answer_ok(b.answers[i]));
        } else {
            assert(a.answer_ok(a.answers[i]));
        }
    }
}

/// Concatenating association lists unions their maps, later list preferred.
proof fn lemma_assoc_concat(s: Seq<(AnswerId, QueryId)>, t: Seq<(AnswerId, QueryId)>)
    ensures
        assoc_map(s + t) == assoc_map(s).union_prefer_right(assoc_map(t)),
    decreases t.len(),
{
    if t.len() == 0 {
        assert(s + t =~= s);
        assert(assoc_map(s).union_prefer_right(assoc_map(t)) =~= assoc_map(s));
    } else {
        lemma_assoc_concat(s, t.drop_last());
        assert((s + t).drop_last() =~= s + t.drop_last());
        assert(assoc_map(s).union_prefer_right(assoc_map(t)) =~= assoc_map(
            s + t.drop_last(),
        ).insert(t.last().0, t.last().1));
    }
}

/// The graph store.  It owns every record; callers keep ids and re-fetch.
#[derive(Debug, Clone, PartialEq)]
pub struct QueryList {
    queries: Vec<Query>,
    answers: Vec<Answer>,
    outcomes: Vec<Outcome>,
    paths: Vec<(AnswerId, QueryId)>,
}

impl View for QueryList {
    type V = StoreModel;

    closed spec fn view(&self) -> StoreModel {
        StoreModel {
            queries: Seq::new(self.queries@.len(), |i: int| self.queries@[i]@),
            answers: Seq::new(self.answers@.len(), |i: int| self.answers@[i]@),
            outcomes: Seq::new(self.outcomes@.len(), |i: int| self.outcomes@[i]@),
            paths: assoc_map(self.paths@),
        }
    }
}

impl QueryList {
    /// An empty store.
    pub fn new() -> (ql: Self)
        ensures
            ql@.queries =~= Seq::<QueryModel>::empty(),
            ql@.answers =~= Seq::<AnswerModel>::empty(),
            ql@.outcomes =~= Seq::<OutcomeModel>::empty(),
            ql@.paths =~= Map::<AnswerId, QueryId>::empty(),
            ql@.valid(),
    {
        QueryList { queries: Vec::new(), answers: Vec::new(), outcomes: Vec::new(), paths: Vec::new() }
    }

    /// The id the next inserted query will get.
    pub fn next_id(&self) -> (r: usize)
        ensures
            r == self@.queries.len(),
    {
        self.queries.len()
    }

    /// Record an explicit traversal link: after the answer `aid` is chosen,
    /// the traversal jumps to the query `target`.  The target may be a query
    /// that does not exist yet; links are resolved when they are followed.
    pub fn add_path(&mut self, aid: AnswerId, target: QueryId)
        ensures
            final(self)@ =~= (StoreModel { paths: old(self)@.paths.insert(aid, target), ..old(self)@ }),
    {
        self.paths.push((aid, target));
        proof {
            assert(self.paths@.drop_last() =~= old(self).paths@);
        }
    }

    /// The explicit link recorded for an answer, if any.
    pub fn get_path(&self, aid: AnswerId) -> (r: Option<QueryId>)
        ensures
            r == if self@.paths.dom().contains(aid) {
                Some(self@.paths[aid])
            } else {
                None::<QueryId>
            },
    {
        let mut i: usize = self.paths.len();
        while i > 0
            invariant
                0 <= i <= self.paths@.len(),
                forall|j: int| i <= j < self.paths@.len() ==> (#[trigger] self.paths@[j]).0 != aid,
            decreases i,
        {
            i = i - 1;
            let entry = self.paths[i];
            if entry.0 == aid {
                proof {
                    lemma_assoc_found(self.paths@, aid, i as int);
                }
                return Some(entry.1);
            }
        }
        proof {
            lemma_assoc_absent(self.paths@, aid);
        }
        None
    }

    /// Look up a query by id; a copy of the record, or `None` if the id is
    /// not present.
    pub fn get_query(&self, qid: QueryId) -> (r: Option<Query>)
        ensures
            r matches Some(q) ==> qid < self@.queries.len() && q@ == self@.queries[qid as int],
            r is None ==> qid >= self@.queries.len(),
    {
        if qid < self.queries.len() {
            Some(self.queries[qid].duplicate())
        } else {
            None
        }
    }

    /// The query to ask after the given answer: the explicit link's target
    /// if one was recorded (and `None` when that target does not resolve),
    /// and otherwise the first-inserted query — the store-level default
    /// policy is deterministic insertion order.
    pub fn get_next_query(&self, aid: AnswerId) -> (r: Option<Query>)
        ensures
            self@.paths.dom().contains(aid) ==> (r matches Some(q) <==> self@.paths[aid]
                < self@.queries.len()) && (r matches Some(q) ==> q@ == self@.queries[self@.paths[aid] as int]),
            !self@.paths.dom().contains(aid) ==> (r matches Some(q) <==> self@.queries.len() > 0)
                && (r matches Some(q) ==> q@ == self@.queries[0]),
    {
        match self.get_path(aid) {
            Some(qid) => self.get_query(qid),
            None => self.get_query(0),
        }
    }

    /// Look up an answer by id; a copy of the record, or `None` if the id is
    /// not present.
    pub fn get_answer(&self, aid: AnswerId) -> (r: Option<Answer>)
        ensures
            r matches Some(a) ==> aid.id < self@.answers.len() && a@ == self@.answers[aid.id as int],
            r is None ==> aid.id >= self@.answers.len(),
    {
        if aid.id < self.answers.len() {
            Some(self.answers[aid.id].duplicate())
        } else {
            None
        }
    }

    /// Look up an outcome by id; a copy of the record, or `None` if the id
    /// is not present.
    pub fn get_outcome(&self, oid: OutcomeId) -> (r: Option<Outcome>)
        ensures
            r matches Some(o) ==> oid < self@.outcomes.len() && o@ == self@.outcomes[oid as int],
            r is None ==> oid >= self@.outcomes.len(),
    {
        if oid < self.outcomes.len() {
            Some(self.outcomes[oid].duplicate())
        } else {
            None
        }
    }

    /// The stored queries, in id order.
    pub fn peek_queries(&self) -> (r: &Vec<Query>)
        ensures
            r@.len() == self@.queries.len(),
            forall|i: int| 0 <= i < r@.len() ==> (#[trigger] r@[i])@ == self@.queries[i],
    {
        &self.queries
    }

    /// Whether every outcome id the answer references exists here.
    fn answer_refs_ok(&self, a: &Answer) -> (r: bool)
        ensures
            r == self@.answer_ok(a@),
    {
        let list = a.outcomes();
        let mut k: usize = 0;
        while k < list.len()
            invariant
                list@ == a@.outcomes,
                0 <= k <= list@.len(),
                forall|j: int| 0 <= j < k ==> (#[trigger] a@.outcomes[j]) < self@.outcomes.len(),
            decreases list@.len() - k,
        {
            if list[k] >= self.outcomes.len() {
                return false;
            }
            k = k + 1;
        }
        true
    }

    /// Whether every id the query references exists here.
    fn query_refs_ok(&self, q: &Query) -> (r: bool)
        ensures
            r == self@.query_ok(q@),
    {
        let list = q.answers();
        let mut k: usize = 0;
        while k < list.len()
            invariant
                list@ == q@.answers,
                0 <= k <= list@.len(),
                forall|j: int| 0 <= j < k ==> (#[trigger] q@.answers[j]).id < self@.answers.len(),
            decreases list@.len() - k,
        {
            if list[k].id >= self.answers.len() {
                return false;
            }
            k = k + 1;
        }
        match q.seed() {
            Seed::Text(_) => true,
            Seed::OutcomeRef(oid) => *oid < self.outcomes.len(),
        }
    }

    /// Commit an outcome.  Outcomes reference no other record, so insertion
    /// always succeeds; the returned id is fresh.
    pub fn insert_outcome(&mut self, outcome: Outcome) -> (oid: OutcomeId)
        ensures
            oid == old(self)@.outcomes.len(),
            final(self)@ =~= (StoreModel {
                outcomes: old(self)@.outcomes.push(outcome@),
                ..old(self)@
            }),
            old(self)@.valid() ==> final(self)@.valid(),
    {
        let oid = self.outcomes.len();
        self.outcomes.push(outcome);
        proof {
            assert(self@.queries =~= old(self)@.queries);
            assert(self@.answers =~= old(self)@.answers);
            assert(self@.outcomes =~= old(self)@.outcomes.push(outcome@));
        }
        oid
    }

    /// Validate and commit an answer.  If some outcome id it references is
    /// not present, the change is rejected and the store is unchanged;
    /// otherwise the record is stored under a fresh id, which is returned.
    pub fn insert_answer(&mut self, answer: Answer) -> (r: Result<AnswerId, WeidError>)
        ensures
            r is Ok <==> old(self)@.answer_ok(answer@),
            r is Ok ==> r == Ok::<AnswerId, WeidError>(
                AnswerId { id: old(self)@.answers.len() as usize },
            ) && final(self)@ =~= (StoreModel {
                answers: old(self)@.answers.push(answer@),
                ..old(self)@
            }),
            r is Err ==> r == Err::<AnswerId, WeidError>(WeidError::DanglingReference) && final(self)@ == old(self)@,
            old(self)@.valid() ==> final(self)@.valid(),
    {
        if self.answer_refs_ok(&answer) {
            let id = self.answers.len();
            self.answers.push(answer);
            proof {
                assert(self@.queries =~= old(self)@.queries);
                assert(self@.answers =~= old(self)@.answers.push(answer@));
                assert(self@.outcomes =~= old(self)@.outcomes);
            }
            Ok(AnswerId { id })
        } else {
            Err(WeidError::DanglingReference)
        }
    }

    /// Validate and commit a query.  If some answer id it references, or the
    /// outcome id its seed references, is not present, the change is
    /// rejected and the store is unchanged; otherwise the record is stored
    /// under a fresh id, which is returned.
    pub fn insert_query(&mut self, query: Query) -> (r: Result<QueryId, WeidError>)
        ensures
            r is Ok <==> old(self)@.query_ok(query@),
            r is Ok ==> r == Ok::<QueryId, WeidError>(old(self)@.queries.len() as usize) && final(self)@ =~= (StoreModel { queries: old(self)@.queries.push(query@), ..old(self)@ }),
            r is Err ==> r == Err::<QueryId, WeidError>(WeidError::DanglingReference) && final(self)@ == old(self)@,
            old(self)@.valid() ==> final(self)@.valid(),
    {
        if self.query_refs_ok(&query) {
            let qid = self.queries.len();
            self.queries.push(query);
            proof {
                assert(self@.queries =~= old(self)@.queries.push(query@));
                assert(self@.answers =~= old(self)@.answers);
                assert(self@.outcomes =~= old(self)@.outcomes);
            }
            Ok(qid)
        } else {
            Err(WeidError::DanglingReference)
        }
    }

    /// Append an answer id to a stored query, read-modify-validate-write.
    /// Fails with `NotFound` if the query id is absent, and with
    /// `DanglingReference` if the answer id is; either failure leaves the
    /// store unchanged.
    pub fn link_answer_to_query(&mut self, aid: AnswerId, qid: QueryId) -> (r: Result<
        QueryId,
        WeidError,
    >)
        ensures
            qid >= old(self)@.queries.len() ==> r == Err::<QueryId, WeidError>(WeidError::NotFound)
                && final(self)@ == old(self)@,
            qid < old(self)@.queries.len() && aid.id >= old(self)@.answers.len() ==> r == Err::<
                QueryId,
                WeidError,
            >(WeidError::DanglingReference) && final(self)@ == old(self)@,
            qid < old(self)@.queries.len() && aid.id < old(self)@.answers.len() ==> r == Ok::<
                QueryId,
                WeidError,
            >(qid) && final(self)@ =~= (StoreModel {
                queries: old(self)@.queries.update(
                    qid as int,
                    QueryModel {
                        seed: old(self)@.queries[qid as int].seed,
                        answers: old(self)@.queries[qid as int].answers.push(aid),
                    },
                ),
                ..old(self)@
            }),
            old(self)@.valid() ==> final(self)@.valid(),
    {
        if qid >= self.queries.len() {
            return Err(WeidError::NotFound);
        }
        if aid.id >= self.answers.len() {
            return Err(WeidError::DanglingReference);
        }
        let mut q = self.queries[qid].duplicate();
        q.add_answer(aid);
        self.queries.set(qid, q);
        proof {
            assert(self@.answers =~= old(self)@.answers);
            assert(self@.outcomes =~= old(self)@.outcomes);
            assert(self@.queries =~= old(self)@.queries.update(
                qid as int,
                QueryModel {
                    seed: old(self)@.queries[qid as int].seed,
                    answers: old(self)@.queries[qid as int].answers.push(aid),
                },
            ));
        }
        Ok(qid)
    }

    /// Append an outcome id to a stored answer, read-modify-validate-write.
    /// Fails with `NotFound` if the answer id is absent, and with
    /// `DanglingReference` if the outcome id is; either failure leaves the
    /// store unchanged.
    pub fn link_outcome_to_answer(&mut self, oid: OutcomeId, aid: AnswerId) -> (r: Result<
        AnswerId,
        WeidError,
    >)
        ensures
            aid.id >= old(self)@.answers.len() ==> r == Err::<AnswerId, WeidError>(
                WeidError::NotFound,
            ) && final(self)@ == old(self)@,
            aid.id < old(self)@.answers.len() && oid >= old(self)@.outcomes.len() ==> r == Err::<
                AnswerId,
                WeidError,
            >(WeidError::DanglingReference) && final(self)@ == old(self)@,
            aid.id < old(self)@.answers.len() && oid < old(self)@.outcomes.len() ==> r == Ok::<
                AnswerId,
                WeidError,
            >(aid) && final(self)@ =~= (StoreModel {
                answers: old(self)@.answers.update(
                    aid.id as int,
                    AnswerModel {
                        display: old(self)@.answers[aid.id as int].display,
                        outcomes: old(self)@.answers[aid.id as int].outcomes.push(oid),
                    },
                ),
                ..old(self)@
            }),
            old(self)@.valid() ==> final(self)@.valid(),
    {
        if aid.id >= self.answers.len() {
            return Err(WeidError::NotFound);
        }
        if oid >= self.outcomes.len() {
            return Err(WeidError::DanglingReference);
        }
        let mut a = self.answers[aid.id].duplicate();
        a.add_outcome(oid);
        self.answers.set(aid.id, a);
        proof {
            assert(self@.queries =~= old(self)@.queries);
            assert(self@.outcomes =~= old(self)@.outcomes);
            assert(self@.answers =~= old(self)@.answers.update(
                aid.id as int,
                AnswerModel {
                    display: old(self)@.answers[aid.id as int].display,
                    outcomes: old(self)@.answers[aid.id as int].outcomes.push(oid),
                },
            ));
        }
        Ok(aid)
    }

    /// Referential integrity of the whole store, decided at run time.
    pub fn validate(&self) -> (r: bool)
        ensures
            r == self@.valid(),
    {
        let mut i: usize = 0;
        while i < self.queries.len()
            invariant
                forall|j: int| 0 <= j < i ==> self@.query_ok(#[trigger] self@.queries[j]),
                0 <= i <= self@.queries.len(),
            decreases self@.queries.len() - i,
        {
            if !self.query_refs_ok(&self.queries[i]) {
                proof {
                    assert(!self@.query_ok(self@.queries[i as int]));
                }
                return false;
            }
            i = i + 1;
        }
        let mut i: usize = 0;
        while i < self.answers.len()
            invariant
                forall|j: int| 0 <= j < i ==> self@.answer_ok(#[trigger] self@.answers[j]),
                0 <= i <= self@.answers.len(),
            decreases self@.answers.len() - i,
        {
            if !self.answer_refs_ok(&self.answers[i]) {
                proof {
                    assert(!self@.answer_ok(self@.answers[i as int]));
                }
                return false;
            }
            i = i + 1;
        }
        true
    }

    /// A copy of this store with the same model.
    pub fn duplicate(&self) -> (r: QueryList)
        ensures
            r@ == self@,
    {
        let mut queries: Vec<Query> = Vec::new();
        let mut i: usize = 0;
        while i < self.queries.len()
            invariant
                0 <= i <= self.queries@.len(),
                queries@.len() == i,
                forall|j: int| 0 <= j < i ==> (#[trigger] queries@[j])@ == self@.queries[j],
            decreases self.queries@.len() - i,
        {
            queries.push(self.queries[i].duplicate());
            i = i + 1;
        }
        let mut answers: Vec<Answer> = Vec::new();
        let mut i: usize = 0;
        while i < self.answers.len()
            invariant
                0 <= i <= self.answers@.len(),
                answers@.len() == i,
                forall|j: int| 0 <= j < i ==> (#[trigger] answers@[j])@ == self@.answers[j],
            decreases self.answers@.len() - i,
        {
            answers.push(self.answers[i].duplicate());
            i = i + 1;
        }
        let mut outcomes: Vec<Outcome> = Vec::new();
        let mut i: usize = 0;
        while i < self.outcomes.len()
            invariant
                0 <= i <= self.outcomes@.len(),
                outcomes@.len() == i,
                forall|j: int| 0 <= j < i ==> (#[trigger] outcomes@[j])@ == self@.outcomes[j],
            decreases self.outcomes@.len() - i,
        {
            outcomes.push(self.outcomes[i].duplicate());
            i = i + 1;
        }
        let paths = copy_vec(&self.paths);
        let r = QueryList { queries, answers, outcomes, paths };
        proof {
            assert(r@.queries =~= self@.queries);
            assert(r@.answers =~= self@.answers);
            assert(r@.outcomes =~= self@.outcomes);
            assert(r@ =~= self@);
        }
        r
    }

    /// Merge another store into this one: the union of the collections,
    /// colliding ids resolving to the other store's records, and the other
    /// store's explicit links winning.  The union is validated as a whole
    /// before it is committed: either this store becomes the valid union, or
    /// it is left completely unchanged.
    pub fn extend(&mut self, other: QueryList) -> (r: Result<(), WeidError>)
        ensures
            r is Ok <==> merge_model(old(self)@, other@).valid(),
            r is Ok ==> final(self)@ =~= merge_model(old(self)@, other@) && final(self)@.valid(),
            r is Err ==> r == Err::<(), WeidError>(WeidError::DanglingReference) && final(self)@
                == old(self)@,
    {
        let mut cand = self.duplicate();
        let mut i: usize = 0;
        while i < other.queries.len()
            invariant
                0 <= i <= other.queries@.len(),
                cand@.queries =~= merge_seq(self@.queries, other@.queries.take(i as int)),
                cand@.answers == self@.answers,
                cand@.outcomes == self@.outcomes,
                cand@.paths == self@.paths,
            decreases other.queries@.len() - i,
        {
            let ghost pre = cand@.queries;
            let q = other.queries[i].duplicate();
            if i < cand.queries.len() {
                cand.queries.set(i, q);
            } else {
                cand.queries.push(q);
            }
            proof {
                assert(pre =~= merge_seq(self@.queries, other@.queries.take(i as int)));
                assert(q@ == other@.queries[i as int]);
                assert(other@.queries.take(i as int).len() == i as int);
                assert(other@.queries.take(i + 1).len() == i + 1);
                assert(pre.len() == merge_seq(self@.queries, other@.queries.take(i as int)).len());
                assert(cand@.queries.len() == cand.queries@.len());
                assert(cand.queries@.len() == pre.len() || cand.queries@.len() == pre.len() + 1);
                assert(cand@.queries.len() == merge_seq(
                    self@.queries,
                    other@.queries.take(i + 1),
                ).len());
                assert forall|j: int| 0 <= j < cand@.queries.len() implies cand@.queries[j]
                    == merge_seq(self@.queries, other@.queries.take(i + 1))[j] by {
                    assert(cand@.queries[j] == if j == i {
                        q@
                    } else {
                        pre[j]
                    });
                    assert(merge_seq(self@.queries, other@.queries.take(i + 1))[j] == (
                    if j < i + 1 {
                        other@.queries.take(i + 1)[j]
                    } else {
                        self@.queries[j]
                    }));
                }
                assert(cand@.queries =~= merge_seq(self@.queries, other@.queries.take(i + 1)));
                assert(cand@.answers =~= self@.answers);
                assert(cand@.outcomes =~= self@.outcomes);
            }
            i = i + 1;
        }
        let mut i: usize = 0;
        while i < other.answers.len()
            invariant
                0 <= i <= other.answers@.len(),
                cand@.queries =~= merge_seq(self@.queries, other@.queries),
                cand@.answers =~= merge_seq(self@.answers, other@.answers.take(i as int)),
                cand@.outcomes == self@.outcomes,
                cand@.paths == self@.paths,
            decreases other.answers@.len() - i,
        {
            let ghost pre = cand@.answers;
            let a = other.answers[i].duplicate();
            if i < cand.answers.len() {
                cand.answers.set(i, a);
            } else {
                cand.answers.push(a);
            }
            proof {
                assert(pre =~= merge_seq(self@.answers, other@.answers.take(i as int)));
                assert(a@ == other@.answers[i as int]);
                assert(other@.answers.take(i as int).len() == i as int);
                assert(other@.answers.take(i + 1).len() == i + 1);
                assert(pre.len() == merge_seq(self@.answers, other@.answers.take(i as int)).len());
                assert(cand@.answers.len() == cand.answers@.len());
                assert(cand.answers@.len() == pre.len() || cand.answers@.len() == pre.len() + 1);
                assert(cand@.answers.len() == merge_seq(
                    self@.answers,
                    other@.answers.take(i + 1),
                ).len());
                assert forall|j: int| 0 <= j < cand@.answers.len() implies cand@.answers[j]
                    == merge_seq(self@.answers, other@.answers.take(i + 1))[j] by {
                    assert(cand@.answers[j] == if j == i {
                        a@
                    } else {
                        pre[j]
                    });
                    assert(merge_seq(self@.answers, other@.answers.take(i + 1))[j] == (
                    if j < i + 1 {
                        other@.answers.take(i + 1)[j]
                    } else {
                        self@.answers[j]
                    }));
                }
                assert(cand@.answers =~= merge_seq(self@.answers, other@.answers.take(i + 1)));
                assert(cand@.queries =~= merge_seq(self@.queries, other@.queries));
                assert(cand@.outcomes =~= self@.outcomes);
            }
            i = i + 1;
        }
        let mut i: usize = 0;
        while i < other.outcomes.len()
            invariant
                0 <= i <= other.outcomes@.len(),
                cand@.queries =~= merge_seq(self@.queries, other@.queries),
                cand@.answers =~= merge_seq(self@.answers, other@.answers),
                cand@.outcomes =~= merge_seq(self@.outcomes, other@.outcomes.take(i as int)),
                cand@.paths == self@.paths,
            decreases other.outcomes@.len() - i,
        {
            let ghost pre = cand@.outcomes;
            let o = other.outcomes[i].duplicate();
            if i < cand.outcomes.len() {
                cand.outcomes.set(i, o);
            } else {
                cand.outcomes.push(o);
            }
            proof {
                assert(pre =~= merge_seq(self@.outcomes, other@.outcomes.take(i as int)));
                assert(o@ == other@.outcomes[i as int]);
                assert(other@.outcomes.take(i as int).len() == i as int);
                assert(other@.outcomes.take(i + 1).len() == i + 1);
                assert(pre.len() == merge_seq(self@.outcomes, other@.outcomes.take(i as int)).len());
                assert(cand@.outcomes.len() == cand.outcomes@.len());
                assert(cand.outcomes@.len() == pre.len() || cand.outcomes@.len() == pre.len() + 1);
                assert(cand@.outcomes.len() == merge_seq(
                    self@.outcomes,
                    other@.outcomes.take(i + 1),
                ).len());
                assert forall|j: int| 0 <= j < cand@.outcomes.len() implies cand@.outcomes[j]
                    == merge_seq(self@.outcomes, other@.outcomes.take(i + 1))[j] by {
                    assert(cand@.outcomes[j] == if j == i {
                        o@
                    } else {
                        pre[j]
                    });
                    assert(merge_seq(self@.outcomes, other@.outcomes.take(i + 1))[j] == (
                    if j < i + 1 {
                        other@.outcomes.take(i + 1)[j]
                    } else {
                        self@.outcomes[j]
                    }));
                }
                assert(cand@.outcomes =~= merge_seq(self@.outcomes, other@.outcomes.take(i + 1)));
                assert(cand@.queries =~= merge_seq(self@.queries, other@.queries));
                assert(cand@.answers =~= merge_seq(self@.answers, other@.answers));
            }
            i = i + 1;
        }
        let ghost cand_paths_before = cand.paths@;
        let mut i: usize = 0;
        while i < other.paths.len()
            invariant
                0 <= i <= other.paths@.len(),
                cand@.queries =~= merge_seq(self@.queries, other@.queries),
                cand@.answers =~= merge_seq(self@.answers, other@.answers),
                cand@.outcomes =~= merge_seq(self@.outcomes, other@.outcomes),
                cand.paths@ =~= cand_paths_before + other.paths@.take(i as int),
            decreases other.paths@.len() - i,
        {
            let entry = other.paths[i];
            cand.paths.push(entry);
            proof {
                assert(cand.paths@ =~= cand_paths_before + other.paths@.take(i + 1));
            }
            i = i + 1;
        }
        proof {
            assert(other.paths@.take(other.paths@.len() as int) =~= other.paths@);
            assert(other@.queries.take(other@.queries.len() as int) =~= other@.queries);
            assert(other@.answers.take(other@.answers.len() as int) =~= other@.answers);
            assert(other@.outcomes.take(other@.outcomes.len() as int) =~= other@.outcomes);
            lemma_assoc_concat(cand_paths_before, other.paths@);
            assert(cand@ =~= merge_model(self@, other@));
        }
        if cand.validate() {
            *self = cand;
            Ok(())
        } else {
            Err(WeidError::DanglingReference)
        }
    }
}

} // verus!
