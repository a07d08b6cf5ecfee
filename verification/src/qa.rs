//! Queries and answers: the records that the store owns.
//!
//! Records hold only identifiers of the records they reference, never the
//! records themselves; holders re-fetch through the store.  A record is
//! built with its constructor, grown with the append-only mutations below,
//! and validated when it is committed to a store.

use vstd::prelude::*;

use crate::error::WeidError;
use crate::outcome::OutcomeId;
use crate::querylist::AnswerId;

verus! {

/// Copy a vector of plain values element by element.
pub(crate) fn copy_vec<T: Copy>(v: &Vec<T>) -> (r: Vec<T>)
    ensures
        r@ == v@,
{
    let mut r: Vec<T> = Vec::new();
    let mut i: usize = 0;
    while i < v.len()
        invariant
            0 <= i <= v.len(),
            r@ =~= v@.take(i as int),
        decreases v.len() - i,
    {
        r.push(v[i]);
        proof {
            assert(r@ =~= v@.take(i + 1));
        }
        i = i + 1;
    }
    proof {
        assert(v@.take(v@.len() as int) =~= v@);
    }
    r
}

/// Ghost model of a [`Seed`].
#[verifier::ext_equal]
pub enum SeedModel {
    Text(Seq<char>),
    OutcomeRef(OutcomeId),
}

impl SeedModel {
    /// The literal display text; meaningful only for the `Text` kind.
    pub open spec fn text(self) -> Seq<char> {
        match self {
            SeedModel::Text(t) => t,
            SeedModel::OutcomeRef(_) => Seq::empty(),
        }
    }

    /// The referenced outcome id; meaningful only for the `OutcomeRef` kind.
    pub open spec fn outcome_ref(self) -> OutcomeId {
        match self {
            SeedModel::Text(_) => 0,
            SeedModel::OutcomeRef(oid) => oid,
        }
    }
}

/// Where a query's display text comes from: either literal text, or the
/// textual result of executing an outcome at the moment the query is
/// reached.
#[derive(Debug, Clone, PartialEq)]
pub enum Seed {
    /// Literal display text, used as-is.
    Text(String),
    /// The id of an outcome whose execution result is the display text.
    OutcomeRef(OutcomeId),
}

impl View for Seed {
    type V = SeedModel;

    open spec fn view(&self) -> SeedModel {
        match self {
            Seed::Text(t) => SeedModel::Text(t@),
            Seed::OutcomeRef(oid) => SeedModel::OutcomeRef(*oid),
        }
    }
}

/// Ghost model of an [`Answer`].
#[verifier::ext_equal]
pub struct AnswerModel {
    pub display: Seq<char>,
    pub outcomes: Seq<OutcomeId>,
}

/// One selectable choice on a query: a label, and the ordered outcomes to
/// execute when the choice is taken.
#[derive(Debug, Clone, PartialEq)]
pub struct Answer {
    display: String,
    outcomes: Vec<OutcomeId>,
}

impl View for Answer {
    type V = AnswerModel;

    closed spec fn view(&self) -> AnswerModel {
        AnswerModel { display: self.display@, outcomes: self.outcomes@ }
    }
}

impl DeepView for Answer {
    type V = AnswerModel;

    open spec fn deep_view(&self) -> AnswerModel {
        self.view()
    }
}

impl Answer {
    /// A fresh answer with the given label and no outcomes.
    pub fn from_text(display: String) -> (a: Answer)
        ensures
            a@.display == display@,
            a@.outcomes =~= Seq::<OutcomeId>::empty(),
    {
        Answer { display, outcomes: Vec::new() }
    }

    /// The label shown to the user.
    pub fn display(&self) -> (r: String)
        ensures
            r@ == self@.display,
    {
        self.display.clone()
    }

    /// Append an outcome id to this answer's ordered outcome list.
    pub fn add_outcome(&mut self, oid: OutcomeId)
        ensures
            final(self)@.display == old(self)@.display,
            final(self)@.outcomes == old(self)@.outcomes.push(oid),
    {
        self.outcomes.push(oid);
    }

    /// The ordered outcome ids of this answer.
    pub fn outcomes(&self) -> (r: Vec<OutcomeId>)
        ensures
            r@ == self@.outcomes,
    {
        copy_vec(&self.outcomes)
    }

    /// A copy of this answer with the same model.
    pub fn duplicate(&self) -> (r: Answer)
        ensures
            r@ == self@,
    {
        Answer { display: self.display.clone(), outcomes: copy_vec(&self.outcomes) }
    }
}

/// Ghost model of a [`Query`].
#[verifier::ext_equal]
pub struct QueryModel {
    pub seed: SeedModel,
    pub answers: Seq<AnswerId>,
}

/// A prompt to show the user: a seed for its display text, and the ordered
/// answer ids to offer (insertion order is the display and selection order).
#[derive(Debug, Clone, PartialEq)]
pub struct Query {
    seed: Seed,
    answers: Vec<AnswerId>,
}

impl View for Query {
    type V = QueryModel;

    closed spec fn view(&self) -> QueryModel {
        QueryModel { seed: self.seed@, answers: self.answers@ }
    }
}

impl DeepView for Query {
    type V = QueryModel;

    open spec fn deep_view(&self) -> QueryModel {
        self.view()
    }
}

impl Query {
    /// A fresh query with literal display text and no answers.
    pub fn from_text(display: String) -> (q: Query)
        ensures
            q@.seed == SeedModel::Text(display@),
            q@.answers =~= Seq::<AnswerId>::empty(),
    {
        Query { seed: Seed::Text(display), answers: Vec::new() }
    }

    /// A fresh query whose display text is the result of executing the given
    /// outcome when the query is reached, and with no answers.
    pub fn from_outcome(oid: OutcomeId) -> (q: Query)
        ensures
            q@.seed == SeedModel::OutcomeRef(oid),
            q@.answers =~= Seq::<AnswerId>::empty(),
    {
        Query { seed: Seed::OutcomeRef(oid), answers: Vec::new() }
    }

    /// The literal display text of a query whose seed is literal.
    pub fn display(&self) -> (r: &String)
        requires
            self@.seed is Text,
        ensures
            r@ == self@.seed.text(),
    {
        match &self.seed {
            Seed::Text(t) => t,
            Seed::OutcomeRef(_) => vstd::pervasive::unreached(),
        }
    }

    /// The seed this query's display text comes from.
    pub fn seed(&self) -> (r: &Seed)
        ensures
            r@ == self@.seed,
    {
        &self.seed
    }

    /// Append an answer id to this query's ordered answer list.
    pub fn add_answer(&mut self, aid: AnswerId)
        ensures
            final(self)@.seed == old(self)@.seed,
            final(self)@.answers == old(self)@.answers.push(aid),
    {
        self.answers.push(aid);
    }

    /// Append every given answer id, in order.
    pub fn add_answers(&mut self, aids: Vec<AnswerId>)
        ensures
            final(self)@.seed == old(self)@.seed,
            final(self)@.answers == old(self)@.answers + aids@,
    {
        let mut i: usize = 0;
        while i < aids.len()
            invariant
                0 <= i <= aids.len(),
                self@.seed == old(self)@.seed,
                self@.answers =~= old(self)@.answers + aids@.take(i as int),
            decreases aids.len() - i,
        {
            self.answers.push(aids[i]);
            proof {
                assert(old(self)@.answers + aids@.take(i + 1) =~= (old(self)@.answers
                    + aids@.take(i as int)).push(aids@[i as int]));
            }
            i = i + 1;
        }
        proof {
            assert(aids@.take(aids@.len() as int) =~= aids@);
        }
    }

    /// The ordered answer ids of this query.
    pub fn answers(&self) -> (r: Vec<AnswerId>)
        ensures
            r@ == self@.answers,
    {
        copy_vec(&self.answers)
    }

    /// Map a 1-based selection key, as presented by the prompt facility,
    /// back to the answer id it stands for.  A key outside the presented
    /// range is a selection error.
    pub fn answer_for_key(&self, key: usize) -> (r: Result<AnswerId, WeidError>)
        ensures
            r == if 1 <= key <= self@.answers.len() {
                Ok::<AnswerId, WeidError>(self@.answers[key - 1])
            } else {
                Err::<AnswerId, WeidError>(WeidError::SelectionError)
            },
    {
        if 1 <= key && key <= self.answers.len() {
            Ok(self.answers[key - 1])
        } else {
            Err(WeidError::SelectionError)
        }
    }

    /// A copy of this query with the same model.
    pub fn duplicate(&self) -> (r: Query)
        ensures
            r@ == self@,
    {
        let seed = match &self.seed {
            Seed::Text(t) => Seed::Text(t.clone()),
            Seed::OutcomeRef(oid) => Seed::OutcomeRef(*oid),
        };
        Query { seed, answers: copy_vec(&self.answers) }
    }
}

} // verus!
