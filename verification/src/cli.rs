//! Building a store from command-line flag/value pairs.
//!
//! The grammar: a `q`/`query` pair opens a new query with the given display
//! text; an `a`/`answer` pair opens a new answer with the given label; an
//! `o`/`outcome` pair attaches a process-invocation outcome to the open
//! answer (and is dropped when no answer is open).  Opening a query or an
//! answer first commits the previously open answer — to the open query, or
//! to the list of default answers when no query is open yet; every query
//! starts with the default answers.  Opening a query also commits the
//! previously open query.  At the end, a trailing open answer is committed
//! only if a query is open, and the open query is committed.  Pairs with
//! any other flag are ignored.
//!
//! The whole grammar is written down as the fold [`build_fold`] below, and
//! [`_to_querylist`] is proved to produce exactly that fold's store.

use vstd::prelude::*;

use crate::error::WeidError;
use crate::outcome::{Outcome, OutcomeModel};
use crate::qa::{copy_vec, Answer, AnswerModel, Query, QueryModel, SeedModel};
use crate::querylist::{AnswerId, QueryList, StoreModel};

verus! {

/// Ghost state of the builder between two flag/value pairs.
#[verifier::ext_equal]
pub struct BuildState {
    pub store: StoreModel,
    pub active_q: Option<QueryModel>,
    pub active_a: Option<AnswerModel>,
    pub defaults: Seq<AnswerId>,
}

/// The builder's starting point: an empty store, nothing open.
pub open spec fn build_init() -> BuildState {
    BuildState {
        store: StoreModel {
            queries: Seq::empty(),
            answers: Seq::empty(),
            outcomes: Seq::empty(),
            paths: Map::empty(),
        },
        active_q: None,
        active_a: None,
        defaults: Seq::empty(),
    }
}

/// Commit the open answer: it is stored under a fresh id, which is appended
/// to the open query, or to the defaults when no query is open.
pub open spec fn flush_answer(st: BuildState) -> BuildState {
    match st.active_a {
        None => st,
        Some(a) => {
            let aid = AnswerId { id: st.store.answers.len() as usize };
            let store = StoreModel { answers: st.store.answers.push(a), ..st.store };
            match st.active_q {
                Some(q) => BuildState {
                    store,
                    active_q: Some(QueryModel { seed: q.seed, answers: q.answers.push(aid) }),
                    active_a: None,
                    defaults: st.defaults,
                },
                None => BuildState {
                    store,
                    active_q: None,
                    active_a: None,
                    defaults: st.defaults.push(aid),
                },
            }
        },
    }
}

/// A `q`/`query` pair: commit the open answer and the open query, then open
/// a new query with the given text and the default answers.
pub open spec fn step_query(st: BuildState, val: Seq<char>) -> BuildState {
    let st1 = flush_answer(st);
    let st2 = match st1.active_q {
        Some(q) => BuildState {
            store: StoreModel { queries: st1.store.queries.push(q), ..st1.store },
            active_q: None,
            ..st1
        },
        None => st1,
    };
    BuildState {
        active_q: Some(QueryModel { seed: SeedModel::Text(val), answers: st2.defaults }),
        ..st2
    }
}

/// An `a`/`answer` pair: commit the open answer, then open a new one with
/// the given label.
pub open spec fn step_answer(st: BuildState, val: Seq<char>) -> BuildState {
    let st1 = flush_answer(st);
    BuildState {
        active_a: Some(AnswerModel { display: val, outcomes: Seq::empty() }),
        ..st1
    }
}

/// An `o`/`outcome` pair: store a process-invocation outcome and append its
/// id to the open answer; with no open answer the pair is dropped.
pub open spec fn step_outcome(st: BuildState, val: Seq<char>) -> BuildState {
    match st.active_a {
        None => st,
        Some(a) => {
            let oid = st.store.outcomes.len() as usize;
            BuildState {
                store: StoreModel {
                    outcomes: st.store.outcomes.push(OutcomeModel::Command(val)),
                    ..st.store
                },
                active_a: Some(AnswerModel { display: a.display, outcomes: a.outcomes.push(oid) }),
                ..st
            }
        },
    }
}

/// One flag/value pair.
pub open spec fn build_step(st: BuildState, flag: Seq<char>, val: Seq<char>) -> BuildState {
    if flag == "q"@ || flag == "query"@ {
        step_query(st, val)
    } else if flag == "a"@ || flag == "answer"@ {
        step_answer(st, val)
    } else if flag == "o"@ || flag == "outcome"@ {
        step_outcome(st, val)
    } else {
        st
    }
}

/// The whole argument list, left to right.
pub open spec fn build_fold(st: BuildState, args: Seq<(Seq<char>, Seq<char>)>) -> BuildState
    decreases args.len(),
{
    if args.len() == 0 {
        st
    } else {
        build_step(build_fold(st, args.drop_last()), args.last().0, args.last().1)
    }
}

/// Wrap up: a trailing open answer is committed only when a query is open,
/// and the open query is committed.
pub open spec fn build_finish(st: BuildState) -> StoreModel {
    let st1 = if st.active_a is Some && st.active_q is Some {
        flush_answer(st)
    } else {
        st
    };
    match st1.active_q {
        Some(q) => StoreModel { queries: st1.store.queries.push(q), ..st1.store },
        None => st1.store,
    }
}

/// The flag/value pairs as mathematical values.
pub open spec fn args_model(args: Seq<(String, String)>) -> Seq<(Seq<char>, Seq<char>)> {
    Seq::new(args.len(), |i: int| (args[i].0@, args[i].1@))
}

/// Everything the open records reference exists in the store under
/// construction, so that committing them cannot be rejected.
pub open spec fn st_inv(st: BuildState) -> bool {
    &&& st.store.valid()
    &&& st.active_a matches Some(a) ==> st.store.answer_ok(a)
    &&& st.active_q matches Some(q) ==> st.store.query_ok(q)
    &&& forall|k: int|
        0 <= k < st.defaults.len() ==> (#[trigger] st.defaults[k]).id < st.store.answers.len()
}

/// The builder's state as carried by the executable locals.
pub open spec fn state_of(
    store: StoreModel,
    aq: Option<QueryModel>,
    aa: Option<AnswerModel>,
    ds: Seq<AnswerId>,
) -> BuildState {
    BuildState { store, active_q: aq, active_a: aa, defaults: ds }
}

/// Whether the flag equals its short or its long spelling.
fn is_flag(flag: &String, short: &str, long: &str) -> (r: bool)
    ensures
        r == (flag@ == short@ || flag@ == long@),
{
    *flag == short.to_owned() || *flag == long.to_owned()
}

/// Commit the open answer as [`flush_answer`] describes.
fn flush_active_answer(
    ql: &mut QueryList,
    active_q: &mut Option<Query>,
    active_a: &mut Option<Answer>,
    defaults: &mut Vec<AnswerId>,
)
    requires
        st_inv(
            state_of(
                old(ql)@,
                old(active_q).deep_view(),
                old(active_a).deep_view(),
                old(defaults)@,
            ),
        ),
    ensures
        state_of(
            final(ql)@,
            final(active_q).deep_view(),
            final(active_a).deep_view(),
            final(defaults)@,
        ) == flush_answer(
            state_of(
                old(ql)@,
                old(active_q).deep_view(),
                old(active_a).deep_view(),
                old(defaults)@,
            ),
        ),
        st_inv(
            state_of(
                final(ql)@,
                final(active_q).deep_view(),
                final(active_a).deep_view(),
                final(defaults)@,
            ),
        ),
{
    let ghost st0 = state_of(ql@, active_q.deep_view(), active_a.deep_view(), defaults@);
    match active_a.take() {
        None => {
            proof {
                assert(state_of(ql@, active_q.deep_view(), active_a.deep_view(), defaults@)
                    =~= flush_answer(st0));
            }
        },
        Some(a) => {
            let aid = match ql.insert_answer(a) {
                Ok(aid) => aid,
                Err(_) => vstd::pervasive::unreached(),
            };
            match active_q.take() {
                Some(mut q) => {
                    q.add_answer(aid);
                    *active_q = Some(q);
                    proof {
                        assert(state_of(
                            ql@,
                            active_q.deep_view(),
                            active_a.deep_view(),
                            defaults@,
                        ) =~= flush_answer(st0));
                    }
                },
                None => {
                    defaults.push(aid);
                    proof {
                        assert(state_of(
                            ql@,
                            active_q.deep_view(),
                            active_a.deep_view(),
                            defaults@,
                        ) =~= flush_answer(st0));
                    }
                },
            }
        },
    }
}

/// Build a store from preprocessed flag/value pairs.  Every record is
/// committed with ids handed out by the store itself, so no insertion can
/// be rejected: the result is always the fold's store, and it is valid.
pub fn _to_querylist(args: Vec<(String, String)>) -> (r: Result<QueryList, WeidError>)
    ensures
        r is Ok,
        r->Ok_0@ == build_finish(build_fold(build_init(), args_model(args@))),
        r->Ok_0@.valid(),
{
    let mut ql = QueryList::new();
    let mut active_q: Option<Query> = None;
    let mut active_a: Option<Answer> = None;
    let mut defaults: Vec<AnswerId> = Vec::new();
    proof {
        assert(state_of(ql@, active_q.deep_view(), active_a.deep_view(), defaults@)
            =~= build_init());
    }
    let mut i: usize = 0;
    while i < args.len()
        invariant
            0 <= i <= args@.len(),
            state_of(ql@, active_q.deep_view(), active_a.deep_view(), defaults@) == build_fold(
                build_init(),
                args_model(args@).take(i as int),
            ),
            st_inv(state_of(ql@, active_q.deep_view(), active_a.deep_view(), defaults@)),
        decreases args@.len() - i,
    {
        let ghost st0 = state_of(ql@, active_q.deep_view(), active_a.deep_view(), defaults@);
        proof {
            assert(args_model(args@).take(i + 1).drop_last() =~= args_model(args@).take(i as int));
            assert(args_model(args@).take(i + 1).last() == (args@[i as int].0@, args@[i as int].1@));
        }
        let flag = &args[i].0;
        let val = &args[i].1;
        if is_flag(flag, "q", "query") {
            flush_active_answer(&mut ql, &mut active_q, &mut active_a, &mut defaults);
            let ghost st1 = state_of(ql@, active_q.deep_view(), active_a.deep_view(), defaults@);
            match active_q.take() {
                Some(q) => {
                    match ql.insert_query(q) {
                        Ok(_) => (),
                        Err(_) => vstd::pervasive::unreached(),
                    }
                },
                None => (),
            }
            let ghost st2 = state_of(ql@, active_q.deep_view(), active_a.deep_view(), defaults@);
            proof {
                assert(st2 =~= (match st1.active_q {
                    Some(q) => BuildState {
                        store: StoreModel { queries: st1.store.queries.push(q), ..st1.store },
                        active_q: None,
                        ..st1
                    },
                    None => st1,
                }));
            }
            let mut query = Query::from_text(val.clone());
            query.add_answers(copy_vec(&defaults));
            active_q = Some(query);
            proof {
                assert(query@.answers =~= st2.defaults);
                assert(state_of(ql@, active_q.deep_view(), active_a.deep_view(), defaults@)
                    =~= step_query(st0, val@));
            }
        } else if is_flag(flag, "a", "answer") {
            flush_active_answer(&mut ql, &mut active_q, &mut active_a, &mut defaults);
            active_a = Some(Answer::from_text(val.clone()));
            proof {
                assert(state_of(ql@, active_q.deep_view(), active_a.deep_view(), defaults@)
                    =~= step_answer(st0, val@));
            }
        } else if is_flag(flag, "o", "outcome") {
            match active_a.take() {
                Some(mut a) => {
                    let oid = ql.insert_outcome(Outcome::new_cmd(val.clone()));
                    a.add_outcome(oid);
                    active_a = Some(a);
                    proof {
                        assert(state_of(ql@, active_q.deep_view(), active_a.deep_view(), defaults@)
                            =~= step_outcome(st0, val@));
                    }
                },
                None => {
                    proof {
                        assert(state_of(ql@, active_q.deep_view(), active_a.deep_view(), defaults@)
                            =~= step_outcome(st0, val@));
                    }
                },
            }
        }
        i = i + 1;
    }
    proof {
        assert(args_model(args@).take(args@.len() as int) =~= args_model(args@));
    }
    let ghost st_end = state_of(ql@, active_q.deep_view(), active_a.deep_view(), defaults@);
    if active_a.is_some() && active_q.is_some() {
        flush_active_answer(&mut ql, &mut active_q, &mut active_a, &mut defaults);
    }
    let ghost st_fin = state_of(ql@, active_q.deep_view(), active_a.deep_view(), defaults@);
    proof {
        assert(st_fin == if st_end.active_a is Some && st_end.active_q is Some {
            flush_answer(st_end)
        } else {
            st_end
        });
    }
    match active_q.take() {
        Some(q) => {
            match ql.insert_query(q) {
                Ok(_) => (),
                Err(_) => vstd::pervasive::unreached(),
            }
        },
        None => (),
    }
    proof {
        assert(ql@ =~= build_finish(st_end));
    }
    Ok(ql)
}

} // verus!
