use weid::error::WeidError;
use weid::outcome::Outcome;
use weid::qa::{Answer, Query};
use weid::querylist::{AnswerId, QueryList};

/// A query with the given number of answers, each committed to the store.
fn gen_query(ql: &mut QueryList, num_answers: i8) -> Query {
    let mut q = Query::from_text("q0".to_string());
    for i in 0..num_answers {
        let text = format!("a{}", i);
        let ans = Answer::from_text(text);
        let aid = ql.insert_answer(ans).unwrap();
        q.add_answer(aid);
    }

    q
}

#[test]
fn querylist() {
    let mut ql = QueryList::new();
    let start_id = ql.next_id();

    let q0 = gen_query(&mut ql, 2);

    let q0_id = ql.insert_query(q0).unwrap();

    assert_eq!(q0_id, start_id);
    assert_eq!(ql.next_id(), start_id + 1);

    let q1 = gen_query(&mut ql, 1);
    let q1_id = ql.insert_query(q1.clone()).unwrap();

    let aid_0 = AnswerId { id: 0 };

    ql.add_path(aid_0, q1_id);

    let qid = ql.get_path(aid_0).unwrap();
    assert_eq!(qid, q1_id);

    let q_out = ql.get_query(qid).unwrap();
    assert_eq!(q_out, q1);
}

#[test]
fn insert_outcome_always_succeeds() {
    let mut ql = QueryList::new();
    let o0 = ql.insert_outcome(Outcome::new_cmd("ls".to_string()));
    let o1 = ql.insert_outcome(Outcome::new_closure(7));
    assert_eq!(o0, 0);
    assert_eq!(o1, 1);
    assert_eq!(ql.get_outcome(o0), Some(Outcome::Command("ls".to_string())));
    assert_eq!(ql.get_outcome(o1), Some(Outcome::Closure(7)));
}

#[test]
fn insert_answer_rejects_dangling_outcome() {
    // attempt to commit an answer referencing an outcome id that is missing:
    // the store rejects it and still reports the outcome as not found.
    let mut ql = QueryList::new();
    let mut bad = Answer::from_text("broken".to_string());
    bad.add_outcome(99);
    assert_eq!(ql.insert_answer(bad), Err(WeidError::DanglingReference));
    assert_eq!(ql.get_outcome(99), None);
}

#[test]
fn insert_query_rejection_is_atomic() {
    let mut ql = QueryList::new();
    let aid = ql.insert_answer(Answer::from_text("fine".to_string())).unwrap();
    let mut q = Query::from_text("ok".to_string());
    q.add_answer(aid);
    ql.insert_query(q).unwrap();

    let before = ql.clone();
    let mut bad = Query::from_text("broken".to_string());
    bad.add_answer(AnswerId { id: 42 });
    assert_eq!(ql.insert_query(bad), Err(WeidError::DanglingReference));
    assert_eq!(ql, before);
    assert_eq!(ql.next_id(), 1);
}

#[test]
fn seed_outcome_reference_is_validated() {
    let mut ql = QueryList::new();
    let bad = Query::from_outcome(3);
    assert_eq!(ql.insert_query(bad), Err(WeidError::DanglingReference));

    let oid = ql.insert_outcome(Outcome::new_cmd("date".to_string()));
    let good = Query::from_outcome(oid);
    assert_eq!(ql.insert_query(good), Ok(0));
    assert!(ql.validate());
}

#[test]
fn link_answer_to_query_appends() {
    let mut ql = QueryList::new();
    let qid = ql.insert_query(Query::from_text("q".to_string())).unwrap();
    let aid = ql.insert_answer(Answer::from_text("a".to_string())).unwrap();

    assert_eq!(ql.link_answer_to_query(aid, qid), Ok(qid));
    let q = ql.get_query(qid).unwrap();
    assert_eq!(q.answers(), vec![aid]);

    // absent query id
    assert_eq!(ql.link_answer_to_query(aid, 9), Err(WeidError::NotFound));
    // absent answer id
    assert_eq!(
        ql.link_answer_to_query(AnswerId { id: 9 }, qid),
        Err(WeidError::DanglingReference)
    );
    // neither failure changed the query
    assert_eq!(ql.get_query(qid).unwrap().answers(), vec![aid]);
}

#[test]
fn link_outcome_to_answer_appends() {
    let mut ql = QueryList::new();
    let aid = ql.insert_answer(Answer::from_text("a".to_string())).unwrap();
    let oid = ql.insert_outcome(Outcome::new_cmd("ls".to_string()));

    assert_eq!(ql.link_outcome_to_answer(oid, aid), Ok(aid));
    assert_eq!(ql.get_answer(aid).unwrap().outcomes(), vec![oid]);

    assert_eq!(
        ql.link_outcome_to_answer(oid, AnswerId { id: 9 }),
        Err(WeidError::NotFound)
    );
    assert_eq!(ql.link_outcome_to_answer(9, aid), Err(WeidError::DanglingReference));
    assert_eq!(ql.get_answer(aid).unwrap().outcomes(), vec![oid]);
}

#[test]
fn referential_integrity_after_mutations() {
    // a chain of successful mutations keeps the global invariant observable
    let mut ql = QueryList::new();
    assert!(ql.validate());
    let oid = ql.insert_outcome(Outcome::new_cmd("echo hi".to_string()));
    assert!(ql.validate());
    let mut a = Answer::from_text("yes".to_string());
    a.add_outcome(oid);
    let aid = ql.insert_answer(a).unwrap();
    assert!(ql.validate());
    let mut q = Query::from_text("pick one".to_string());
    q.add_answer(aid);
    let qid = ql.insert_query(q).unwrap();
    assert!(ql.validate());
    ql.link_answer_to_query(aid, qid).unwrap();
    assert!(ql.validate());
    ql.link_outcome_to_answer(oid, aid).unwrap();
    assert!(ql.validate());
}

#[test]
fn extend_merges_and_stays_valid() {
    let mut left = QueryList::new();
    let l_oid = left.insert_outcome(Outcome::new_cmd("ls".to_string()));
    let mut la = Answer::from_text("left answer".to_string());
    la.add_outcome(l_oid);
    let l_aid = left.insert_answer(la).unwrap();
    let mut lq = Query::from_text("left query".to_string());
    lq.add_answer(l_aid);
    left.insert_query(lq).unwrap();

    let mut right = QueryList::new();
    right.insert_query(Query::from_text("right one".to_string())).unwrap();
    right.insert_query(Query::from_text("right two".to_string())).unwrap();

    assert_eq!(left.extend(right), Ok(()));
    assert!(left.validate());
    // colliding query id resolved to the right store's record; the longer
    // collection's tail is kept
    let queries = left.peek_queries();
    assert_eq!(queries.len(), 2);
    assert_eq!(queries[0].display(), &"right one".to_string());
    assert_eq!(queries[1].display(), &"right two".to_string());
    // the left store's answer and outcome survived
    assert_eq!(
        left.get_answer(l_aid).unwrap().display(),
        "left answer".to_string()
    );
    assert!(left.get_outcome(l_oid).is_some());
}

#[test]
fn extend_keeps_paths_of_both_sides() {
    let mut left = QueryList::new();
    left.insert_query(Query::from_text("lq".to_string())).unwrap();
    left.add_path(AnswerId { id: 0 }, 5);
    left.add_path(AnswerId { id: 1 }, 6);

    let mut right = QueryList::new();
    right.add_path(AnswerId { id: 1 }, 9);

    assert_eq!(left.extend(right), Ok(()));
    assert_eq!(left.get_path(AnswerId { id: 0 }), Some(5));
    // the incoming store's link wins on collision
    assert_eq!(left.get_path(AnswerId { id: 1 }), Some(9));
    assert_eq!(left.get_path(AnswerId { id: 2 }), None);
}

#[test]
fn add_path_overwrites() {
    let mut ql = QueryList::new();
    let aid = AnswerId { id: 0 };
    assert_eq!(ql.get_path(aid), None);
    ql.add_path(aid, 3);
    assert_eq!(ql.get_path(aid), Some(3));
    ql.add_path(aid, 8);
    assert_eq!(ql.get_path(aid), Some(8));
}

#[test]
fn get_next_query_follows_link_or_first_query() {
    let mut ql = QueryList::new();
    let q0_id = ql.insert_query(Query::from_text("first".to_string())).unwrap();
    let q1_id = ql.insert_query(Query::from_text("second".to_string())).unwrap();
    let aid = ql.insert_answer(Answer::from_text("a".to_string())).unwrap();

    // no link recorded: the first-inserted query is the default
    let next = ql.get_next_query(aid).unwrap();
    assert_eq!(next, ql.get_query(q0_id).unwrap());

    // a link decides instead
    ql.add_path(aid, q1_id);
    let next = ql.get_next_query(aid).unwrap();
    assert_eq!(next, ql.get_query(q1_id).unwrap());

    // a link whose target is missing resolves to nothing
    ql.add_path(aid, 9);
    assert_eq!(ql.get_next_query(aid), None);
}
