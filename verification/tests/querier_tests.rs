use weid::error::WeidError;
use weid::outcome::Outcome;
use weid::qa::{Answer, Query, Seed};
use weid::querier::{run_outcome_sequence, Querier};
use weid::querylist::QueryList;

#[test]
fn traversal_visits_each_query_once_in_insertion_order() {
    let mut ql = QueryList::new();
    for text in ["first", "second", "third"] {
        ql.insert_query(Query::from_text(text.to_string())).unwrap();
    }
    let mut engine = Querier::new(ql);

    let order = engine.visit_all();
    assert_eq!(order, vec![0, 1, 2]);
    assert!(engine.pick_next_query().is_none());
    assert!(engine.get_next_query().is_none());
}

#[test]
fn pick_skips_visited_queries() {
    let mut ql = QueryList::new();
    ql.insert_query(Query::from_text("one".to_string())).unwrap();
    ql.insert_query(Query::from_text("two".to_string())).unwrap();
    let mut engine = Querier::new(ql);

    assert_eq!(engine.pick_next_query(), Some(0));
    engine.mark_visited(0);
    assert_eq!(engine.pick_next_query(), Some(1));
    engine.mark_visited(1);
    assert_eq!(engine.pick_next_query(), None);
}

#[test]
fn explicit_link_decides_next_query() {
    // two queries; q0's only answer carries an explicit link to q1, so the
    // step after answering q0 must resolve to q1, not to an arbitrary pick.
    let mut ql = QueryList::new();
    let aid = ql.insert_answer(Answer::from_text("go on".to_string())).unwrap();
    let mut q0 = Query::from_text("q0".to_string());
    q0.add_answer(aid);
    let q0_id = ql.insert_query(q0).unwrap();
    let q1_id = ql.insert_query(Query::from_text("q1".to_string())).unwrap();
    ql.add_path(aid, q1_id);

    let mut engine = Querier::new(ql);
    assert_eq!(engine.next_candidate(), Some(q0_id));
    engine.complete_step(q0_id, aid);
    assert_eq!(engine.next_candidate(), Some(q1_id));
    let next = engine.get_next_query().unwrap();
    assert_eq!(next.display(), &"q1".to_string());
}

#[test]
fn explicit_link_reasks_a_visited_query() {
    // an explicit link deliberately overrides the ask-once default
    let mut ql = QueryList::new();
    let aid = ql.insert_answer(Answer::from_text("again".to_string())).unwrap();
    let mut q0 = Query::from_text("q0".to_string());
    q0.add_answer(aid);
    let q0_id = ql.insert_query(q0).unwrap();
    ql.insert_query(Query::from_text("q1".to_string())).unwrap();
    ql.add_path(aid, q0_id);

    let mut engine = Querier::new(ql);
    engine.complete_step(q0_id, aid);
    assert!(engine.is_visited(q0_id));
    assert_eq!(engine.next_candidate(), Some(q0_id));
}

#[test]
fn answer_without_link_falls_back_to_default_policy() {
    let mut ql = QueryList::new();
    let aid = ql.insert_answer(Answer::from_text("plain".to_string())).unwrap();
    let mut q0 = Query::from_text("q0".to_string());
    q0.add_answer(aid);
    let q0_id = ql.insert_query(q0).unwrap();
    let q1_id = ql.insert_query(Query::from_text("q1".to_string())).unwrap();

    let mut engine = Querier::new(ql);
    engine.complete_step(q0_id, aid);
    // no explicit link: the smallest unvisited id is the candidate
    assert_eq!(engine.next_candidate(), Some(q1_id));
}

#[test]
fn unresolvable_pin_falls_back_to_default_policy() {
    let mut ql = QueryList::new();
    let aid = ql.insert_answer(Answer::from_text("dangling link".to_string())).unwrap();
    let mut q0 = Query::from_text("q0".to_string());
    q0.add_answer(aid);
    let q0_id = ql.insert_query(q0).unwrap();
    let q1_id = ql.insert_query(Query::from_text("q1".to_string())).unwrap();
    // the link's target was never created
    ql.add_path(aid, 7);

    let mut engine = Querier::new(ql);
    engine.complete_step(q0_id, aid);
    assert_eq!(engine.next_candidate(), Some(q1_id));
}

#[test]
fn selection_key_maps_to_answer_in_presented_order() {
    let mut ql = QueryList::new();
    let a0 = ql.insert_answer(Answer::from_text("yes".to_string())).unwrap();
    let a1 = ql.insert_answer(Answer::from_text("no".to_string())).unwrap();
    let mut q = Query::from_text("sure?".to_string());
    q.add_answer(a0);
    q.add_answer(a1);
    let qid = ql.insert_query(q).unwrap();
    let engine = Querier::new(ql);

    let query = engine.get_query(qid).unwrap();
    assert_eq!(query.answer_for_key(1), Ok(a0));
    assert_eq!(query.answer_for_key(2), Ok(a1));
    assert_eq!(query.answer_for_key(0), Err(WeidError::SelectionError));
    assert_eq!(query.answer_for_key(3), Err(WeidError::SelectionError));
}

#[test]
fn one_step_scenario() {
    // one query "pick one" with answers "yes" (outcome: command `echo hi`)
    // and "no" (no outcomes); a step that chooses "yes" reports the single
    // outcome's captured text and leaves the query visited.
    let mut ql = QueryList::new();
    let oid = ql.insert_outcome(Outcome::new_cmd("echo hi".to_string()));
    let mut yes = Answer::from_text("yes".to_string());
    yes.add_outcome(oid);
    let yes_id = ql.insert_answer(yes).unwrap();
    let no_id = ql.insert_answer(Answer::from_text("no".to_string())).unwrap();
    let mut q0 = Query::from_text("pick one".to_string());
    q0.add_answer(yes_id);
    q0.add_answer(no_id);
    let q0_id = ql.insert_query(q0).unwrap();

    let mut engine = Querier::new(ql);
    let qid = engine.next_candidate().unwrap();
    assert_eq!(qid, q0_id);
    let query = engine.get_query(qid).unwrap();
    assert_eq!(query.display(), &"pick one".to_string());

    // the user picks key 1 ("yes")
    let chosen = query.answer_for_key(1).unwrap();
    assert_eq!(chosen, yes_id);
    let answer = engine.store().get_answer(chosen).unwrap();
    assert_eq!(answer.display(), "yes".to_string());
    let outcomes = answer.outcomes();
    assert_eq!(outcomes, vec![oid]);

    // the driver ran `echo hi` and captured its standard output
    let results = vec![Some("hi\n".to_string())];
    let report = run_outcome_sequence(&outcomes, &results).unwrap();
    assert_eq!(report, vec![(oid, "hi\n".to_string())]);

    engine.complete_step(qid, chosen);
    assert!(engine.is_visited(q0_id));
}

#[test]
fn outcome_results_keep_order_and_stop_at_failure() {
    let outcomes = vec![10, 11, 12];
    let all_ok = vec![
        Some("one".to_string()),
        Some("two".to_string()),
        Some("three".to_string()),
    ];
    assert_eq!(
        run_outcome_sequence(&outcomes, &all_ok),
        Ok(vec![
            (10, "one".to_string()),
            (11, "two".to_string()),
            (12, "three".to_string()),
        ])
    );

    // the second outcome fails: the step reports the failure and the third
    // result is irrelevant
    let second_fails = vec![Some("one".to_string()), None, Some("three".to_string())];
    assert_eq!(
        run_outcome_sequence(&outcomes, &second_fails),
        Err(WeidError::OutcomeExecutionError)
    );
}

#[test]
fn seed_kinds_reach_the_driver() {
    let mut ql = QueryList::new();
    let oid = ql.insert_outcome(Outcome::new_cmd("date".to_string()));
    let lazy = Query::from_outcome(oid);
    let qid = ql.insert_query(lazy).unwrap();
    let literal_id = ql.insert_query(Query::from_text("plain".to_string())).unwrap();
    let engine = Querier::new(ql);

    match engine.get_query(qid).unwrap().seed() {
        Seed::OutcomeRef(o) => assert_eq!(*o, oid),
        Seed::Text(_) => panic!("expected an outcome reference"),
    }
    match engine.get_query(literal_id).unwrap().seed() {
        Seed::Text(t) => assert_eq!(t, &"plain".to_string()),
        Seed::OutcomeRef(_) => panic!("expected literal text"),
    }
}
