use weid::cli::_to_querylist;
use weid::outcome::Outcome;
use weid::qa::Answer;
use weid::querylist::QueryList;

fn pairs(raw: &[(&str, &str)]) -> Vec<(String, String)> {
    raw.iter().map(|(f, v)| (f.to_string(), v.to_string())).collect()
}

#[test]
fn args_to_querylist() {
    // the pairs that preprocessing produces for
    // `-a a1 --query q1 --answer=a2 -o ls -q q2`
    let args = pairs(&[("a", "a1"), ("query", "q1"), ("answer", "a2"), ("o", "ls"), ("q", "q2")]);

    let out = _to_querylist(args).unwrap();
    let queries = out.peek_queries();
    assert_eq!(queries.len(), 2);

    // q1 carries the default answer a1 and its own answer a2 (with the
    // `ls` outcome); q2 carries the default answer a1 only.
    let q1 = &queries[0];
    assert_eq!(q1.display(), &"q1".to_string());
    let q1_answers = q1.answers();
    assert_eq!(q1_answers.len(), 2);
    let a1 = out.get_answer(q1_answers[0]).unwrap();
    assert_eq!(a1.display(), "a1".to_string());
    assert!(a1.outcomes().is_empty());
    let a2 = out.get_answer(q1_answers[1]).unwrap();
    assert_eq!(a2.display(), "a2".to_string());
    let a2_outcomes = a2.outcomes();
    assert_eq!(a2_outcomes.len(), 1);
    assert_eq!(
        out.get_outcome(a2_outcomes[0]),
        Some(Outcome::Command("ls".to_string()))
    );

    let q2 = &queries[1];
    assert_eq!(q2.display(), &"q2".to_string());
    assert_eq!(q2.answers(), vec![q1_answers[0]]);
}

#[test]
fn empty_args_give_empty_store() {
    let out = _to_querylist(Vec::new()).unwrap();
    assert_eq!(out.peek_queries().len(), 0);
    assert_eq!(out.next_id(), 0);
    assert!(out.validate());
}

#[test]
fn outcome_without_answer_is_dropped() {
    let out = _to_querylist(pairs(&[("o", "ls"), ("q", "lonely")])).unwrap();
    let queries = out.peek_queries();
    assert_eq!(queries.len(), 1);
    assert!(queries[0].answers().is_empty());
    // the dropped outcome was never committed
    assert_eq!(out.get_outcome(0), None);
}

#[test]
fn trailing_answer_without_query_is_dropped() {
    let out = _to_querylist(pairs(&[("a", "orphan")])).unwrap();
    assert_eq!(out.peek_queries().len(), 0);
    assert_eq!(out.get_answer(weid::querylist::AnswerId { id: 0 }), None);
}

#[test]
fn trailing_answer_joins_open_query() {
    let out = _to_querylist(pairs(&[("q", "only", ), ("a", "tail")])).unwrap();
    let queries = out.peek_queries();
    assert_eq!(queries.len(), 1);
    let answers = queries[0].answers();
    assert_eq!(answers.len(), 1);
    assert_eq!(
        out.get_answer(answers[0]).unwrap(),
        Answer::from_text("tail".to_string())
    );
}

#[test]
fn unknown_flags_are_ignored() {
    let out = _to_querylist(pairs(&[("x", "noise"), ("q", "q1"), ("verbose", "yes")])).unwrap();
    let queries = out.peek_queries();
    assert_eq!(queries.len(), 1);
    assert_eq!(queries[0].display(), &"q1".to_string());
}

#[test]
fn built_store_always_validates() {
    let out: QueryList = _to_querylist(pairs(&[
        ("a", "d1"),
        ("a", "d2"),
        ("o", "echo x"),
        ("q", "first"),
        ("a", "extra"),
        ("o", "ls"),
        ("o", "pwd"),
        ("q", "second"),
    ]))
    .unwrap();
    assert!(out.validate());
    let queries = out.peek_queries();
    assert_eq!(queries.len(), 2);
    // both queries start with the two default answers
    assert_eq!(queries[0].answers().len(), 3);
    assert_eq!(queries[1].answers().len(), 2);
    assert_eq!(queries[0].answers()[0], queries[1].answers()[0]);
}
