use likert_survey::model::{AnswerInput, AnswerValue, SubmitFormRequest};
use likert_survey::stats::{responses_with_pii, role_distribution};
use likert_survey::store::SurveyStore;
use likert_survey::submission::{delete_respondent_pii, submit_form_with_privacy, SubmissionIds};

fn submit(store: &mut SurveyStore, tag: &str, email: &str, role: Option<&str>, form: &str) {
    let req = SubmitFormRequest {
        respondent_name: format!("Name {}", tag),
        respondent_email: email.to_string(),
        role: role.map(|r| r.to_string()),
        answers: vec![AnswerInput {
            question_id: "q1".to_string(),
            value: AnswerValue::Text(format!("answer {}", tag)),
        }],
    };
    let ids = SubmissionIds {
        respondent_id: format!("p-{}", tag),
        response_id: format!("r-{}", tag),
        answer_ids: vec![format!("a-{}", tag)],
    };
    submit_form_with_privacy(store, form, &req, &ids, 10).unwrap();
}

#[test]
fn role_distribution_counts_each_role_once() {
    let mut store = SurveyStore::new();
    submit(&mut store, "1", "one@x.co", Some("teacher"), "f1");
    submit(&mut store, "2", "two@x.co", Some("student"), "f1");
    submit(&mut store, "3", "three@x.co", Some("teacher"), "f1");
    submit(&mut store, "4", "four@x.co", None, "f1");
    submit(&mut store, "5", "five@x.co", Some("teacher"), "f2");
    let d = role_distribution(&store, "f1");
    assert_eq!(d.len(), 3);
    assert_eq!(d[0].role, Some("teacher".to_string()));
    assert_eq!(d[0].count, 2);
    assert_eq!(d[1].role, Some("student".to_string()));
    assert_eq!(d[1].count, 1);
    assert_eq!(d[2].role, None);
    assert_eq!(d[2].count, 1);
    assert!(role_distribution(&store, "f3").is_empty());
}

#[test]
fn pii_view_hides_erased_identity() {
    let mut store = SurveyStore::new();
    submit(&mut store, "1", "one@x.co", None, "f1");
    submit(&mut store, "2", "two@x.co", None, "f1");
    delete_respondent_pii(&mut store, "p-1").unwrap();
    let v = responses_with_pii(&store, "f1");
    assert_eq!(v.len(), 2);
    assert_eq!(v[0].id, "r-1");
    assert_eq!(v[0].respondent_name, None);
    assert_eq!(v[0].respondent_email, None);
    assert_eq!(v[0].answers.len(), 1);
    assert_eq!(v[1].respondent_name, Some("Name 2".to_string()));
    assert_eq!(v[1].respondent_email, Some("two@x.co".to_string()));
    assert_eq!(role_distribution(&store, "f1")[0].count, 2);
}

#[test]
fn rating_distribution_is_ascending_with_counts() {
    let d = likert_survey::stats::rating_distribution(&vec![4, 2, 4, 5, 2, 4]).unwrap();
    let pairs: Vec<(i32, i64)> = d.iter().map(|r| (r.rating, r.count)).collect();
    assert_eq!(pairs, vec![(2, 2), (4, 3), (5, 1)]);
    assert!(likert_survey::stats::rating_distribution(&vec![]).unwrap().is_empty());
    assert!(likert_survey::stats::rating_distribution(&vec![1, 1i64 << 40]).is_none());
}

#[test]
fn question_ratings_follow_form_and_question() {
    let mut store = SurveyStore::new();
    let mk = |tag: &str, email: &str, values: Vec<(&str, AnswerValue)>| {
        let answers: Vec<AnswerInput> = values
            .into_iter()
            .map(|(q, v)| AnswerInput { question_id: q.to_string(), value: v })
            .collect();
        let n = answers.len();
        (
            SubmitFormRequest {
                respondent_name: "N".to_string(),
                respondent_email: email.to_string(),
                role: None,
                answers,
            },
            SubmissionIds {
                respondent_id: format!("p-{}", tag),
                response_id: format!("r-{}", tag),
                answer_ids: (0..n).map(|k| format!("a-{}-{}", tag, k)).collect(),
            },
        )
    };
    let (r1, i1) = mk(
        "1",
        "one@x.co",
        vec![
            ("q1", AnswerValue::Number(5)),
            ("q2", AnswerValue::Text("hi".to_string())),
        ],
    );
    submit_form_with_privacy(&mut store, "f1", &r1, &i1, 1).unwrap();
    let (r2, i2) = mk(
        "2",
        "two@x.co",
        vec![("q1", AnswerValue::Rated { rating: 3, comment: "ok".to_string() })],
    );
    submit_form_with_privacy(&mut store, "f1", &r2, &i2, 1).unwrap();
    let (r3, i3) = mk("3", "three@x.co", vec![("q1", AnswerValue::Number(1))]);
    submit_form_with_privacy(&mut store, "f2", &r3, &i3, 1).unwrap();
    assert_eq!(likert_survey::stats::question_ratings(&store, "f1", "q1"), vec![5, 3]);
    assert!(likert_survey::stats::question_ratings(&store, "f1", "q2").is_empty());
    assert_eq!(likert_survey::stats::question_ratings(&store, "f2", "q1"), vec![1]);
}

#[test]
fn role_distribution_puts_largest_count_first() {
    let mut store = SurveyStore::new();
    submit(&mut store, "1", "one@x.co", None, "f1");
    submit(&mut store, "2", "two@x.co", Some("A"), "f1");
    submit(&mut store, "3", "three@x.co", Some("A"), "f1");
    submit(&mut store, "4", "four@x.co", Some("B"), "f1");
    let d = role_distribution(&store, "f1");
    let pairs: Vec<(Option<String>, i64)> = d.into_iter().map(|r| (r.role, r.count)).collect();
    assert_eq!(
        pairs,
        vec![(Some("A".to_string()), 2), (None, 1), (Some("B".to_string()), 1)]
    );
}

#[test]
fn pii_view_lists_newest_first() {
    let mut store = SurveyStore::new();
    for (tag, email, at) in [("1", "one@x.co", 5), ("2", "two@x.co", 9), ("3", "three@x.co", 5)] {
        let req = SubmitFormRequest {
            respondent_name: format!("Name {}", tag),
            respondent_email: email.to_string(),
            role: None,
            answers: vec![AnswerInput { question_id: "q1".to_string(), value: AnswerValue::Number(1) }],
        };
        let ids = SubmissionIds {
            respondent_id: format!("p-{}", tag),
            response_id: format!("r-{}", tag),
            answer_ids: vec![format!("a-{}", tag)],
        };
        submit_form_with_privacy(&mut store, "f1", &req, &ids, at).unwrap();
    }
    let order: Vec<String> = responses_with_pii(&store, "f1").into_iter().map(|r| r.id).collect();
    assert_eq!(order, vec!["r-2", "r-1", "r-3"]);
}

#[test]
fn question_stats_per_question() {
    let mut store = SurveyStore::new();
    for (tag, email, v) in [("1", "one@x.co", 4), ("2", "two@x.co", 2), ("3", "three@x.co", 4)] {
        let req = SubmitFormRequest {
            respondent_name: "N".to_string(),
            respondent_email: email.to_string(),
            role: None,
            answers: vec![
                AnswerInput { question_id: "q1".to_string(), value: AnswerValue::Number(v) },
                AnswerInput { question_id: "q2".to_string(), value: AnswerValue::Text("x".to_string()) },
            ],
        };
        let ids = SubmissionIds {
            respondent_id: format!("p-{}", tag),
            response_id: format!("r-{}", tag),
            answer_ids: vec![format!("a-{}", tag), format!("b-{}", tag)],
        };
        submit_form_with_privacy(&mut store, "f1", &req, &ids, 1).unwrap();
    }
    let ids = vec!["q1".to_string(), "q2".to_string(), "q9".to_string()];
    let stats = likert_survey::stats::question_stats(&store, "f1", &ids).unwrap();
    assert_eq!(stats.len(), 3);
    assert_eq!(stats[0].question_id, "q1");
    assert_eq!(stats[0].response_count, 3);
    let dist: Vec<(i32, i64)> = stats[0].rating_distribution.iter().map(|r| (r.rating, r.count)).collect();
    assert_eq!(dist, vec![(2, 1), (4, 2)]);
    assert_eq!(stats[1].response_count, 3);
    assert!(stats[1].rating_distribution.is_empty());
    assert_eq!(stats[2].response_count, 0);
    assert_eq!(likert_survey::stats::answered_responses(&store, "f1", "q1"), 3);
}
