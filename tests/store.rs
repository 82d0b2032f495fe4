use likert_survey::fingerprint::fingerprint;
use likert_survey::model::{Answer, AnswerValue, Respondent, Response, SubmitFormRequest};
use likert_survey::store::{StoreError, SurveyStore};

fn person(id: &str, hash: &str) -> Respondent {
    Respondent {
        id: id.to_string(),
        name: "N".to_string(),
        email: "n@x.co".to_string(),
        email_hash: hash.to_string(),
        created_at: 0,
    }
}

fn response(id: &str, respondent: &str, form: &str) -> Response {
    Response {
        id: id.to_string(),
        respondent_id: respondent.to_string(),
        form_id: form.to_string(),
        role: None,
        submitted_at: 0,
    }
}

fn answer(id: &str, response: &str) -> Answer {
    Answer {
        id: id.to_string(),
        response_id: response.to_string(),
        question_id: "q".to_string(),
        value: AnswerValue::Number(1),
        created_at: 0,
    }
}

#[test]
fn email_hash_matches_fingerprint() {
    let req = SubmitFormRequest {
        respondent_name: "Jane".to_string(),
        respondent_email: " Jane.Doe@X.com".to_string(),
        role: None,
        answers: vec![],
    };
    assert_eq!(req.email_hash(), fingerprint("jane.doe@x.com"));
    assert_eq!(req.email_hash(), "4f24d692f80da03c12c77a34b06f44b681bcfa43626b37556b82f152d6576d8a");
}

#[test]
fn respondent_constraints() {
    let mut s = SurveyStore::new();
    assert_eq!(s.create_respondent(person("p1", "h1")), Ok(()));
    assert_eq!(s.create_respondent(person("p2", "h1")), Err(StoreError::UniqueViolation));
    assert_eq!(s.create_respondent(person("p1", "h2")), Err(StoreError::KeyViolation));
    assert_eq!(s.create_respondent(person("p2", "h2")), Ok(()));
    assert_eq!(s.find_by_fingerprint("h2"), Some("p2".to_string()));
    assert_eq!(s.find_by_fingerprint("h3"), None);
    assert_eq!(s.find_by_id("p1").map(|r| r.email_hash), Some("h1".to_string()));
}

#[test]
fn response_and_answer_constraints() {
    let mut s = SurveyStore::new();
    assert_eq!(s.create_response(response("r1", "p1", "f1")), Ok(()));
    assert_eq!(s.create_response(response("r2", "p1", "f1")), Err(StoreError::UniqueViolation));
    assert_eq!(s.create_response(response("r1", "p1", "f2")), Err(StoreError::KeyViolation));
    assert_eq!(s.create_response(response("r2", "p1", "f2")), Ok(()));
    assert_eq!(s.count_by_respondent_and_form("p1", "f1"), 1);
    assert_eq!(s.count_by_respondent_and_form("p2", "f1"), 0);
    assert_eq!(s.create_answer(answer("a1", "r9")), Err(StoreError::MissingParent));
    assert_eq!(s.create_answer(answer("a1", "r1")), Ok(()));
    assert_eq!(s.create_answer(answer("a1", "r2")), Err(StoreError::KeyViolation));
    assert_eq!(s.list_by_response("r1").len(), 1);
    assert_eq!(s.list_by_form("f2").len(), 1);
    assert!(!s.delete_respondent("p1"));
}
