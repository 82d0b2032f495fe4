use likert_survey::fingerprint::fingerprint;
use likert_survey::flow::{Action, Event, Stage, SubmissionFlow};
use likert_survey::model::{AnswerInput, AnswerValue, SubmitFormRequest};
use likert_survey::store::StoreError;
use likert_survey::submission::{AppError, SubmissionIds};
use likert_survey::validation::ValidationError;

fn request(email: &str, answers: usize) -> SubmitFormRequest {
    SubmitFormRequest {
        respondent_name: "Jane".to_string(),
        respondent_email: email.to_string(),
        role: Some("staff".to_string()),
        answers: (0..answers)
            .map(|k| AnswerInput { question_id: format!("q{}", k), value: AnswerValue::Number(3) })
            .collect(),
    }
}

fn ids(answers: usize) -> SubmissionIds {
    SubmissionIds {
        respondent_id: "person".to_string(),
        response_id: "resp".to_string(),
        answer_ids: (0..answers).map(|k| format!("a{}", k)).collect(),
    }
}

#[test]
fn invalid_request_finishes_before_any_store_action() {
    let (flow, action) = SubmissionFlow::begin(&request("no-at-sign", 1));
    assert!(matches!(flow.stage, Stage::Done));
    assert!(matches!(
        action,
        Action::Finish(Err(AppError::Validation(ValidationError::EmailInvalid)))
    ));
}

#[test]
fn new_respondent_path_writes_everything_then_commits() {
    let req = request("Jane@X.com", 2);
    let ids = ids(2);
    let (mut flow, action) = SubmissionFlow::begin(&req);
    match action {
        Action::LookUp(fp) => assert_eq!(fp, fingerprint("jane@x.com")),
        _ => panic!("expected a lookup"),
    }
    let a = flow.advance("f1", &req, &ids, 7, Event::Found(None));
    match a {
        Action::InsertRespondent(r) => {
            assert_eq!(r.id, "person");
            assert_eq!(r.email, "Jane@X.com");
            assert_eq!(r.email_hash, fingerprint("jane@x.com"));
            assert_eq!(r.created_at, 7);
        }
        _ => panic!("expected a respondent insert"),
    }
    let a = flow.advance("f1", &req, &ids, 7, Event::Written(Ok(())));
    match a {
        Action::InsertResponse(r) => {
            assert_eq!(r.id, "resp");
            assert_eq!(r.respondent_id, "person");
            assert_eq!(r.form_id, "f1");
            assert_eq!(r.role, Some("staff".to_string()));
        }
        _ => panic!("expected a response insert"),
    }
    let a = flow.advance("f1", &req, &ids, 7, Event::Written(Ok(())));
    match a {
        Action::InsertAnswer(x) => {
            assert_eq!(x.id, "a0");
            assert_eq!(x.question_id, "q0");
            assert_eq!(x.response_id, "resp");
        }
        _ => panic!("expected the first answer"),
    }
    let a = flow.advance("f1", &req, &ids, 7, Event::Written(Ok(())));
    assert!(matches!(a, Action::InsertAnswer(ref x) if x.id == "a1"));
    let a = flow.advance("f1", &req, &ids, 7, Event::Written(Ok(())));
    assert!(matches!(a, Action::Commit));
    let a = flow.advance("f1", &req, &ids, 7, Event::Committed(Ok(())));
    assert!(matches!(a, Action::Finish(Ok(ref id)) if id == "resp"));
    assert!(matches!(flow.stage, Stage::Done));
}

#[test]
fn existing_respondent_with_answer_is_duplicate() {
    let req = request("jane@x.com", 1);
    let ids = ids(1);
    let (mut flow, _) = SubmissionFlow::begin(&req);
    let a = flow.advance("f1", &req, &ids, 1, Event::Found(Some("old".to_string())));
    assert!(matches!(a, Action::Count(ref c) if c == "old"));
    let a = flow.advance("f1", &req, &ids, 1, Event::Counted(1));
    assert!(matches!(a, Action::Finish(Err(AppError::DuplicateSubmission))));
}

#[test]
fn existing_respondent_on_new_form_reuses_identity() {
    let req = request("jane@x.com", 1);
    let ids = ids(1);
    let (mut flow, _) = SubmissionFlow::begin(&req);
    flow.advance("f2", &req, &ids, 1, Event::Found(Some("old".to_string())));
    let a = flow.advance("f2", &req, &ids, 1, Event::Counted(0));
    assert!(matches!(a, Action::InsertResponse(ref r) if r.respondent_id == "old" && r.form_id == "f2"));
}

#[test]
fn conflicts_become_duplicates_and_other_failures_storage_errors() {
    let req = request("jane@x.com", 1);
    let ids = ids(1);
    let (mut flow, _) = SubmissionFlow::begin(&req);
    flow.advance("f1", &req, &ids, 1, Event::Found(None));
    let a = flow.advance("f1", &req, &ids, 1, Event::Written(Err(StoreError::UniqueViolation)));
    assert!(matches!(a, Action::Finish(Err(AppError::DuplicateSubmission))));

    let (mut flow, _) = SubmissionFlow::begin(&req);
    flow.advance("f1", &req, &ids, 1, Event::Found(None));
    flow.advance("f1", &req, &ids, 1, Event::Written(Ok(())));
    flow.advance("f1", &req, &ids, 1, Event::Written(Ok(())));
    flow.advance("f1", &req, &ids, 1, Event::Written(Ok(())));
    let a = flow.advance("f1", &req, &ids, 1, Event::Committed(Err(StoreError::UniqueViolation)));
    assert!(matches!(a, Action::Finish(Err(AppError::DuplicateSubmission))));

    let (mut flow, _) = SubmissionFlow::begin(&req);
    let a = flow.advance("f1", &req, &ids, 1, Event::Failed(StoreError::Unavailable));
    assert!(matches!(a, Action::Finish(Err(AppError::Storage(StoreError::Unavailable)))));
}
