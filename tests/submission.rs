use likert_survey::fingerprint::{fingerprint, normalize_email, FINGERPRINT_SALT};
use likert_survey::model::{AnswerInput, AnswerValue, SubmitFormRequest};
use likert_survey::store::{StoreError, SurveyStore};
use likert_survey::submission::{
    delete_respondent_pii, submit_form_with_privacy, AppError, SubmissionIds,
};

fn request(name: &str, email: &str, answers: Vec<AnswerInput>) -> SubmitFormRequest {
    SubmitFormRequest {
        respondent_name: name.to_string(),
        respondent_email: email.to_string(),
        role: None,
        answers,
    }
}

fn rating(question: &str, value: i64) -> AnswerInput {
    AnswerInput { question_id: question.to_string(), value: AnswerValue::Number(value) }
}

fn ids(prefix: &str, answers: usize) -> SubmissionIds {
    SubmissionIds {
        respondent_id: format!("{}-person", prefix),
        response_id: format!("{}-response", prefix),
        answer_ids: (0..answers).map(|k| format!("{}-answer-{}", prefix, k)).collect(),
    }
}

#[test]
fn fingerprint_is_salted_sha256_of_normal_form() {
    assert_eq!(FINGERPRINT_SALT, "likert-form-salt");
    assert_eq!(
        fingerprint("jane.doe@x.com"),
        "4f24d692f80da03c12c77a34b06f44b681bcfa43626b37556b82f152d6576d8a"
    );
    assert_eq!(
        fingerprint(""),
        "5fc5fec5069c2f0620ad2b6a3451a7263106c7e415fb3cb7625c159fd161c8a3"
    );
}

#[test]
fn fingerprint_ignores_case_and_surrounding_whitespace() {
    let a = fingerprint("Jane.Doe@X.com ");
    let b = fingerprint("jane.doe@x.com");
    let c = fingerprint("  JANE.DOE@X.COM\t");
    assert_eq!(a, b);
    assert_eq!(b, c);
    assert_eq!(fingerprint("Jane.Doe@X.com "), a);
    assert_eq!(a.len(), 64);
    assert!(a.chars().all(|c| c.is_ascii_digit() || ('a'..='f').contains(&c)));
    assert_ne!(fingerprint("john@x.com"), a);
}

#[test]
fn normalize_email_trims_then_lowercases() {
    assert_eq!(normalize_email("  Jane.Doe@X.com \n"), "jane.doe@x.com");
    assert_eq!(normalize_email("ÄB@c.de"), "äb@c.de");
}

#[test]
fn first_submission_creates_respondent_response_and_answers() {
    let mut store = SurveyStore::new();
    let req = request("Jane", "jane@example.com", vec![rating("q1", 4), rating("q2", 5)]);
    let r = submit_form_with_privacy(&mut store, "f1", &req, &ids("a", 2), 1_700_000_000);
    assert_eq!(r, Ok("a-response".to_string()));
    assert_eq!(store.respondents.len(), 1);
    assert_eq!(store.respondents[0].email_hash, fingerprint("jane@example.com"));
    assert_eq!(store.respondents[0].name, "Jane");
    assert_eq!(store.responses.len(), 1);
    assert_eq!(store.responses[0].respondent_id, "a-person");
    assert_eq!(store.responses[0].form_id, "f1");
    assert_eq!(store.responses[0].submitted_at, 1_700_000_000);
    assert_eq!(store.answers.len(), 2);
    assert_eq!(store.list_by_response("a-response").len(), 2);
}

#[test]
fn duplicate_submission_is_rejected_and_writes_nothing() {
    let mut store = SurveyStore::new();
    let req = request("Jane", "jane@example.com", vec![rating("q1", 4)]);
    assert!(submit_form_with_privacy(&mut store, "f1", &req, &ids("a", 1), 1).is_ok());
    let again = request("Jane", "JANE@example.com ", vec![rating("q1", 2)]);
    let r = submit_form_with_privacy(&mut store, "f1", &again, &ids("b", 1), 2);
    assert_eq!(r, Err(AppError::DuplicateSubmission));
    assert_eq!(store.respondents.len(), 1);
    assert_eq!(store.responses.len(), 1);
    assert_eq!(store.answers.len(), 1);
}

#[test]
fn same_email_on_two_forms_shares_one_respondent() {
    let mut store = SurveyStore::new();
    let req = request("Jane", "jane@example.com", vec![rating("q1", 4)]);
    let first = submit_form_with_privacy(&mut store, "f1", &req, &ids("a", 1), 1).unwrap();
    let second = submit_form_with_privacy(&mut store, "f2", &req, &ids("b", 1), 2).unwrap();
    assert_ne!(first, second);
    assert_eq!(store.respondents.len(), 1);
    assert_eq!(store.responses.len(), 2);
    assert_eq!(store.responses[0].respondent_id, store.responses[1].respondent_id);
    assert_eq!(store.count_by_respondent_and_form("a-person", "f1"), 1);
    assert_eq!(store.count_by_respondent_and_form("a-person", "f2"), 1);
}

#[test]
fn failed_answer_insertion_rolls_back_everything() {
    let mut store = SurveyStore::new();
    let other = request("Ann", "ann@example.com", vec![rating("q1", 1)]);
    let mut first_ids = ids("a", 1);
    first_ids.answer_ids = vec!["taken".to_string()];
    assert!(submit_form_with_privacy(&mut store, "f0", &other, &first_ids, 1).is_ok());
    let req = request(
        "Jane",
        "jane@example.com",
        vec![rating("q1", 1), rating("q2", 2), rating("q3", 3), rating("q4", 4), rating("q5", 5)],
    );
    let mut bad = ids("b", 5);
    bad.answer_ids[2] = "taken".to_string();
    let r = submit_form_with_privacy(&mut store, "f1", &req, &bad, 2);
    assert_eq!(r, Err(AppError::Storage(StoreError::KeyViolation)));
    assert_eq!(store.respondents.len(), 1);
    assert_eq!(store.responses.len(), 1);
    assert_eq!(store.answers.len(), 1);
    assert_eq!(store.find_by_fingerprint(&fingerprint("jane@example.com")), None);
}

#[test]
fn repeated_answer_ids_in_one_submission_roll_back() {
    let mut store = SurveyStore::new();
    let req = request("Jane", "jane@example.com", vec![rating("q1", 1), rating("q2", 2)]);
    let mut bad = ids("a", 2);
    bad.answer_ids[1] = bad.answer_ids[0].clone();
    let r = submit_form_with_privacy(&mut store, "f1", &req, &bad, 1);
    assert_eq!(r, Err(AppError::Storage(StoreError::KeyViolation)));
    assert_eq!(store.respondents.len(), 0);
    assert_eq!(store.responses.len(), 0);
    assert_eq!(store.answers.len(), 0);
}

#[test]
fn erasure_keeps_responses_and_answers() {
    let mut store = SurveyStore::new();
    let req = request("Jane", "jane@example.com", vec![rating("q1", 4)]);
    submit_form_with_privacy(&mut store, "f1", &req, &ids("a", 1), 1).unwrap();
    assert!(store.find_by_id("a-person").is_some());
    assert_eq!(delete_respondent_pii(&mut store, "a-person"), Ok(()));
    assert_eq!(store.respondents.len(), 0);
    assert!(store.find_by_id("a-person").is_none());
    assert_eq!(store.find_by_fingerprint(&fingerprint("jane@example.com")), None);
    assert_eq!(store.response_count("f1"), 1);
    assert_eq!(store.list_by_form("f1")[0].respondent_id, "a-person");
    assert_eq!(store.list_by_response("a-response").len(), 1);
    assert_eq!(delete_respondent_pii(&mut store, "a-person"), Err(AppError::NotFound));
}

#[test]
fn erased_respondent_may_submit_again_as_new_identity() {
    let mut store = SurveyStore::new();
    let req = request("Jane", "jane@example.com", vec![rating("q1", 4)]);
    submit_form_with_privacy(&mut store, "f1", &req, &ids("a", 1), 1).unwrap();
    delete_respondent_pii(&mut store, "a-person").unwrap();
    let r = submit_form_with_privacy(&mut store, "f1", &req, &ids("b", 1), 2);
    assert_eq!(r, Ok("b-response".to_string()));
    assert_eq!(store.respondents.len(), 1);
    assert_eq!(store.response_count("f1"), 2);
}

#[test]
fn ten_identical_submissions_commit_once() {
    let mut store = SurveyStore::new();
    let req = request("Jane", "jane@example.com", vec![rating("q1", 3)]);
    let mut ok = 0;
    let mut duplicates = 0;
    for k in 0..10 {
        match submit_form_with_privacy(&mut store, "f1", &req, &ids(&format!("s{}", k), 1), k) {
            Ok(_) => ok += 1,
            Err(AppError::DuplicateSubmission) => duplicates += 1,
            Err(e) => panic!("unexpected {:?}", e),
        }
    }
    assert_eq!(ok, 1);
    assert_eq!(duplicates, 9);
    assert_eq!(store.respondents.len(), 1);
    assert_eq!(store.response_count("f1"), 1);
}

#[test]
fn example_scenario_jane_doe() {
    let mut store = SurveyStore::new();
    let first = request("Jane", "Jane.Doe@X.com ", vec![rating("q1", 4)]);
    let id1 = submit_form_with_privacy(&mut store, "f1", &first, &ids("a", 1), 1).unwrap();
    let again = request("Jane", "jane.doe@x.com", vec![rating("q1", 4)]);
    assert_eq!(
        submit_form_with_privacy(&mut store, "f1", &again, &ids("b", 1), 2),
        Err(AppError::DuplicateSubmission)
    );
    let id2 = submit_form_with_privacy(&mut store, "f2", &again, &ids("c", 1), 3).unwrap();
    assert_ne!(id1, id2);
    assert_eq!(store.respondents.len(), 1);
    assert_eq!(store.responses.len(), 2);
    assert_eq!(store.responses[0].respondent_id, store.responses[1].respondent_id);
}

#[test]
fn invalid_submission_touches_no_store() {
    let mut store = SurveyStore::new();
    let req = request("Jane", "not-an-email", vec![rating("q1", 4)]);
    let r = submit_form_with_privacy(&mut store, "f1", &req, &ids("a", 1), 1);
    assert!(matches!(r, Err(AppError::Validation(_))));
    assert_eq!(store.respondents.len(), 0);
    assert_eq!(store.responses.len(), 0);
}

#[test]
fn unique_constraint_on_response_reports_duplicate() {
    let mut store = SurveyStore::new();
    let req = request("Jane", "jane@example.com", vec![rating("q1", 4)]);
    submit_form_with_privacy(&mut store, "f1", &req, &ids("a", 1), 1).unwrap();
    delete_respondent_pii(&mut store, "a-person").unwrap();
    // A new respondent that happens to get the id of the erased one meets the
    // (respondent, form) constraint of the dangling response.
    let r = submit_form_with_privacy(&mut store, "f1", &req, &ids("a", 1), 2);
    assert_eq!(r, Err(AppError::DuplicateSubmission));
    assert_eq!(store.respondents.len(), 0);
    assert_eq!(store.responses.len(), 1);
}
