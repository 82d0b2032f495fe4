use likert_survey::validation::{check_name, check_normal_email};
use likert_survey::model::{AnswerInput, AnswerValue, SubmitFormRequest};
use likert_survey::submission::AppError;
use likert_survey::validation::ValidationError;

fn answer(value: AnswerValue) -> AnswerInput {
    AnswerInput { question_id: "q1".to_string(), value }
}

fn req(name: &str, email: &str, role: Option<&str>, answers: Vec<AnswerInput>) -> SubmitFormRequest {
    SubmitFormRequest {
        respondent_name: name.to_string(),
        respondent_email: email.to_string(),
        role: role.map(|r| r.to_string()),
        answers,
    }
}

fn check(name: &str, email: &str, role: Option<&str>, value: AnswerValue) -> Result<(), ValidationError> {
    req(name, email, role, vec![answer(value)]).validate()
}

#[test]
fn valid_submission_passes() {
    assert_eq!(check("Jane", "jane@example.com", Some("teacher"), AnswerValue::Number(4)), Ok(()));
    assert_eq!(
        check(
            "Jane",
            " Jane.Doe@X.com ",
            None,
            AnswerValue::Rated { rating: 3, comment: "fine".to_string() }
        ),
        Ok(())
    );
    assert_eq!(check("Jane", "a@b.co", None, AnswerValue::Json("true".to_string())), Ok(()));
}

#[test]
fn name_rules() {
    let n = AnswerValue::Number(1);
    assert_eq!(check("   ", "a@b.co", None, n.clone_value()), Err(ValidationError::NameRequired));
    assert_eq!(check(&"x".repeat(256), "a@b.co", None, n.clone_value()), Err(ValidationError::NameTooLong));
    assert_eq!(check(&"x".repeat(255), "a@b.co", None, n.clone_value()), Ok(()));
    assert_eq!(check("<b>", "a@b.co", None, n.clone_value()), Err(ValidationError::NameInvalid));
    assert_eq!(check("myscript", "a@b.co", None, n.clone_value()), Err(ValidationError::NameInvalid));
    assert_eq!(check("x javascript:y", "a@b.co", None, n), Err(ValidationError::NameInvalid));
}

trait CloneValue {
    fn clone_value(&self) -> AnswerValue;
}

impl CloneValue for AnswerValue {
    fn clone_value(&self) -> AnswerValue {
        self.duplicate()
    }
}

#[test]
fn email_rules() {
    let n = || AnswerValue::Number(1);
    assert_eq!(check("Jane", "  ", None, n()), Err(ValidationError::EmailRequired));
    let long = format!("{}@b.co", "a".repeat(250));
    assert_eq!(check("Jane", &long, None, n()), Err(ValidationError::EmailTooLong));
    assert_eq!(check("Jane", "plain", None, n()), Err(ValidationError::EmailInvalid));
    assert_eq!(check("Jane", "@b.co", None, n()), Err(ValidationError::EmailInvalid));
    assert_eq!(check("Jane", "a@", None, n()), Err(ValidationError::EmailInvalid));
    assert_eq!(check("Jane", "a@b@c.co", None, n()), Err(ValidationError::EmailInvalid));
    assert_eq!(check("Jane", "a@bco", None, n()), Err(ValidationError::EmailDomainInvalid));
    assert_eq!(check("Jane", "a@.bco", None, n()), Err(ValidationError::EmailDomainInvalid));
    assert_eq!(check("Jane", "a@bco.", None, n()), Err(ValidationError::EmailDomainInvalid));
    assert_eq!(check("Jane", "a;b@c.co", None, n()), Err(ValidationError::EmailInvalidChars));
    assert_eq!(check("Jane", "a--b@c.co", None, n()), Err(ValidationError::EmailInvalidChars));
    assert_eq!(check("Jane", "a/*b@c.co", None, n()), Err(ValidationError::EmailInvalidChars));
    assert_eq!(check("Jane", "a*/b@c.co", None, n()), Err(ValidationError::EmailInvalidChars));
    assert_eq!(check("Jane", "a\\b@c.co", None, n()), Err(ValidationError::EmailInvalidChars));
}

#[test]
fn role_rules() {
    let n = || AnswerValue::Number(1);
    assert_eq!(check("Jane", "a@b.co", Some(&"r".repeat(101)), n()), Err(ValidationError::RoleTooLong));
    assert_eq!(check("Jane", "a@b.co", Some(&"r".repeat(100)), n()), Ok(()));
    assert_eq!(check("Jane", "a@b.co", Some("<i>"), n()), Err(ValidationError::RoleInvalid));
    assert_eq!(check("Jane", "a@b.co", Some("script"), n()), Err(ValidationError::RoleInvalid));
}

#[test]
fn answer_rules() {
    assert_eq!(req("Jane", "a@b.co", None, vec![]).validate(), Err(ValidationError::NoAnswers));
    let text = |t: &str| AnswerValue::Text(t.to_string());
    assert_eq!(check("Jane", "a@b.co", None, text(&"t".repeat(10001))), Err(ValidationError::AnswerTooLong));
    assert_eq!(check("Jane", "a@b.co", None, text(&"t".repeat(10000))), Ok(()));
    assert_eq!(check("Jane", "a@b.co", None, text("x<script>")), Err(ValidationError::AnswerInvalidContent));
    assert_eq!(check("Jane", "a@b.co", None, text("javascript:go")), Err(ValidationError::AnswerInvalidContent));
    assert_eq!(check("Jane", "a@b.co", None, text("<img onerror=x>")), Err(ValidationError::AnswerInvalidContent));
    assert_eq!(check("Jane", "a@b.co", None, text("onclick=y")), Err(ValidationError::AnswerInvalidContent));
    assert_eq!(check("Jane", "a@b.co", None, AnswerValue::NonFinite), Err(ValidationError::InvalidNumber));
    let later = req(
        "Jane",
        "a@b.co",
        None,
        vec![answer(AnswerValue::Number(2)), answer(AnswerValue::NonFinite)],
    );
    assert_eq!(later.validate(), Err(ValidationError::InvalidNumber));
}

#[test]
fn rules_are_checked_in_order() {
    assert_eq!(
        req("<x>", "bad", Some("<"), vec![]).validate(),
        Err(ValidationError::NameInvalid)
    );
    assert_eq!(req("Jane", "bad", Some("<"), vec![]).validate(), Err(ValidationError::EmailInvalid));
    assert_eq!(req("Jane", "a@b.co", Some("<"), vec![]).validate(), Err(ValidationError::RoleInvalid));
}

#[test]
fn error_status_and_messages() {
    assert_eq!(AppError::Validation(ValidationError::NoAnswers).status_code(), 400);
    assert_eq!(AppError::DuplicateSubmission.status_code(), 400);
    assert_eq!(AppError::NotFound.status_code(), 404);
    assert_eq!(
        AppError::Storage(likert_survey::store::StoreError::KeyViolation).status_code(),
        500
    );
    assert_eq!(
        AppError::DuplicateSubmission.message(),
        "You have already submitted a response for this form"
    );
    assert_eq!(AppError::Validation(ValidationError::NoAnswers).message(), "No answers provided");
    assert_eq!(ValidationError::EmailDomainInvalid.message(), "Invalid email domain");
}

#[test]
fn normalised_email_steps_are_reachable() {
    assert_eq!(check_normal_email("a@b.co"), None);
    assert_eq!(check_normal_email("a@b"), Some(ValidationError::EmailDomainInvalid));
    assert_eq!(check_normal_email("a@@b.co"), Some(ValidationError::EmailInvalid));
    assert_eq!(check_name("Jane"), None);
    assert_eq!(check_name(" "), Some(ValidationError::NameRequired));
}

#[test]
fn trim_text_matches_std_trim() {
    use_trim(" \t Jane \n");
    use_trim("\u{3000}\u{a0}x y\u{2028}");
    use_trim("   ");
    use_trim("");
    use_trim("no-space");
}

fn use_trim(s: &str) {
    assert_eq!(likert_survey::text::trim_text(s), s.trim());
}
