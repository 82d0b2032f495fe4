use likert_survey::config::{ConfigError, FormConfig, QuestionConfig, SectionConfig};
use likert_survey::forms::{
    AdminStatsQuery, AuthQuery, ImportFormRequest, ImportQuestion, ImportSection, QuestionType,
    StatusUpdateRequest,
};

fn question(kind: &str, options: Option<Vec<String>>) -> QuestionConfig {
    QuestionConfig {
        id: "q".to_string(),
        title: "How satisfied are you?".to_string(),
        question_type: kind.to_string(),
        is_required: Some(true),
        position: 1,
        help_text: None,
        options,
    }
}

fn form(sections: Vec<SectionConfig>) -> FormConfig {
    FormConfig {
        id: "f1".to_string(),
        title: "Test Survey".to_string(),
        description: Some("A test survey".to_string()),
        status: None,
        welcome_message: None,
        closing_message: None,
        sections,
    }
}

fn section(questions: Vec<QuestionConfig>) -> SectionConfig {
    SectionConfig {
        id: "s".to_string(),
        title: "Section".to_string(),
        description: None,
        position: 1,
        questions,
    }
}

#[test]
fn form_config_accepts_known_kinds() {
    let f = form(vec![section(vec![
        question("likert", None),
        question("text", None),
        question("textarea", None),
        question("yes_no", None),
        question("multiple_choice", Some(vec!["a".to_string()])),
    ])]);
    assert!(f.validate().is_ok());
}

#[test]
fn form_config_errors() {
    let mut f = form(vec![section(vec![question("likert", None)])]);
    f.id = String::new();
    assert_eq!(f.validate(), Err(ConfigError::EmptyId));
    let mut f = form(vec![section(vec![question("likert", None)])]);
    f.title = String::new();
    assert_eq!(f.validate(), Err(ConfigError::EmptyTitle));
    assert_eq!(form(vec![]).validate(), Err(ConfigError::NoSections));
    assert_eq!(
        form(vec![section(vec![question("likert", None)]), section(vec![])]).validate(),
        Err(ConfigError::EmptySection)
    );
    assert_eq!(
        form(vec![section(vec![question("likert", None), question("slider", None)])]).validate(),
        Err(ConfigError::InvalidQuestionType)
    );
    assert_eq!(
        form(vec![section(vec![question("multiple_choice", None)])]).validate(),
        Err(ConfigError::MissingOptions)
    );
}

#[test]
fn question_type_names_round_trip() {
    let all = [
        QuestionType::Likert,
        QuestionType::Text,
        QuestionType::TextArea,
        QuestionType::Select,
        QuestionType::MultiSelect,
        QuestionType::Number,
        QuestionType::SectionHeader,
    ];
    for q in all {
        assert_eq!(QuestionType::parse(q.name()), Some(q));
    }
    assert_eq!(QuestionType::TextArea.name(), "textarea");
    assert_eq!(QuestionType::parse("section_header"), Some(QuestionType::SectionHeader));
    assert_eq!(QuestionType::parse("Likert"), None);
}

#[test]
fn status_update_values() {
    for s in ["draft", "published", "finished", "archived"] {
        assert!(StatusUpdateRequest { status: s.to_string() }.is_valid());
    }
    assert!(!StatusUpdateRequest { status: "closed".to_string() }.is_valid());
}

#[test]
fn admin_token_check() {
    assert!(AuthQuery { token: "secret".to_string() }.authorizes("secret"));
    assert!(!AuthQuery { token: "secret".to_string() }.authorizes("Secret"));
    let q = AdminStatsQuery { token: "t".to_string(), form_id: "f1".to_string() };
    assert!(q.authorizes("t"));
    assert!(!q.authorizes(""));
}

#[test]
fn import_request_converts_to_config() {
    let req = ImportFormRequest {
        id: "f9".to_string(),
        title: "Imported".to_string(),
        description: None,
        status: "draft".to_string(),
        welcome_message: None,
        closing_message: None,
        sections: vec![ImportSection {
            id: "s1".to_string(),
            title: "One".to_string(),
            description: None,
            position: 1,
            questions: vec![ImportQuestion {
                id: "q1".to_string(),
                title: "Rate".to_string(),
                question_type: "likert".to_string(),
                is_required: true,
                allow_comment: false,
                help_text: None,
                position: 1,
            }],
        }],
    };
    let config = req.to_config();
    assert_eq!(config.id, "f9");
    assert_eq!(config.status, Some("draft".to_string()));
    assert_eq!(config.sections.len(), 1);
    assert_eq!(config.sections[0].questions[0].question_type, "likert");
    assert_eq!(config.sections[0].questions[0].is_required, Some(true));
    assert!(config.validate().is_ok());
}

#[test]
fn form_config_messages_name_the_offender() {
    let mut empty = section(vec![]);
    empty.title = "S".to_string();
    assert_eq!(
        form(vec![empty]).error_message(),
        Some("Section 'S' must have at least one question".to_string())
    );
    let mut bad = question("rating", None);
    bad.title = "Q".to_string();
    assert_eq!(
        form(vec![section(vec![bad])]).error_message(),
        Some("Invalid question type: rating".to_string())
    );
    let mut mc = question("multiple_choice", None);
    mc.title = "Q".to_string();
    assert_eq!(
        form(vec![section(vec![mc])]).error_message(),
        Some("Multiple choice question 'Q' must have options".to_string())
    );
    assert_eq!(form(vec![section(vec![question("multiple_choice", Some(vec![]))])]).error_message(), None);
    assert_eq!(form(vec![]).error_message(), Some("Form must have at least one section".to_string()));
}
