use vstd::prelude::*;
use crate::text::same_text;
use vstd::string::StringExecFns;

verus! {

/// A form described as data, for import.
pub struct FormConfig {
    pub id: String,
    pub title: String,
    pub description: Option<String>,
    pub status: Option<String>,
    pub welcome_message: Option<String>,
    pub closing_message: Option<String>,
    pub sections: Vec<SectionConfig>,
}

/// One section of an imported form.
pub struct SectionConfig {
    pub id: String,
    pub title: String,
    pub description: Option<String>,
    pub position: i32,
    pub questions: Vec<QuestionConfig>,
}

/// One question of an imported section.
pub struct QuestionConfig {
    pub id: String,
    pub title: String,
    pub question_type: String,
    pub is_required: Option<bool>,
    pub position: i32,
    pub help_text: Option<String>,
    pub options: Option<Vec<String>>,
}

/// Why a form description cannot be imported.
#[derive(PartialEq, Eq, Structural, Clone, Copy, Debug)]
pub enum ConfigError {
    EmptyId,
    EmptyTitle,
    NoSections,
    EmptySection,
    InvalidQuestionType,
    MissingOptions,
}

/// The question kinds that an imported form may use.
pub open spec fn importable_question_type(t: Seq<char>) -> bool {
    t == "likert"@ || t == "text"@ || t == "textarea"@ || t == "yes_no"@ || t
        == "multiple_choice"@
}

/// The rule that one question breaks, if any.
pub open spec fn question_config_error(q: QuestionConfig) -> Option<ConfigError> {
    if !importable_question_type(q.question_type@) {
        Some(ConfigError::InvalidQuestionType)
    } else if q.question_type@ == "multiple_choice"@ && q.options is None {
        Some(ConfigError::MissingOptions)
    } else {
        None
    }
}

/// The rule that the first offending question breaks, if any.
pub open spec fn questions_config_error(qs: Seq<QuestionConfig>) -> Option<ConfigError>
    decreases qs.len(),
{
    if qs.len() == 0 {
        None
    } else {
        match question_config_error(qs[0]) {
            Some(e) => Some(e),
            None => questions_config_error(qs.drop_first()),
        }
    }
}

/// The rule that one section breaks, if any.
pub open spec fn section_config_error(s: SectionConfig) -> Option<ConfigError> {
    if s.questions@.len() == 0 {
        Some(ConfigError::EmptySection)
    } else {
        questions_config_error(s.questions@)
    }
}

/// The rule that the first offending section breaks, if any.
pub open spec fn sections_config_error(ss: Seq<SectionConfig>) -> Option<ConfigError>
    decreases ss.len(),
{
    if ss.len() == 0 {
        None
    } else {
        match section_config_error(ss[0]) {
            Some(e) => Some(e),
            None => sections_config_error(ss.drop_first()),
        }
    }
}

/// The first rule that a form description breaks, if any.
pub open spec fn form_config_error(c: FormConfig) -> Option<ConfigError> {
    if c.id@.len() == 0 {
        Some(ConfigError::EmptyId)
    } else if c.title@.len() == 0 {
        Some(ConfigError::EmptyTitle)
    } else if c.sections@.len() == 0 {
        Some(ConfigError::NoSections)
    } else {
        sections_config_error(c.sections@)
    }
}

fn check_question(q: &QuestionConfig) -> (r: Option<ConfigError>)
    ensures
        r == question_config_error(*q),
{
    let t = q.question_type.as_str();
    let multiple = same_text(t, "multiple_choice");
    if !(same_text(t, "likert") || same_text(t, "text") || same_text(t, "textarea") || same_text(
        t,
        "yes_no",
    ) || multiple) {
        return Some(ConfigError::InvalidQuestionType);
    }
    if multiple && q.options.is_none() {
        return Some(ConfigError::MissingOptions);
    }
    None
}

fn check_section(s: &SectionConfig) -> (r: Option<ConfigError>)
    ensures
        r == section_config_error(*s),
{
    let n = s.questions.len();
    if n == 0 {
        return Some(ConfigError::EmptySection);
    }
    let mut i: usize = 0;
    assert(s.questions@.subrange(0, n as int) =~= s.questions@);
    while i < n
        invariant
            n == s.questions@.len(),
            i <= n,
            questions_config_error(s.questions@) == questions_config_error(
                s.questions@.subrange(i as int, n as int),
            ),
        decreases n - i,
    {
        assert(s.questions@.subrange(i as int, n as int)[0] == s.questions@[i as int]);
        assert(s.questions@.subrange(i as int, n as int).drop_first() =~= s.questions@.subrange(
            i + 1,
            n as int,
        ));
        let e = check_question(&s.questions[i]);
        if e.is_some() {
            return e;
        }
        i = i + 1;
    }
    None
}

impl FormConfig {
    /// Checks a form description before import: id, title and at least one section are
    /// required; every section needs a question; every question a known kind, and a
    /// multiple-choice question its options. Reports the first rule broken.
    pub fn validate(&self) -> (r: Result<(), ConfigError>)
        ensures
            match form_config_error(*self) {
                Some(e) => r == Err::<(), ConfigError>(e),
                None => r is Ok,
            },
    {
        if self.id.as_str().is_empty() {
            return Err(ConfigError::EmptyId);
        }
        if self.title.as_str().is_empty() {
            return Err(ConfigError::EmptyTitle);
        }
        let n = self.sections.len();
        if n == 0 {
            return Err(ConfigError::NoSections);
        }
        let mut i: usize = 0;
        assert(self.sections@.subrange(0, n as int) =~= self.sections@);
        while i < n
            invariant
                n == self.sections@.len(),
                n > 0,
                self.id@.len() > 0,
                self.title@.len() > 0,
                i <= n,
                sections_config_error(self.sections@) == sections_config_error(
                    self.sections@.subrange(i as int, n as int),
                ),
            decreases n - i,
        {
            assert(self.sections@.subrange(i as int, n as int)[0] == self.sections@[i as int]);
            assert(self.sections@.subrange(i as int, n as int).drop_first()
                =~= self.sections@.subrange(i + 1, n as int));
            if let Some(e) = check_section(&self.sections[i]) {
                return Err(e);
            }
            i = i + 1;
        }
        Ok(())
    }
}

/// The message that tells what is wrong with one question, if anything.
pub open spec fn question_config_message(q: QuestionConfig) -> Option<Seq<char>> {
    match question_config_error(q) {
        Some(ConfigError::InvalidQuestionType) => Some("Invalid question type: "@ + q.question_type@),
        Some(_) => Some("Multiple choice question '"@ + q.title@ + "' must have options"@),
        None => None,
    }
}

/// The message of the first offending question, if any.
pub open spec fn questions_config_message(qs: Seq<QuestionConfig>) -> Option<Seq<char>>
    decreases qs.len(),
{
    if qs.len() == 0 {
        None
    } else {
        match question_config_message(qs[0]) {
            Some(m) => Some(m),
            None => questions_config_message(qs.drop_first()),
        }
    }
}

/// The message that tells what is wrong with one section, if anything.
pub open spec fn section_config_message(s: SectionConfig) -> Option<Seq<char>> {
    if s.questions@.len() == 0 {
        Some("Section '"@ + s.title@ + "' must have at least one question"@)
    } else {
        questions_config_message(s.questions@)
    }
}

/// The message of the first offending section, if any.
pub open spec fn sections_config_message(ss: Seq<SectionConfig>) -> Option<Seq<char>>
    decreases ss.len(),
{
    if ss.len() == 0 {
        None
    } else {
        match section_config_message(ss[0]) {
            Some(m) => Some(m),
            None => sections_config_message(ss.drop_first()),
        }
    }
}

/// The message that tells what is wrong with a form description, if anything.
pub open spec fn form_config_message(c: FormConfig) -> Option<Seq<char>> {
    if c.id@.len() == 0 {
        Some("Form ID cannot be empty"@)
    } else if c.title@.len() == 0 {
        Some("Form title cannot be empty"@)
    } else if c.sections@.len() == 0 {
        Some("Form must have at least one section"@)
    } else {
        sections_config_message(c.sections@)
    }
}

fn question_message(q: &QuestionConfig) -> (r: Option<String>)
    ensures
        opt_text(r) == question_config_message(*q),
{
    match check_question(q) {
        Some(ConfigError::InvalidQuestionType) => {
            let mut m = String::from_str("Invalid question type: ");
            m.append(q.question_type.as_str());
            Some(m)
        },
        Some(_) => {
            let mut m = String::from_str("Multiple choice question '");
            m.append(q.title.as_str());
            m.append("' must have options");
            Some(m)
        },
        None => None,
    }
}

fn section_message(s: &SectionConfig) -> (r: Option<String>)
    ensures
        opt_text(r) == section_config_message(*s),
{
    let n = s.questions.len();
    if n == 0 {
        let mut m = String::from_str("Section '");
        m.append(s.title.as_str());
        m.append("' must have at least one question");
        return Some(m);
    }
    let mut i: usize = 0;
    assert(s.questions@.subrange(0, n as int) =~= s.questions@);
    while i < n
        invariant
            n == s.questions@.len(),
            i <= n,
            questions_config_message(s.questions@) == questions_config_message(
                s.questions@.subrange(i as int, n as int),
            ),
        decreases n - i,
    {
        assert(s.questions@.subrange(i as int, n as int)[0] == s.questions@[i as int]);
        assert(s.questions@.subrange(i as int, n as int).drop_first() =~= s.questions@.subrange(
            i + 1,
            n as int,
        ));
        let m = question_message(&s.questions[i]);
        if m.is_some() {
            return m;
        }
        i = i + 1;
    }
    None
}

/// The characters of an optional message.
pub open spec fn opt_text(m: Option<String>) -> Option<Seq<char>> {
    match m {
        Some(x) => Some(x@),
        None => None,
    }
}

impl FormConfig {
    /// The human-readable reason why the description cannot be imported, naming the
    /// offending section, question or question kind; `None` when it can be.
    pub fn error_message(&self) -> (r: Option<String>)
        ensures
            opt_text(r) == form_config_message(*self),
    {
        if self.id.as_str().is_empty() {
            return Some(String::from_str("Form ID cannot be empty"));
        }
        if self.title.as_str().is_empty() {
            return Some(String::from_str("Form title cannot be empty"));
        }
        let n = self.sections.len();
        if n == 0 {
            return Some(String::from_str("Form must have at least one section"));
        }
        let mut i: usize = 0;
        assert(self.sections@.subrange(0, n as int) =~= self.sections@);
        while i < n
            invariant
                n == self.sections@.len(),
                n > 0,
                self.id@.len() > 0,
                self.title@.len() > 0,
                i <= n,
                sections_config_message(self.sections@) == sections_config_message(
                    self.sections@.subrange(i as int, n as int),
                ),
            decreases n - i,
        {
            assert(self.sections@.subrange(i as int, n as int)[0] == self.sections@[i as int]);
            assert(self.sections@.subrange(i as int, n as int).drop_first()
                =~= self.sections@.subrange(i + 1, n as int));
            let m = section_message(&self.sections[i]);
            if m.is_some() {
                return m;
            }
            i = i + 1;
        }
        None
    }
}

} // verus!
