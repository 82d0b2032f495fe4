use vstd::prelude::*;
use crate::config::{FormConfig, QuestionConfig, SectionConfig};
use crate::model::clone_opt_string;
use crate::text::same_text;

verus! {

/// The kinds of question a form may hold.
#[derive(PartialEq, Eq, Structural, Clone, Copy, Debug)]
pub enum QuestionType {
    Likert,
    Text,
    TextArea,
    Select,
    MultiSelect,
    Number,
    SectionHeader,
}

impl QuestionType {
    /// The name under which a kind is stored and exchanged.
    pub open spec fn spec_name(self) -> Seq<char> {
        match self {
            QuestionType::Likert => "likert"@,
            QuestionType::Text => "text"@,
            QuestionType::TextArea => "textarea"@,
            QuestionType::Select => "select"@,
            QuestionType::MultiSelect => "multiselect"@,
            QuestionType::Number => "number"@,
            QuestionType::SectionHeader => "section_header"@,
        }
    }

    /// The name under which this kind is stored and exchanged.
    pub fn name(&self) -> (r: &'static str)
        ensures
            r@ == self.spec_name(),
    {
        match self {
            QuestionType::Likert => "likert",
            QuestionType::Text => "text",
            QuestionType::TextArea => "textarea",
            QuestionType::Select => "select",
            QuestionType::MultiSelect => "multiselect",
            QuestionType::Number => "number",
            QuestionType::SectionHeader => "section_header",
        }
    }

    /// The kind with the given name, if there is one.
    pub fn parse(s: &str) -> (r: Option<QuestionType>)
        ensures
            r matches Some(q) ==> q.spec_name() == s@,
            r is None ==> forall|q: QuestionType| q.spec_name() != s@,
    {
        if same_text(s, "likert") {
            Some(QuestionType::Likert)
        } else if same_text(s, "text") {
            Some(QuestionType::Text)
        } else if same_text(s, "textarea") {
            Some(QuestionType::TextArea)
        } else if same_text(s, "select") {
            Some(QuestionType::Select)
        } else if same_text(s, "multiselect") {
            Some(QuestionType::MultiSelect)
        } else if same_text(s, "number") {
            Some(QuestionType::Number)
        } else if same_text(s, "section_header") {
            Some(QuestionType::SectionHeader)
        } else {
            assert forall|q: QuestionType| q.spec_name() != s@ by {
                match q {
                    QuestionType::Likert => {},
                    QuestionType::Text => {},
                    QuestionType::TextArea => {},
                    QuestionType::Select => {},
                    QuestionType::MultiSelect => {},
                    QuestionType::Number => {},
                    QuestionType::SectionHeader => {},
                }
            }
            None
        }
    }
}

/// A request to move a form to another status.
pub struct StatusUpdateRequest {
    pub status: String,
}

/// The statuses a form may have.
pub open spec fn known_status(s: Seq<char>) -> bool {
    s == "draft"@ || s == "published"@ || s == "finished"@ || s == "archived"@
}

impl StatusUpdateRequest {
    /// Whether the requested status is one of draft, published, finished or archived.
    pub fn is_valid(&self) -> (r: bool)
        ensures
            r == known_status(self.status@),
    {
        let s = self.status.as_str();
        same_text(s, "draft") || same_text(s, "published") || same_text(s, "finished")
            || same_text(s, "archived")
    }
}

/// The token that an administrative request carries.
pub struct AuthQuery {
    pub token: String,
}

/// The token and form of a request for a form's statistics.
pub struct AdminStatsQuery {
    pub token: String,
    pub form_id: String,
}

impl AuthQuery {
    /// Whether the request carries the administrator's token.
    pub fn authorizes(&self, admin_token: &str) -> (r: bool)
        ensures
            r == (self.token@ == admin_token@),
    {
        same_text(self.token.as_str(), admin_token)
    }
}

impl AdminStatsQuery {
    /// Whether the request carries the administrator's token.
    pub fn authorizes(&self, admin_token: &str) -> (r: bool)
        ensures
            r == (self.token@ == admin_token@),
    {
        same_text(self.token.as_str(), admin_token)
    }
}

/// A form sent for import by an administrator.
pub struct ImportFormRequest {
    pub id: String,
    pub title: String,
    pub description: Option<String>,
    pub status: String,
    pub welcome_message: Option<String>,
    pub closing_message: Option<String>,
    pub sections: Vec<ImportSection>,
}

/// One section of a form sent for import.
pub struct ImportSection {
    pub id: String,
    pub title: String,
    pub description: Option<String>,
    pub position: i32,
    pub questions: Vec<ImportQuestion>,
}

/// One question of a section sent for import.
pub struct ImportQuestion {
    pub id: String,
    pub title: String,
    pub question_type: String,
    pub is_required: bool,
    pub allow_comment: bool,
    pub help_text: Option<String>,
    pub position: i32,
}

/// Config question `c` holds what import question `q` holds; it has no options.
pub open spec fn question_converted(q: ImportQuestion, c: QuestionConfig) -> bool {
    &&& c.id@ == q.id@
    &&& c.title@ == q.title@
    &&& c.question_type@ == q.question_type@
    &&& c.is_required == Some(q.is_required)
    &&& c.position == q.position
    &&& c.help_text == q.help_text
    &&& c.options is None
}

/// Config section `c` holds what import section `s` holds, questions in the same order.
pub open spec fn section_converted(s: ImportSection, c: SectionConfig) -> bool {
    &&& c.id@ == s.id@
    &&& c.title@ == s.title@
    &&& c.description == s.description
    &&& c.position == s.position
    &&& c.questions@.len() == s.questions@.len()
    &&& forall|k: int|
        0 <= k < c.questions@.len() ==> question_converted(s.questions@[k], #[trigger] c.questions@[k])
}

impl ImportQuestion {
    /// The question as a form description holds it; an imported question has no options.
    pub fn to_config(&self) -> (r: QuestionConfig)
        ensures
            question_converted(*self, r),
    {
        QuestionConfig {
            id: self.id.clone(),
            title: self.title.clone(),
            question_type: self.question_type.clone(),
            is_required: Some(self.is_required),
            position: self.position,
            help_text: clone_opt_string(&self.help_text),
            options: None,
        }
    }
}

impl ImportSection {
    /// The section as a form description holds it, questions in the same order.
    pub fn to_config(&self) -> (r: SectionConfig)
        ensures
            section_converted(*self, r),
    {
        let n = self.questions.len();
        let mut qs: Vec<QuestionConfig> = Vec::new();
        let mut i: usize = 0;
        while i < n
            invariant
                n == self.questions@.len(),
                i <= n,
                qs@.len() == i,
                forall|k: int|
                    0 <= k < i ==> question_converted(self.questions@[k], #[trigger] qs@[k]),
            decreases n - i,
        {
            qs.push(self.questions[i].to_config());
            i = i + 1;
        }
        SectionConfig {
            id: self.id.clone(),
            title: self.title.clone(),
            description: clone_opt_string(&self.description),
            position: self.position,
            questions: qs,
        }
    }
}

impl ImportFormRequest {
    /// The form as a form description holds it, sections in the same order, so that the
    /// description's rules apply to it before import.
    pub fn to_config(&self) -> (r: FormConfig)
        ensures
            r.id@ == self.id@,
            r.title@ == self.title@,
            r.description == self.description,
            r.status matches Some(s) && s@ == self.status@,
            r.welcome_message == self.welcome_message,
            r.closing_message == self.closing_message,
            r.sections@.len() == self.sections@.len(),
            forall|k: int|
                0 <= k < r.sections@.len() ==> section_converted(self.sections@[k], #[trigger] r.sections@[k]),
    {
        let n = self.sections.len();
        let mut ss: Vec<SectionConfig> = Vec::new();
        let mut i: usize = 0;
        while i < n
            invariant
                n == self.sections@.len(),
                i <= n,
                ss@.len() == i,
                forall|k: int|
                    0 <= k < i ==> section_converted(self.sections@[k], #[trigger] ss@[k]),
            decreases n - i,
        {
            ss.push(self.sections[i].to_config());
            i = i + 1;
        }
        FormConfig {
            id: self.id.clone(),
            title: self.title.clone(),
            description: clone_opt_string(&self.description),
            status: Some(self.status.clone()),
            welcome_message: clone_opt_string(&self.welcome_message),
            closing_message: clone_opt_string(&self.closing_message),
            sections: ss,
        }
    }
}

} // verus!
