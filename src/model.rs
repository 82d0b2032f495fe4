use vstd::prelude::*;

verus! {

/// The value given for one question.
pub enum AnswerValue {
    /// A whole number, such as a rating on a scale.
    Number(i64),
    /// A number that is NaN or infinite.
    NonFinite,
    /// Free text.
    Text(String),
    /// A rating with a comment beside it.
    Rated { rating: i64, comment: String },
    /// Any other value (a flag, a fraction, a list, an empty value), as JSON text.
    Json(String),
}

/// One answer of an inbound submission.
pub struct AnswerInput {
    pub question_id: String,
    pub value: AnswerValue,
}

/// An inbound submission of a form by one respondent.
pub struct SubmitFormRequest {
    pub respondent_name: String,
    pub respondent_email: String,
    pub role: Option<String>,
    pub answers: Vec<AnswerInput>,
}

/// Identity record of a respondent: the only place that holds name and email.
pub struct Respondent {
    pub id: String,
    pub name: String,
    pub email: String,
    pub email_hash: String,
    /// Seconds since the Unix epoch.
    pub created_at: i64,
}

/// Anonymised submission envelope; it refers to its respondent by id only.
pub struct Response {
    pub id: String,
    pub respondent_id: String,
    pub form_id: String,
    pub role: Option<String>,
    /// Seconds since the Unix epoch.
    pub submitted_at: i64,
}

/// One question's value within a response.
pub struct Answer {
    pub id: String,
    pub response_id: String,
    pub question_id: String,
    pub value: AnswerValue,
    /// Seconds since the Unix epoch.
    pub created_at: i64,
}

/// A copy of an optional string, equal to it.
pub fn clone_opt_string(s: &Option<String>) -> (r: Option<String>)
    ensures
        r == *s,
{
    match s {
        Some(x) => Some(x.clone()),
        None => None,
    }
}

impl AnswerValue {
    /// A copy of the value, equal to it.
    pub fn duplicate(&self) -> (r: AnswerValue)
        ensures
            r == *self,
    {
        match self {
            AnswerValue::Number(n) => AnswerValue::Number(*n),
            AnswerValue::NonFinite => AnswerValue::NonFinite,
            AnswerValue::Text(t) => AnswerValue::Text(t.clone()),
            AnswerValue::Rated { rating, comment } => AnswerValue::Rated {
                rating: *rating,
                comment: comment.clone(),
            },
            AnswerValue::Json(j) => AnswerValue::Json(j.clone()),
        }
    }
}

impl Respondent {
    /// A copy of the record, equal to it.
    pub fn duplicate(&self) -> (r: Respondent)
        ensures
            r == *self,
    {
        Respondent {
            id: self.id.clone(),
            name: self.name.clone(),
            email: self.email.clone(),
            email_hash: self.email_hash.clone(),
            created_at: self.created_at,
        }
    }
}

impl Response {
    /// A copy of the record, equal to it.
    pub fn duplicate(&self) -> (r: Response)
        ensures
            r == *self,
    {
        Response {
            id: self.id.clone(),
            respondent_id: self.respondent_id.clone(),
            form_id: self.form_id.clone(),
            role: clone_opt_string(&self.role),
            submitted_at: self.submitted_at,
        }
    }
}

impl Answer {
    /// A copy of the record, equal to it.
    pub fn duplicate(&self) -> (r: Answer)
        ensures
            r == *self,
    {
        Answer {
            id: self.id.clone(),
            response_id: self.response_id.clone(),
            question_id: self.question_id.clone(),
            value: self.value.duplicate(),
            created_at: self.created_at,
        }
    }
}

/// What an answer value holds, as plain values.
pub enum AnswerValueView {
    Number(i64),
    NonFinite,
    Text(Seq<char>),
    Rated { rating: i64, comment: Seq<char> },
    Json(Seq<char>),
}

/// What an identity record holds, as plain values.
pub struct RespondentView {
    pub id: Seq<char>,
    pub name: Seq<char>,
    pub email: Seq<char>,
    pub email_hash: Seq<char>,
    pub created_at: i64,
}

/// What a response record holds, as plain values.
pub struct ResponseView {
    pub id: Seq<char>,
    pub respondent_id: Seq<char>,
    pub form_id: Seq<char>,
    pub role: Option<Seq<char>>,
    pub submitted_at: i64,
}

/// What an answer record holds, as plain values.
pub struct AnswerView {
    pub id: Seq<char>,
    pub response_id: Seq<char>,
    pub question_id: Seq<char>,
    pub value: AnswerValueView,
    pub created_at: i64,
}

/// The characters of an optional text.
pub open spec fn opt_view(s: Option<String>) -> Option<Seq<char>> {
    match s {
        Some(x) => Some(x@),
        None => None,
    }
}

impl View for AnswerValue {
    type V = AnswerValueView;

    open spec fn view(&self) -> AnswerValueView {
        match self {
            AnswerValue::Number(n) => AnswerValueView::Number(*n),
            AnswerValue::NonFinite => AnswerValueView::NonFinite,
            AnswerValue::Text(t) => AnswerValueView::Text(t@),
            AnswerValue::Rated { rating, comment } => AnswerValueView::Rated {
                rating: *rating,
                comment: comment@,
            },
            AnswerValue::Json(j) => AnswerValueView::Json(j@),
        }
    }
}

impl View for Respondent {
    type V = RespondentView;

    open spec fn view(&self) -> RespondentView {
        RespondentView {
            id: self.id@,
            name: self.name@,
            email: self.email@,
            email_hash: self.email_hash@,
            created_at: self.created_at,
        }
    }
}

impl View for Response {
    type V = ResponseView;

    open spec fn view(&self) -> ResponseView {
        ResponseView {
            id: self.id@,
            respondent_id: self.respondent_id@,
            form_id: self.form_id@,
            role: opt_view(self.role),
            submitted_at: self.submitted_at,
        }
    }
}

impl View for Answer {
    type V = AnswerView;

    open spec fn view(&self) -> AnswerView {
        AnswerView {
            id: self.id@,
            response_id: self.response_id@,
            question_id: self.question_id@,
            value: self.value@,
            created_at: self.created_at,
        }
    }
}

} // verus!
