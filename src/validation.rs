use vstd::prelude::*;
use vstd::string::StrSliceExecFns;
use vstd::utf8::encode_utf8;
use crate::fingerprint::{normal_email, normalize_email};
use crate::text::trim_of;
use crate::model::{AnswerInput, AnswerValue, SubmitFormRequest};
use crate::text::{
    contains_char, contains_str, count_char, first_index_of, has_char, has_substring,
};

verus! {

/// Longest accepted respondent name, in bytes.
pub const MAX_NAME_BYTES: usize = 255;

/// Longest accepted email address, in bytes.
pub const MAX_EMAIL_BYTES: usize = 254;

/// Longest accepted role, in bytes.
pub const MAX_ROLE_BYTES: usize = 100;

/// Longest accepted free-text answer, in bytes.
pub const MAX_ANSWER_BYTES: usize = 10000;

/// Why a submission was rejected before any store was touched.
#[derive(PartialEq, Eq, Structural, Clone, Copy, Debug)]
pub enum ValidationError {
    NameRequired,
    NameTooLong,
    NameInvalid,
    EmailRequired,
    EmailTooLong,
    EmailInvalid,
    EmailDomainInvalid,
    EmailInvalidChars,
    RoleTooLong,
    RoleInvalid,
    NoAnswers,
    AnswerTooLong,
    AnswerInvalidContent,
    InvalidNumber,
}

impl ValidationError {
    /// The human-readable reason shown to the client.
    pub open spec fn spec_message(self) -> Seq<char> {
        match self {
            ValidationError::NameRequired => "Name is required"@,
            ValidationError::NameTooLong => "Name is too long (max 255 characters)"@,
            ValidationError::NameInvalid => "Invalid characters in name"@,
            ValidationError::EmailRequired => "Email is required"@,
            ValidationError::EmailTooLong => "Email is too long"@,
            ValidationError::EmailInvalid => "Invalid email address"@,
            ValidationError::EmailDomainInvalid => "Invalid email domain"@,
            ValidationError::EmailInvalidChars => "Invalid characters in email"@,
            ValidationError::RoleTooLong => "Role is too long (max 100 characters)"@,
            ValidationError::RoleInvalid => "Invalid characters in role"@,
            ValidationError::NoAnswers => "No answers provided"@,
            ValidationError::AnswerTooLong => "Answer text is too long (max 10000 characters)"@,
            ValidationError::AnswerInvalidContent => "Invalid content in answer"@,
            ValidationError::InvalidNumber => "Invalid numeric value"@,
        }
    }

    /// The human-readable reason shown to the client.
    pub fn message(&self) -> (r: &'static str)
        ensures
            r@ == self.spec_message(),
    {
        match self {
            ValidationError::NameRequired => "Name is required",
            ValidationError::NameTooLong => "Name is too long (max 255 characters)",
            ValidationError::NameInvalid => "Invalid characters in name",
            ValidationError::EmailRequired => "Email is required",
            ValidationError::EmailTooLong => "Email is too long",
            ValidationError::EmailInvalid => "Invalid email address",
            ValidationError::EmailDomainInvalid => "Invalid email domain",
            ValidationError::EmailInvalidChars => "Invalid characters in email",
            ValidationError::RoleTooLong => "Role is too long (max 100 characters)",
            ValidationError::RoleInvalid => "Invalid characters in role",
            ValidationError::NoAnswers => "No answers provided",
            ValidationError::AnswerTooLong => "Answer text is too long (max 10000 characters)",
            ValidationError::AnswerInvalidContent => "Invalid content in answer",
            ValidationError::InvalidNumber => "Invalid numeric value",
        }
    }
}

/// Length of a text in bytes, as it is stored.
pub open spec fn byte_len(s: Seq<char>) -> nat {
    encode_utf8(s).len()
}

/// The first rule that a respondent name breaks, if any.
pub open spec fn name_error(name: Seq<char>) -> Option<ValidationError> {
    if trim_of(name).len() == 0 {
        Some(ValidationError::NameRequired)
    } else if byte_len(name) > MAX_NAME_BYTES {
        Some(ValidationError::NameTooLong)
    } else if has_char(name, '<') || has_char(name, '>') || has_substring(name, "script"@)
        || has_substring(name, "javascript:"@) {
        Some(ValidationError::NameInvalid)
    } else {
        None
    }
}

/// The part of a normalised email after its first `@`.
pub open spec fn email_domain(e: Seq<char>) -> Seq<char> {
    e.subrange(first_index_of(e, '@') + 1, e.len() as int)
}

/// The first rule that a normalised email breaks, if any, once it is known to be present
/// and short enough.
pub open spec fn normal_email_error(e: Seq<char>) -> Option<ValidationError> {
    if count_char(e, '@') != 1 || e[0] == '@' || e.last() == '@' {
        Some(ValidationError::EmailInvalid)
    } else if !has_char(email_domain(e), '.') || email_domain(e)[0] == '.'
        || email_domain(e).last() == '.' {
        Some(ValidationError::EmailDomainInvalid)
    } else if has_char(e, ';') || has_substring(e, "--"@) || has_substring(e, "/*"@)
        || has_substring(e, "*/"@) || has_char(e, '\\') {
        Some(ValidationError::EmailInvalidChars)
    } else {
        None
    }
}

/// The first rule that an email address breaks, if any.
pub open spec fn email_error(email: Seq<char>) -> Option<ValidationError> {
    if trim_of(email).len() == 0 {
        Some(ValidationError::EmailRequired)
    } else if byte_len(email) > MAX_EMAIL_BYTES {
        Some(ValidationError::EmailTooLong)
    } else {
        normal_email_error(normal_email(email))
    }
}

/// The first rule that an optional role breaks, if any.
pub open spec fn role_error(role: Option<String>) -> Option<ValidationError> {
    match role {
        Some(r) => if byte_len(r@) > MAX_ROLE_BYTES {
            Some(ValidationError::RoleTooLong)
        } else if has_char(r@, '<') || has_char(r@, '>') || has_substring(r@, "script"@) {
            Some(ValidationError::RoleInvalid)
        } else {
            None
        },
        None => None,
    }
}

/// Whether a text holds an obvious script-injection marker.
pub open spec fn has_script_marker(t: Seq<char>) -> bool {
    has_substring(t, "<script"@) || has_substring(t, "javascript:"@) || has_substring(
        t,
        "onerror="@,
    ) || has_substring(t, "onclick="@)
}

/// The rule that one answer value breaks, if any.
pub open spec fn answer_error(v: AnswerValue) -> Option<ValidationError> {
    match v {
        AnswerValue::Text(t) => if byte_len(t@) > MAX_ANSWER_BYTES {
            Some(ValidationError::AnswerTooLong)
        } else if has_script_marker(t@) {
            Some(ValidationError::AnswerInvalidContent)
        } else {
            None
        },
        AnswerValue::NonFinite => Some(ValidationError::InvalidNumber),
        _ => None,
    }
}

/// The rule that the first offending answer breaks, if any.
pub open spec fn answers_error(s: Seq<AnswerInput>) -> Option<ValidationError>
    decreases s.len(),
{
    if s.len() == 0 {
        None
    } else {
        match answer_error(s[0].value) {
            Some(e) => Some(e),
            None => answers_error(s.drop_first()),
        }
    }
}

/// The first rule that a submission breaks, checking name, email, role and answers in turn.
pub open spec fn submission_error(req: SubmitFormRequest) -> Option<ValidationError> {
    if name_error(req.respondent_name@) is Some {
        name_error(req.respondent_name@)
    } else if email_error(req.respondent_email@) is Some {
        email_error(req.respondent_email@)
    } else if role_error(req.role) is Some {
        role_error(req.role)
    } else if req.answers@.len() == 0 {
        Some(ValidationError::NoAnswers)
    } else {
        answers_error(req.answers@)
    }
}

/// A submission that breaks no rule.
pub open spec fn submission_valid(req: SubmitFormRequest) -> bool {
    submission_error(req) is None
}

/// The first rule that a respondent name breaks, if any.
pub fn check_name(name: &str) -> (r: Option<ValidationError>)
    ensures
        r == name_error(name@),
{
    let trimmed = crate::text::trim_text(name);
    if trimmed.as_str().is_empty() {
        return Some(ValidationError::NameRequired);
    }
    if name.as_bytes().len() > MAX_NAME_BYTES {
        return Some(ValidationError::NameTooLong);
    }
    if contains_char(name, '<') || contains_char(name, '>') || contains_str(name, "script")
        || contains_str(name, "javascript:") {
        return Some(ValidationError::NameInvalid);
    }
    None
}

fn count_at_signs(e: &str) -> (r: usize)
    ensures
        r == count_char(e@, '@'),
{
    let n = e.unicode_len();
    let mut i: usize = 0;
    let mut c: usize = 0;
    while i < n
        invariant
            n == e@.len(),
            i <= n,
            c == count_char(e@.subrange(0, i as int), '@'),
            c <= i,
        decreases n - i,
    {
        assert(e@.subrange(0, i + 1).drop_last() =~= e@.subrange(0, i as int));
        if e.get_char(i) == '@' {
            c = c + 1;
        }
        i = i + 1;
    }
    assert(e@.subrange(0, n as int) =~= e@);
    c
}

fn find_at_sign(e: &str) -> (r: usize)
    ensures
        r == first_index_of(e@, '@'),
        r <= e@.len(),
{
    let n = e.unicode_len();
    let mut i: usize = 0;
    assert(e@.subrange(0, n as int) =~= e@);
    while i < n
        invariant
            n == e@.len(),
            i <= n,
            first_index_of(e@, '@') == i + first_index_of(e@.subrange(i as int, n as int), '@'),
        decreases n - i,
    {
        if e.get_char(i) == '@' {
            return i;
        }
        assert(e@.subrange(i as int, n as int).drop_first() =~= e@.subrange(i + 1, n as int));
        i = i + 1;
    }
    i
}

proof fn lemma_first_index_below_len(s: Seq<char>, c: char)
    requires
        count_char(s, c) > 0,
    ensures
        0 <= first_index_of(s, c) < s.len(),
    decreases s.len(),
{
    if s.len() > 0 && s[0] != c {
        assert(count_char(s.drop_first(), c) > 0) by {
            lemma_count_char_first(s, c);
        }
        lemma_first_index_below_len(s.drop_first(), c);
    }
}

proof fn lemma_count_char_first(s: Seq<char>, c: char)
    requires
        s.len() > 0,
    ensures
        count_char(s, c) == count_char(s.drop_first(), c) + if s[0] == c { 1nat } else { 0nat },
    decreases s.len(),
{
    if s.len() > 1 {
        lemma_count_char_first(s.drop_last(), c);
        assert(s.drop_last().drop_first() =~= s.drop_first().drop_last());
        assert(s.drop_first().last() == s.last());
        assert(s.drop_last()[0] == s[0]);
        assert(count_char(s, c) == count_char(s.drop_last(), c) + if s.last() == c { 1nat } else { 0nat });
        assert(count_char(s.drop_first(), c) == count_char(s.drop_first().drop_last(), c) + if s.drop_first().last() == c { 1nat } else { 0nat });
    } else {
        assert(s.last() == s[0]);
        assert(count_char(s.drop_first(), c) == 0);
        assert(count_char(s.drop_last(), c) == 0);
        assert(s.drop_first().len() == 0);
        assert(s.drop_last().len() == 0);
    }
}

/// The first rule that an already normalised email breaks, if any.
pub fn check_normal_email(e: &str) -> (r: Option<ValidationError>)
    ensures
        r == normal_email_error(e@),
{
    let n = e.unicode_len();
    if count_at_signs(e) != 1 || e.get_char(0) == '@' || e.get_char(n - 1) == '@' {
        return Some(ValidationError::EmailInvalid);
    }
    let at = find_at_sign(e);
    proof {
        lemma_first_index_below_len(e@, '@');
    }
    let domain = e.substring_char(at + 1, n);
    let dn = domain.unicode_len();
    if !contains_char(domain, '.') || domain.get_char(0) == '.' || domain.get_char(dn - 1) == '.' {
        return Some(ValidationError::EmailDomainInvalid);
    }
    if contains_char(e, ';') || contains_str(e, "--") || contains_str(e, "/*") || contains_str(
        e,
        "*/",
    ) || contains_char(e, '\\') {
        return Some(ValidationError::EmailInvalidChars);
    }
    None
}

/// The first rule that an email address breaks, if any.
pub fn check_email(email: &str) -> (r: Option<ValidationError>)
    ensures
        r == email_error(email@),
{
    let trimmed = crate::text::trim_text(email);
    if trimmed.as_str().is_empty() {
        return Some(ValidationError::EmailRequired);
    }
    if email.as_bytes().len() > MAX_EMAIL_BYTES {
        return Some(ValidationError::EmailTooLong);
    }
    let e = normalize_email(email);
    check_normal_email(e.as_str())
}

/// The first rule that an optional role breaks, if any.
pub fn check_role(role: &Option<String>) -> (r: Option<ValidationError>)
    ensures
        r == role_error(*role),
{
    match role {
        Some(text) => {
            let t = text.as_str();
            if t.as_bytes().len() > MAX_ROLE_BYTES {
                return Some(ValidationError::RoleTooLong);
            }
            if contains_char(t, '<') || contains_char(t, '>') || contains_str(t, "script") {
                return Some(ValidationError::RoleInvalid);
            }
            None
        },
        None => None,
    }
}

/// The rule that one answer value breaks, if any.
pub fn check_answer(v: &AnswerValue) -> (r: Option<ValidationError>)
    ensures
        r == answer_error(*v),
{
    match v {
        AnswerValue::Text(text) => {
            let t = text.as_str();
            if t.as_bytes().len() > MAX_ANSWER_BYTES {
                return Some(ValidationError::AnswerTooLong);
            }
            if contains_str(t, "<script") || contains_str(t, "javascript:") || contains_str(
                t,
                "onerror=",
            ) || contains_str(t, "onclick=") {
                return Some(ValidationError::AnswerInvalidContent);
            }
            None
        },
        AnswerValue::NonFinite => Some(ValidationError::InvalidNumber),
        _ => None,
    }
}

/// The rule that the first offending answer breaks, if any.
pub fn check_answers(answers: &Vec<AnswerInput>) -> (r: Option<ValidationError>)
    ensures
        r == answers_error(answers@),
{
    let n = answers.len();
    let mut i: usize = 0;
    assert(answers@.subrange(0, n as int) =~= answers@);
    while i < n
        invariant
            n == answers@.len(),
            i <= n,
            answers_error(answers@) == answers_error(answers@.subrange(i as int, n as int)),
        decreases n - i,
    {
        let rest = Ghost(answers@.subrange(i as int, n as int));
        assert(rest@[0] == answers@[i as int]);
        assert(rest@.drop_first() =~= answers@.subrange(i + 1, n as int));
        let e = check_answer(&answers[i].value);
        if e.is_some() {
            return e;
        }
        i = i + 1;
    }
    assert(answers@.subrange(n as int, n as int) =~= Seq::<AnswerInput>::empty());
    None
}

impl SubmitFormRequest {
    /// Checks the submission against the rules on name, email, role and answers, in that
    /// order, and reports the first rule broken.
    pub fn validate(&self) -> (r: Result<(), ValidationError>)
        ensures
            r is Ok <==> submission_valid(*self),
            r matches Err(e) ==> submission_error(*self) == Some(e),
    {
        if let Some(e) = check_name(self.respondent_name.as_str()) {
            return Err(e);
        }
        if let Some(e) = check_email(self.respondent_email.as_str()) {
            return Err(e);
        }
        if let Some(e) = check_role(&self.role) {
            return Err(e);
        }
        if self.answers.len() == 0 {
            return Err(ValidationError::NoAnswers);
        }
        if let Some(e) = check_answers(&self.answers) {
            return Err(e);
        }
        Ok(())
    }
}

} // verus!
