use vstd::prelude::*;
use crate::fingerprint::fingerprint_of;
use crate::model::{opt_view, AnswerView, RespondentView, ResponseView, SubmitFormRequest};
use crate::store::{
    count_for, find_fingerprint, insert_answers, insert_respondent,
    insert_response, StoreError, SurveyStore, Tables,
};
use crate::validation::{submission_error, ValidationError};
use crate::flow::{inserts_answer, inserts_response, Action, Event, Stage, SubmissionFlow};

verus! {

/// Why a submission or an erasure did not go through.
#[derive(PartialEq, Eq, Structural, Clone, Copy, Debug)]
pub enum AppError {
    /// The submission broke a rule; nothing was written.
    Validation(ValidationError),
    /// The respondent has already answered this form; nothing was written.
    DuplicateSubmission,
    /// The store refused a write for another reason; nothing was written.
    Storage(StoreError),
    /// No respondent has the given id.
    NotFound,
}

impl AppError {
    /// The HTTP status under which the error is reported: 400 for a rejected or duplicate
    /// submission, 404 for an unknown respondent, 500 for a storage failure.
    pub fn status_code(&self) -> (r: u16)
        ensures
            r == match *self {
                AppError::Validation(_) => 400u16,
                AppError::DuplicateSubmission => 400u16,
                AppError::Storage(_) => 500u16,
                AppError::NotFound => 404u16,
            },
    {
        match self {
            AppError::Validation(_) => 400,
            AppError::DuplicateSubmission => 400,
            AppError::Storage(_) => 500,
            AppError::NotFound => 404,
        }
    }

    /// The message shown to the client. A storage failure gets a generic message; its
    /// details are for the server's log only.
    pub fn message(&self) -> (r: &'static str)
        ensures
            *self == AppError::DuplicateSubmission ==> r@
                == "You have already submitted a response for this form"@,
            *self == AppError::NotFound ==> r@ == "Respondent not found"@,
            self is Storage ==> r@ == "A database error occurred"@,
            self matches AppError::Validation(e) ==> r@ == e.spec_message(),
    {
        match self {
            AppError::Validation(e) => e.message(),
            AppError::DuplicateSubmission => "You have already submitted a response for this form",
            AppError::Storage(_) => "A database error occurred",
            AppError::NotFound => "Respondent not found",
        }
    }
}

/// The fresh ids that a submission may use: one for the respondent (used only when the
/// email is new), one for the response, and one for each answer.
pub struct SubmissionIds {
    pub respondent_id: String,
    pub response_id: String,
    pub answer_ids: Vec<String>,
}

/// What a set of fresh ids holds, as plain values.
pub struct SubmissionIdsView {
    pub respondent_id: Seq<char>,
    pub response_id: Seq<char>,
    pub answer_ids: Seq<Seq<char>>,
}

impl View for SubmissionIds {
    type V = SubmissionIdsView;

    open spec fn view(&self) -> SubmissionIdsView {
        SubmissionIdsView {
            respondent_id: self.respondent_id@,
            response_id: self.response_id@,
            answer_ids: self.answer_ids@.map_values(|s: String| s@),
        }
    }
}

/// How a refused write is reported: a uniqueness conflict means that a concurrent or
/// earlier submission already holds the identity or the form answer.
pub open spec fn store_failure(e: StoreError) -> AppError {
    if e == StoreError::UniqueViolation {
        AppError::DuplicateSubmission
    } else {
        AppError::Storage(e)
    }
}

/// The identity record written for a respondent seen for the first time.
pub open spec fn new_respondent(req: SubmitFormRequest, id: Seq<char>, now: i64) -> RespondentView {
    RespondentView {
        id,
        name: req.respondent_name@,
        email: req.respondent_email@,
        email_hash: fingerprint_of(req.respondent_email@),
        created_at: now,
    }
}

/// The anonymised response record of a submission.
pub open spec fn new_response(
    form_id: Seq<char>,
    req: SubmitFormRequest,
    respondent_id: Seq<char>,
    id: Seq<char>,
    now: i64,
) -> ResponseView {
    ResponseView { id, respondent_id, form_id, role: opt_view(req.role), submitted_at: now }
}

/// The answer records of a submission, in the order of the request.
pub open spec fn new_answers(
    req: SubmitFormRequest,
    response_id: Seq<char>,
    ids: Seq<Seq<char>>,
    now: i64,
) -> Seq<AnswerView> {
    Seq::new(
        req.answers@.len(),
        |k: int|
            AnswerView {
                id: ids[k],
                response_id,
                question_id: req.answers@[k].question_id@,
                value: req.answers@[k].value@,
                created_at: now,
            },
    )
}

/// Resolving the respondent: an existing one that has not answered the form yet, or a
/// new one. Gives the respondent id and the tables afterwards.
pub open spec fn resolve_identity(
    t: Tables,
    form_id: Seq<char>,
    req: SubmitFormRequest,
    new_id: Seq<char>,
    now: i64,
) -> Result<(Seq<char>, Tables), AppError> {
    match find_fingerprint(t.respondents, fingerprint_of(req.respondent_email@)) {
        Some(i) => if count_for(t.responses, t.respondents[i].id, form_id) > 0 {
            Err(AppError::DuplicateSubmission)
        } else {
            Ok((t.respondents[i].id, t))
        },
        None => match insert_respondent(t, new_respondent(req, new_id, now)) {
            Ok(t1) => Ok((new_id, t1)),
            Err(e) => Err(store_failure(e)),
        },
    }
}

/// The outcome of a submission to form `form_id` on tables `t`: the new response id and
/// the tables afterwards, or the error. On error the tables stay as they were.
pub open spec fn submission_outcome(
    t: Tables,
    form_id: Seq<char>,
    req: SubmitFormRequest,
    ids: SubmissionIdsView,
    now: i64,
) -> Result<(Seq<char>, Tables), AppError> {
    match submission_error(req) {
        Some(e) => Err(AppError::Validation(e)),
        None => match resolve_identity(t, form_id, req, ids.respondent_id, now) {
            Err(e) => Err(e),
            Ok((rid, t1)) => match insert_response(
                t1,
                new_response(form_id, req, rid, ids.response_id, now),
            ) {
                Err(e) => Err(store_failure(e)),
                Ok(t2) => match insert_answers(
                    t2,
                    new_answers(req, ids.response_id, ids.answer_ids, now),
                ) {
                    Err(e) => Err(store_failure(e)),
                    Ok(t3) => Ok((ids.response_id, t3)),
                },
            },
        },
    }
}

pub(crate) fn map_store_error(e: StoreError) -> (r: AppError)
    ensures
        r == store_failure(e),
{
    match e {
        StoreError::UniqueViolation => AppError::DuplicateSubmission,
        _ => AppError::Storage(e),
    }
}

/// `a` is `b` with possibly more records appended to each table.
spec fn extends(a: Tables, b: Tables) -> bool {
    &&& b.respondents.len() <= a.respondents.len()
    &&& b.responses.len() <= a.responses.len()
    &&& b.answers.len() <= a.answers.len()
    &&& a.respondents.subrange(0, b.respondents.len() as int) == b.respondents
    &&& a.responses.subrange(0, b.responses.len() as int) == b.responses
    &&& a.answers.subrange(0, b.answers.len() as int) == b.answers
}

proof fn lemma_extends(c: Tables, a: Tables, b: Tables)
    requires
        extends(a, b),
        a.respondents.len() <= c.respondents.len(),
        a.responses.len() <= c.responses.len(),
        a.answers.len() <= c.answers.len(),
        forall|i: int| 0 <= i < a.respondents.len() ==> c.respondents[i] == a.respondents[i],
        forall|i: int| 0 <= i < a.responses.len() ==> c.responses[i] == a.responses[i],
        forall|i: int| 0 <= i < a.answers.len() ==> c.answers[i] == a.answers[i],
    ensures
        extends(c, b),
{
    assert(c.respondents.subrange(0, b.respondents.len() as int) =~= b.respondents) by {
        assert forall|i: int| 0 <= i < b.respondents.len() implies c.respondents[i] == b.respondents[i] by {
            assert(a.respondents.subrange(0, b.respondents.len() as int)[i] == a.respondents[i]);
        }
    }
    assert(c.responses.subrange(0, b.responses.len() as int) =~= b.responses) by {
        assert forall|i: int| 0 <= i < b.responses.len() implies c.responses[i] == b.responses[i] by {
            assert(a.responses.subrange(0, b.responses.len() as int)[i] == a.responses[i]);
        }
    }
    assert(c.answers.subrange(0, b.answers.len() as int) =~= b.answers) by {
        assert forall|i: int| 0 <= i < b.answers.len() implies c.answers[i] == b.answers[i] by {
            assert(a.answers.subrange(0, b.answers.len() as int)[i] == a.answers[i]);
        }
    }
}

proof fn lemma_extends_self(a: Tables)
    ensures
        extends(a, a),
{
    assert(a.respondents.subrange(0, a.respondents.len() as int) =~= a.respondents);
    assert(a.responses.subrange(0, a.responses.len() as int) =~= a.responses);
    assert(a.answers.subrange(0, a.answers.len() as int) =~= a.answers);
}

proof fn lemma_insert_answers_err(t: Tables, s: Seq<AnswerView>, k: int)
    requires
        0 <= k <= s.len(),
        insert_answers(t, s.take(k)) is Err,
    ensures
        insert_answers(t, s) == insert_answers(t, s.take(k)),
    decreases s.len(),
{
    if k == s.len() {
        assert(s.take(k) =~= s);
    } else {
        assert(s.drop_last().take(k) =~= s.take(k));
        lemma_insert_answers_err(t, s.drop_last(), k);
    }
}

/// Undoes the writes of an unfinished submission by cutting each table back to its
/// length when the submission began.
fn roll_back(store: &mut SurveyStore, n_respondents: usize, n_responses: usize, n_answers: usize)
    requires
        n_respondents <= old(store).respondents@.len(),
        n_responses <= old(store).responses@.len(),
        n_answers <= old(store).answers@.len(),
    ensures
        final(store)@ == (Tables {
            respondents: old(store)@.respondents.subrange(0, n_respondents as int),
            responses: old(store)@.responses.subrange(0, n_responses as int),
            answers: old(store)@.answers.subrange(0, n_answers as int),
        }),
{
    store.respondents.truncate(n_respondents);
    store.responses.truncate(n_responses);
    store.answers.truncate(n_answers);
    assert(store@.respondents =~= old(store)@.respondents.subrange(0, n_respondents as int));
    assert(store@.responses =~= old(store)@.responses.subrange(0, n_responses as int));
    assert(store@.answers =~= old(store)@.answers.subrange(0, n_answers as int));
}

/// Progress measure of a flow: every step moves it down.
spec fn flow_rank(stage: Stage, n: nat) -> nat {
    match stage {
        Stage::LookingUp => n + 5,
        Stage::Counting => n + 4,
        Stage::WritingRespondent => n + 4,
        Stage::WritingResponse => n + 3,
        Stage::WritingAnswer { index } => if index <= n { (n + 2 - index) as nat } else { 0 },
        Stage::Committing => 1,
        Stage::Done => 0,
    }
}

/// What holds, at each stage, between the flow, its pending action and the tables while
/// the in-memory store runs a submission that started on tables `t0`.
spec fn driving(
    t0: Tables,
    form_id: Seq<char>,
    req: SubmitFormRequest,
    ids: SubmissionIdsView,
    now: i64,
    flow: SubmissionFlow,
    action: Action,
    t: Tables,
) -> bool {
    let fp = fingerprint_of(req.respondent_email@);
    let found = find_fingerprint(t0.respondents, fp);
    let resolved = resolve_identity(t0, form_id, req, ids.respondent_id, now);
    let rid = flow.respondent_id@;
    let resp = new_response(form_id, req, rid, ids.response_id, now);
    let all = new_answers(req, ids.response_id, ids.answer_ids, now);
    let outcome = submission_outcome(t0, form_id, req, ids, now);
    match flow.stage {
        Stage::LookingUp => submission_error(req) is None && t == t0 && (action matches Action::LookUp(f) && f@ == fp),
        Stage::Counting => submission_error(req) is None && t == t0 && (found matches Some(i)
            && t0.respondents[i].id == rid) && (action matches Action::Count(c) && c@ == rid),
        Stage::WritingRespondent => submission_error(req) is None && t == t0 && found is None && (
        action matches Action::InsertRespondent(r) && r@ == new_respondent(req, ids.respondent_id, now)),
        Stage::WritingResponse => submission_error(req) is None && resolved == Ok::<(Seq<char>, Tables), AppError>((rid, t))
            && inserts_response(form_id, req, ids, now, rid, action),
        Stage::WritingAnswer { index } => {
            &&& submission_error(req) is None
            &&& resolved is Ok
            &&& resolved->Ok_0.0 == rid
            &&& insert_response(resolved->Ok_0.1, resp) is Ok
            &&& insert_answers(insert_response(resolved->Ok_0.1, resp)->Ok_0, all.take(index as int))
                == Ok::<Tables, StoreError>(t)
            &&& inserts_answer(req, ids, now, index as int, action)
        },
        Stage::Committing => {
            &&& submission_error(req) is None
            &&& resolved is Ok
            &&& resolved->Ok_0.0 == rid
            &&& insert_response(resolved->Ok_0.1, resp) is Ok
            &&& insert_answers(insert_response(resolved->Ok_0.1, resp)->Ok_0, all)
                == Ok::<Tables, StoreError>(t)
            &&& action is Commit
        },
        Stage::Done => action matches Action::Finish(r) && match r {
            Ok(id) => outcome == Ok::<(Seq<char>, Tables), AppError>((id@, t)),
            Err(e) => outcome == Err::<(Seq<char>, Tables), AppError>(e),
        },
    }
}

/// Records a submission to form `form_id` in one atomic unit: validates it, resolves or
/// creates the respondent from the email's fingerprint, refuses a second response by the
/// same respondent to the same form, and writes the response and its answers. Either all
/// writes stay, or none does. The decisions are those of `SubmissionFlow`; this store
/// answers its actions.
pub fn submit_form_with_privacy(
    store: &mut SurveyStore,
    form_id: &str,
    req: &SubmitFormRequest,
    ids: &SubmissionIds,
    now: i64,
) -> (r: Result<String, AppError>)
    requires
        old(store).wf(),
        ids.answer_ids@.len() == req.answers@.len(),
    ensures
        final(store).wf(),
        match submission_outcome(old(store)@, form_id@, *req, ids@, now) {
            Ok((id, t)) => r matches Ok(s) && s@ == id && final(store)@ == t,
            Err(e) => r == Err::<String, AppError>(e) && final(store)@ == old(store)@,
        },
{
    let ghost t0 = store@;
    let n_respondents = store.respondents.len();
    let n_responses = store.responses.len();
    let n_answers = store.answers.len();
    let ghost all = new_answers(*req, ids@.response_id, ids@.answer_ids, now);
    let (mut flow, mut action) = SubmissionFlow::begin(req);
    proof {
        lemma_extends_self(t0);
        if submission_error(*req) is None {
            crate::store::lemma_find_fingerprint(t0.respondents, fingerprint_of(req.respondent_email@));
        }
    }
    loop
        invariant
            old(store).wf(),
            t0 == old(store)@,
            store.wf(),
            extends(store@, t0),
            t0.respondents.len() == n_respondents,
            t0.responses.len() == n_responses,
            t0.answers.len() == n_answers,
            ids.answer_ids@.len() == req.answers@.len(),
            all == new_answers(*req, ids@.response_id, ids@.answer_ids, now),
            flow.wf(*req),
            driving(t0, form_id@, *req, ids@, now, flow, action, store@),
        decreases flow_rank(flow.stage, req.answers@.len()),
    {
        let ghost before = store@;
        let ghost old_flow = flow;
        let ghost rid = flow.respondent_id@;
        match action {
            Action::Finish(r) => {
                if r.is_err() {
                    roll_back(store, n_respondents, n_responses, n_answers);
                    assert(store@ =~= t0);
                }
                return r;
            },
            Action::LookUp(f) => {
                assert(old_flow.stage is LookingUp);
                let found = store.find_by_fingerprint(f.as_str());
                action = flow.advance(form_id, req, ids, now, Event::Found(found));
            },
            Action::Count(c) => {
                assert(old_flow.stage is Counting);
                let n = store.count_by_respondent_and_form(c.as_str(), form_id);
                action = flow.advance(form_id, req, ids, now, Event::Counted(n as u64));
            },
            Action::InsertRespondent(r) => {
                assert(old_flow.stage is WritingRespondent);
                let w = store.create_respondent(r);
                proof {
                    lemma_extends(store@, before, t0);
                }
                action = flow.advance(form_id, req, ids, now, Event::Written(w));
            },
            Action::InsertResponse(r) => {
                assert(old_flow.stage is WritingResponse);
                let w = store.create_response(r);
                proof {
                    lemma_extends(store@, before, t0);
                }
                action = flow.advance(form_id, req, ids, now, Event::Written(w));
                proof {
                    assert(all.take(0) =~= Seq::<AnswerView>::empty());
                    if req.answers@.len() == 0 {
                        assert(all =~= Seq::<AnswerView>::empty());
                    }
                }
            },
            Action::InsertAnswer(x) => {
                let ghost k = match old_flow.stage {
                    Stage::WritingAnswer { index } => index as int,
                    _ => 0,
                };
                assert(old_flow.stage is WritingAnswer);
                let w = store.create_answer(x);
                proof {
                    lemma_extends(store@, before, t0);
                    assert(all.take(k + 1).drop_last() =~= all.take(k));
                    assert(all.take(k + 1).last() == all[k]);
                    if w is Err {
                        lemma_insert_answers_err(
                            insert_response(
                                resolve_identity(t0, form_id@, *req, ids@.respondent_id, now)->Ok_0.1,
                                new_response(form_id@, *req, rid, ids@.response_id, now),
                            )->Ok_0,
                            all,
                            k + 1,
                        );
                    } else if k + 1 == req.answers@.len() {
                        assert(all.take(k + 1) =~= all);
                    }
                }
                action = flow.advance(form_id, req, ids, now, Event::Written(w));
            },
            Action::Commit => {
                assert(old_flow.stage is Committing);
                action = flow.advance(form_id, req, ids, now, Event::Committed(Ok(())));
            },
        }
    }
}

/// Tables `after` are tables `before` with the identity record of respondent `id` removed,
/// and with every response and answer kept.
pub open spec fn erasure_result(before: Tables, after: Tables, id: Seq<char>) -> bool {
    &&& exists|i: int|
        0 <= i < before.respondents.len() && before.respondents[i].id == id
            && after.respondents == before.respondents.remove(i)
    &&& after.responses == before.responses
    &&& after.answers == before.answers
}

/// Erases the identity record of respondent `respondent_id`. Its responses and answers
/// stay, anonymous; fails with `NotFound` when no such respondent is stored.
pub fn delete_respondent_pii(store: &mut SurveyStore, respondent_id: &str) -> (r: Result<
    (),
    AppError,
>)
    requires
        old(store).wf(),
    ensures
        final(store).wf(),
        r is Ok <==> crate::store::respondent_id_taken(old(store)@, respondent_id@),
        r is Err ==> r == Err::<(), AppError>(AppError::NotFound) && final(store)@ == old(store)@,
        r is Ok ==> erasure_result(old(store)@, final(store)@, respondent_id@),
{
    if store.delete_respondent(respondent_id) {
        Ok(())
    } else {
        Err(AppError::NotFound)
    }
}

} // verus!
