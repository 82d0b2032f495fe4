use vstd::prelude::*;
use crate::fingerprint::{fingerprint, fingerprint_of};
use crate::model::{clone_opt_string, Answer, Respondent, Response, SubmitFormRequest};
use crate::store::StoreError;
use crate::submission::{
    map_store_error, new_answers, new_respondent, new_response, store_failure, AppError, SubmissionIds,
    SubmissionIdsView,
};
use crate::validation::submission_error;

verus! {

/// Where a submission stands inside its transaction on an external store.
pub enum Stage {
    /// Waiting for the respondent looked up by fingerprint.
    LookingUp,
    /// Waiting for the number of responses that the respondent found gave to the form.
    Counting,
    /// Waiting for the new identity record to be written.
    WritingRespondent,
    /// Waiting for the response record, of the given respondent, to be written.
    WritingResponse,
    /// Waiting for the answer at `index` to be written.
    WritingAnswer { index: usize },
    /// Waiting for the transaction to commit.
    Committing,
    /// Finished; the transaction was committed or rolled back.
    Done,
}

/// What the store is asked to do next.
pub enum Action {
    /// Look up the respondent holding this fingerprint.
    LookUp(String),
    /// Count the responses of this respondent to the submission's form.
    Count(String),
    /// Insert this identity record.
    InsertRespondent(Respondent),
    /// Insert this response record.
    InsertResponse(Response),
    /// Insert this answer record.
    InsertAnswer(Answer),
    /// Commit the transaction.
    Commit,
    /// End: on `Ok` the transaction was committed; on `Err` roll it back.
    Finish(Result<String, AppError>),
}

/// What the store answered.
pub enum Event {
    /// The id of the respondent with the fingerprint, if any.
    Found(Option<String>),
    /// The number of responses counted.
    Counted(u64),
    /// Whether an insert went through.
    Written(Result<(), StoreError>),
    /// Whether the commit went through.
    Committed(Result<(), StoreError>),
    /// The action could not be carried out.
    Failed(StoreError),
}

/// The decisions of one submission against a transactional store: validate, resolve or
/// create the respondent, refuse a duplicate, write the response and its answers, commit.
/// The caller performs each action, reports what the store answered, and hands in the
/// same form, request, ids and time at every step.
pub struct SubmissionFlow {
    /// The respondent the submission resolved to, once known.
    pub respondent_id: String,
    pub stage: Stage,
}

/// The store answer that fits the stage a flow is in; any stage but the last may fail.
pub open spec fn event_fits(stage: Stage, event: Event) -> bool {
    !(stage is Done) && (event is Failed || match stage {
        Stage::LookingUp => event is Found,
        Stage::Counting => event is Counted,
        Stage::WritingRespondent | Stage::WritingResponse | Stage::WritingAnswer { .. } => event is Written,
        Stage::Committing => event is Committed,
        Stage::Done => false,
    })
}

/// `a` asks to insert the response of a submission for respondent `rid`.
pub open spec fn inserts_response(
    form_id: Seq<char>,
    req: SubmitFormRequest,
    ids: SubmissionIdsView,
    now: i64,
    rid: Seq<char>,
    a: Action,
) -> bool {
    a matches Action::InsertResponse(r) && r@ == new_response(
        form_id,
        req,
        rid,
        ids.response_id,
        now,
    )
}

/// `a` asks to insert answer `k` of a submission.
pub open spec fn inserts_answer(
    req: SubmitFormRequest,
    ids: SubmissionIdsView,
    now: i64,
    k: int,
    a: Action,
) -> bool {
    a matches Action::InsertAnswer(x) && x@ == new_answers(req, ids.response_id, ids.answer_ids, now)[k]
}

/// `a` ends the flow with error `e`.
pub open spec fn fails_with(a: Action, e: AppError) -> bool {
    a matches Action::Finish(r) && r == Err::<String, AppError>(e)
}

impl SubmissionFlow {
    /// The flow's invariant: an answer being written is one of the request's.
    pub open spec fn wf(&self, req: SubmitFormRequest) -> bool {
        match self.stage {
            Stage::WritingAnswer { index } => index < req.answers@.len(),
            _ => true,
        }
    }

    /// Starts a submission: an invalid request ends at once, before any store is touched;
    /// a valid one first looks up the fingerprint of its email.
    pub fn begin(req: &SubmitFormRequest) -> (r: (SubmissionFlow, Action))
        ensures
            r.0.wf(*req),
            match submission_error(*req) {
                Some(e) => fails_with(r.1, AppError::Validation(e)) && r.0.stage is Done,
                None => (r.1 matches Action::LookUp(fp) && fp@ == fingerprint_of(
                    req.respondent_email@,
                )) && r.0.stage is LookingUp,
            },
    {
        match req.validate() {
            Err(e) => (
                SubmissionFlow { respondent_id: String::new(), stage: Stage::Done },
                Action::Finish(Err(AppError::Validation(e))),
            ),
            Ok(()) => (
                SubmissionFlow { respondent_id: String::new(), stage: Stage::LookingUp },
                Action::LookUp(fingerprint(req.respondent_email.as_str())),
            ),
        }
    }

    /// Takes the store's answer to the last action and decides the next one. A
    /// uniqueness conflict on any write or on commit ends as a duplicate submission.
    pub fn advance(
        &mut self,
        form_id: &str,
        req: &SubmitFormRequest,
        ids: &SubmissionIds,
        now: i64,
        event: Event,
    ) -> (a: Action)
        requires
            old(self).wf(*req),
            ids.answer_ids@.len() == req.answers@.len(),
            event_fits(old(self).stage, event),
        ensures
            final(self).wf(*req),
            !(old(self).stage is LookingUp) && !(old(self).stage is WritingRespondent)
                ==> final(self).respondent_id == old(self).respondent_id,
            match (old(self).stage, event) {
                (Stage::LookingUp, Event::Found(Some(id))) => (a matches Action::Count(c) && c@
                    == id@) && final(self).respondent_id@ == id@ && final(self).stage is Counting,
                (Stage::LookingUp, Event::Found(None)) => (a matches Action::InsertRespondent(r)
                    && r@ == new_respondent(*req, ids.respondent_id@, now))
                    && final(self).stage is WritingRespondent,
                (Stage::Counting, Event::Counted(n)) => if n > 0 {
                    fails_with(a, AppError::DuplicateSubmission) && final(self).stage is Done
                } else {
                    inserts_response(form_id@, *req, ids@, now, old(self).respondent_id@, a)
                        && final(self).respondent_id@ == old(self).respondent_id@
                        && final(self).stage is WritingResponse
                },
                (Stage::WritingRespondent, Event::Written(Ok(()))) => inserts_response(
                    form_id@,
                    *req,
                    ids@,
                    now,
                    ids.respondent_id@,
                    a,
                ) && final(self).respondent_id@ == ids.respondent_id@
                    && final(self).stage is WritingResponse,
                (Stage::WritingResponse, Event::Written(Ok(()))) => if req.answers@.len() > 0 {
                    inserts_answer(*req, ids@, now, 0, a) && (final(self).stage matches Stage::WritingAnswer { index } && index == 0)
                } else {
                    a is Commit && final(self).stage is Committing
                },
                (Stage::WritingAnswer { index }, Event::Written(Ok(()))) => if index + 1 < req.answers@.len() {
                    inserts_answer(*req, ids@, now, index + 1, a) && (final(self).stage matches Stage::WritingAnswer { index: j } && j == index + 1)
                } else {
                    a is Commit && final(self).stage is Committing
                },
                (_, Event::Written(Err(e))) => fails_with(a, store_failure(e)) && final(self).stage is Done,
                (_, Event::Failed(e)) => fails_with(a, store_failure(e)) && final(self).stage is Done,
                (Stage::Committing, Event::Committed(Ok(()))) => (a matches Action::Finish(r)
                    && r matches Ok(id) && id@ == ids.response_id@) && final(self).stage is Done,
                (Stage::Committing, Event::Committed(Err(e))) => fails_with(a, store_failure(e))
                    && final(self).stage is Done,
                _ => true,
            },
    {
        match (&self.stage, event) {
            (Stage::LookingUp, Event::Found(Some(id))) => {
                let c = id.clone();
                self.respondent_id = id;
                self.stage = Stage::Counting;
                Action::Count(c)
            },
            (Stage::LookingUp, Event::Found(None)) => {
                let r = Respondent {
                    id: ids.respondent_id.clone(),
                    name: req.respondent_name.clone(),
                    email: req.respondent_email.clone(),
                    email_hash: fingerprint(req.respondent_email.as_str()),
                    created_at: now,
                };
                self.stage = Stage::WritingRespondent;
                Action::InsertRespondent(r)
            },
            (Stage::Counting, Event::Counted(n)) => {
                if n > 0 {
                    self.stage = Stage::Done;
                    Action::Finish(Err(AppError::DuplicateSubmission))
                } else {
                    self.stage = Stage::WritingResponse;
                    Action::InsertResponse(response_record(form_id, req, ids, now, &self.respondent_id))
                }
            },
            (Stage::WritingRespondent, Event::Written(Ok(()))) => {
                self.respondent_id = ids.respondent_id.clone();
                self.stage = Stage::WritingResponse;
                Action::InsertResponse(response_record(form_id, req, ids, now, &self.respondent_id))
            },
            (Stage::WritingResponse, Event::Written(Ok(()))) => {
                if req.answers.len() > 0 {
                    self.stage = Stage::WritingAnswer { index: 0 };
                    Action::InsertAnswer(answer_record(req, ids, now, 0))
                } else {
                    self.stage = Stage::Committing;
                    Action::Commit
                }
            },
            (Stage::WritingAnswer { index }, Event::Written(Ok(()))) => {
                let k = *index;
                let n = req.answers.len();
                if n > 0 && k < n - 1 {
                    self.stage = Stage::WritingAnswer { index: k + 1 };
                    Action::InsertAnswer(answer_record(req, ids, now, k + 1))
                } else {
                    self.stage = Stage::Committing;
                    Action::Commit
                }
            },
            (_, Event::Written(Err(e))) => {
                self.stage = Stage::Done;
                Action::Finish(Err(map_store_error(e)))
            },
            (Stage::Committing, Event::Committed(Ok(()))) => {
                self.stage = Stage::Done;
                Action::Finish(Ok(ids.response_id.clone()))
            },
            (_, Event::Failed(e)) => {
                self.stage = Stage::Done;
                Action::Finish(Err(map_store_error(e)))
            },
            (_, Event::Committed(Err(e))) => {
                self.stage = Stage::Done;
                Action::Finish(Err(map_store_error(e)))
            },
            _ => {
                self.stage = Stage::Done;
                Action::Finish(Err(AppError::Storage(StoreError::Unavailable)))
            },
        }
    }
}

fn answer_record(req: &SubmitFormRequest, ids: &SubmissionIds, now: i64, k: usize) -> (a: Answer)
    requires
        ids.answer_ids@.len() == req.answers@.len(),
        k < req.answers@.len(),
    ensures
        a@ == new_answers(*req, ids.response_id@, ids@.answer_ids, now)[k as int],
{
    Answer {
        id: ids.answer_ids[k].clone(),
        response_id: ids.response_id.clone(),
        question_id: req.answers[k].question_id.clone(),
        value: req.answers[k].value.duplicate(),
        created_at: now,
    }
}

fn response_record(
    form_id: &str,
    req: &SubmitFormRequest,
    ids: &SubmissionIds,
    now: i64,
    respondent_id: &String,
) -> (r: Response)
    ensures
        r@ == new_response(form_id@, *req, respondent_id@, ids.response_id@, now),
{
    Response {
        id: ids.response_id.clone(),
        respondent_id: respondent_id.clone(),
        form_id: form_id.to_owned(),
        role: clone_opt_string(&req.role),
        submitted_at: now,
    }
}

} // verus!
