use vstd::prelude::*;
use crate::fingerprint::{fingerprint_of, lemma_fingerprint_normal_form, normal_email};
use crate::model::{AnswerView, RespondentView, ResponseView, SubmitFormRequest};
use crate::store::{
    answer_id_taken, count_for, find_fingerprint, insert_answer, insert_answers, insert_respondent,
    insert_response,
    pair_taken, response_id_taken, responses_of_form, respondent_id_taken, tables_wf, Tables,
};
use crate::submission::{
    erasure_result, new_answers, new_response, submission_outcome, AppError, SubmissionIdsView,
};
use crate::validation::submission_valid;
use crate::stats::{answered_count, question_ratings_of, role_count};

verus! {

proof fn lemma_find_push(rs: Seq<RespondentView>, x: RespondentView, fp: Seq<char>)
    ensures
        find_fingerprint(rs.push(x), fp) == match find_fingerprint(rs, fp) {
            Some(i) => Some(i),
            None => if x.email_hash == fp {
                Some(rs.len() as int)
            } else {
                None
            },
        },
{
    assert(rs.push(x).drop_last() =~= rs);
}

proof fn lemma_count_push(rs: Seq<ResponseView>, x: ResponseView, rid: Seq<char>, fid: Seq<char>)
    ensures
        count_for(rs.push(x), rid, fid) == count_for(rs, rid, fid) + if x.respondent_id == rid
            && x.form_id == fid {
            1nat
        } else {
            0nat
        },
{
    assert(rs.push(x).drop_last() =~= rs);
}

proof fn lemma_count_positive(rs: Seq<ResponseView>, rid: Seq<char>, fid: Seq<char>)
    ensures
        count_for(rs, rid, fid) > 0 <==> exists|k: int|
            0 <= k < rs.len() && rs[k].respondent_id == rid && rs[k].form_id == fid,
    decreases rs.len(),
{
    if rs.len() > 0 {
        lemma_count_positive(rs.drop_last(), rid, fid);
        if count_for(rs, rid, fid) == 0 {
            assert forall|k: int| 0 <= k < rs.len() implies !(rs[k].respondent_id == rid
                && rs[k].form_id == fid) by {
                if k < rs.len() - 1 {
                    assert(rs.drop_last()[k] == rs[k]);
                }
            }
        } else if rs.last().respondent_id != rid || rs.last().form_id != fid {
            let k = choose|k: int|
                0 <= k < rs.len() - 1 && rs.drop_last()[k].respondent_id == rid
                    && rs.drop_last()[k].form_id == fid;
            assert(rs[k] == rs.drop_last()[k]);
        }
    }
}

proof fn lemma_count_at_most_one(rs: Seq<ResponseView>, rid: Seq<char>, fid: Seq<char>)
    requires
        forall|i: int, j: int|
            0 <= i < rs.len() && 0 <= j < rs.len() && i != j ==> !(rs[i].respondent_id
                == rs[j].respondent_id && rs[i].form_id == rs[j].form_id),
    ensures
        count_for(rs, rid, fid) <= 1,
    decreases rs.len(),
{
    if rs.len() > 0 {
        let d = rs.drop_last();
        assert forall|i: int, j: int|
            0 <= i < d.len() && 0 <= j < d.len() && i != j implies !(d[i].respondent_id
                == d[j].respondent_id && d[i].form_id == d[j].form_id) by {
            assert(d[i] == rs[i] && d[j] == rs[j]);
        }
        lemma_count_at_most_one(d, rid, fid);
        if rs.last().respondent_id == rid && rs.last().form_id == fid {
            lemma_count_positive(d, rid, fid);
            if count_for(d, rid, fid) > 0 {
                let k = choose|k: int|
                    0 <= k < d.len() && d[k].respondent_id == rid && d[k].form_id == fid;
                assert(rs[k] == d[k]);
                assert(false);
            }
        }
    }
}

proof fn lemma_insert_answers_keeps(t: Tables, s: Seq<AnswerView>)
    ensures
        insert_answers(t, s) matches Ok(t3) ==> t3.respondents == t.respondents && t3.responses
            == t.responses,
    decreases s.len(),
{
    if s.len() > 0 {
        lemma_insert_answers_keeps(t, s.drop_last());
    }
}

proof fn lemma_insert_answers_ok(t: Tables, s: Seq<AnswerView>)
    requires
        forall|k: int| 0 <= k < s.len() ==> response_id_taken(t, #[trigger] s[k].response_id),
        forall|k: int| 0 <= k < s.len() ==> !answer_id_taken(t, #[trigger] s[k].id),
        forall|i: int, j: int| 0 <= i < s.len() && 0 <= j < s.len() && i != j ==> s[i].id != s[j].id,
    ensures
        insert_answers(t, s) == Ok::<Tables, crate::store::StoreError>(
            Tables { answers: t.answers + s, ..t },
        ),
    decreases s.len(),
{
    if s.len() > 0 {
        let d = s.drop_last();
        assert forall|k: int| 0 <= k < d.len() implies response_id_taken(t, #[trigger] d[k].response_id) by {
            assert(d[k] == s[k]);
        }
        assert forall|k: int| 0 <= k < d.len() implies !answer_id_taken(t, #[trigger] d[k].id) by {
            assert(d[k] == s[k]);
        }
        lemma_insert_answers_ok(t, d);
        let t1 = Tables { answers: t.answers + d, ..t };
        let x = s.last();
        assert(response_id_taken(t, s[s.len() - 1].response_id));
        assert(!answer_id_taken(t, s[s.len() - 1].id));
        assert(response_id_taken(t1, x.response_id));
        assert(!answer_id_taken(t1, x.id)) by {
            if answer_id_taken(t1, x.id) {
                let k = choose|k: int| 0 <= k < t1.answers.len() && t1.answers[k].id == x.id;
                if k < t.answers.len() {
                    assert(t1.answers[k] == t.answers[k]);
                } else {
                    assert(t1.answers[k] == s[k - t.answers.len()]);
                }
            }
        }
        assert(t1.answers.push(x) =~= t.answers + s);
    } else {
        assert(t.answers + s =~= t.answers);
    }
}

proof fn lemma_insert_respondent_wf(t: Tables, r: RespondentView)
    requires
        tables_wf(t),
        insert_respondent(t, r) is Ok,
    ensures
        tables_wf(insert_respondent(t, r)->Ok_0),
{
}

proof fn lemma_insert_response_wf(t: Tables, r: ResponseView)
    requires
        tables_wf(t),
        insert_response(t, r) is Ok,
    ensures
        tables_wf(insert_response(t, r)->Ok_0),
{
    let u = insert_response(t, r)->Ok_0;
    assert forall|i: int| 0 <= i < u.answers.len() implies response_id_taken(
        u,
        #[trigger] u.answers[i].response_id,
    ) by {
        assert(response_id_taken(t, t.answers[i].response_id));
        let j = choose|j: int|
            0 <= j < t.responses.len() && t.responses[j].id == t.answers[i].response_id;
        assert(u.responses[j] == t.responses[j]);
    }
}

proof fn lemma_insert_answers_wf(t: Tables, s: Seq<AnswerView>)
    requires
        tables_wf(t),
        insert_answers(t, s) is Ok,
    ensures
        tables_wf(insert_answers(t, s)->Ok_0),
    decreases s.len(),
{
    if s.len() > 0 {
        lemma_insert_answers_wf(t, s.drop_last());
        let t1 = insert_answers(t, s.drop_last())->Ok_0;
        let u = insert_answer(t1, s.last())->Ok_0;
        assert forall|i: int| 0 <= i < u.answers.len() implies response_id_taken(
            u,
            #[trigger] u.answers[i].response_id,
        ) by {
            if i < t1.answers.len() {
                assert(u.answers[i] == t1.answers[i]);
            }
        }
    }
}

/// A successful submission leaves the tables well-formed: still at most one identity
/// record per fingerprint and one response per (respondent, form).
pub proof fn lemma_submission_keeps_invariants(
    t: Tables,
    form_id: Seq<char>,
    req: SubmitFormRequest,
    ids: SubmissionIdsView,
    now: i64,
)
    requires
        tables_wf(t),
        submission_outcome(t, form_id, req, ids, now) is Ok,
    ensures
        tables_wf(submission_outcome(t, form_id, req, ids, now)->Ok_0.1),
{
    let fp = fingerprint_of(req.respondent_email@);
    let (rid, t1) = match find_fingerprint(t.respondents, fp) {
        Some(i) => (t.respondents[i].id, t),
        None => {
            let nr = crate::submission::new_respondent(req, ids.respondent_id, now);
            lemma_insert_respondent_wf(t, nr);
            (ids.respondent_id, insert_respondent(t, nr)->Ok_0)
        },
    };
    let resp = new_response(form_id, req, rid, ids.response_id, now);
    lemma_insert_response_wf(t1, resp);
    let t2 = insert_response(t1, resp)->Ok_0;
    lemma_insert_answers_wf(t2, new_answers(req, ids.response_id, ids.answer_ids, now));
}

/// After a successful submission, its email's fingerprint resolves to a respondent who
/// has a response to the form.
proof fn lemma_after_success(
    t: Tables,
    form_id: Seq<char>,
    first: SubmitFormRequest,
    first_ids: SubmissionIdsView,
    first_now: i64,
)
    requires
        tables_wf(t),
        submission_outcome(t, form_id, first, first_ids, first_now) is Ok,
    ensures
        ({
            let t3 = submission_outcome(t, form_id, first, first_ids, first_now)->Ok_0.1;
            find_fingerprint(t3.respondents, fingerprint_of(first.respondent_email@)) matches Some(
                i,
            ) && count_for(t3.responses, t3.respondents[i].id, form_id) > 0
        }),
{
    let fp = fingerprint_of(first.respondent_email@);
    match find_fingerprint(t.respondents, fp) {
        Some(i) => {
            let rid = t.respondents[i].id;
            let resp = new_response(form_id, first, rid, first_ids.response_id, first_now);
            let t2 = Tables { responses: t.responses.push(resp), ..t };
            lemma_insert_answers_keeps(
                t2,
                new_answers(first, first_ids.response_id, first_ids.answer_ids, first_now),
            );
            lemma_count_push(t.responses, resp, rid, form_id);
        },
        None => {
            let nr = crate::submission::new_respondent(first, first_ids.respondent_id, first_now);
            let t1 = Tables { respondents: t.respondents.push(nr), ..t };
            lemma_find_push(t.respondents, nr, fp);
            let resp = new_response(form_id, first, first_ids.respondent_id, first_ids.response_id, first_now);
            let t2 = Tables { responses: t1.responses.push(resp), ..t1 };
            lemma_insert_answers_keeps(
                t2,
                new_answers(first, first_ids.response_id, first_ids.answer_ids, first_now),
            );
            lemma_count_push(t.responses, resp, first_ids.respondent_id, form_id);
        },
    }
}

/// A valid first submission of a respondent to a form succeeds when its ids are fresh:
/// it returns its response id, adds exactly that response (with the resolved respondent)
/// and its answers, and identifies a returning respondent by fingerprint.
pub proof fn lemma_first_submission_succeeds(
    t: Tables,
    form_id: Seq<char>,
    req: SubmitFormRequest,
    ids: SubmissionIdsView,
    now: i64,
)
    requires
        tables_wf(t),
        submission_valid(req),
        match find_fingerprint(t.respondents, fingerprint_of(req.respondent_email@)) {
            Some(i) => !pair_taken(t, t.respondents[i].id, form_id),
            None => !respondent_id_taken(t, ids.respondent_id) && !pair_taken(
                t,
                ids.respondent_id,
                form_id,
            ),
        },
        !response_id_taken(t, ids.response_id),
        ids.answer_ids.len() == req.answers@.len(),
        forall|k: int|
            0 <= k < ids.answer_ids.len() ==> !answer_id_taken(t, #[trigger] ids.answer_ids[k]),
        forall|i: int, j: int|
            0 <= i < ids.answer_ids.len() && 0 <= j < ids.answer_ids.len() && i != j
                ==> ids.answer_ids[i] != ids.answer_ids[j],
    ensures
        ({
            let r = submission_outcome(t, form_id, req, ids, now);
            let rid = match find_fingerprint(t.respondents, fingerprint_of(req.respondent_email@)) {
                Some(i) => t.respondents[i].id,
                None => ids.respondent_id,
            };
            &&& r is Ok
            &&& r->Ok_0.0 == ids.response_id
            &&& r->Ok_0.1.responses == t.responses.push(
                new_response(form_id, req, rid, ids.response_id, now),
            )
            &&& r->Ok_0.1.answers == t.answers + new_answers(req, ids.response_id, ids.answer_ids, now)
        }),
{
    let fp = fingerprint_of(req.respondent_email@);
    crate::store::lemma_find_fingerprint(t.respondents, fp);
    let (rid, t1) = match find_fingerprint(t.respondents, fp) {
        Some(i) => {
            lemma_count_positive(t.responses, t.respondents[i].id, form_id);
            (t.respondents[i].id, t)
        },
        None => {
            let nr = crate::submission::new_respondent(req, ids.respondent_id, now);
            (ids.respondent_id, Tables { respondents: t.respondents.push(nr), ..t })
        },
    };
    let resp = new_response(form_id, req, rid, ids.response_id, now);
    let u2 = Tables { responses: t1.responses.push(resp), ..t1 };
    let answers = new_answers(req, ids.response_id, ids.answer_ids, now);
    assert(response_id_taken(u2, ids.response_id)) by {
        assert(u2.responses[t1.responses.len() as int] == resp);
    }
    assert forall|k: int| 0 <= k < answers.len() implies response_id_taken(
        u2,
        #[trigger] answers[k].response_id,
    ) by {}
    assert forall|k: int| 0 <= k < answers.len() implies !answer_id_taken(
        u2,
        #[trigger] answers[k].id,
    ) by {
        assert(answers[k].id == ids.answer_ids[k]);
    }
    lemma_insert_answers_ok(u2, answers);
}

/// A second submission whose email has the same normal form (trimmed, lower-cased) as the
/// first, to the same form, after a first one succeeded, is refused as a duplicate; since it fails, it
/// writes no row.
pub proof fn lemma_duplicate_rejected(
    t: Tables,
    form_id: Seq<char>,
    first: SubmitFormRequest,
    first_ids: SubmissionIdsView,
    first_now: i64,
    second: SubmitFormRequest,
    second_ids: SubmissionIdsView,
    second_now: i64,
)
    requires
        tables_wf(t),
        submission_outcome(t, form_id, first, first_ids, first_now) is Ok,
        submission_valid(second),
        normal_email(second.respondent_email@) == normal_email(first.respondent_email@),
    ensures
        submission_outcome(
            submission_outcome(t, form_id, first, first_ids, first_now)->Ok_0.1,
            form_id,
            second,
            second_ids,
            second_now,
        ) == Err::<(Seq<char>, Tables), AppError>(AppError::DuplicateSubmission),
{
    lemma_fingerprint_normal_form(second.respondent_email@, first.respondent_email@);
    lemma_after_success(t, form_id, first, first_ids, first_now);
}

/// Emails with the same normal form (trimmed, lower-cased) submitting to two different
/// forms succeed both times: the second response refers to the same respondent as the
/// first, and no second identity record is created. What the second submission needs is
/// that the respondent has not answered that form before and that its ids are fresh.
pub proof fn lemma_cross_form_independence(
    t: Tables,
    first_form: Seq<char>,
    first: SubmitFormRequest,
    first_ids: SubmissionIdsView,
    first_now: i64,
    second_form: Seq<char>,
    second: SubmitFormRequest,
    second_ids: SubmissionIdsView,
    second_now: i64,
)
    requires
        tables_wf(t),
        submission_outcome(t, first_form, first, first_ids, first_now) is Ok,
        first_form != second_form,
        submission_valid(second),
        normal_email(second.respondent_email@) == normal_email(first.respondent_email@),
        ({
            let t1 = submission_outcome(t, first_form, first, first_ids, first_now)->Ok_0.1;
            &&& !pair_taken(t, t1.responses.last().respondent_id, second_form)
            &&& !response_id_taken(t1, second_ids.response_id)
            &&& second_ids.answer_ids.len() == second.answers@.len()
            &&& forall|k: int|
                0 <= k < second_ids.answer_ids.len() ==> !answer_id_taken(
                    t1,
                    #[trigger] second_ids.answer_ids[k],
                )
            &&& forall|i: int, j: int|
                0 <= i < second_ids.answer_ids.len() && 0 <= j < second_ids.answer_ids.len()
                    && i != j ==> second_ids.answer_ids[i] != second_ids.answer_ids[j]
        }),
    ensures
        ({
            let t1 = submission_outcome(t, first_form, first, first_ids, first_now)->Ok_0.1;
            let r2 = submission_outcome(t1, second_form, second, second_ids, second_now);
            &&& r2 is Ok
            &&& r2->Ok_0.1.respondents == t1.respondents
            &&& r2->Ok_0.1.responses.len() == t1.responses.len() + 1
            &&& r2->Ok_0.1.responses.last().respondent_id == t1.responses.last().respondent_id
            &&& t1.responses.last().form_id == first_form
            &&& r2->Ok_0.1.responses.last().form_id == second_form
        }),
{
    lemma_fingerprint_normal_form(second.respondent_email@, first.respondent_email@);
    let fp = fingerprint_of(first.respondent_email@);
    let t1 = submission_outcome(t, first_form, first, first_ids, first_now)->Ok_0.1;
    let first_answers = new_answers(first, first_ids.response_id, first_ids.answer_ids, first_now);
    let rid = match find_fingerprint(t.respondents, fp) {
        Some(i) => t.respondents[i].id,
        None => first_ids.respondent_id,
    };
    // The first submission: which respondent it resolved to, and what it appended.
    let tr: Tables = match find_fingerprint(t.respondents, fp) {
        Some(i) => t,
        None => Tables {
            respondents: t.respondents.push(
                crate::submission::new_respondent(first, first_ids.respondent_id, first_now),
            ),
            ..t
        },
    };
    match find_fingerprint(t.respondents, fp) {
        Some(i) => {},
        None => {
            lemma_find_push(
                t.respondents,
                crate::submission::new_respondent(first, first_ids.respondent_id, first_now),
                fp,
            );
        },
    }
    let resp1 = new_response(first_form, first, rid, first_ids.response_id, first_now);
    let t2 = Tables { responses: tr.responses.push(resp1), ..tr };
    lemma_insert_answers_keeps(t2, first_answers);
    assert(t1.respondents == tr.respondents);
    assert(t1.responses == t.responses.push(resp1));
    assert(t1.responses.last().respondent_id == rid);
    // The second submission resolves to the same respondent, who has not answered it.
    lemma_count_positive(t.responses, rid, second_form);
    lemma_count_push(t.responses, resp1, rid, second_form);
    assert(count_for(t1.responses, rid, second_form) == 0);
    lemma_count_positive(t1.responses, rid, second_form);
    let resp2 = new_response(second_form, second, rid, second_ids.response_id, second_now);
    let u2 = Tables { responses: t1.responses.push(resp2), ..t1 };
    let second_answers = new_answers(
        second,
        second_ids.response_id,
        second_ids.answer_ids,
        second_now,
    );
    assert(response_id_taken(u2, second_ids.response_id)) by {
        assert(u2.responses[t1.responses.len() as int] == resp2);
    }
    assert forall|k: int| 0 <= k < second_answers.len() implies response_id_taken(
        u2,
        #[trigger] second_answers[k].response_id,
    ) by {}
    assert forall|k: int| 0 <= k < second_answers.len() implies !answer_id_taken(
        u2,
        #[trigger] second_answers[k].id,
    ) by {
        assert(second_answers[k].id == second_ids.answer_ids[k]);
    }
    lemma_insert_answers_ok(u2, second_answers);
}

/// After a respondent's identity record is erased, every response and answer is still
/// stored, so the statistics of a form (role counts, answered counts, ratings) are the
/// same; no record with that id remains, so no fingerprint lookup resolves to it and the
/// administrator's view shows its responses without name or email.
pub proof fn lemma_erasure_preserves_history(
    before: Tables,
    after: Tables,
    id: Seq<char>,
    form_id: Seq<char>,
    fp: Seq<char>,
)
    requires
        tables_wf(before),
        erasure_result(before, after, id),
    ensures
        responses_of_form(after.responses, form_id) == responses_of_form(before.responses, form_id),
        after.answers == before.answers,
        !respondent_id_taken(after, id),
        find_fingerprint(after.respondents, fp) matches Some(j) ==> after.respondents[j].id != id,
        forall|role: Option<Seq<char>>|
            #[trigger] role_count(responses_of_form(after.responses, form_id), role) == role_count(
                responses_of_form(before.responses, form_id),
                role,
            ),
        forall|q: Seq<char>|
            #[trigger] question_ratings_of(after.answers, after.responses, form_id, q)
                == question_ratings_of(before.answers, before.responses, form_id, q),
        forall|q: Seq<char>|
            #[trigger] answered_count(responses_of_form(after.responses, form_id), after.answers, q)
                == answered_count(responses_of_form(before.responses, form_id), before.answers, q),
{
    let i = choose|i: int|
        0 <= i < before.respondents.len() && before.respondents[i].id == id
            && after.respondents == before.respondents.remove(i);
    assert forall|j: int| 0 <= j < after.respondents.len() implies after.respondents[j].id != id by {
        let j0 = if j < i { j } else { j + 1 };
        assert(after.respondents[j] == before.respondents[j0]);
        assert(j0 != i);
    }
    crate::store::lemma_find_fingerprint(after.respondents, fp);
}

/// Whatever happened before, a well-formed store holds at most one identity record per
/// fingerprint and at most one response per (respondent, form) pair; every operation
/// keeps the store well-formed, so no interleaving of submissions breaks either bound.
pub proof fn lemma_single_identity_and_response(
    t: Tables,
    fp: Seq<char>,
    respondent_id: Seq<char>,
    form_id: Seq<char>,
)
    requires
        tables_wf(t),
    ensures
        forall|i: int, j: int|
            0 <= i < t.respondents.len() && 0 <= j < t.respondents.len()
                && t.respondents[i].email_hash == fp && t.respondents[j].email_hash == fp ==> i
                == j,
        count_for(t.responses, respondent_id, form_id) <= 1,
{
    lemma_count_at_most_one(t.responses, respondent_id, form_id);
}

/// Applies submissions to form `form_id` one after another, as a lock on the store
/// serialises them: gives the tables afterwards and how many submissions succeeded.
pub open spec fn apply_submissions(
    t: Tables,
    form_id: Seq<char>,
    reqs: Seq<SubmitFormRequest>,
    ids: Seq<SubmissionIdsView>,
    nows: Seq<i64>,
) -> (Tables, nat)
    decreases reqs.len(),
{
    if reqs.len() == 0 {
        (t, 0)
    } else {
        let (t1, n) = apply_submissions(t, form_id, reqs.drop_last(), ids, nows);
        let k = reqs.len() - 1;
        match submission_outcome(t1, form_id, reqs[k], ids[k], nows[k]) {
            Ok((_, t2)) => (t2, n + 1),
            Err(_) => (t1, n),
        }
    }
}

/// Of any number of submissions with the same email to the same form, applied one after
/// another, exactly one succeeds when the first does: every later one is refused as a
/// duplicate, and the tables stay as the first one left them.
pub proof fn lemma_repeated_submissions(
    t: Tables,
    form_id: Seq<char>,
    reqs: Seq<SubmitFormRequest>,
    ids: Seq<SubmissionIdsView>,
    nows: Seq<i64>,
)
    requires
        tables_wf(t),
        reqs.len() >= 1,
        ids.len() >= reqs.len(),
        nows.len() >= reqs.len(),
        submission_outcome(t, form_id, reqs[0], ids[0], nows[0]) is Ok,
        forall|k: int|
            0 <= k < reqs.len() ==> submission_valid(#[trigger] reqs[k]) && normal_email(
                reqs[k].respondent_email@,
            ) == normal_email(reqs[0].respondent_email@),
    ensures
        apply_submissions(t, form_id, reqs, ids, nows) == (
            submission_outcome(t, form_id, reqs[0], ids[0], nows[0])->Ok_0.1,
            1nat,
        ),
    decreases reqs.len(),
{
    let k = reqs.len() - 1;
    if reqs.len() == 1 {
        assert(apply_submissions(t, form_id, reqs.drop_last(), ids, nows) == (t, 0nat));
    } else {
        let d = reqs.drop_last();
        assert forall|j: int| 0 <= j < d.len() implies submission_valid(#[trigger] d[j])
            && normal_email(d[j].respondent_email@) == normal_email(d[0].respondent_email@) by {
            assert(d[j] == reqs[j]);
        }
        assert(d[0] == reqs[0]);
        lemma_repeated_submissions(t, form_id, d, ids, nows);
        assert(submission_valid(reqs[k]));
        lemma_duplicate_rejected(t, form_id, reqs[0], ids[0], nows[0], reqs[k], ids[k], nows[k]);
    }
}

/// Any number of submissions with the same email to the same form, serialised, leave
/// exactly one identity record for that email and exactly one response by it to the form,
/// when the first of them succeeds; all the others are refused.
pub proof fn lemma_same_email_same_form_commits_once(
    t: Tables,
    form_id: Seq<char>,
    reqs: Seq<SubmitFormRequest>,
    ids: Seq<SubmissionIdsView>,
    nows: Seq<i64>,
)
    requires
        tables_wf(t),
        reqs.len() >= 1,
        ids.len() >= reqs.len(),
        nows.len() >= reqs.len(),
        submission_outcome(t, form_id, reqs[0], ids[0], nows[0]) is Ok,
        forall|k: int|
            0 <= k < reqs.len() ==> submission_valid(#[trigger] reqs[k]) && normal_email(
                reqs[k].respondent_email@,
            ) == normal_email(reqs[0].respondent_email@),
    ensures
        ({
            let (tf, n) = apply_submissions(t, form_id, reqs, ids, nows);
            let fp = fingerprint_of(reqs[0].respondent_email@);
            &&& n == 1
            &&& find_fingerprint(tf.respondents, fp) is Some
            &&& forall|i: int, j: int|
                0 <= i < tf.respondents.len() && 0 <= j < tf.respondents.len()
                    && tf.respondents[i].email_hash == fp && tf.respondents[j].email_hash == fp
                    ==> i == j
            &&& count_for(
                tf.responses,
                tf.respondents[find_fingerprint(tf.respondents, fp)->Some_0].id,
                form_id,
            ) == 1
        }),
{
    lemma_repeated_submissions(t, form_id, reqs, ids, nows);
    lemma_submission_keeps_invariants(t, form_id, reqs[0], ids[0], nows[0]);
    lemma_after_success(t, form_id, reqs[0], ids[0], nows[0]);
    let tf = submission_outcome(t, form_id, reqs[0], ids[0], nows[0])->Ok_0.1;
    let fp = fingerprint_of(reqs[0].respondent_email@);
    let i = find_fingerprint(tf.respondents, fp)->Some_0;
    lemma_single_identity_and_response(tf, fp, tf.respondents[i].id, form_id);
}

} // verus!
