use vstd::prelude::*;
use crate::model::{clone_opt_string, opt_view, Answer, AnswerValue, AnswerValueView, AnswerView, Response, ResponseView};
use crate::store::{answers_of_response, respondent_id_taken, responses_of_form, SurveyStore};
use crate::text::same_text;
use crate::ordering::{
    as_ints, goes_before, index_listed, is_index_permutation, order_desc, ordered_desc,
};

verus! {

/// How many responses to a form gave one role (no role at all counts as a role of its own).
pub struct RoleCount {
    pub role: Option<String>,
    pub count: i64,
}

/// Number of responses in `rs` whose role is `role`.
pub open spec fn role_count(rs: Seq<ResponseView>, role: Option<Seq<char>>) -> nat
    decreases rs.len(),
{
    if rs.len() == 0 {
        0
    } else {
        role_count(rs.drop_last(), role) + if rs.last().role == role {
            1nat
        } else {
            0nat
        }
    }
}

proof fn lemma_role_count_positive(rs: Seq<ResponseView>, role: Option<Seq<char>>)
    ensures
        role_count(rs, role) <= rs.len(),
        role_count(rs, role) > 0 <==> exists|m: int| 0 <= m < rs.len() && rs[m].role == role,
    decreases rs.len(),
{
    if rs.len() > 0 {
        lemma_role_count_positive(rs.drop_last(), role);
        if role_count(rs, role) > 0 && rs.last().role != role {
            let m = choose|m: int| 0 <= m < rs.len() - 1 && rs.drop_last()[m].role == role;
            assert(rs[m] == rs.drop_last()[m]);
        }
        if exists|m: int| 0 <= m < rs.len() && rs[m].role == role {
            let m = choose|m: int| 0 <= m < rs.len() && rs[m].role == role;
            if m < rs.len() - 1 {
                assert(rs.drop_last()[m] == rs[m]);
            }
        }
    }
}

/// Position of the first response in `rs` that gave `role` (`rs.len()` when none did).
pub open spec fn first_role_index(rs: Seq<ResponseView>, role: Option<Seq<char>>) -> int
    decreases rs.len(),
{
    if rs.len() == 0 {
        0
    } else if rs[0].role == role {
        0
    } else {
        1 + first_role_index(rs.drop_first(), role)
    }
}

proof fn lemma_first_role_index(rs: Seq<ResponseView>, role: Option<Seq<char>>, m: int)
    requires
        0 <= m < rs.len(),
        rs[m].role == role,
        forall|j: int| 0 <= j < m ==> rs[j].role != role,
    ensures
        first_role_index(rs, role) == m,
    decreases m,
{
    if m > 0 {
        assert forall|j: int| 0 <= j < m - 1 implies rs.drop_first()[j].role != role by {
            assert(rs.drop_first()[j] == rs[j + 1]);
        }
        lemma_first_role_index(rs.drop_first(), role, m - 1);
    }
}

fn same_role(a: &Option<String>, b: &Option<String>) -> (r: bool)
    ensures
        r == (opt_view(*a) == opt_view(*b)),
{
    match (a, b) {
        (Some(x), Some(y)) => same_text(x.as_str(), y.as_str()),
        (None, None) => true,
        _ => false,
    }
}

/// One entry per role that the responses to form `form_id` gave, in the order in which
/// each role first occurs, with the number of responses that gave it.
#[verifier::loop_isolation(false)]
fn roles_in_order_of_occurrence(store: &SurveyStore, form_id: &str) -> (r: Vec<RoleCount>)
    requires
        store@.responses.len() < i64::MAX,
    ensures
        forall|k: int|
            0 <= k < r@.len() ==> (#[trigger] r@[k]).count == role_count(
                responses_of_form(store@.responses, form_id@),
                opt_view(r@[k].role),
            ),
        forall|k: int, l: int|
            0 <= k < r@.len() && 0 <= l < r@.len() && k != l ==> opt_view(r@[k].role)
                != opt_view(r@[l].role),
        forall|m: int|
            #![trigger responses_of_form(store@.responses, form_id@)[m]]
            0 <= m < responses_of_form(store@.responses, form_id@).len() ==> exists|k: int|
                0 <= k < r@.len() && opt_view(#[trigger] r@[k].role) == responses_of_form(
                    store@.responses,
                    form_id@,
                )[m].role,
        forall|k: int| 0 <= k < r@.len() ==> (#[trigger] r@[k]).count >= 1,
        forall|k: int, l: int|
            0 <= k < l < r@.len() ==> first_role_index(
                responses_of_form(store@.responses, form_id@),
                opt_view(r@[k].role),
            ) < first_role_index(responses_of_form(store@.responses, form_id@), opt_view(r@[l].role)),
{
    let list = store.list_by_form(form_id);
    let ghost rf = responses_of_form(store@.responses, form_id@);
    proof {
        crate::store::lemma_responses_of_form_len(store@.responses, form_id@);
    }
    let n = list.len();
    let mut out: Vec<RoleCount> = Vec::new();
    let mut i: usize = 0;
    while i < n
        invariant
            n == list@.len(),
            list@.map_values(|x: Response| x@) == rf,
            n < i64::MAX,
            i <= n,
            forall|k: int|
                0 <= k < out@.len() ==> (#[trigger] out@[k]).count == role_count(
                    rf.take(i as int),
                    opt_view(out@[k].role),
                ),
            forall|k: int, l: int|
                0 <= k < out@.len() && 0 <= l < out@.len() && k != l ==> opt_view(out@[k].role)
                    != opt_view(out@[l].role),
            forall|k: int| 0 <= k < out@.len() ==> (#[trigger] out@[k]).count >= 1,
            forall|k: int|
                0 <= k < out@.len() ==> first_role_index(rf, opt_view(#[trigger] out@[k].role)) < i,
            forall|k: int, l: int|
                0 <= k < l < out@.len() ==> first_role_index(rf, opt_view(out@[k].role))
                    < first_role_index(rf, opt_view(out@[l].role)),
            forall|m: int|
                #![trigger rf[m]]
                0 <= m < i ==> exists|k: int|
                    0 <= k < out@.len() && opt_view(#[trigger] out@[k].role) == rf[m].role,
        decreases n - i,
    {
        let ghost ro = rf[i as int].role;
        assert(list@[i as int]@ == rf[i as int]);
        assert(rf.take(i + 1).drop_last() =~= rf.take(i as int));
        assert(rf.take(i + 1).last() == rf[i as int]);
        let m = out.len();
        let mut k: usize = 0;
        while k < m
            invariant
                m == out@.len(),
                k <= m,
                forall|j: int| 0 <= j < k ==> opt_view(out@[j].role) != opt_view(list@[i as int].role),
            decreases m - k,
        {
            if same_role(&out[k].role, &list[i].role) {
                break;
            }
            k = k + 1;
        }
        let ghost before = out@;
        if k < m {
            proof {
                lemma_role_count_positive(rf.take(i as int), ro);
            }
            let c = out[k].count;
            assert(opt_view(out@[k as int].role) == ro);
            assert(c <= i);
            let entry = RoleCount { role: clone_opt_string(&out[k].role), count: c + 1 };
            out.set(k, entry);
            assert forall|j: int| 0 <= j < out@.len() implies (#[trigger] out@[j]).count
                == role_count(rf.take(i + 1), opt_view(out@[j].role)) by {
                if j != k {
                    assert(out@[j] == before[j]);
                }
            }
            assert forall|q: int| #![trigger rf[q]] 0 <= q <= i implies exists|j: int|
                0 <= j < out@.len() && opt_view(#[trigger] out@[j].role) == rf[q].role by {
                if q < i {
                    let j = choose|j: int| 0 <= j < before.len() && opt_view(#[trigger] before[j].role) == rf[q].role;
                    assert(opt_view(out@[j].role) == rf[q].role);
                } else {
                    assert(opt_view(out@[k as int].role) == rf[q].role);
                }
            }
        } else {
            proof {
                lemma_role_count_positive(rf.take(i as int), ro);
                if role_count(rf.take(i as int), ro) > 0 {
                    let q = choose|q: int| 0 <= q < i && rf.take(i as int)[q].role == ro;
                    assert(rf.take(i as int)[q] == rf[q]);
                    let j = choose|j: int| 0 <= j < before.len() && opt_view(#[trigger] before[j].role) == rf[q].role;
                    assert(false);
                }
                assert forall|j: int| 0 <= j < i implies rf[j].role != ro by {
                    if rf[j].role == ro {
                        assert(rf.take(i as int)[j] == rf[j]);
                    }
                }
                lemma_first_role_index(rf, ro, i as int);
            }
            out.push(RoleCount { role: clone_opt_string(&list[i].role), count: 1 });
            assert forall|j: int| 0 <= j < out@.len() implies (#[trigger] out@[j]).count
                == role_count(rf.take(i + 1), opt_view(out@[j].role)) by {
                if j < m {
                    assert(out@[j] == before[j]);
                }
            }
            assert forall|q: int| #![trigger rf[q]] 0 <= q <= i implies exists|j: int|
                0 <= j < out@.len() && opt_view(#[trigger] out@[j].role) == rf[q].role by {
                if q < i {
                    let j = choose|j: int| 0 <= j < before.len() && opt_view(#[trigger] before[j].role) == rf[q].role;
                    assert(out@[j] == before[j]);
                } else {
                    assert(opt_view(out@[m as int].role) == rf[q].role);
                }
            }
        }
        i = i + 1;
    }
    assert(rf.take(n as int) =~= rf);
    out
}

/// Entry `a` comes before entry `b` in a role distribution of `rs`: it has the larger
/// count, or the same count and a role that occurred first.
pub open spec fn role_before(rs: Seq<ResponseView>, a: RoleCount, b: RoleCount) -> bool {
    a.count > b.count || (a.count == b.count && first_role_index(rs, opt_view(a.role))
        < first_role_index(rs, opt_view(b.role)))
}

/// The role distribution of form `form_id`: one entry per role that its responses gave
/// (no role at all counts as a role of its own), with the number of responses that gave
/// it, at least one. Entries come by count, largest first; roles with equal counts come
/// in the order in which they first occur. Responses whose respondent was erased are
/// counted too.
pub fn role_distribution(store: &SurveyStore, form_id: &str) -> (r: Vec<RoleCount>)
    requires
        store@.responses.len() < i64::MAX,
    ensures
        forall|k: int|
            0 <= k < r@.len() ==> (#[trigger] r@[k]).count == role_count(
                responses_of_form(store@.responses, form_id@),
                opt_view(r@[k].role),
            ) && r@[k].count >= 1,
        forall|k: int, l: int|
            0 <= k < r@.len() && 0 <= l < r@.len() && k != l ==> opt_view(r@[k].role)
                != opt_view(r@[l].role),
        forall|m: int|
            #![trigger responses_of_form(store@.responses, form_id@)[m]]
            0 <= m < responses_of_form(store@.responses, form_id@).len() ==> exists|k: int|
                0 <= k < r@.len() && opt_view(#[trigger] r@[k].role) == responses_of_form(
                    store@.responses,
                    form_id@,
                )[m].role,
        forall|k: int, l: int|
            0 <= k < l < r@.len() ==> role_before(
                responses_of_form(store@.responses, form_id@),
                #[trigger] r@[k],
                #[trigger] r@[l],
            ),
{
    let ghost rf = responses_of_form(store@.responses, form_id@);
    let found = roles_in_order_of_occurrence(store, form_id);
    let n = found.len();
    let mut keys: Vec<i64> = Vec::new();
    let mut i: usize = 0;
    while i < n
        invariant
            n == found@.len(),
            i <= n,
            keys@.len() == i,
            forall|k: int| 0 <= k < i ==> keys@[k] == (#[trigger] found@[k]).count,
        decreases n - i,
    {
        keys.push(found[i].count);
        i = i + 1;
    }
    let p = order_desc(&keys);
    let ghost pi = as_ints(p@);
    let mut out: Vec<RoleCount> = Vec::new();
    let mut t: usize = 0;
    while t < n
        invariant
            n == found@.len(),
            n == keys@.len(),
            n == p@.len(),
            pi == as_ints(p@),
            forall|k: int| 0 <= k < n ==> 0 <= #[trigger] pi[k] < n,
            t <= n,
            out@.len() == t,
            forall|k: int| 0 <= k < t ==> #[trigger] out@[k] == found@[pi[k]],
        decreases n - t,
    {
        assert(pi[t as int] == p@[t as int] as int);
        let q = p[t];
        out.push(RoleCount { role: clone_opt_string(&found[q].role), count: found[q].count });
        t = t + 1;
    }
    assert forall|k: int| 0 <= k < out@.len() implies (#[trigger] out@[k]).count == role_count(rf, opt_view(out@[k].role))
        && out@[k].count >= 1 by {
        assert(out@[k] == found@[pi[k]]);
    }
    assert forall|k: int, l: int|
        0 <= k < out@.len() && 0 <= l < out@.len() && k != l implies opt_view(out@[k].role)
            != opt_view(out@[l].role) by {
        assert(out@[k] == found@[pi[k]] && out@[l] == found@[pi[l]]);
        if k < l {
            assert(pi[k] != pi[l]);
        } else {
            assert(pi[l] != pi[k]);
        }
    }
    assert forall|m: int|
        #![trigger rf[m]]
        0 <= m < rf.len() implies exists|k: int| 0 <= k < out@.len() && opt_view(#[trigger] out@[k].role) == rf[m].role by {
        let q = choose|q: int| 0 <= q < found@.len() && opt_view(#[trigger] found@[q].role) == rf[m].role;
        assert(index_listed(pi, q));
        let k = choose|k: int| 0 <= k < pi.len() && pi[k] == q;
        assert(out@[k] == found@[q]);
    }
    assert forall|k: int, l: int| 0 <= k < l < out@.len() implies role_before(rf, #[trigger] out@[k], #[trigger] out@[l]) by {
        assert(out@[k] == found@[pi[k]] && out@[l] == found@[pi[l]]);
        assert(goes_before(keys@, pi[k], pi[l]));
        assert(keys@[pi[k]] == found@[pi[k]].count);
        assert(keys@[pi[l]] == found@[pi[l]].count);
    }
    out
}

/// A response as an administrator sees it: with the respondent's name and email while
/// the identity record exists, and without them once it was erased.
pub struct ResponseWithPII {
    pub id: String,
    pub form_id: String,
    pub respondent_name: Option<String>,
    pub respondent_email: Option<String>,
    pub role: Option<String>,
    pub submitted_at: i64,
    pub answers: Vec<Answer>,
}

/// Entry `v` shows response `resp` of store `store`, joined with its identity record.
pub open spec fn shows_response(store: SurveyStore, resp: ResponseView, v: ResponseWithPII) -> bool {
    &&& v.id@ == resp.id
    &&& v.form_id@ == resp.form_id
    &&& opt_view(v.role) == resp.role
    &&& v.submitted_at == resp.submitted_at
    &&& v.answers@.map_values(|a: Answer| a@) == answers_of_response(store@.answers, resp.id)
    &&& (v.respondent_name is Some <==> respondent_id_taken(store@, resp.respondent_id))
    &&& (v.respondent_email is Some <==> respondent_id_taken(store@, resp.respondent_id))
    &&& (v.respondent_name is Some ==> exists|j: int|
        0 <= j < store@.respondents.len() && store@.respondents[j].id == resp.respondent_id
            && store@.respondents[j].name == v.respondent_name->Some_0@
            && store@.respondents[j].email == v.respondent_email->Some_0@)
}

/// When each response in `rs` was submitted.
pub open spec fn submitted_times(rs: Seq<ResponseView>) -> Seq<i64> {
    rs.map_values(|x: ResponseView| x.submitted_at)
}

/// The responses to form `form_id`, newest first (equal times in the order they were
/// stored), each with its answers and, where the identity record still exists, the
/// respondent's name and email.
pub fn responses_with_pii(store: &SurveyStore, form_id: &str) -> (r: Vec<ResponseWithPII>)
    ensures
        r@.len() == responses_of_form(store@.responses, form_id@).len(),
        exists|p: Seq<int>|
            is_index_permutation(p, responses_of_form(store@.responses, form_id@).len())
                && ordered_desc(submitted_times(responses_of_form(store@.responses, form_id@)), p)
                && forall|k: int|
                0 <= k < r@.len() ==> shows_response(
                    *store,
                    responses_of_form(store@.responses, form_id@)[p[k]],
                    #[trigger] r@[k],
                ),
{
    let list = store.list_by_form(form_id);
    let ghost rf = responses_of_form(store@.responses, form_id@);
    let n = list.len();
    let mut keys: Vec<i64> = Vec::new();
    let mut i: usize = 0;
    while i < n
        invariant
            n == list@.len(),
            list@.map_values(|x: Response| x@) == rf,
            i <= n,
            keys@.len() == i,
            forall|k: int| 0 <= k < i ==> keys@[k] == (#[trigger] rf[k]).submitted_at,
        decreases n - i,
    {
        assert(list@[i as int]@ == rf[i as int]);
        keys.push(list[i].submitted_at);
        i = i + 1;
    }
    assert(keys@ =~= submitted_times(rf));
    let p = order_desc(&keys);
    let ghost pi = as_ints(p@);
    let mut out: Vec<ResponseWithPII> = Vec::new();
    let mut t: usize = 0;
    while t < n
        invariant
            n == list@.len(),
            n == p@.len(),
            list@.map_values(|x: Response| x@) == rf,
            rf == responses_of_form(store@.responses, form_id@),
            pi == as_ints(p@),
            forall|k: int| 0 <= k < n ==> 0 <= #[trigger] pi[k] < n,
            t <= n,
            out@.len() == t,
            forall|k: int| 0 <= k < t ==> shows_response(*store, rf[pi[k]], #[trigger] out@[k]),
        decreases n - t,
    {
        assert(pi[t as int] == p@[t as int] as int);
        let resp = &list[p[t]];
        assert(resp@ == rf[pi[t as int]]);
        let person = store.find_by_id(resp.respondent_id.as_str());
        let (name, email) = match person {
            Some(x) => (Some(x.name), Some(x.email)),
            None => (None, None),
        };
        let entry = ResponseWithPII {
            id: resp.id.clone(),
            form_id: resp.form_id.clone(),
            respondent_name: name,
            respondent_email: email,
            role: clone_opt_string(&resp.role),
            submitted_at: resp.submitted_at,
            answers: store.list_by_response(resp.id.as_str()),
        };
        out.push(entry);
        t = t + 1;
    }
    assert(is_index_permutation(pi, rf.len()) && ordered_desc(submitted_times(rf), pi));
    out
}

/// How many answers to a question gave one rating.
pub struct RatingCount {
    pub rating: i32,
    pub count: i64,
}

/// The rating an answer value carries: a whole number, or the rating of a rated comment.
pub open spec fn rating_of(v: AnswerValueView) -> Option<i64> {
    match v {
        AnswerValueView::Number(n) => Some(n),
        AnswerValueView::Rated { rating, .. } => Some(rating),
        _ => None,
    }
}

/// Some response in `rs` has id `rid` and belongs to form `fid`.
pub open spec fn response_in_form(rs: Seq<ResponseView>, rid: Seq<char>, fid: Seq<char>) -> bool {
    exists|i: int| 0 <= i < rs.len() && rs[i].id == rid && rs[i].form_id == fid
}

/// The ratings given to question `qid` in responses to form `fid`, in the order the
/// answers were stored.
pub open spec fn question_ratings_of(
    ans: Seq<AnswerView>,
    rs: Seq<ResponseView>,
    fid: Seq<char>,
    qid: Seq<char>,
) -> Seq<i64>
    decreases ans.len(),
{
    if ans.len() == 0 {
        Seq::empty()
    } else {
        let rest = question_ratings_of(ans.drop_last(), rs, fid, qid);
        let a = ans.last();
        if a.question_id == qid && response_in_form(rs, a.response_id, fid) && rating_of(
            a.value,
        ) is Some {
            rest.push(rating_of(a.value)->Some_0)
        } else {
            rest
        }
    }
}

/// Number of times `x` occurs in `s`.
pub open spec fn occurrences(s: Seq<i64>, x: i64) -> nat
    decreases s.len(),
{
    if s.len() == 0 {
        0
    } else {
        occurrences(s.drop_last(), x) + if s.last() == x {
            1nat
        } else {
            0nat
        }
    }
}

/// A rating that a `RatingCount` can hold.
pub open spec fn fits_i32(x: i64) -> bool {
    i32::MIN <= x <= i32::MAX
}

fn rating_value(v: &AnswerValue) -> (r: Option<i64>)
    ensures
        r == rating_of(v@),
{
    match v {
        AnswerValue::Number(n) => Some(*n),
        AnswerValue::Rated { rating, .. } => Some(*rating),
        _ => None,
    }
}

fn in_form(store: &SurveyStore, rid: &str, fid: &str) -> (r: bool)
    ensures
        r == response_in_form(store@.responses, rid@, fid@),
{
    let n = store.responses.len();
    let mut i: usize = 0;
    while i < n
        invariant
            n == store@.responses.len(),
            i <= n,
            forall|k: int|
                0 <= k < i ==> !(store@.responses[k].id == rid@ && store@.responses[k].form_id
                    == fid@),
        decreases n - i,
    {
        if same_text(store.responses[i].id.as_str(), rid) && same_text(
            store.responses[i].form_id.as_str(),
            fid,
        ) {
            assert(store@.responses[i as int].id == rid@);
            return true;
        }
        i = i + 1;
    }
    false
}

/// The ratings given to question `question_id` in responses to form `form_id`, in the
/// order the answers were stored. Answers without a rating are left out.
pub fn question_ratings(store: &SurveyStore, form_id: &str, question_id: &str) -> (r: Vec<i64>)
    ensures
        r@ == question_ratings_of(store@.answers, store@.responses, form_id@, question_id@),
{
    let n = store.answers.len();
    let mut out: Vec<i64> = Vec::new();
    let mut i: usize = 0;
    while i < n
        invariant
            n == store@.answers.len(),
            i <= n,
            out@ == question_ratings_of(
                store@.answers.subrange(0, i as int),
                store@.responses,
                form_id@,
                question_id@,
            ),
        decreases n - i,
    {
        assert(store@.answers.subrange(0, i + 1).drop_last() =~= store@.answers.subrange(
            0,
            i as int,
        ));
        let a = &store.answers[i];
        if same_text(a.question_id.as_str(), question_id) && in_form(
            store,
            a.response_id.as_str(),
            form_id,
        ) {
            if let Some(x) = rating_value(&a.value) {
                out.push(x);
            }
        }
        i = i + 1;
    }
    assert(store@.answers.subrange(0, n as int) =~= store@.answers);
    out
}

proof fn lemma_occurrences(s: Seq<i64>, x: i64)
    ensures
        occurrences(s, x) <= s.len(),
        occurrences(s, x) > 0 ==> exists|m: int| 0 <= m < s.len() && s[m] == x,
    decreases s.len(),
{
    if s.len() > 0 {
        lemma_occurrences(s.drop_last(), x);
        if occurrences(s, x) > 0 && s.last() != x {
            let m = choose|m: int| 0 <= m < s.len() - 1 && s.drop_last()[m] == x;
            assert(s[m] == s.drop_last()[m]);
        }
    }
}

/// `v` is the distribution of `ratings`: one entry per distinct rating, in ascending
/// order, each with the number of times it occurs (at least once).
pub open spec fn is_rating_distribution(ratings: Seq<i64>, v: Seq<RatingCount>) -> bool {
    &&& forall|k: int, l: int| 0 <= k < l < v.len() ==> v[k].rating < v[l].rating
    &&& forall|k: int|
        0 <= k < v.len() ==> (#[trigger] v[k]).count == occurrences(ratings, v[k].rating as i64)
            && v[k].count >= 1
    &&& forall|m: int|
        #![trigger ratings[m]]
        0 <= m < ratings.len() ==> exists|k: int|
            0 <= k < v.len() && (#[trigger] v[k]).rating as i64 == ratings[m]
}

/// The distribution of `ratings`: one entry per distinct rating, in ascending order, with
/// the number of times it occurs (at least once). None when a rating does not fit in an `i32`.
#[verifier::loop_isolation(false)]
#[verifier::spinoff_prover]
pub fn rating_distribution(ratings: &Vec<i64>) -> (r: Option<Vec<RatingCount>>)
    requires
        ratings@.len() < i64::MAX,
    ensures
        r is None <==> exists|m: int| 0 <= m < ratings@.len() && !fits_i32(#[trigger] ratings@[m]),
        r matches Some(v) ==> is_rating_distribution(ratings@, v@),
{
    let n = ratings.len();
    let mut j: usize = 0;
    while j < n
        invariant
            n == ratings@.len(),
            j <= n,
            forall|m: int| 0 <= m < j ==> fits_i32(#[trigger] ratings@[m]),
        decreases n - j,
    {
        let x = ratings[j];
        if x < i32::MIN as i64 || x > i32::MAX as i64 {
            assert(!fits_i32(ratings@[j as int]));
            return None;
        }
        j = j + 1;
    }
    let mut out: Vec<RatingCount> = Vec::new();
    let mut i: usize = 0;
    while i < n
        invariant
            n == ratings@.len(),
            i <= n,
            forall|m: int| 0 <= m < n ==> fits_i32(#[trigger] ratings@[m]),
            forall|k: int, l: int| 0 <= k < l < out@.len() ==> out@[k].rating < out@[l].rating,
            forall|k: int|
                0 <= k < out@.len() ==> (#[trigger] out@[k]).count == occurrences(
                    ratings@.take(i as int),
                    out@[k].rating as i64,
                ) && out@[k].count >= 1,
            forall|m: int|
                #![trigger ratings@[m]]
                0 <= m < i ==> exists|k: int|
                    0 <= k < out@.len() && (#[trigger] out@[k]).rating as i64 == ratings@[m],
        decreases n - i,
    {
        let x = ratings[i];
        assert(fits_i32(ratings@[i as int]));
        let xr = x as i32;
        assert(ratings@.take(i + 1).drop_last() =~= ratings@.take(i as int));
        assert(ratings@.take(i + 1).last() == x);
        proof {
            lemma_occurrences(ratings@.take(i as int), x);
        }
        let m = out.len();
        let mut p: usize = 0;
        while p < m && out[p].rating < xr
            invariant
                m == out@.len(),
                p <= m,
                forall|k: int| 0 <= k < p ==> out@[k].rating < xr,
            decreases m - p,
        {
            p = p + 1;
        }
        let ghost before = out@;
        if p < m && out[p].rating == xr {
            let c = out[p].count;
            assert(c <= i);
            out.set(p, RatingCount { rating: xr, count: c + 1 });
            assert forall|k: int| 0 <= k < out@.len() implies (#[trigger] out@[k]).count
                == occurrences(ratings@.take(i + 1), out@[k].rating as i64) by {
                if k != p {
                    assert(out@[k] == before[k]);
                    assert(before[k].rating != xr) by {
                        if k < p {
                        } else {
                            assert(before[p as int].rating < before[k].rating);
                        }
                    }
                }
            }
            assert forall|q: int| #![trigger ratings@[q]] 0 <= q <= i implies exists|k: int|
                0 <= k < out@.len() && (#[trigger] out@[k]).rating as i64 == ratings@[q] by {
                if q < i {
                    let k = choose|k: int| 0 <= k < before.len() && (#[trigger] before[k]).rating as i64 == ratings@[q];
                    assert(out@[k].rating == before[k].rating);
                } else {
                    assert(out@[p as int].rating as i64 == ratings@[q]);
                }
            }
        } else {
            proof {
                if occurrences(ratings@.take(i as int), x) > 0 {
                    let q = choose|q: int| 0 <= q < i && ratings@.take(i as int)[q] == x;
                    assert(ratings@.take(i as int)[q] == ratings@[q]);
                    let k = choose|k: int| 0 <= k < before.len() && (#[trigger] before[k]).rating as i64 == ratings@[q];
                    if k < p {
                    } else if k == p {
                    } else {
                        assert(before[p as int].rating < before[k].rating);
                    }
                    assert(false);
                }
            }
            out.insert(p, RatingCount { rating: xr, count: 1 });
            assert forall|k: int| 0 <= k < out@.len() implies (#[trigger] out@[k]).count
                == occurrences(ratings@.take(i + 1), out@[k].rating as i64) by {
                if k < p {
                    assert(out@[k] == before[k]);
                } else if k > p {
                    assert(out@[k] == before[k - 1]);
                    assert(before[k - 1].rating > xr) by {
                        if k - 1 > p {
                            assert(before[p as int].rating < before[k - 1].rating);
                        }
                    }
                }
            }
            assert forall|k: int, l: int| 0 <= k < l < out@.len() implies out@[k].rating
                < out@[l].rating by {
                if l < p {
                    assert(out@[k] == before[k] && out@[l] == before[l]);
                } else if l == p {
                    assert(out@[k] == before[k]);
                } else if k < p {
                    assert(out@[k] == before[k] && out@[l] == before[l - 1]);
                    assert(before[l - 1].rating > xr) by {
                        if l - 1 > p {
                            assert(before[p as int].rating < before[l - 1].rating);
                        }
                    }
                } else if k == p {
                    assert(out@[l] == before[l - 1]);
                    assert(before[l - 1].rating > xr) by {
                        if l - 1 > p {
                            assert(before[p as int].rating < before[l - 1].rating);
                        }
                    }
                } else {
                    assert(out@[k] == before[k - 1] && out@[l] == before[l - 1]);
                }
            }
            assert forall|q: int| #![trigger ratings@[q]] 0 <= q <= i implies exists|k: int|
                0 <= k < out@.len() && (#[trigger] out@[k]).rating as i64 == ratings@[q] by {
                if q < i {
                    let k = choose|k: int| 0 <= k < before.len() && (#[trigger] before[k]).rating as i64 == ratings@[q];
                    if k < p {
                        assert(out@[k] == before[k]);
                    } else {
                        assert(out@[k + 1] == before[k]);
                    }
                } else {
                    assert(out@[p as int].rating as i64 == ratings@[q]);
                }
            }
        }
        i = i + 1;
    }
    assert(ratings@.take(n as int) =~= ratings@);
    Some(out)
}

/// Statistics of one question of a form: how many responses answered it, and how its
/// ratings are distributed.
pub struct QuestionStat {
    pub question_id: String,
    pub response_count: i64,
    pub rating_distribution: Vec<RatingCount>,
}

/// Response `rid` has an answer to question `qid` in `ans`.
pub open spec fn has_answer(ans: Seq<AnswerView>, rid: Seq<char>, qid: Seq<char>) -> bool {
    exists|i: int| 0 <= i < ans.len() && ans[i].response_id == rid && ans[i].question_id == qid
}

/// Number of responses in `rs` that answered question `qid`.
pub open spec fn answered_count(rs: Seq<ResponseView>, ans: Seq<AnswerView>, qid: Seq<char>) -> nat
    decreases rs.len(),
{
    if rs.len() == 0 {
        0
    } else {
        answered_count(rs.drop_last(), ans, qid) + if has_answer(ans, rs.last().id, qid) {
            1nat
        } else {
            0nat
        }
    }
}

proof fn lemma_question_ratings_len(
    ans: Seq<AnswerView>,
    rs: Seq<ResponseView>,
    fid: Seq<char>,
    qid: Seq<char>,
)
    ensures
        question_ratings_of(ans, rs, fid, qid).len() <= ans.len(),
    decreases ans.len(),
{
    if ans.len() > 0 {
        lemma_question_ratings_len(ans.drop_last(), rs, fid, qid);
    }
}

fn answers_question(store: &SurveyStore, rid: &str, qid: &str) -> (r: bool)
    ensures
        r == has_answer(store@.answers, rid@, qid@),
{
    let n = store.answers.len();
    let mut i: usize = 0;
    while i < n
        invariant
            n == store@.answers.len(),
            i <= n,
            forall|k: int|
                0 <= k < i ==> !(store@.answers[k].response_id == rid@ && store@.answers[k].question_id
                    == qid@),
        decreases n - i,
    {
        if same_text(store.answers[i].response_id.as_str(), rid) && same_text(
            store.answers[i].question_id.as_str(),
            qid,
        ) {
            assert(store@.answers[i as int].response_id == rid@);
            return true;
        }
        i = i + 1;
    }
    false
}

/// Number of responses to form `form_id` that answered question `question_id`; each
/// response counts once however many answers it gave.
pub fn answered_responses(store: &SurveyStore, form_id: &str, question_id: &str) -> (r: usize)
    ensures
        r == answered_count(responses_of_form(store@.responses, form_id@), store@.answers, question_id@),
{
    let list = store.list_by_form(form_id);
    let ghost rf = responses_of_form(store@.responses, form_id@);
    let n = list.len();
    let mut c: usize = 0;
    let mut i: usize = 0;
    while i < n
        invariant
            n == list@.len(),
            list@.map_values(|x: Response| x@) == rf,
            i <= n,
            c <= i,
            c == answered_count(rf.take(i as int), store@.answers, question_id@),
        decreases n - i,
    {
        assert(rf.take(i + 1).drop_last() =~= rf.take(i as int));
        assert(list@[i as int]@ == rf[i as int]);
        if answers_question(store, list[i].id.as_str(), question_id) {
            c = c + 1;
        }
        i = i + 1;
    }
    assert(rf.take(n as int) =~= rf);
    c
}

/// Statistics of the given questions of form `form_id`, in the order given (the form's
/// rating questions by position): for each, the number of responses that answered it and
/// the distribution of its ratings. None when a rating does not fit in an `i32`.
pub fn question_stats(store: &SurveyStore, form_id: &str, question_ids: &Vec<String>) -> (r: Option<
    Vec<QuestionStat>,
>)
    requires
        store@.answers.len() < i64::MAX,
        store@.responses.len() < i64::MAX,
    ensures
        r is None <==> exists|k: int, m: int|
            0 <= k < question_ids@.len() && 0 <= m < question_ratings_of(
                store@.answers,
                store@.responses,
                form_id@,
                question_ids@[k]@,
            ).len() && !fits_i32(
                #[trigger] question_ratings_of(
                    store@.answers,
                    store@.responses,
                    form_id@,
                    question_ids@[k]@,
                )[m],
            ),
        r matches Some(v) ==> v@.len() == question_ids@.len() && forall|k: int|
            0 <= k < v@.len() ==> {
                &&& (#[trigger] v@[k]).question_id@ == question_ids@[k]@
                &&& v@[k].response_count == answered_count(
                    responses_of_form(store@.responses, form_id@),
                    store@.answers,
                    question_ids@[k]@,
                )
                &&& is_rating_distribution(
                    question_ratings_of(store@.answers, store@.responses, form_id@, question_ids@[k]@),
                    v@[k].rating_distribution@,
                )
            },
{
    proof {
        crate::store::lemma_responses_of_form_len(store@.responses, form_id@);
    }
    let n = question_ids.len();
    let mut out: Vec<QuestionStat> = Vec::new();
    let mut i: usize = 0;
    while i < n
        invariant
            n == question_ids@.len(),
            store@.answers.len() < i64::MAX,
            store@.responses.len() < i64::MAX,
            responses_of_form(store@.responses, form_id@).len() <= store@.responses.len(),
            i <= n,
            out@.len() == i,
            forall|k: int, m: int|
                0 <= k < i && 0 <= m < question_ratings_of(
                    store@.answers,
                    store@.responses,
                    form_id@,
                    question_ids@[k]@,
                ).len() ==> fits_i32(
                    #[trigger] question_ratings_of(
                        store@.answers,
                        store@.responses,
                        form_id@,
                        question_ids@[k]@,
                    )[m],
                ),
            forall|k: int|
                0 <= k < i ==> {
                    &&& (#[trigger] out@[k]).question_id@ == question_ids@[k]@
                    &&& out@[k].response_count == answered_count(
                        responses_of_form(store@.responses, form_id@),
                        store@.answers,
                        question_ids@[k]@,
                    )
                    &&& is_rating_distribution(
                        question_ratings_of(store@.answers, store@.responses, form_id@, question_ids@[k]@),
                        out@[k].rating_distribution@,
                    )
                },
        decreases n - i,
    {
        let qid = question_ids[i].as_str();
        let ratings = question_ratings(store, form_id, qid);
        proof {
            lemma_question_ratings_len(store@.answers, store@.responses, form_id@, qid@);
            lemma_answered_count_len(responses_of_form(store@.responses, form_id@), store@.answers, qid@);
        }
        let count = answered_responses(store, form_id, qid);
        match rating_distribution(&ratings) {
            Some(dist) => {
                out.push(
                    QuestionStat {
                        question_id: question_ids[i].clone(),
                        response_count: count as i64,
                        rating_distribution: dist,
                    },
                );
            },
            None => {
                return None;
            },
        }
        i = i + 1;
    }
    Some(out)
}

proof fn lemma_answered_count_len(rs: Seq<ResponseView>, ans: Seq<AnswerView>, qid: Seq<char>)
    ensures
        answered_count(rs, ans, qid) <= rs.len(),
    decreases rs.len(),
{
    if rs.len() > 0 {
        lemma_answered_count_len(rs.drop_last(), ans, qid);
    }
}

} // verus!
