use vstd::prelude::*;
use crate::model::{Answer, AnswerView, Respondent, RespondentView, Response, ResponseView};
use crate::text::same_text;

verus! {

/// Why a write to the store was refused.
#[derive(PartialEq, Eq, Structural, Clone, Copy, Debug)]
pub enum StoreError {
    /// A uniqueness constraint failed: a fingerprint, or a (respondent, form) pair, is taken.
    UniqueViolation,
    /// A record with the same id already exists.
    KeyViolation,
    /// An answer names a response that does not exist.
    MissingParent,
    /// The store could not be reached or failed for another reason.
    Unavailable,
}

/// The contents of the three tables.
#[verifier::ext_equal]
pub struct Tables {
    pub respondents: Seq<RespondentView>,
    pub responses: Seq<ResponseView>,
    pub answers: Seq<AnswerView>,
}

/// Index of the first respondent whose fingerprint is `fp`, if any.
pub open spec fn find_fingerprint(rs: Seq<RespondentView>, fp: Seq<char>) -> Option<int>
    decreases rs.len(),
{
    if rs.len() == 0 {
        None
    } else {
        match find_fingerprint(rs.drop_last(), fp) {
            Some(i) => Some(i),
            None => if rs.last().email_hash == fp {
                Some(rs.len() - 1)
            } else {
                None
            },
        }
    }
}

/// Number of responses by respondent `rid` to form `fid`.
pub open spec fn count_for(rs: Seq<ResponseView>, rid: Seq<char>, fid: Seq<char>) -> nat
    decreases rs.len(),
{
    if rs.len() == 0 {
        0
    } else {
        count_for(rs.drop_last(), rid, fid) + if rs.last().respondent_id == rid
            && rs.last().form_id == fid {
            1nat
        } else {
            0nat
        }
    }
}

/// The responses to form `fid`, in the order they were stored.
pub open spec fn responses_of_form(rs: Seq<ResponseView>, fid: Seq<char>) -> Seq<ResponseView>
    decreases rs.len(),
{
    if rs.len() == 0 {
        Seq::empty()
    } else if rs.last().form_id == fid {
        responses_of_form(rs.drop_last(), fid).push(rs.last())
    } else {
        responses_of_form(rs.drop_last(), fid)
    }
}

/// The answers of response `rid`, in the order they were stored.
pub open spec fn answers_of_response(ans: Seq<AnswerView>, rid: Seq<char>) -> Seq<AnswerView>
    decreases ans.len(),
{
    if ans.len() == 0 {
        Seq::empty()
    } else if ans.last().response_id == rid {
        answers_of_response(ans.drop_last(), rid).push(ans.last())
    } else {
        answers_of_response(ans.drop_last(), rid)
    }
}

/// A form's responses are among all the responses.
pub proof fn lemma_responses_of_form_len(rs: Seq<ResponseView>, form_id: Seq<char>)
    ensures
        responses_of_form(rs, form_id).len() <= rs.len(),
    decreases rs.len(),
{
    if rs.len() > 0 {
        lemma_responses_of_form_len(rs.drop_last(), form_id);
    }
}

/// Some respondent has id `id`.
pub open spec fn respondent_id_taken(t: Tables, id: Seq<char>) -> bool {
    exists|i: int| 0 <= i < t.respondents.len() && t.respondents[i].id == id
}

/// Some respondent holds fingerprint `fp`.
pub open spec fn fingerprint_taken(t: Tables, fp: Seq<char>) -> bool {
    exists|i: int| 0 <= i < t.respondents.len() && t.respondents[i].email_hash == fp
}

/// Some response has id `id`.
pub open spec fn response_id_taken(t: Tables, id: Seq<char>) -> bool {
    exists|i: int| 0 <= i < t.responses.len() && t.responses[i].id == id
}

/// Respondent `rid` already has a response to form `fid`.
pub open spec fn pair_taken(t: Tables, rid: Seq<char>, fid: Seq<char>) -> bool {
    exists|i: int|
        0 <= i < t.responses.len() && t.responses[i].respondent_id == rid
            && t.responses[i].form_id == fid
}

/// Some answer has id `id`.
pub open spec fn answer_id_taken(t: Tables, id: Seq<char>) -> bool {
    exists|i: int| 0 <= i < t.answers.len() && t.answers[i].id == id
}

/// The tables' invariants: ids are unique in each table, at most one respondent holds a
/// fingerprint, at most one response exists per (respondent, form), and every answer
/// belongs to a stored response.
pub open spec fn tables_wf(t: Tables) -> bool {
    &&& forall|i: int, j: int|
        0 <= i < t.respondents.len() && 0 <= j < t.respondents.len() && i != j ==> {
            &&& t.respondents[i].id != t.respondents[j].id
            &&& t.respondents[i].email_hash != t.respondents[j].email_hash
        }
    &&& forall|i: int, j: int|
        0 <= i < t.responses.len() && 0 <= j < t.responses.len() && i != j ==> {
            &&& t.responses[i].id != t.responses[j].id
            &&& !(t.responses[i].respondent_id == t.responses[j].respondent_id
                && t.responses[i].form_id == t.responses[j].form_id)
        }
    &&& forall|i: int, j: int|
        0 <= i < t.answers.len() && 0 <= j < t.answers.len() && i != j ==> t.answers[i].id
            != t.answers[j].id
    &&& forall|i: int|
        0 <= i < t.answers.len() ==> response_id_taken(t, #[trigger] t.answers[i].response_id)
}

/// Inserting a respondent: the fingerprint and the id must be free.
pub open spec fn insert_respondent(t: Tables, r: RespondentView) -> Result<Tables, StoreError> {
    if fingerprint_taken(t, r.email_hash) {
        Err(StoreError::UniqueViolation)
    } else if respondent_id_taken(t, r.id) {
        Err(StoreError::KeyViolation)
    } else {
        Ok(Tables { respondents: t.respondents.push(r), ..t })
    }
}

/// Inserting a response: the (respondent, form) pair and the id must be free.
pub open spec fn insert_response(t: Tables, r: ResponseView) -> Result<Tables, StoreError> {
    if pair_taken(t, r.respondent_id, r.form_id) {
        Err(StoreError::UniqueViolation)
    } else if response_id_taken(t, r.id) {
        Err(StoreError::KeyViolation)
    } else {
        Ok(Tables { responses: t.responses.push(r), ..t })
    }
}

/// Inserting an answer: its response must exist and its id must be free.
pub open spec fn insert_answer(t: Tables, a: AnswerView) -> Result<Tables, StoreError> {
    if !response_id_taken(t, a.response_id) {
        Err(StoreError::MissingParent)
    } else if answer_id_taken(t, a.id) {
        Err(StoreError::KeyViolation)
    } else {
        Ok(Tables { answers: t.answers.push(a), ..t })
    }
}

/// Inserting answers one after another, stopping at the first refusal.
pub open spec fn insert_answers(t: Tables, s: Seq<AnswerView>) -> Result<Tables, StoreError>
    decreases s.len(),
{
    if s.len() == 0 {
        Ok(t)
    } else {
        match insert_answers(t, s.drop_last()) {
            Ok(t1) => insert_answer(t1, s.last()),
            Err(e) => Err(e),
        }
    }
}

/// In-memory storage of respondents, responses and answers.
pub struct SurveyStore {
    pub respondents: Vec<Respondent>,
    pub responses: Vec<Response>,
    pub answers: Vec<Answer>,
}

impl View for SurveyStore {
    type V = Tables;

    open spec fn view(&self) -> Tables {
        Tables {
            respondents: self.respondents@.map_values(|r: Respondent| r@),
            responses: self.responses@.map_values(|r: Response| r@),
            answers: self.answers@.map_values(|a: Answer| a@),
        }
    }
}

impl SurveyStore {
    /// The store's tables meet their invariants.
    pub open spec fn wf(&self) -> bool {
        tables_wf(self@)
    }

    /// An empty store.
    pub fn new() -> (r: SurveyStore)
        ensures
            r.wf(),
            r@.respondents.len() == 0,
            r@.responses.len() == 0,
            r@.answers.len() == 0,
    {
        SurveyStore { respondents: Vec::new(), responses: Vec::new(), answers: Vec::new() }
    }
}

pub proof fn lemma_find_fingerprint(rs: Seq<RespondentView>, fp: Seq<char>)
    ensures
        find_fingerprint(rs, fp) matches Some(i) ==> 0 <= i < rs.len() && rs[i].email_hash == fp
            && forall|k: int| 0 <= k < i ==> rs[k].email_hash != fp,
        find_fingerprint(rs, fp) is None <==> forall|k: int|
            0 <= k < rs.len() ==> rs[k].email_hash != fp,
    decreases rs.len(),
{
    if rs.len() > 0 {
        lemma_find_fingerprint(rs.drop_last(), fp);
        assert forall|k: int| 0 <= k < rs.len() - 1 implies rs.drop_last()[k] == rs[k] by {}
        if find_fingerprint(rs, fp) is None {
            assert forall|k: int| 0 <= k < rs.len() implies rs[k].email_hash != fp by {
                if k < rs.len() - 1 {
                    assert(rs.drop_last()[k] == rs[k]);
                }
            }
        }
    }
}

impl SurveyStore {
    /// Position of the respondent whose fingerprint is `fp`, if any.
    fn fingerprint_index(&self, fp: &str) -> (r: Option<usize>)
        ensures
            r matches Some(i) ==> find_fingerprint(self@.respondents, fp@) == Some(i as int),
            r is None ==> find_fingerprint(self@.respondents, fp@) is None,
    {
        let n = self.respondents.len();
        let mut i: usize = 0;
        while i < n
            invariant
                n == self.respondents@.len(),
                i <= n,
                forall|k: int| 0 <= k < i ==> self@.respondents[k].email_hash != fp@,
            decreases n - i,
        {
            if same_text(self.respondents[i].email_hash.as_str(), fp) {
                assert(self@.respondents[i as int].email_hash == fp@);
                proof {
                    lemma_find_fingerprint(self@.respondents, fp@);
                }
                return Some(i);
            }
            i = i + 1;
        }
        proof {
            lemma_find_fingerprint(self@.respondents, fp@);
        }
        None
    }

    /// Looks up the respondent holding fingerprint `fp` and returns its id.
    pub fn find_by_fingerprint(&self, fp: &str) -> (r: Option<String>)
        ensures
            match find_fingerprint(self@.respondents, fp@) {
                Some(i) => r matches Some(id) && id@ == self@.respondents[i].id,
                None => r is None,
            },
    {
        proof {
            lemma_find_fingerprint(self@.respondents, fp@);
        }
        match self.fingerprint_index(fp) {
            Some(i) => Some(self.respondents[i].id.clone()),
            None => None,
        }
    }

    /// The identity record with id `id`, if it is stored.
    pub fn find_by_id(&self, id: &str) -> (r: Option<Respondent>)
        ensures
            r is Some <==> respondent_id_taken(self@, id@),
            r matches Some(x) ==> x.id@ == id@ && self@.respondents.contains(x@),
    {
        let n = self.respondents.len();
        let mut i: usize = 0;
        while i < n
            invariant
                n == self.respondents@.len(),
                i <= n,
                forall|k: int| 0 <= k < i ==> self.respondents@[k].id@ != id@,
            decreases n - i,
        {
            if same_text(self.respondents[i].id.as_str(), id) {
                assert(self@.respondents[i as int].id == id@);
                return Some(self.respondents[i].duplicate());
            }
            i = i + 1;
        }
        None
    }

    fn has_respondent_id(&self, id: &str) -> (r: bool)
        ensures
            r == respondent_id_taken(self@, id@),
    {
        let n = self.respondents.len();
        let mut i: usize = 0;
        while i < n
            invariant
                n == self.respondents@.len(),
                i <= n,
                forall|k: int| 0 <= k < i ==> self.respondents@[k].id@ != id@,
            decreases n - i,
        {
            if same_text(self.respondents[i].id.as_str(), id) {
                assert(self@.respondents[i as int].id == id@);
                return true;
            }
            i = i + 1;
        }
        false
    }

    fn has_response_id(&self, id: &str) -> (r: bool)
        ensures
            r == response_id_taken(self@, id@),
    {
        let n = self.responses.len();
        let mut i: usize = 0;
        while i < n
            invariant
                n == self.responses@.len(),
                i <= n,
                forall|k: int| 0 <= k < i ==> self.responses@[k].id@ != id@,
            decreases n - i,
        {
            if same_text(self.responses[i].id.as_str(), id) {
                assert(self@.responses[i as int].id == id@);
                return true;
            }
            i = i + 1;
        }
        false
    }

    fn has_answer_id(&self, id: &str) -> (r: bool)
        ensures
            r == answer_id_taken(self@, id@),
    {
        let n = self.answers.len();
        let mut i: usize = 0;
        while i < n
            invariant
                n == self.answers@.len(),
                i <= n,
                forall|k: int| 0 <= k < i ==> self.answers@[k].id@ != id@,
            decreases n - i,
        {
            if same_text(self.answers[i].id.as_str(), id) {
                assert(self@.answers[i as int].id == id@);
                return true;
            }
            i = i + 1;
        }
        false
    }

    /// Number of responses that respondent `rid` gave to form `fid`.
    pub fn count_by_respondent_and_form(&self, rid: &str, fid: &str) -> (r: usize)
        ensures
            r == count_for(self@.responses, rid@, fid@),
    {
        let n = self.responses.len();
        let mut i: usize = 0;
        let mut c: usize = 0;
        while i < n
            invariant
                n == self.responses@.len(),
                i <= n,
                c <= i,
                c == count_for(self@.responses.subrange(0, i as int), rid@, fid@),
            decreases n - i,
        {
            assert(self@.responses.subrange(0, i + 1).drop_last() =~= self@.responses.subrange(
                0,
                i as int,
            ));
            if same_text(self.responses[i].respondent_id.as_str(), rid) && same_text(
                self.responses[i].form_id.as_str(),
                fid,
            ) {
                c = c + 1;
            }
            i = i + 1;
        }
        assert(self@.responses.subrange(0, n as int) =~= self@.responses);
        c
    }
}

impl SurveyStore {
    fn has_fingerprint(&self, fp: &str) -> (r: bool)
        ensures
            r == fingerprint_taken(self@, fp@),
    {
        proof {
            lemma_find_fingerprint(self@.respondents, fp@);
        }
        match self.fingerprint_index(fp) {
            Some(i) => {
                assert(self@.respondents[i as int].email_hash == fp@);
                true
            },
            None => false,
        }
    }

    fn has_pair(&self, rid: &str, fid: &str) -> (r: bool)
        ensures
            r == pair_taken(self@, rid@, fid@),
    {
        let n = self.responses.len();
        let mut i: usize = 0;
        while i < n
            invariant
                n == self.responses@.len(),
                i <= n,
                forall|k: int|
                    0 <= k < i ==> !(self.responses@[k].respondent_id@ == rid@
                        && self.responses@[k].form_id@ == fid@),
            decreases n - i,
        {
            if same_text(self.responses[i].respondent_id.as_str(), rid) && same_text(
                self.responses[i].form_id.as_str(),
                fid,
            ) {
                assert(self@.responses[i as int].respondent_id == rid@);
                return true;
            }
            i = i + 1;
        }
        false
    }

    /// Inserts an identity record; refused when its fingerprint or its id is taken.
    pub fn create_respondent(&mut self, r: Respondent) -> (res: Result<(), StoreError>)
        requires
            old(self).wf(),
        ensures
            final(self).wf(),
            match insert_respondent(old(self)@, r@) {
                Ok(t) => res is Ok && final(self)@ == t,
                Err(e) => res == Err::<(), StoreError>(e) && final(self)@ == old(self)@,
            },
    {
        if self.has_fingerprint(r.email_hash.as_str()) {
            return Err(StoreError::UniqueViolation);
        }
        if self.has_respondent_id(r.id.as_str()) {
            return Err(StoreError::KeyViolation);
        }
        self.respondents.push(r);
        assert(self@ =~= insert_respondent(old(self)@, r@)->Ok_0);
        Ok(())
    }

    /// Inserts a response; refused when its (respondent, form) pair or its id is taken.
    pub fn create_response(&mut self, r: Response) -> (res: Result<(), StoreError>)
        requires
            old(self).wf(),
        ensures
            final(self).wf(),
            match insert_response(old(self)@, r@) {
                Ok(t) => res is Ok && final(self)@ == t,
                Err(e) => res == Err::<(), StoreError>(e) && final(self)@ == old(self)@,
            },
    {
        if self.has_pair(r.respondent_id.as_str(), r.form_id.as_str()) {
            return Err(StoreError::UniqueViolation);
        }
        if self.has_response_id(r.id.as_str()) {
            return Err(StoreError::KeyViolation);
        }
        let ghost t0 = self@;
        self.responses.push(r);
        assert(self@ =~= insert_response(old(self)@, r@)->Ok_0);
        assert forall|i: int| 0 <= i < self@.answers.len() implies response_id_taken(
            self@,
            #[trigger] self@.answers[i].response_id,
        ) by {
            assert(response_id_taken(t0, t0.answers[i].response_id));
            let j = choose|j: int|
                0 <= j < t0.responses.len() && t0.responses[j].id == t0.answers[i].response_id;
            assert(self@.responses[j] == t0.responses[j]);
        }
        Ok(())
    }

    /// Inserts an answer; refused when its response is missing or its id is taken.
    pub fn create_answer(&mut self, a: Answer) -> (res: Result<(), StoreError>)
        requires
            old(self).wf(),
        ensures
            final(self).wf(),
            match insert_answer(old(self)@, a@) {
                Ok(t) => res is Ok && final(self)@ == t,
                Err(e) => res == Err::<(), StoreError>(e) && final(self)@ == old(self)@,
            },
    {
        if !self.has_response_id(a.response_id.as_str()) {
            return Err(StoreError::MissingParent);
        }
        if self.has_answer_id(a.id.as_str()) {
            return Err(StoreError::KeyViolation);
        }
        let ghost t0 = self@;
        self.answers.push(a);
        assert(self@ =~= insert_answer(old(self)@, a@)->Ok_0);
        assert forall|i: int| 0 <= i < self@.answers.len() implies response_id_taken(
            self@,
            #[trigger] self@.answers[i].response_id,
        ) by {
            if i < t0.answers.len() {
                assert(self@.answers[i] == t0.answers[i]);
            }
        }
        Ok(())
    }

    /// Erases the identity record with id `id`; the responses and answers that refer to it
    /// stay. Returns whether a record was removed.
    pub fn delete_respondent(&mut self, id: &str) -> (r: bool)
        requires
            old(self).wf(),
        ensures
            final(self).wf(),
            r == respondent_id_taken(old(self)@, id@),
            r ==> exists|i: int|
                0 <= i < old(self)@.respondents.len() && old(self)@.respondents[i].id == id@
                    && final(self)@.respondents == old(self)@.respondents.remove(i),
            !r ==> final(self)@ == old(self)@,
            final(self)@.responses == old(self)@.responses,
            final(self)@.answers == old(self)@.answers,
    {
        let n = self.respondents.len();
        let mut i: usize = 0;
        while i < n
            invariant
                n == self.respondents@.len(),
                *self == *old(self),
                self.wf(),
                i <= n,
                forall|k: int| 0 <= k < i ==> self.respondents@[k].id@ != id@,
            decreases n - i,
        {
            if same_text(self.respondents[i].id.as_str(), id) {
                let ghost t0 = self@;
                assert(t0.respondents[i as int].id == id@);
                self.respondents.remove(i);
                assert(self@.respondents =~= t0.respondents.remove(i as int));
                assert forall|a: int, b: int|
                    0 <= a < self@.respondents.len() && 0 <= b < self@.respondents.len() && a
                        != b implies {
                    &&& self@.respondents[a].id != self@.respondents[b].id
                    &&& self@.respondents[a].email_hash != self@.respondents[b].email_hash
                } by {
                    let a0 = if a < i { a } else { a + 1 };
                    let b0 = if b < i { b } else { b + 1 };
                    assert(tables_wf(t0));
                    assert(a0 != b0);
                    assert(0 <= a0 < t0.respondents.len() && 0 <= b0 < t0.respondents.len());
                    assert(self@.respondents[a] == t0.respondents[a0]);
                    assert(self@.respondents[b] == t0.respondents[b0]);
                }
                return true;
            }
            i = i + 1;
        }
        false
    }
}

impl SurveyStore {
    /// The responses to form `fid`, in the order they were stored.
    pub fn list_by_form(&self, fid: &str) -> (r: Vec<Response>)
        ensures
            r@.map_values(|x: Response| x@) == responses_of_form(self@.responses, fid@),
    {
        let n = self.responses.len();
        let mut out: Vec<Response> = Vec::new();
        let mut i: usize = 0;
        while i < n
            invariant
                n == self.responses@.len(),
                i <= n,
                out@.map_values(|x: Response| x@) == responses_of_form(self@.responses.subrange(0, i as int), fid@),
            decreases n - i,
        {
            assert(self@.responses.subrange(0, i + 1).drop_last() =~= self@.responses.subrange(
                0,
                i as int,
            ));
            if same_text(self.responses[i].form_id.as_str(), fid) {
                out.push(self.responses[i].duplicate());
            }
            i = i + 1;
        }
        assert(self@.responses.subrange(0, n as int) =~= self@.responses);
        out
    }

    /// Number of responses stored for form `fid`, whether or not their respondent was erased.
    pub fn response_count(&self, fid: &str) -> (r: usize)
        ensures
            r == responses_of_form(self@.responses, fid@).len(),
    {
        self.list_by_form(fid).len()
    }

    /// The answers of response `rid`, in the order they were stored.
    pub fn list_by_response(&self, rid: &str) -> (r: Vec<Answer>)
        ensures
            r@.map_values(|x: Answer| x@) == answers_of_response(self@.answers, rid@),
    {
        let n = self.answers.len();
        let mut out: Vec<Answer> = Vec::new();
        let mut i: usize = 0;
        while i < n
            invariant
                n == self.answers@.len(),
                i <= n,
                out@.map_values(|x: Answer| x@) == answers_of_response(self@.answers.subrange(0, i as int), rid@),
            decreases n - i,
        {
            assert(self@.answers.subrange(0, i + 1).drop_last() =~= self@.answers.subrange(
                0,
                i as int,
            ));
            if same_text(self.answers[i].response_id.as_str(), rid) {
                out.push(self.answers[i].duplicate());
            }
            i = i + 1;
        }
        assert(self@.answers.subrange(0, n as int) =~= self@.answers);
        out
    }
}

} // verus!
