//! The idempotency layer: one record per user and key, which lets a command
//! that is submitted again be answered with the first answer instead of being
//! carried out a second time.
use vstd::prelude::*;

verus! {

/// A key must be shorter than this many characters.
pub const MAX_KEY_LENGTH: usize = 50;

/// Why a key was rejected.
#[derive(Clone, Copy, Debug, PartialEq, Eq, Structural)]
pub enum KeyError {
    /// The key has no characters.
    Empty,
    /// The key has `MAX_KEY_LENGTH` characters or more.
    TooLong,
}

/// A caller-supplied token that names one logical command.
#[derive(Debug)]
pub struct IdempotencyKey(String);

/// A key is well formed when it is not empty and shorter than
/// `MAX_KEY_LENGTH` characters.
pub open spec fn is_valid_key(s: Seq<char>) -> bool {
    0 < s.len() < MAX_KEY_LENGTH
}

/// What is wrong with a key that is not well formed.
pub open spec fn key_error(s: Seq<char>) -> KeyError {
    if s.len() == 0 {
        KeyError::Empty
    } else {
        KeyError::TooLong
    }
}

impl IdempotencyKey {
    #[verifier::type_invariant]
    spec fn inv(self) -> bool {
        is_valid_key(self.0@)
    }

    pub closed spec fn view(&self) -> Seq<char> {
        self.0@
    }

    /// Accepts exactly the well-formed keys.
    pub fn parse(s: String) -> (r: Result<IdempotencyKey, KeyError>)
        ensures
            r is Ok <==> is_valid_key(s@),
            match r {
                Ok(key) => key@ == s@,
                Err(e) => e == key_error(s@),
            },
    {
        let n: usize = s.as_str().unicode_len();
        if n == 0 {
            Err(KeyError::Empty)
        } else if n >= MAX_KEY_LENGTH {
            Err(KeyError::TooLong)
        } else {
            Ok(IdempotencyKey(s))
        }
    }

    /// The key's text.
    pub fn as_str(&self) -> (s: &str)
        ensures
            s@ == self@,
            is_valid_key(self@),
    {
        proof {
            use_type_invariant(self);
        }
        self.0.as_str()
    }
}

impl Clone for IdempotencyKey {
    fn clone(&self) -> (copy: Self)
        ensures
            copy@ == self@,
    {
        proof {
            use_type_invariant(self);
        }
        IdempotencyKey(self.0.clone())
    }
}

/// One header of a response.
#[derive(Debug, PartialEq, Eq)]
pub struct Header {
    pub name: String,
    pub value: String,
}

/// What is needed to give a response again, verbatim.
#[derive(Debug, PartialEq, Eq)]
pub struct Response {
    pub status_code: u16,
    pub headers: Vec<Header>,
    pub body: String,
}

/// The content of a response.
pub struct ResponseContent {
    pub status_code: u16,
    pub headers: Seq<(Seq<char>, Seq<char>)>,
    pub body: Seq<char>,
}

impl Header {
    pub open spec fn view(&self) -> (Seq<char>, Seq<char>) {
        (self.name@, self.value@)
    }
}

impl Response {
    pub open spec fn view(&self) -> ResponseContent {
        ResponseContent {
            status_code: self.status_code,
            headers: self.headers@.map_values(|h: Header| h@),
            body: self.body@,
        }
    }
}

impl Clone for Response {
    fn clone(&self) -> (copy: Self)
        ensures
            copy@ == self@,
    {
        let mut headers: Vec<Header> = Vec::new();
        let mut i: usize = 0;
        while i < self.headers.len()
            invariant
                0 <= i <= self.headers@.len(),
                headers@.len() == i,
                forall|j: int| 0 <= j < i ==> (#[trigger] headers@[j])@ == self.headers@[j]@,
            decreases self.headers@.len() - i,
        {
            headers.push(Header { name: self.headers[i].name.clone(), value: self.headers[i].value.clone() });
            i += 1;
        }
        proof {
            assert(headers@.map_values(|h: Header| h@) =~= self.headers@.map_values(|h: Header| h@));
        }
        Response { status_code: self.status_code, headers, body: self.body.clone() }
    }
}

/// How far the command under one key has come.
pub enum KeyStatus {
    /// No one has submitted the key.
    Unseen,
    /// The command is being carried out inside an open transaction.
    Started,
    /// The command was carried out and answered with this response.
    Completed(ResponseContent),
}

/// The content of one idempotency record. Without a response the record is
/// in the state "started".
pub struct RecordContent {
    pub user_id: u128,
    pub key: Seq<char>,
    pub response: Option<ResponseContent>,
}

/// The position of the record of `user_id` and `key` at or after `from`, or
/// the number of records when there is none.
pub open spec fn record_from(records: Seq<RecordContent>, user_id: u128, key: Seq<char>, from: int) -> int
    decreases records.len() - from,
{
    if from < 0 || from >= records.len() {
        records.len() as int
    } else if records[from].user_id == user_id && records[from].key == key {
        from
    } else {
        record_from(records, user_id, key, from + 1)
    }
}

/// The mathematical content of the idempotency table.
pub struct IdempotencyState {
    pub records: Seq<RecordContent>,
}

impl IdempotencyState {
    /// The table without records.
    pub open spec fn empty() -> Self {
        IdempotencyState { records: Seq::empty() }
    }

    /// At most one record per user and key.
    pub open spec fn wf(self) -> bool {
        forall|i: int, j: int|
            0 <= i < j < self.records.len() ==> !((#[trigger] self.records[i]).user_id == (
            #[trigger] self.records[j]).user_id && self.records[i].key == self.records[j].key)
    }

    /// The position of the record of `user_id` and `key`, or the number of
    /// records.
    pub open spec fn position(self, user_id: u128, key: Seq<char>) -> int {
        record_from(self.records, user_id, key, 0)
    }

    /// How far the command of `user_id` under `key` has come.
    pub open spec fn status(self, user_id: u128, key: Seq<char>) -> KeyStatus {
        let k = self.position(user_id, key);
        if k >= self.records.len() {
            KeyStatus::Unseen
        } else {
            match self.records[k].response {
                None => KeyStatus::Started,
                Some(response) => KeyStatus::Completed(response),
            }
        }
    }

    /// The table after a submission under `key` asked to start: an unseen
    /// key gets a record in the state "started"; a key that is known changes
    /// nothing.
    pub open spec fn started(self, user_id: u128, key: Seq<char>) -> Self {
        if self.status(user_id, key) is Unseen {
            IdempotencyState { records: self.records.push(RecordContent { user_id, key, response: None }) }
        } else {
            self
        }
    }

    /// The table after the holder of a started key saved its response. A key
    /// that is not in the state "started" changes nothing.
    pub open spec fn completed(self, user_id: u128, key: Seq<char>, response: ResponseContent) -> Self {
        if self.status(user_id, key) is Started {
            IdempotencyState {
                records: self.records.update(
                    self.position(user_id, key),
                    RecordContent { user_id, key, response: Some(response) },
                ),
            }
        } else {
            self
        }
    }

    /// The table after the holder of a started key gave up or vanished: the
    /// record is gone, as if the key had never been submitted. A key that is
    /// not in the state "started" changes nothing.
    pub open spec fn aborted(self, user_id: u128, key: Seq<char>) -> Self {
        if self.status(user_id, key) is Started {
            IdempotencyState { records: self.records.remove(self.position(user_id, key)) }
        } else {
            self
        }
    }
}

/// What the position of a record is: it lies in the table or at its end, the
/// record there is the one asked for, and no record passed over is.
pub proof fn lemma_record_position(records: Seq<RecordContent>, user_id: u128, key: Seq<char>, from: int)
    requires
        0 <= from <= records.len(),
    ensures
        from <= record_from(records, user_id, key, from) <= records.len(),
        record_from(records, user_id, key, from) < records.len() ==> {
            let k = record_from(records, user_id, key, from);
            records[k].user_id == user_id && records[k].key == key
        },
        forall|i: int|
            from <= i < record_from(records, user_id, key, from) ==> !((#[trigger] records[i]).user_id
                == user_id && records[i].key == key),
    decreases records.len() - from,
{
    if from < records.len() && !(records[from].user_id == user_id && records[from].key == key) {
        lemma_record_position(records, user_id, key, from + 1);
    }
}

/// A record that stands at position `k` and belongs to `user_id` and `key` is
/// found there, provided that no earlier record belongs to them.
pub proof fn lemma_record_found(records: Seq<RecordContent>, user_id: u128, key: Seq<char>, k: int, from: int)
    requires
        0 <= from <= k < records.len(),
        records[k].user_id == user_id && records[k].key == key,
        forall|i: int| from <= i < k ==> !((#[trigger] records[i]).user_id == user_id && records[i].key == key),
    ensures
        record_from(records, user_id, key, from) == k,
    decreases k - from,
{
    if from < k {
        assert(!(records[from].user_id == user_id && records[from].key == key));
        lemma_record_found(records, user_id, key, k, from + 1);
    }
}

/// A record that is missing from position `from` on is reported as missing.
pub proof fn lemma_record_missing(records: Seq<RecordContent>, user_id: u128, key: Seq<char>, from: int)
    requires
        0 <= from <= records.len(),
        forall|i: int|
            from <= i < records.len() ==> !((#[trigger] records[i]).user_id == user_id && records[i].key
                == key),
    ensures
        record_from(records, user_id, key, from) == records.len(),
    decreases records.len() - from,
{
    if from < records.len() {
        assert(!(records[from].user_id == user_id && records[from].key == key));
        lemma_record_missing(records, user_id, key, from + 1);
    }
}

/// Starting, completing and aborting keep the table well formed, and they
/// leave every other key's status as it was.
pub proof fn lemma_record_transitions(
    s: IdempotencyState,
    user_id: u128,
    key: Seq<char>,
    response: ResponseContent,
    other_user: u128,
    other_key: Seq<char>,
)
    requires
        s.wf(),
    ensures
        s.started(user_id, key).wf(),
        s.completed(user_id, key, response).wf(),
        s.aborted(user_id, key).wf(),
        s.status(user_id, key) is Unseen ==> s.started(user_id, key).status(user_id, key) is Started,
        s.status(user_id, key) is Started ==> s.completed(user_id, key, response).status(user_id, key)
            == KeyStatus::Completed(response),
        s.status(user_id, key) is Started ==> s.aborted(user_id, key).status(user_id, key) is Unseen,
        !(other_user == user_id && other_key == key) ==> {
            &&& s.started(user_id, key).status(other_user, other_key) == s.status(other_user, other_key)
            &&& s.completed(user_id, key, response).status(other_user, other_key) == s.status(
                other_user,
                other_key,
            )
            &&& s.aborted(user_id, key).status(other_user, other_key) == s.status(other_user, other_key)
        },
{
    let k = s.position(user_id, key);
    let n = s.records.len() as int;
    lemma_record_position(s.records, user_id, key, 0);
    let o = s.position(other_user, other_key);
    lemma_record_position(s.records, other_user, other_key, 0);
    let distinct = !(other_user == user_id && other_key == key);
    if s.status(user_id, key) is Unseen {
        let t = s.started(user_id, key);
        assert(t.records[n].user_id == user_id && t.records[n].key == key);
        assert forall|i: int| 0 <= i < n implies !((#[trigger] t.records[i]).user_id == user_id
            && t.records[i].key == key) by {
            assert(t.records[i] == s.records[i]);
        }
        lemma_record_found(t.records, user_id, key, n, 0);
        assert forall|i: int, j: int| 0 <= i < j < t.records.len() implies !((#[trigger] t.records[i]).user_id
            == (#[trigger] t.records[j]).user_id && t.records[i].key == t.records[j].key) by {
            assert(t.records[i] == s.records[i]);
            if j < n {
                assert(t.records[j] == s.records[j]);
            }
        }
        if distinct {
            if o < n {
                assert(t.records[o] == s.records[o]);
                assert forall|i: int| 0 <= i < o implies !((#[trigger] t.records[i]).user_id == other_user
                    && t.records[i].key == other_key) by {
                    assert(t.records[i] == s.records[i]);
                }
                lemma_record_found(t.records, other_user, other_key, o, 0);
            } else {
                assert forall|i: int| 0 <= i < t.records.len() implies !((#[trigger] t.records[i]).user_id
                    == other_user && t.records[i].key == other_key) by {
                    if i < n {
                        assert(t.records[i] == s.records[i]);
                    }
                }
                lemma_record_missing(t.records, other_user, other_key, 0);
            }
        }
    }
    if s.status(user_id, key) is Started {
        let c = s.completed(user_id, key, response);
        assert(c.records[k].user_id == user_id && c.records[k].key == key);
        assert forall|i: int| 0 <= i < c.records.len() implies (#[trigger] c.records[i]).user_id
            == s.records[i].user_id && c.records[i].key == s.records[i].key by {}
        assert forall|i: int| 0 <= i < k implies !((#[trigger] c.records[i]).user_id == user_id
            && c.records[i].key == key) by {
            assert(c.records[i] == s.records[i]);
        }
        lemma_record_found(c.records, user_id, key, k, 0);
        assert forall|i: int, j: int| 0 <= i < j < c.records.len() implies !((#[trigger] c.records[i]).user_id
            == (#[trigger] c.records[j]).user_id && c.records[i].key == c.records[j].key) by {
            assert(s.records[i].user_id == c.records[i].user_id);
            assert(s.records[j].user_id == c.records[j].user_id);
        }
        let a = s.aborted(user_id, key);
        assert forall|i: int| 0 <= i < a.records.len() implies (#[trigger] a.records[i]) == s.records[if i
            < k {
            i
        } else {
            i + 1
        }] by {}
        assert forall|i: int, j: int| 0 <= i < j < a.records.len() implies !((#[trigger] a.records[i]).user_id
            == (#[trigger] a.records[j]).user_id && a.records[i].key == a.records[j].key) by {
            let i0 = if i < k { i } else { i + 1 };
            let j0 = if j < k { j } else { j + 1 };
            assert(a.records[i] == s.records[i0]);
            assert(a.records[j] == s.records[j0]);
        }
        assert forall|i: int| 0 <= i < a.records.len() implies !((#[trigger] a.records[i]).user_id == user_id
            && a.records[i].key == key) by {
            let i0 = if i < k { i } else { i + 1 };
            assert(a.records[i] == s.records[i0]);
            if i0 < k {
            } else {
                assert(s.records[k].user_id == user_id);
            }
        }
        lemma_record_missing(a.records, user_id, key, 0);
        if distinct {
            if o < n {
                assert(o != k);
                assert(c.records[o] == s.records[o]);
                assert forall|i: int| 0 <= i < o implies !((#[trigger] c.records[i]).user_id == other_user
                    && c.records[i].key == other_key) by {
                    assert(c.records[i].user_id == s.records[i].user_id);
                }
                lemma_record_found(c.records, other_user, other_key, o, 0);
                let o1 = if o < k { o } else { o - 1 };
                assert(a.records[o1] == s.records[o]);
                assert forall|i: int| 0 <= i < o1 implies !((#[trigger] a.records[i]).user_id == other_user
                    && a.records[i].key == other_key) by {
                    let i0 = if i < k { i } else { i + 1 };
                    assert(a.records[i] == s.records[i0]);
                }
                lemma_record_found(a.records, other_user, other_key, o1, 0);
            } else {
                assert forall|i: int| 0 <= i < c.records.len() implies !((#[trigger] c.records[i]).user_id
                    == other_user && c.records[i].key == other_key) by {
                    assert(c.records[i].user_id == s.records[i].user_id);
                }
                lemma_record_missing(c.records, other_user, other_key, 0);
                assert forall|i: int| 0 <= i < a.records.len() implies !((#[trigger] a.records[i]).user_id
                    == other_user && a.records[i].key == other_key) by {
                    let i0 = if i < k { i } else { i + 1 };
                    assert(a.records[i] == s.records[i0]);
                }
                lemma_record_missing(a.records, other_user, other_key, 0);
            }
        }
    }
}

/// A completed record is never lost and never changed: whatever is started,
/// completed or aborted afterwards, under this key or another, the key stays
/// completed with the response that was saved first.
pub proof fn law_completed_record_is_permanent(
    s: IdempotencyState,
    user_id: u128,
    key: Seq<char>,
    saved: ResponseContent,
    later_user: u128,
    later_key: Seq<char>,
    later_response: ResponseContent,
)
    requires
        s.wf(),
        s.status(user_id, key) == KeyStatus::Completed(saved),
    ensures
        s.started(later_user, later_key).status(user_id, key) == KeyStatus::Completed(saved),
        s.completed(later_user, later_key, later_response).status(user_id, key) == KeyStatus::Completed(
            saved,
        ),
        s.aborted(later_user, later_key).status(user_id, key) == KeyStatus::Completed(saved),
{
    lemma_record_transitions(s, later_user, later_key, later_response, user_id, key);
}

/// One idempotency record. Without a response the command is still being
/// carried out.
#[derive(Debug)]
pub struct Record {
    pub user_id: u128,
    pub key: String,
    pub response: Option<Response>,
}

impl Record {
    pub open spec fn view(&self) -> RecordContent {
        RecordContent {
            user_id: self.user_id,
            key: self.key@,
            response: match self.response {
                None => None,
                Some(r) => Some(r@),
            },
        }
    }
}

/// What `IdempotencyStore::start` found under a key.
#[derive(Debug)]
pub enum Found {
    /// The key was unseen and is now started, on behalf of the caller.
    Fresh,
    /// Someone else's open transaction holds the key.
    InFlight,
    /// The command was answered before, with this response.
    Saved(Response),
}

/// Reads the answer of the store to the attempt to insert a started record:
/// a record that was inserted makes the caller the one who carries the
/// command out; otherwise the key is known, and it is completed exactly when
/// a response is saved under it.
pub fn start_decision(inserted_rows: u64, saved_response: Option<Response>) -> (found: Found)
    ensures
        match found {
            Found::Fresh => inserted_rows > 0,
            Found::InFlight => inserted_rows == 0 && saved_response is None,
            Found::Saved(response) => inserted_rows == 0 && saved_response == Some(response),
        },
{
    if inserted_rows > 0 {
        Found::Fresh
    } else {
        match saved_response {
            Some(response) => Found::Saved(response),
            None => Found::InFlight,
        }
    }
}

/// The idempotency table.
pub struct IdempotencyStore {
    records: Vec<Record>,
}

impl IdempotencyStore {
    pub closed spec fn view(&self) -> IdempotencyState {
        IdempotencyState { records: self.records@.map_values(|r: Record| r@) }
    }

    /// The representation invariant.
    pub open spec fn wf(&self) -> bool {
        self@.wf()
    }

    /// A table without records.
    pub fn new() -> (s: Self)
        ensures
            s@ == IdempotencyState::empty(),
            s.wf(),
    {
        let s = IdempotencyStore { records: Vec::new() };
        proof {
            assert(s@.records =~= Seq::empty());
        }
        s
    }

    /// The number of records.
    pub fn len(&self) -> (n: usize)
        ensures
            n == self@.records.len(),
    {
        self.records.len()
    }

    fn find(&self, user_id: u128, key: &IdempotencyKey) -> (k: usize)
        ensures
            k == self@.position(user_id, key@),
            k <= self.records@.len(),
    {
        let mut i: usize = 0;
        while i < self.records.len()
            invariant
                0 <= i <= self.records@.len(),
                record_from(self@.records, user_id, key@, 0) == record_from(self@.records, user_id, key@, i as int),
            decreases self.records@.len() - i,
        {
            if self.records[i].user_id == user_id && self.records[i].key == key.0 {
                return i;
            }
            i += 1;
        }
        i
    }

    /// Asks to start the command under `key`. An unseen key is marked as
    /// started; a key that is known is reported as it stands and the table
    /// stays as it is.
    pub fn start(&mut self, key: &IdempotencyKey, user_id: u128) -> (found: Found)
        requires
            old(self).wf(),
        ensures
            final(self).wf(),
            final(self)@ == old(self)@.started(user_id, key@),
            match found {
                Found::Fresh => old(self)@.status(user_id, key@) is Unseen,
                Found::InFlight => old(self)@.status(user_id, key@) is Started,
                Found::Saved(response) => old(self)@.status(user_id, key@) == KeyStatus::Completed(response@),
            },
    {
        let k = self.find(user_id, key);
        proof {
            lemma_record_transitions(self@, user_id, key@, arbitrary(), user_id, key@);
        }
        if k == self.records.len() {
            let key_text = key.0.clone();
            self.records.push(Record { user_id, key: key_text, response: None });
            proof {
                assert(self@.records =~= old(self)@.started(user_id, key@).records);
            }
            Found::Fresh
        } else {
            match &self.records[k].response {
                None => Found::InFlight,
                Some(response) => Found::Saved(response.clone()),
            }
        }
    }

    /// Saves the response of the command under a started key. Returns
    /// whether the key was in the state "started"; otherwise nothing changes.
    pub fn complete(&mut self, key: &IdempotencyKey, user_id: u128, response: Response) -> (done: bool)
        requires
            old(self).wf(),
        ensures
            final(self).wf(),
            done == (old(self)@.status(user_id, key@) is Started),
            final(self)@ == old(self)@.completed(user_id, key@, response@),
    {
        let k = self.find(user_id, key);
        proof {
            lemma_record_transitions(self@, user_id, key@, response@, user_id, key@);
        }
        if k < self.records.len() && self.records[k].response.is_none() {
            let key_text = key.0.clone();
            self.records[k] = Record { user_id, key: key_text, response: Some(response) };
            proof {
                assert(self@.records =~= old(self)@.completed(user_id, key@, response@).records);
            }
            true
        } else {
            false
        }
    }

    /// Forgets a started key, as the store does when the transaction that
    /// started it ends without a saved response. Returns whether the key was
    /// in the state "started"; otherwise nothing changes.
    pub fn abort(&mut self, key: &IdempotencyKey, user_id: u128) -> (done: bool)
        requires
            old(self).wf(),
        ensures
            final(self).wf(),
            done == (old(self)@.status(user_id, key@) is Started),
            final(self)@ == old(self)@.aborted(user_id, key@),
    {
        let k = self.find(user_id, key);
        proof {
            lemma_record_transitions(self@, user_id, key@, arbitrary(), user_id, key@);
        }
        if k < self.records.len() && self.records[k].response.is_none() {
            self.records.remove(k);
            proof {
                assert(self@.records =~= old(self)@.aborted(user_id, key@).records);
            }
            true
        } else {
            false
        }
    }
}

} // verus!
