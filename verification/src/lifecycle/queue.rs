//! A task queue with leases.
//!
//! A worker claims a task for a while, and then completes it or fails it. Only
//! the owner of the lease may do either. A failed task waits, longer each time,
//! until it has used up its attempts. A lease that has run out is taken back.
//! The same logical task, told by its key, is queued once.

use vstd::prelude::*;

use crate::clock::{fresh_uuid, now_ms, now_text, END_OF_TIME};
use crate::marker::skill::{is_json, json_valid};
use crate::text::{lex_lt, lemma_lex_total, lemma_lex_trans, opt_view, str_eq, str_lt};

verus! {

/// How far a task has come.
#[derive(Clone, Copy, Debug, PartialEq, Eq, Structural)]
pub enum TaskStatus {
    Pending,
    Leased,
    Done,
    Failed,
    Dead,
    Cancelled,
}

impl TaskStatus {
    /// The name of a status in the store.
    pub open spec fn name(self) -> Seq<char> {
        match self {
            TaskStatus::Pending => "pending"@,
            TaskStatus::Leased => "leased"@,
            TaskStatus::Done => "done"@,
            TaskStatus::Failed => "failed"@,
            TaskStatus::Dead => "dead"@,
            TaskStatus::Cancelled => "cancelled"@,
        }
    }

    /// The name of a status in the store.
    pub fn as_str(self) -> (r: &'static str)
        ensures
            r@ == self.name(),
    {
        match self {
            TaskStatus::Pending => "pending",
            TaskStatus::Leased => "leased",
            TaskStatus::Done => "done",
            TaskStatus::Failed => "failed",
            TaskStatus::Dead => "dead",
            TaskStatus::Cancelled => "cancelled",
        }
    }

    /// The status with that name.
    pub fn parse(s: &str) -> (r: Option<TaskStatus>)
        ensures
            match r {
                Some(st) => st.name() == s@,
                None => forall|st: TaskStatus| #[trigger] st.name() != s@,
            },
    {
        if str_eq(s, "pending") {
            Some(TaskStatus::Pending)
        } else if str_eq(s, "leased") {
            Some(TaskStatus::Leased)
        } else if str_eq(s, "done") {
            Some(TaskStatus::Done)
        } else if str_eq(s, "failed") {
            Some(TaskStatus::Failed)
        } else if str_eq(s, "dead") {
            Some(TaskStatus::Dead)
        } else if str_eq(s, "cancelled") {
            Some(TaskStatus::Cancelled)
        } else {
            None
        }
    }
}

/// Two statuses never share a name, so reading a written status gives it back.
pub proof fn law_status_names_are_distinct(a: TaskStatus, b: TaskStatus)
    requires
        a.name() == b.name(),
    ensures
        a == b,
{
    reveal_strlit("pending");
    reveal_strlit("leased");
    reveal_strlit("done");
    reveal_strlit("failed");
    reveal_strlit("dead");
    reveal_strlit("cancelled");
    let s = a.name();
    let t = b.name();
    assert(s.len() == t.len() && s[0] == t[0] && s[1] == t[1]);
}

/// The status that a row of the store names, or what is wrong with it.
pub fn read_status(s: &str) -> (r: Result<TaskStatus, String>)
    ensures
        match r {
            Ok(st) => st.name() == s@,
            Err(e) => {
                &&& e@ == "unknown task status: "@ + s@
                &&& forall|st: TaskStatus| #[trigger] st.name() != s@
            },
        },
{
    match TaskStatus::parse(s) {
        Some(st) => Ok(st),
        None => {
            let mut e = "unknown task status: ".to_owned();
            e.append(s);
            Err(e)
        },
    }
}

// --------------------------------------------------------------------- rows

/// A task. Its payload is JSON text; times of the store are texts that sort in
/// the order of time.
#[derive(Debug)]
pub struct Task {
    pub id: String,
    pub session_id: String,
    pub agent: String,
    pub action: String,
    pub payload: String,
    pub priority: i64,
    pub status: TaskStatus,
    pub lease_owner: Option<String>,
    /// In milliseconds since the epoch.
    pub lease_expires_at: Option<i64>,
    pub attempts: i64,
    pub max_attempts: i64,
    pub created_at: String,
    pub started_at: Option<String>,
    pub finished_at: Option<String>,
    pub last_error: Option<String>,
}

/// What a [`Task`] holds.
#[verifier::ext_equal]
pub struct TaskView {
    pub id: Seq<char>,
    pub session_id: Seq<char>,
    pub agent: Seq<char>,
    pub action: Seq<char>,
    pub payload: Seq<char>,
    pub priority: i64,
    pub status: TaskStatus,
    pub lease_owner: Option<Seq<char>>,
    pub lease_expires_at: Option<i64>,
    pub attempts: i64,
    pub max_attempts: i64,
    pub created_at: Seq<char>,
    pub started_at: Option<Seq<char>>,
    pub finished_at: Option<Seq<char>>,
    pub last_error: Option<Seq<char>>,
}

impl View for Task {
    type V = TaskView;

    open spec fn view(&self) -> TaskView {
        TaskView {
            id: self.id@,
            session_id: self.session_id@,
            agent: self.agent@,
            action: self.action@,
            payload: self.payload@,
            priority: self.priority,
            status: self.status,
            lease_owner: opt_view(self.lease_owner),
            lease_expires_at: self.lease_expires_at,
            attempts: self.attempts,
            max_attempts: self.max_attempts,
            created_at: self.created_at@,
            started_at: opt_view(self.started_at),
            finished_at: opt_view(self.finished_at),
            last_error: opt_view(self.last_error),
        }
    }
}

/// An optional text, copied.
fn copy_opt(s: &Option<String>) -> (r: Option<String>)
    ensures
        opt_view(r) == opt_view(*s),
{
    match s {
        Some(t) => Some(t.clone()),
        None => None,
    }
}

impl Task {
    /// A copy of the task.
    pub fn copy(&self) -> (r: Task)
        ensures
            r@ == self@,
    {
        Task {
            id: self.id.clone(),
            session_id: self.session_id.clone(),
            agent: self.agent.clone(),
            action: self.action.clone(),
            payload: self.payload.clone(),
            priority: self.priority,
            status: self.status,
            lease_owner: copy_opt(&self.lease_owner),
            lease_expires_at: self.lease_expires_at,
            attempts: self.attempts,
            max_attempts: self.max_attempts,
            created_at: self.created_at.clone(),
            started_at: copy_opt(&self.started_at),
            finished_at: copy_opt(&self.finished_at),
            last_error: copy_opt(&self.last_error),
        }
    }

    /// Whether the payload is JSON, as a task that is handed to a worker must
    /// have it.
    pub fn check_payload(&self) -> (r: Result<(), String>)
        ensures
            match r {
                Ok(_) => json_valid(self.payload@),
                Err(e) => {
                    &&& e@ == "parsing task payload"@
                    &&& !json_valid(self.payload@)
                },
            },
    {
        if is_json(self.payload.as_str()) {
            Ok(())
        } else {
            Err("parsing task payload".to_owned())
        }
    }
}

/// A task with what only the queue needs.
#[derive(Debug)]
pub struct TaskRow {
    pub task: Task,
    /// Tells the same logical task.
    pub idempotency_key: String,
    /// Before this time, in milliseconds since the epoch, it is not claimed.
    pub next_retry_at: Option<i64>,
}

/// What a [`TaskRow`] holds.
#[verifier::ext_equal]
pub struct RowView {
    pub task: TaskView,
    pub idempotency_key: Seq<char>,
    pub next_retry_at: Option<i64>,
}

impl View for TaskRow {
    type V = RowView;

    open spec fn view(&self) -> RowView {
        RowView {
            task: self.task@,
            idempotency_key: self.idempotency_key@,
            next_retry_at: self.next_retry_at,
        }
    }
}

/// What the rows hold.
pub open spec fn rows_view(rows: Seq<TaskRow>) -> Seq<RowView> {
    rows.map_values(|r: TaskRow| r@)
}

/// What is asked for when a task is queued.
#[derive(Debug)]
pub struct EnqueueRequest {
    pub session_id: String,
    pub agent: String,
    pub action: String,
    /// JSON text.
    pub payload: String,
    pub priority: i64,
    pub max_attempts: i64,
}

impl EnqueueRequest {
    /// A request with the usual priority and three attempts.
    pub fn new(session_id: &str, agent: &str, action: &str, payload: String) -> (r: EnqueueRequest)
        ensures
            r.session_id@ == session_id@,
            r.agent@ == agent@,
            r.action@ == action@,
            r.payload@ == payload@,
            r.priority == 100,
            r.max_attempts == 3,
    {
        EnqueueRequest {
            session_id: session_id.to_owned(),
            agent: agent.to_owned(),
            action: action.to_owned(),
            payload,
            priority: 100,
            max_attempts: 3,
        }
    }

    /// What tells the same logical task: these five texts in this order.
    pub fn key_parts(&self) -> (r: [String; 5])
        ensures
            r@[0]@ == "task"@,
            r@[1]@ == self.session_id@,
            r@[2]@ == self.agent@,
            r@[3]@ == self.action@,
            r@[4]@ == self.payload@,
    {
        [
            "task".to_owned(),
            self.session_id.clone(),
            self.agent.clone(),
            self.action.clone(),
            self.payload.clone(),
        ]
    }
}

/// The row of a task that was just queued.
pub open spec fn new_row(
    req: EnqueueRequest,
    key: Seq<char>,
    id: Seq<char>,
    created_at: Seq<char>,
) -> RowView {
    RowView {
        task: TaskView {
            id,
            session_id: req.session_id@,
            agent: req.agent@,
            action: req.action@,
            payload: req.payload@,
            priority: req.priority,
            status: TaskStatus::Pending,
            lease_owner: None,
            lease_expires_at: None,
            attempts: 0,
            max_attempts: req.max_attempts,
            created_at,
            started_at: None,
            finished_at: None,
            last_error: None,
        },
        idempotency_key: key,
        next_retry_at: None,
    }
}

// ------------------------------------------------------------------ claiming

/// Whether a row can be claimed at the time `now`, by a worker for the session,
/// or for any where none is given.
pub open spec fn ready(row: RowView, session: Option<Seq<char>>, now: i64) -> bool {
    &&& row.task.status == TaskStatus::Pending
    &&& session matches Some(s) ==> row.task.session_id == s
    &&& row.next_retry_at matches Some(t) ==> t <= now
}

/// Whether a row is claimed before another: by priority, the lowest number
/// first, and then by age.
pub open spec fn claimed_before(a: RowView, b: RowView) -> bool {
    a.task.priority < b.task.priority || (a.task.priority == b.task.priority && lex_lt(
        a.task.created_at,
        b.task.created_at,
    ))
}

/// The row that is claimed next among the first `n`; of equal rows the one that
/// was queued first.
pub open spec fn next_of(rows: Seq<RowView>, session: Option<Seq<char>>, now: i64, n: nat) -> Option<
    int,
>
    decreases n,
{
    if n == 0 {
        None
    } else {
        let best = next_of(rows, session, now, (n - 1) as nat);
        if !ready(rows[n - 1], session, now) {
            best
        } else {
            match best {
                None => Some(n - 1),
                Some(i) => if claimed_before(rows[n - 1], rows[i]) {
                    Some(n - 1)
                } else {
                    Some(i)
                },
            }
        }
    }
}

/// The row that is claimed next.
pub open spec fn next_ready(rows: Seq<RowView>, session: Option<Seq<char>>, now: i64) -> Option<
    int,
> {
    next_of(rows, session, now, rows.len())
}

/// The number, brought into the range of `i64`.
pub open spec fn clamped(n: int) -> i64 {
    if n < i64::MIN {
        i64::MIN
    } else if n > i64::MAX {
        i64::MAX
    } else {
        n as i64
    }
}

/// A row that a worker has claimed.
pub open spec fn leased(row: RowView, worker: Seq<char>, expires: i64, started: Seq<char>) -> RowView {
    RowView {
        task: TaskView {
            status: TaskStatus::Leased,
            lease_owner: Some(worker),
            lease_expires_at: Some(expires),
            started_at: Some(started),
            attempts: clamped(row.task.attempts + 1),
            ..row.task
        },
        ..row
    }
}

// ------------------------------------------------------------------- failing

/// The quotient, rounded toward zero.
pub open spec fn toward_zero(n: int, d: int) -> int {
    if n >= 0 {
        n / d
    } else {
        -((-n) / d)
    }
}

/// Two to the power of how often a task was tried before, at most ten times.
pub open spec fn growth(attempts: i64) -> int {
    if attempts <= 1 {
        1
    } else if attempts == 2 {
        2
    } else if attempts == 3 {
        4
    } else if attempts == 4 {
        8
    } else if attempts == 5 {
        16
    } else if attempts == 6 {
        32
    } else if attempts == 7 {
        64
    } else if attempts == 8 {
        128
    } else if attempts == 9 {
        256
    } else if attempts == 10 {
        512
    } else {
        1024
    }
}

/// How long a failed task waits: the base, doubled with each attempt, with four
/// fifths of a tenth added to spread retries, and five minutes at most. All in
/// milliseconds.
pub open spec fn backoff(base_ms: i64, attempts: i64) -> i64 {
    let delay = clamped(base_ms * growth(attempts));
    let tenth = toward_zero(delay as int, 10);
    let spread = clamped(delay + tenth - toward_zero(tenth, 5));
    if spread < 300_000 {
        spread
    } else {
        300_000
    }
}

/// A row whose task failed at the time `now`.
pub open spec fn failed(
    row: RowView,
    error: Seq<char>,
    base_ms: i64,
    now: i64,
    finished: Seq<char>,
) -> RowView {
    let dead = row.task.attempts >= row.task.max_attempts;
    RowView {
        task: TaskView {
            last_error: Some(error),
            finished_at: if dead {
                Some(finished)
            } else {
                None
            },
            status: if dead {
                TaskStatus::Dead
            } else {
                TaskStatus::Pending
            },
            lease_owner: None,
            lease_expires_at: None,
            ..row.task
        },
        next_retry_at: if dead {
            None
        } else {
            Some(clamped(now + backoff(base_ms, row.task.attempts)))
        },
        ..row
    }
}

/// A row whose task was completed.
pub open spec fn completed(row: RowView, finished: Seq<char>) -> RowView {
    RowView {
        task: TaskView {
            status: TaskStatus::Done,
            finished_at: Some(finished),
            last_error: None,
            ..row.task
        },
        ..row
    }
}

/// Whether the lease of a row has run out at the time `now`.
pub open spec fn expired(row: RowView, now: i64) -> bool {
    &&& row.task.status == TaskStatus::Leased
    &&& row.task.lease_expires_at matches Some(t) && t < now
}

/// The last error of a row with a note behind it.
pub open spec fn noted(row: RowView, note: Seq<char>) -> Option<Seq<char>> {
    match row.task.last_error {
        Some(e) => Some(e + note),
        None => Some(note),
    }
}

/// A row whose lease was taken back.
pub open spec fn reclaimed(row: RowView, finished: Seq<char>) -> RowView {
    if row.task.attempts < row.task.max_attempts {
        RowView {
            task: TaskView {
                status: TaskStatus::Pending,
                lease_owner: None,
                lease_expires_at: None,
                last_error: noted(row, " [reclaimed]"@),
                ..row.task
            },
            ..row
        }
    } else {
        RowView {
            task: TaskView {
                status: TaskStatus::Dead,
                finished_at: Some(finished),
                last_error: noted(row, " [deadline]"@),
                ..row.task
            },
            ..row
        }
    }
}

/// A row that was cancelled.
pub open spec fn cancelled(row: RowView, finished: Seq<char>) -> RowView {
    RowView {
        task: TaskView { status: TaskStatus::Cancelled, finished_at: Some(finished), ..row.task },
        ..row
    }
}

/// Whether a row belongs to the session and has the status.
pub open spec fn of_session(row: RowView, session: Seq<char>, status: TaskStatus) -> bool {
    row.task.session_id == session && row.task.status == status
}

/// How many rows of the session have the status.
pub open spec fn counted(rows: Seq<RowView>, session: Seq<char>, status: TaskStatus) -> nat
    decreases rows.len(),
{
    if rows.len() == 0 {
        0
    } else {
        counted(rows.drop_last(), session, status) + (if of_session(rows.last(), session, status) {
            1nat
        } else {
            0
        })
    }
}

/// How many leases have run out.
pub open spec fn expired_count(rows: Seq<RowView>, now: i64) -> nat
    decreases rows.len(),
{
    if rows.len() == 0 {
        0
    } else {
        expired_count(rows.drop_last(), now) + (if expired(rows.last(), now) {
            1nat
        } else {
            0
        })
    }
}

/// Where the row with the id stands.
pub open spec fn row_place(rows: Seq<RowView>, id: Seq<char>, from: int) -> Option<int>
    decreases rows.len() - from,
{
    if from < 0 || from >= rows.len() {
        None
    } else if rows[from].task.id == id {
        Some(from)
    } else {
        row_place(rows, id, from + 1)
    }
}

/// Where the row with the key stands.
pub open spec fn key_place(rows: Seq<RowView>, key: Seq<char>, from: int) -> Option<int>
    decreases rows.len() - from,
{
    if from < 0 || from >= rows.len() {
        None
    } else if rows[from].idempotency_key == key {
        Some(from)
    } else {
        key_place(rows, key, from + 1)
    }
}

/// Whether every id and every key occurs once.
pub open spec fn unique(rows: Seq<RowView>) -> bool {
    forall|i: int, j: int|
        0 <= i < j < rows.len() ==> {
            &&& rows[i].task.id != rows[j].task.id
            &&& rows[i].idempotency_key != rows[j].idempotency_key
        }
}

/// Why a task cannot be queued.
#[derive(Clone, Copy, Debug, PartialEq, Eq, Structural)]
pub enum QueueError {
    /// The fresh id is not fresh.
    DuplicateId,
}

/// The rows once every lease that has run out is taken back.
pub open spec fn after_reclaim(rows: Seq<RowView>, now: i64, at: Seq<char>) -> Seq<RowView> {
    rows.map_values(
        |row: RowView|
            if expired(row, now) {
                reclaimed(row, at)
            } else {
                row
            },
    )
}

/// The rows once every waiting task of the session is cancelled.
pub open spec fn after_cancel(rows: Seq<RowView>, session: Seq<char>, at: Seq<char>) -> Seq<RowView> {
    rows.map_values(
        |row: RowView|
            if of_session(row, session, TaskStatus::Pending) {
                cancelled(row, at)
            } else {
                row
            },
    )
}

/// Whether queueing a task under the id `id` at the time `at` makes `after` of
/// `before` and returns `r`. Where a task with the key is there already, it stays
/// as it is.
pub open spec fn enqueues(
    before: Seq<RowView>,
    req: EnqueueRequest,
    key: Seq<char>,
    id: Seq<char>,
    at: Seq<char>,
    after: Seq<RowView>,
    r: Result<String, QueueError>,
) -> bool {
    match key_place(before, key, 0) {
        Some(i) => {
            &&& after == before
            &&& r matches Ok(found) && found@ == before[i].task.id
        },
        None => if row_place(before, id, 0) is Some {
            &&& after == before
            &&& r == Err::<String, QueueError>(QueueError::DuplicateId)
        } else {
            &&& after == before.push(new_row(req, key, id, at))
            &&& r matches Ok(new_id) && new_id@ == id
        },
    }
}

// --------------------------------------------------------------------- queue

/// The queue.
#[derive(Debug)]
pub struct TaskQueue {
    rows: Vec<TaskRow>,
}

impl View for TaskQueue {
    type V = Seq<RowView>;

    closed spec fn view(&self) -> Seq<RowView> {
        rows_view(self.rows@)
    }
}

impl TaskQueue {
    /// An empty queue.
    pub fn new() -> (r: TaskQueue)
        ensures
            r@ == Seq::<RowView>::empty(),
    {
        let r = TaskQueue { rows: Vec::new() };
        proof {
            assert(r@ =~= Seq::<RowView>::empty());
        }
        r
    }

    /// The queue with these rows, in the order in which they were queued.
    pub fn from_rows(rows: Vec<TaskRow>) -> (r: TaskQueue)
        ensures
            r@ == rows_view(rows@),
    {
        TaskQueue { rows }
    }

    /// How many rows there are.
    pub fn len(&self) -> (r: usize)
        ensures
            r == self@.len(),
    {
        self.rows.len()
    }

    /// The row at a place.
    pub fn row(&self, i: usize) -> (r: &TaskRow)
        requires
            i < self@.len(),
        ensures
            r@ == self@[i as int],
    {
        &self.rows[i]
    }

    /// Where the row with the id stands.
    fn find(&self, id: &str) -> (r: Option<usize>)
        ensures
            match r {
                Some(i) => row_place(self@, id@, 0) == Some(i as int) && i < self@.len(),
                None => row_place(self@, id@, 0) is None,
            },
    {
        let mut i: usize = 0;
        while i < self.rows.len()
            invariant
                i <= self.rows@.len(),
                row_place(self@, id@, 0) == row_place(self@, id@, i as int),
            decreases self.rows.len() - i,
        {
            if str_eq(self.rows[i].task.id.as_str(), id) {
                return Some(i);
            }
            i += 1;
        }
        None
    }

    /// Puts a row in the place of another.
    fn replace(&mut self, i: usize, row: TaskRow)
        requires
            i < old(self)@.len(),
        ensures
            final(self)@ == old(self)@.update(i as int, row@),
    {
        let ghost had = self.rows@;
        let ghost shown = row@;
        self.rows.set(i, row);
        proof {
            assert(rows_view(self.rows@) =~= rows_view(had).update(i as int, shown));
        }
    }

    /// Queues a task under a fresh id. Where one with the key is there already,
    /// nothing changes and its id is returned.
    pub fn enqueue_with_key(&mut self, req: EnqueueRequest, key: String) -> (r: Result<
        String,
        QueueError,
    >)
        ensures
            exists|id: Seq<char>, at: Seq<char>|
                id.len() == 36 && #[trigger] enqueues(
                    old(self)@,
                    req,
                    key@,
                    id,
                    at,
                    final(self)@,
                    r,
                ),
    {
        let id = fresh_uuid();
        let at = now_text();
        let ghost (id_text, at_text) = (id@, at@);
        let r = self.enqueue_as(req, key, id, at);
        proof {
            assert(enqueues(old(self)@, req, key@, id_text, at_text, self@, r));
        }
        r
    }

    /// Queues a task under the id `id`. Where one with the key is there already,
    /// nothing changes and its id is returned.
    pub fn enqueue_as(
        &mut self,
        req: EnqueueRequest,
        key: String,
        id: String,
        created_at: String,
    ) -> (r: Result<String, QueueError>)
        ensures
            enqueues(old(self)@, req, key@, id@, created_at@, final(self)@, r),
    {
        let mut i: usize = 0;
        while i < self.rows.len()
            invariant
                i <= self.rows@.len(),
                *self == *old(self),
                key_place(self@, key@, 0) == key_place(self@, key@, i as int),
            decreases self.rows.len() - i,
        {
            if str_eq(self.rows[i].idempotency_key.as_str(), key.as_str()) {
                return Ok(self.rows[i].task.id.clone());
            }
            i += 1;
        }
        if self.find(id.as_str()).is_some() {
            return Err(QueueError::DuplicateId);
        }
        let ghost had = self.rows@;
        let ghost want = new_row(req, key@, id@, created_at@);
        let new_id = id.clone();
        let row = TaskRow {
            task: Task {
                id,
                session_id: req.session_id,
                agent: req.agent,
                action: req.action,
                payload: req.payload,
                priority: req.priority,
                status: TaskStatus::Pending,
                lease_owner: None,
                lease_expires_at: None,
                attempts: 0,
                max_attempts: req.max_attempts,
                created_at,
                started_at: None,
                finished_at: None,
                last_error: None,
            },
            idempotency_key: key,
            next_retry_at: None,
        };
        proof {
            assert(row@ =~= want);
        }
        self.rows.push(row);
        proof {
            assert(rows_view(self.rows@) =~= rows_view(had).push(want));
        }
        Ok(new_id)
    }

    /// The row that is claimed next.
    fn find_ready(&self, session: Option<&str>, now: i64) -> (r: Option<usize>)
        ensures
            match r {
                Some(i) => i < self@.len() && next_ready(self@, session_view(session), now) == Some(
                    i as int,
                ),
                None => next_ready(self@, session_view(session), now) is None,
            },
    {
        let ghost rows = self@;
        let ghost want = session_view(session);
        let mut best: Option<usize> = None;
        let mut i: usize = 0;
        while i < self.rows.len()
            invariant
                i <= self.rows@.len(),
                rows == self@,
                rows == rows_view(self.rows@),
                want == session_view(session),
                match best {
                    Some(b) => b < i && next_of(rows, want, now, i as nat) == Some(b as int),
                    None => next_of(rows, want, now, i as nat) is None,
                },
            decreases self.rows.len() - i,
        {
            let row = &self.rows[i];
            let in_session = match session {
                Some(s) => str_eq(row.task.session_id.as_str(), s),
                None => true,
            };
            let due = match row.next_retry_at {
                Some(t) => t <= now,
                None => true,
            };
            proof {
                assert(row@ == rows[i as int]);
            }
            if row.task.status == TaskStatus::Pending && in_session && due {
                proof {
                    assert(ready(rows[i as int], want, now));
                }
                let take = match best {
                    None => true,
                    Some(b) => {
                        let other = &self.rows[b];
                        proof {
                            assert(other@ == rows[b as int]);
                        }
                        row.task.priority < other.task.priority || (row.task.priority
                            == other.task.priority && str_lt(
                            row.task.created_at.as_str(),
                            other.task.created_at.as_str(),
                        ))
                    },
                };
                if take {
                    best = Some(i);
                }
            } else {
                proof {
                    assert(!ready(rows[i as int], want, now));
                }
            }
            i += 1;
        }
        best
    }

    /// Claims the next ready task of a session, or of any where none is given.
    fn claim_next(
        &mut self,
        session: Option<&str>,
        worker_id: &str,
        lease_seconds: i64,
        now: i64,
        started: String,
    ) -> (r: Option<Task>)
        requires
            i64::MIN <= now + lease_seconds * 1000 <= i64::MAX,
            i64::MIN <= lease_seconds * 1000 <= i64::MAX,
        ensures
            claims(
                old(self)@,
                session_view(session),
                worker_id@,
                (now + lease_seconds * 1000) as i64,
                now,
                started@,
                final(self)@,
                r,
            ),
    {
        let expires: i64 = now + lease_seconds * 1000;
        match self.find_ready(session, now) {
            None => None,
            Some(i) => {
                let row = &self.rows[i];
                let ghost before = row@;
                let mut task = row.task.copy();
                task.status = TaskStatus::Leased;
                task.lease_owner = Some(worker_id.to_owned());
                task.lease_expires_at = Some(expires);
                task.started_at = Some(started);
                task.attempts = if task.attempts < i64::MAX {
                    task.attempts + 1
                } else {
                    task.attempts
                };
                let given = task.copy();
                let fresh = TaskRow {
                    task,
                    idempotency_key: row.idempotency_key.clone(),
                    next_retry_at: row.next_retry_at,
                };
                proof {
                    assert(fresh@ =~= leased(before, worker_id@, expires, started@));
                }
                self.replace(i, fresh);
                Some(given)
            },
        }
    }

    /// Claims the next ready task of a session for `worker_id`, whose lease lasts
    /// so many seconds.
    pub fn claim(&mut self, session_id: &str, worker_id: &str, lease_seconds: i64) -> (r: Option<
        Task,
    >)
        requires
            -END_OF_TIME <= lease_seconds <= END_OF_TIME,
        ensures
            exists|now: i64, at: Seq<char>|
                0 <= now < END_OF_TIME && #[trigger] claims(
                    old(self)@,
                    Some(session_id@),
                    worker_id@,
                    (now + lease_seconds * 1000) as i64,
                    now,
                    at,
                    final(self)@,
                    r,
                ),
    {
        let now: i64 = now_ms();
        let at = now_text();
        let ghost at_text = at@;
        let r = self.claim_at(session_id, worker_id, lease_seconds, now, at);
        proof {
            let expires = (now + lease_seconds * 1000) as i64;
            assert(claims(
                old(self)@,
                Some(session_id@),
                worker_id@,
                expires,
                now,
                at_text,
                self@,
                r,
            ));
        }
        r
    }

    /// Claims the next ready task of any session.
    pub fn claim_any(&mut self, worker_id: &str, lease_seconds: i64) -> (r: Option<Task>)
        requires
            -END_OF_TIME <= lease_seconds <= END_OF_TIME,
        ensures
            exists|now: i64, at: Seq<char>|
                0 <= now < END_OF_TIME && #[trigger] claims(
                    old(self)@,
                    None,
                    worker_id@,
                    (now + lease_seconds * 1000) as i64,
                    now,
                    at,
                    final(self)@,
                    r,
                ),
    {
        let now: i64 = now_ms();
        let at = now_text();
        let ghost at_text = at@;
        let r = self.claim_any_at(worker_id, lease_seconds, now, at);
        proof {
            let expires = (now + lease_seconds * 1000) as i64;
            assert(claims(old(self)@, None, worker_id@, expires, now, at_text, self@, r));
        }
        r
    }

    /// Claims the next ready task of a session for `worker_id`, whose lease lasts
    /// so many seconds from `now`.
    pub fn claim_at(
        &mut self,
        session_id: &str,
        worker_id: &str,
        lease_seconds: i64,
        now: i64,
        started: String,
    ) -> (r: Option<Task>)
        requires
            i64::MIN <= now + lease_seconds * 1000 <= i64::MAX,
            i64::MIN <= lease_seconds * 1000 <= i64::MAX,
        ensures
            claims(
                old(self)@,
                Some(session_id@),
                worker_id@,
                (now + lease_seconds * 1000) as i64,
                now,
                started@,
                final(self)@,
                r,
            ),
    {
        self.claim_next(Some(session_id), worker_id, lease_seconds, now, started)
    }

    /// Claims the next ready task of any session, whose lease lasts so many seconds
    /// from `now`.
    pub fn claim_any_at(
        &mut self,
        worker_id: &str,
        lease_seconds: i64,
        now: i64,
        started: String,
    ) -> (r: Option<Task>)
        requires
            i64::MIN <= now + lease_seconds * 1000 <= i64::MAX,
            i64::MIN <= lease_seconds * 1000 <= i64::MAX,
        ensures
            claims(
                old(self)@,
                None,
                worker_id@,
                (now + lease_seconds * 1000) as i64,
                now,
                started@,
                final(self)@,
                r,
            ),
    {
        self.claim_next(None, worker_id, lease_seconds, now, started)
    }

    /// Whether the row at `i` is leased to the worker.
    fn owned_by(&self, i: usize, worker_id: &str) -> (r: bool)
        requires
            i < self@.len(),
        ensures
            r == (self@[i as int].task.lease_owner == Some(worker_id@)),
    {
        match &self.rows[i].task.lease_owner {
            Some(w) => str_eq(w.as_str(), worker_id),
            None => false,
        }
    }

    /// Marks a task as done, if the worker holds its lease.
    pub fn complete(&mut self, task_id: &str, worker_id: &str)
        ensures
            exists|at: Seq<char>|
                final(self)@ == #[trigger] after_complete(old(self)@, task_id@, worker_id@, at),
    {
        let at = now_text();
        let ghost at_text = at@;
        self.complete_at(task_id, worker_id, at);
        proof {
            assert(self@ == after_complete(old(self)@, task_id@, worker_id@, at_text));
        }
    }

    /// Marks a task as done at the time `finished`, if the worker holds its lease.
    pub fn complete_at(&mut self, task_id: &str, worker_id: &str, finished: String)
        ensures
            final(self)@ == after_complete(old(self)@, task_id@, worker_id@, finished@),
    {
        match self.find(task_id) {
            None => {},
            Some(i) => {
                if self.owned_by(i, worker_id) {
                    let row = &self.rows[i];
                    let ghost before = row@;
                    let mut task = row.task.copy();
                    task.status = TaskStatus::Done;
                    task.finished_at = Some(finished);
                    task.last_error = None;
                    let fresh = TaskRow {
                        task,
                        idempotency_key: row.idempotency_key.clone(),
                        next_retry_at: row.next_retry_at,
                    };
                    proof {
                        assert(fresh@ =~= completed(before, finished@));
                    }
                    self.replace(i, fresh);
                }
            },
        }
    }

    /// Marks a task as failed, if the worker holds its lease: it waits for its
    /// next attempt, or is dead where it has used up its attempts.
    pub fn fail(&mut self, task_id: &str, worker_id: &str, error: &str, base_ms: i64)
        ensures
            exists|now: i64, at: Seq<char>|
                0 <= now < END_OF_TIME && final(self)@ == #[trigger] after_fail(
                    old(self)@,
                    task_id@,
                    worker_id@,
                    error@,
                    base_ms,
                    now,
                    at,
                ),
    {
        let now: i64 = now_ms();
        let at = now_text();
        let ghost at_text = at@;
        self.fail_at(task_id, worker_id, error, base_ms, now, at);
        proof {
            assert(self@ == after_fail(
                old(self)@,
                task_id@,
                worker_id@,
                error@,
                base_ms,
                now,
                at_text,
            ));
        }
    }

    /// Marks a task as failed at the time `now`, if the worker holds its lease.
    pub fn fail_at(
        &mut self,
        task_id: &str,
        worker_id: &str,
        error: &str,
        base_ms: i64,
        now: i64,
        finished: String,
    )
        ensures
            final(self)@ == after_fail(
                old(self)@,
                task_id@,
                worker_id@,
                error@,
                base_ms,
                now,
                finished@,
            ),
    {
        match self.find(task_id) {
            None => {},
            Some(i) => {
                if self.owned_by(i, worker_id) {
                    let row = &self.rows[i];
                    let ghost before = row@;
                    let dead = row.task.attempts >= row.task.max_attempts;
                    let mut task = row.task.copy();
                    task.last_error = Some(error.to_owned());
                    task.lease_owner = None;
                    task.lease_expires_at = None;
                    let mut next: Option<i64> = None;
                    if dead {
                        task.finished_at = Some(finished);
                        task.status = TaskStatus::Dead;
                    } else {
                        task.finished_at = None;
                        task.status = TaskStatus::Pending;
                        let wait: i64 = retry_delay(base_ms, row.task.attempts);
                        next = Some(clamp(now as i128 + wait as i128));
                    }
                    let fresh = TaskRow {
                        task,
                        idempotency_key: row.idempotency_key.clone(),
                        next_retry_at: next,
                    };
                    proof {
                        assert(fresh@ =~= failed(before, error@, base_ms, now, finished@));
                    }
                    self.replace(i, fresh);
                }
            },
        }
    }

    /// Takes back every lease that has run out, and says how many there were.
    pub fn reclaim_expired(&mut self) -> (r: usize)
        ensures
            exists|now: i64, at: Seq<char>|
                0 <= now < END_OF_TIME && r == expired_count(old(self)@, now) && final(self)@ == #[trigger]
                    after_reclaim(old(self)@, now, at),
    {
        let now: i64 = now_ms();
        let at = now_text();
        let r: usize = self.reclaim_expired_at(now, at.as_str());
        proof {
            assert(self@ == after_reclaim(old(self)@, now, at@));
        }
        r
    }

    /// Takes back every lease that has run out at the time `now`, and says how
    /// many there were.
    pub fn reclaim_expired_at(&mut self, now: i64, finished: &str) -> (r: usize)
        ensures
            r == expired_count(old(self)@, now),
            final(self)@ == after_reclaim(old(self)@, now, finished@),
    {
        let ghost start = self@;
        let ghost step = |row: RowView|
            if expired(row, now) {
                reclaimed(row, finished@)
            } else {
                row
            };
        let ghost want = start.map_values(step);
        let mut n: usize = 0;
        let mut i: usize = 0;
        proof {
            assert(start.take(0) =~= Seq::<RowView>::empty());
            assert(want.take(0) + start.skip(0) =~= start);
        }
        while i < self.rows.len()
            invariant
                i <= start.len(),
                self@.len() == start.len(),
                self.rows@.len() == start.len(),
                want == start.map_values(step),
                step == (|row: RowView|
                    if expired(row, now) {
                        reclaimed(row, finished@)
                    } else {
                        row
                    }),
                self@ == want.take(i as int) + start.skip(i as int),
                n == expired_count(start.take(i as int), now),
                n <= i,
            decreases start.len() - i,
        {
            proof {
                assert(start.take(i + 1).drop_last() =~= start.take(i as int));
                assert(start.take(i + 1).last() == start[i as int]);
                assert(self@[i as int] == start[i as int]);
                assert(self@ == rows_view(self.rows@));
            }
            let row = &self.rows[i];
            let ghost before = row@;
            let over = match row.task.lease_expires_at {
                Some(t) => t < now,
                None => false,
            };
            if row.task.status == TaskStatus::Leased && over {
                let mut task = row.task.copy();
                let mut note = match &row.task.last_error {
                    Some(e) => e.clone(),
                    None => String::new(),
                };
                if row.task.attempts < row.task.max_attempts {
                    note.append(" [reclaimed]");
                    task.status = TaskStatus::Pending;
                    task.lease_owner = None;
                    task.lease_expires_at = None;
                    proof {
                        if before.task.last_error is None {
                            assert(note@ =~= " [reclaimed]"@);
                        }
                    }
                } else {
                    note.append(" [deadline]");
                    task.status = TaskStatus::Dead;
                    task.finished_at = Some(finished.to_owned());
                    proof {
                        if before.task.last_error is None {
                            assert(note@ =~= " [deadline]"@);
                        }
                    }
                }
                task.last_error = Some(note);
                let fresh = TaskRow {
                    task,
                    idempotency_key: row.idempotency_key.clone(),
                    next_retry_at: row.next_retry_at,
                };
                proof {
                    assert(fresh@ =~= reclaimed(before, finished@));
                }
                self.replace(i, fresh);
                n += 1;
            }
            proof {
                assert(want[i as int] == step(start[i as int]));
                assert(self@ =~= want.take(i + 1) + start.skip(i + 1));
            }
            i += 1;
        }
        proof {
            assert(start.take(start.len() as int) =~= start);
            assert(self@ =~= want);
        }
        n
    }

    /// How many rows of the session have the status.
    fn count(&self, session_id: &str, status: TaskStatus) -> (r: usize)
        ensures
            r == counted(self@, session_id@, status),
    {
        let ghost rows = self@;
        let mut n: usize = 0;
        let mut i: usize = 0;
        proof {
            assert(rows.take(0) =~= Seq::<RowView>::empty());
        }
        while i < self.rows.len()
            invariant
                i <= self.rows@.len(),
                rows == self@,
                rows == rows_view(self.rows@),
                n == counted(rows.take(i as int), session_id@, status),
                n <= i,
            decreases self.rows.len() - i,
        {
            proof {
                assert(rows.take(i + 1).drop_last() =~= rows.take(i as int));
                assert(rows.take(i + 1).last() == self.rows@[i as int]@);
            }
            if self.rows[i].task.status == status && str_eq(
                self.rows[i].task.session_id.as_str(),
                session_id,
            ) {
                n += 1;
            }
            i += 1;
        }
        proof {
            assert(rows.take(rows.len() as int) =~= rows);
        }
        n
    }

    /// How many tasks of the session wait.
    pub fn pending_count(&self, session_id: &str) -> (r: usize)
        ensures
            r == counted(self@, session_id@, TaskStatus::Pending),
    {
        self.count(session_id, TaskStatus::Pending)
    }

    /// How many tasks of the session are under way.
    pub fn inflight_count(&self, session_id: &str) -> (r: usize)
        ensures
            r == counted(self@, session_id@, TaskStatus::Leased),
    {
        self.count(session_id, TaskStatus::Leased)
    }

    /// Cancels every waiting task of the session, and says how many there were.
    pub fn cancel_pending(&mut self, session_id: &str) -> (r: usize)
        ensures
            r == counted(old(self)@, session_id@, TaskStatus::Pending),
            exists|at: Seq<char>|
                final(self)@ == #[trigger] after_cancel(old(self)@, session_id@, at),
    {
        let at = now_text();
        let r: usize = self.cancel_pending_at(session_id, at.as_str());
        proof {
            assert(self@ == after_cancel(old(self)@, session_id@, at@));
        }
        r
    }

    /// Cancels every waiting task of the session at the time `finished`, and says
    /// how many there were.
    pub fn cancel_pending_at(&mut self, session_id: &str, finished: &str) -> (r: usize)
        ensures
            r == counted(old(self)@, session_id@, TaskStatus::Pending),
            final(self)@ == after_cancel(old(self)@, session_id@, finished@),
    {
        let ghost start = self@;
        let ghost step = |row: RowView|
            if of_session(row, session_id@, TaskStatus::Pending) {
                cancelled(row, finished@)
            } else {
                row
            };
        let ghost want = start.map_values(step);
        let mut n: usize = 0;
        let mut i: usize = 0;
        proof {
            assert(start.take(0) =~= Seq::<RowView>::empty());
            assert(want.take(0) + start.skip(0) =~= start);
        }
        while i < self.rows.len()
            invariant
                i <= start.len(),
                self@.len() == start.len(),
                self.rows@.len() == start.len(),
                want == start.map_values(step),
                step == (|row: RowView|
                    if of_session(row, session_id@, TaskStatus::Pending) {
                        cancelled(row, finished@)
                    } else {
                        row
                    }),
                self@ == want.take(i as int) + start.skip(i as int),
                n == counted(start.take(i as int), session_id@, TaskStatus::Pending),
                n <= i,
            decreases start.len() - i,
        {
            proof {
                assert(start.take(i + 1).drop_last() =~= start.take(i as int));
                assert(start.take(i + 1).last() == start[i as int]);
                assert(self@[i as int] == start[i as int]);
                assert(self@ == rows_view(self.rows@));
            }
            let row = &self.rows[i];
            let ghost before = row@;
            if row.task.status == TaskStatus::Pending && str_eq(
                row.task.session_id.as_str(),
                session_id,
            ) {
                let mut task = row.task.copy();
                task.status = TaskStatus::Cancelled;
                task.finished_at = Some(finished.to_owned());
                let fresh = TaskRow {
                    task,
                    idempotency_key: row.idempotency_key.clone(),
                    next_retry_at: row.next_retry_at,
                };
                proof {
                    assert(fresh@ =~= cancelled(before, finished@));
                }
                self.replace(i, fresh);
                n += 1;
            }
            proof {
                assert(want[i as int] == step(start[i as int]));
                assert(self@ =~= want.take(i + 1) + start.skip(i + 1));
            }
            i += 1;
        }
        proof {
            assert(start.take(start.len() as int) =~= start);
            assert(self@ =~= want);
        }
        n
    }
}

/// The session that a claim is for.
pub open spec fn session_view(session: Option<&str>) -> Option<Seq<char>> {
    match session {
        Some(s) => Some(s@),
        None => None,
    }
}

/// Whether a claim did what it must: it leased the next ready row and returned
/// its task, or found none and changed nothing.
pub open spec fn claims(
    before: Seq<RowView>,
    session: Option<Seq<char>>,
    worker: Seq<char>,
    expires: i64,
    now: i64,
    started: Seq<char>,
    after: Seq<RowView>,
    r: Option<Task>,
) -> bool {
    match next_ready(before, session, now) {
        None => after == before && r is None,
        Some(i) => {
            &&& after == before.update(i, leased(before[i], worker, expires, started))
            &&& r matches Some(t) && t@ == after[i].task
        },
    }
}

/// The rows after a completion.
pub open spec fn after_complete(
    rows: Seq<RowView>,
    id: Seq<char>,
    worker: Seq<char>,
    finished: Seq<char>,
) -> Seq<RowView> {
    match row_place(rows, id, 0) {
        Some(i) => if rows[i].task.lease_owner == Some(worker) {
            rows.update(i, completed(rows[i], finished))
        } else {
            rows
        },
        None => rows,
    }
}

/// The rows after a failure.
pub open spec fn after_fail(
    rows: Seq<RowView>,
    id: Seq<char>,
    worker: Seq<char>,
    error: Seq<char>,
    base_ms: i64,
    now: i64,
    finished: Seq<char>,
) -> Seq<RowView> {
    match row_place(rows, id, 0) {
        Some(i) => if rows[i].task.lease_owner == Some(worker) {
            rows.update(i, failed(rows[i], error, base_ms, now, finished))
        } else {
            rows
        },
        None => rows,
    }
}

/// The number, brought into the range of `i64`.
fn clamp(n: i128) -> (r: i64)
    ensures
        r == clamped(n as int),
{
    if n < i64::MIN as i128 {
        i64::MIN
    } else if n > i64::MAX as i128 {
        i64::MAX
    } else {
        n as i64
    }
}

/// The quotient, rounded toward zero.
fn divide(n: i128, d: i128) -> (r: i128)
    requires
        d > 0,
        n > i128::MIN,
    ensures
        r == toward_zero(n as int, d as int),
{
    if n >= 0 {
        n / d
    } else {
        -((-n) / d)
    }
}

/// How long a failed task waits, in milliseconds.
pub fn retry_delay(base_ms: i64, attempts: i64) -> (r: i64)
    ensures
        r == backoff(base_ms, attempts),
{
    let factor: i128 = if attempts <= 1 {
        1
    } else if attempts == 2 {
        2
    } else if attempts == 3 {
        4
    } else if attempts == 4 {
        8
    } else if attempts == 5 {
        16
    } else if attempts == 6 {
        32
    } else if attempts == 7 {
        64
    } else if attempts == 8 {
        128
    } else if attempts == 9 {
        256
    } else if attempts == 10 {
        512
    } else {
        1024
    };
    proof {
        assert(-0x1_0000_0000_0000_0000_0000 <= base_ms * factor <= 0x1_0000_0000_0000_0000_0000)
            by (nonlinear_arith)
            requires
                1 <= factor <= 1024,
                i64::MIN <= base_ms <= i64::MAX,
        ;
    }
    let delay: i64 = clamp(base_ms as i128 * factor);
    let tenth: i128 = divide(delay as i128, 10);
    let fifth: i128 = divide(tenth, 5);
    let spread: i64 = clamp(delay as i128 + tenth - fifth);
    if spread < 300_000 {
        spread
    } else {
        300_000
    }
}

// --------------------------------------------------------------------- laws

proof fn lemma_next_of(rows: Seq<RowView>, session: Option<Seq<char>>, now: i64, n: nat)
    requires
        n <= rows.len(),
    ensures
        match next_of(rows, session, now, n) {
            Some(i) => {
                &&& 0 <= i < n
                &&& ready(rows[i], session, now)
                &&& forall|j: int|
                    0 <= j < n && ready(#[trigger] rows[j], session, now) ==> !claimed_before(
                        rows[j],
                        rows[i],
                    )
            },
            None => forall|j: int| 0 <= j < n ==> !ready(#[trigger] rows[j], session, now),
        },
    decreases n,
{
    if n > 0 {
        lemma_next_of(rows, session, now, (n - 1) as nat);
        let last = rows[n - 1];
        lemma_lex_total(last.task.created_at, last.task.created_at);
        match next_of(rows, session, now, (n - 1) as nat) {
            Some(i) => {
                if ready(last, session, now) && claimed_before(last, rows[i]) {
                    assert forall|j: int|
                        0 <= j < n && ready(#[trigger] rows[j], session, now) implies !claimed_before(
                        rows[j],
                        last,
                    ) by {
                        if j < n - 1 && claimed_before(rows[j], last) {
                            lemma_claimed_trans(rows[j], last, rows[i]);
                        }
                    }
                }
            },
            None => {},
        }
    }
}

proof fn lemma_claimed_trans(a: RowView, b: RowView, c: RowView)
    requires
        claimed_before(a, b),
        claimed_before(b, c),
    ensures
        claimed_before(a, c),
{
    if a.task.priority == b.task.priority && b.task.priority == c.task.priority {
        lemma_lex_trans(a.task.created_at, b.task.created_at, c.task.created_at);
    }
}

/// The task that is claimed is ready, and no ready task should have been claimed
/// before it. Where nothing is claimed, nothing is ready.
pub proof fn law_claim_takes_first(rows: Seq<RowView>, session: Option<Seq<char>>, now: i64)
    ensures
        match next_ready(rows, session, now) {
            Some(i) => {
                &&& 0 <= i < rows.len()
                &&& ready(rows[i], session, now)
                &&& forall|j: int|
                    0 <= j < rows.len() && ready(#[trigger] rows[j], session, now)
                        ==> !claimed_before(rows[j], rows[i])
            },
            None => forall|j: int|
                0 <= j < rows.len() ==> !ready(#[trigger] rows[j], session, now),
        },
{
    lemma_next_of(rows, session, now, rows.len());
}

/// A claimed task is not claimed again while it is leased, by whomever and at
/// whatever time.
pub proof fn law_claims_are_exclusive(
    rows: Seq<RowView>,
    session: Option<Seq<char>>,
    now: i64,
    worker: Seq<char>,
    expires: i64,
    started: Seq<char>,
    other: Option<Seq<char>>,
    later: i64,
)
    requires
        next_ready(rows, session, now) is Some,
    ensures
        ({
            let i = next_ready(rows, session, now)->0;
            let after = rows.update(i, leased(rows[i], worker, expires, started));
            next_ready(after, other, later) != Some(i)
        }),
{
    law_claim_takes_first(rows, session, now);
    let i = next_ready(rows, session, now)->0;
    let after = rows.update(i, leased(rows[i], worker, expires, started));
    law_claim_takes_first(after, other, later);
}

/// Queuing the same logical task twice gives the same id and queues it once.
pub proof fn law_enqueue_is_idempotent(rows: Seq<RowView>, row: RowView)
    requires
        key_place(rows, row.idempotency_key, 0) is None,
    ensures
        key_place(rows.push(row), row.idempotency_key, 0) == Some(rows.len() as int),
{
    lemma_key_absent(rows, row.idempotency_key, 0);
    lemma_key_last(rows, row, 0);
}

proof fn lemma_key_absent(rows: Seq<RowView>, key: Seq<char>, from: int)
    requires
        0 <= from,
        key_place(rows, key, from) is None,
    ensures
        forall|j: int| from <= j < rows.len() ==> (#[trigger] rows[j]).idempotency_key != key,
    decreases rows.len() - from,
{
    if from < rows.len() {
        lemma_key_absent(rows, key, from + 1);
    }
}

proof fn lemma_key_last(rows: Seq<RowView>, row: RowView, from: int)
    requires
        0 <= from <= rows.len(),
        forall|j: int|
            0 <= j < rows.len() ==> (#[trigger] rows[j]).idempotency_key != row.idempotency_key,
    ensures
        key_place(rows.push(row), row.idempotency_key, from) == Some(rows.len() as int),
    decreases rows.len() - from,
{
    if from < rows.len() {
        assert(rows.push(row)[from] == rows[from]);
        lemma_key_last(rows, row, from + 1);
    }
}

proof fn lemma_row_place(rows: Seq<RowView>, id: Seq<char>, from: int)
    requires
        0 <= from,
    ensures
        match row_place(rows, id, from) {
            Some(i) => from <= i < rows.len() && rows[i].task.id == id,
            None => forall|j: int| from <= j < rows.len() ==> (#[trigger] rows[j]).task.id != id,
        },
    decreases rows.len() - from,
{
    if from < rows.len() && rows[from].task.id != id {
        lemma_row_place(rows, id, from + 1);
    }
}

/// Queuing keeps every id and every key unique.
pub proof fn law_enqueue_keeps_unique(
    rows: Seq<RowView>,
    req: EnqueueRequest,
    key: Seq<char>,
    id: Seq<char>,
    created_at: Seq<char>,
)
    requires
        unique(rows),
        key_place(rows, key, 0) is None,
        row_place(rows, id, 0) is None,
    ensures
        unique(rows.push(new_row(req, key, id, created_at))),
{
    lemma_key_absent(rows, key, 0);
    lemma_row_place(rows, id, 0);
}

/// Claiming, completing and failing keep every id and every key.
pub proof fn law_transitions_keep_identity(
    row: RowView,
    worker: Seq<char>,
    expires: i64,
    text: Seq<char>,
    base_ms: i64,
    now: i64,
)
    ensures
        leased(row, worker, expires, text).task.id == row.task.id,
        leased(row, worker, expires, text).idempotency_key == row.idempotency_key,
        completed(row, text).task.id == row.task.id,
        completed(row, text).idempotency_key == row.idempotency_key,
        failed(row, text, base_ms, now, text).task.id == row.task.id,
        failed(row, text, base_ms, now, text).idempotency_key == row.idempotency_key,
        reclaimed(row, text).task.id == row.task.id,
        reclaimed(row, text).idempotency_key == row.idempotency_key,
        cancelled(row, text).task.id == row.task.id,
        cancelled(row, text).idempotency_key == row.idempotency_key,
{
}

/// A worker that does not hold the lease of a task, such as one whose lease was
/// taken back, cannot change it.
pub proof fn law_only_owner_finishes(
    rows: Seq<RowView>,
    id: Seq<char>,
    worker: Seq<char>,
    error: Seq<char>,
    base_ms: i64,
    now: i64,
    finished: Seq<char>,
)
    requires
        forall|i: int|
            0 <= i < rows.len() && (#[trigger] rows[i]).task.id == id
                ==> rows[i].task.lease_owner != Some(worker),
    ensures
        after_complete(rows, id, worker, finished) == rows,
        after_fail(rows, id, worker, error, base_ms, now, finished) == rows,
{
    lemma_row_place(rows, id, 0);
}

/// A task that has used up its attempts is dead after it fails and after its
/// lease runs out, and a dead task is never claimed.
pub proof fn law_attempts_are_bounded(
    row: RowView,
    error: Seq<char>,
    base_ms: i64,
    now: i64,
    finished: Seq<char>,
    session: Option<Seq<char>>,
    later: i64,
)
    requires
        row.task.attempts >= row.task.max_attempts,
    ensures
        failed(row, error, base_ms, now, finished).task.status == TaskStatus::Dead,
        reclaimed(row, finished).task.status == TaskStatus::Dead,
        !ready(failed(row, error, base_ms, now, finished), session, later),
        !ready(reclaimed(row, finished), session, later),
{
}

/// A failed task that may be tried again is not ready before its delay is over.
pub proof fn law_retry_waits(
    row: RowView,
    error: Seq<char>,
    base_ms: i64,
    now: i64,
    finished: Seq<char>,
    session: Option<Seq<char>>,
    later: i64,
)
    requires
        row.task.attempts < row.task.max_attempts,
        later < now + backoff(base_ms, row.task.attempts) <= i64::MAX,
        i64::MIN <= now + backoff(base_ms, row.task.attempts),
    ensures
        !ready(failed(row, error, base_ms, now, finished), session, later),
{
}

/// A delay is never negative, never more than five minutes, never below the
/// base unless that is more, and never shrinks as the attempts go on.
pub proof fn law_backoff_bounds(base_ms: i64, attempts: i64, more: i64)
    requires
        base_ms >= 0,
        attempts <= more,
    ensures
        0 <= backoff(base_ms, attempts) <= 300_000,
        base_ms <= 300_000 ==> backoff(base_ms, attempts) >= base_ms,
        backoff(base_ms, attempts) <= backoff(base_ms, more),
{
    let g = growth(attempts);
    let h = growth(more);
    assert(1 <= g <= h);
    assert(base_ms <= base_ms * g <= base_ms * h) by (nonlinear_arith)
        requires
            base_ms >= 0,
            1 <= g <= h,
    ;
}

proof fn lemma_next_first(rows: Seq<RowView>, session: Option<Seq<char>>, now: i64, n: nat)
    requires
        n <= rows.len(),
    ensures
        next_of(rows, session, now, n) matches Some(i) ==> forall|j: int|
            0 <= j < i && ready(#[trigger] rows[j], session, now) ==> claimed_before(
                rows[i],
                rows[j],
            ),
    decreases n,
{
    if n > 0 {
        lemma_next_first(rows, session, now, (n - 1) as nat);
        lemma_next_of(rows, session, now, (n - 1) as nat);
        let last = rows[n - 1];
        match next_of(rows, session, now, (n - 1) as nat) {
            Some(i) => {
                if ready(last, session, now) && claimed_before(last, rows[i]) {
                    assert forall|j: int|
                        0 <= j < n - 1 && ready(#[trigger] rows[j], session, now) implies claimed_before(
                        last,
                        rows[j],
                    ) by {
                        assert(!claimed_before(rows[j], rows[i]));
                        lemma_lex_total(rows[j].task.created_at, rows[i].task.created_at);
                        if rows[i].task.priority == rows[j].task.priority && last.task.priority
                            == rows[i].task.priority && rows[i].task.created_at
                            != rows[j].task.created_at {
                            lemma_lex_trans(
                                last.task.created_at,
                                rows[i].task.created_at,
                                rows[j].task.created_at,
                            );
                        }
                    }
                }
            },
            None => {},
        }
    }
}

/// A claim for a session takes a waiting task of that session whose delay is over,
/// and of all of those one with the lowest priority number, of those the oldest, and
/// of those the one that was queued first. It comes back as leased to the worker, and
/// nothing else changes. Where there is no such task, nothing comes back and nothing
/// changes. Where no session is given, tasks of all sessions count.
pub proof fn law_claim_is_for_the_session(
    before: Seq<RowView>,
    session: Option<Seq<char>>,
    worker: Seq<char>,
    expires: i64,
    now: i64,
    started: Seq<char>,
    after: Seq<RowView>,
    r: Option<Task>,
)
    requires
        claims(before, session, worker, expires, now, started, after, r),
    ensures
        ({
            let open = |row: RowView|
                {
                    &&& row.task.status == TaskStatus::Pending
                    &&& session is None || row.task.session_id == session->0
                    &&& row.next_retry_at is None || row.next_retry_at->0 <= now
                };
            match r {
                None => {
                    &&& after == before
                    &&& forall|i: int| 0 <= i < before.len() ==> !open(#[trigger] before[i])
                },
                Some(t) => exists|i: int|
                    {
                        &&& 0 <= i < before.len()
                        &&& open(#[trigger] before[i])
                        &&& forall|j: int|
                            0 <= j < before.len() && open(#[trigger] before[j]) ==> {
                                ||| before[i].task.priority < before[j].task.priority
                                ||| {
                                    &&& before[i].task.priority == before[j].task.priority
                                    &&& lex_lt(
                                        before[i].task.created_at,
                                        before[j].task.created_at,
                                    ) || (before[i].task.created_at == before[j].task.created_at
                                        && i <= j)
                                }
                            }
                        &&& after.len() == before.len()
                        &&& forall|j: int|
                            0 <= j < before.len() && j != i ==> #[trigger] after[j] == before[j]
                        &&& after[i].task == t@
                        &&& after[i].idempotency_key == before[i].idempotency_key
                        &&& after[i].next_retry_at == before[i].next_retry_at
                        &&& t.id@ == before[i].task.id
                        &&& session is Some ==> t.session_id@ == session->0
                        &&& t.session_id@ == before[i].task.session_id
                        &&& t.agent@ == before[i].task.agent
                        &&& t.action@ == before[i].task.action
                        &&& t.payload@ == before[i].task.payload
                        &&& t.priority == before[i].task.priority
                        &&& t.status == TaskStatus::Leased
                        &&& t@.lease_owner == Some(worker)
                        &&& t.lease_expires_at == Some(expires)
                        &&& before[i].task.attempts < i64::MAX ==> t.attempts
                            == before[i].task.attempts + 1
                        &&& t.max_attempts == before[i].task.max_attempts
                        &&& t.created_at@ == before[i].task.created_at
                        &&& t@.started_at == Some(started)
                        &&& t@.finished_at == before[i].task.finished_at
                        &&& t@.last_error == before[i].task.last_error
                    },
            }
        }),
{
    lemma_next_of(before, session, now, before.len());
    lemma_next_first(before, session, now, before.len());
    match next_ready(before, session, now) {
        None => {
            assert forall|i: int| 0 <= i < before.len() implies !({
                let row = #[trigger] before[i];
                &&& row.task.status == TaskStatus::Pending
                &&& session is None || row.task.session_id == session->0
                &&& row.next_retry_at is None || row.next_retry_at->0 <= now
            }) by {
                assert(!ready(before[i], session, now));
            }
        },
        Some(i) => {
            assert(ready(before[i], session, now));
            assert forall|j: int|
                0 <= j < before.len() && ({
                    let row = #[trigger] before[j];
                    &&& row.task.status == TaskStatus::Pending
                    &&& session is None || row.task.session_id == session->0
                    &&& row.next_retry_at is None || row.next_retry_at->0 <= now
                }) implies ({
                ||| before[i].task.priority < before[j].task.priority
                ||| {
                    &&& before[i].task.priority == before[j].task.priority
                    &&& lex_lt(before[i].task.created_at, before[j].task.created_at) || (
                    before[i].task.created_at == before[j].task.created_at && i <= j)
                }
            }) by {
                assert(ready(before[j], session, now));
                assert(!claimed_before(before[j], before[i]));
                lemma_lex_total(before[i].task.created_at, before[j].task.created_at);
                lemma_lex_total(before[i].task.created_at, before[i].task.created_at);
                if j < i {
                    assert(claimed_before(before[i], before[j]));
                }
            }
        },
    }
}

proof fn lemma_key_found(rows: Seq<RowView>, key: Seq<char>, from: int)
    requires
        0 <= from,
    ensures
        match key_place(rows, key, from) {
            Some(i) => {
                &&& from <= i < rows.len()
                &&& rows[i].idempotency_key == key
                &&& forall|j: int| from <= j < i ==> (#[trigger] rows[j]).idempotency_key != key
            },
            None => forall|j: int|
                from <= j < rows.len() ==> (#[trigger] rows[j]).idempotency_key != key,
        },
    decreases rows.len() - from,
{
    if from < rows.len() && rows[from].idempotency_key != key {
        lemma_key_found(rows, key, from + 1);
    }
}

/// Queuing under a key that a row has already changes nothing and gives the id of
/// that row, in whatever state it is. Queuing under a new key puts one task at the
/// end, as it was asked for, waiting and never tried, and gives its id; where that id
/// is taken, nothing changes.
pub proof fn law_enqueue_adds_what_was_asked(
    before: Seq<RowView>,
    req: EnqueueRequest,
    key: Seq<char>,
    id: Seq<char>,
    at: Seq<char>,
    after: Seq<RowView>,
    r: Result<String, QueueError>,
)
    requires
        enqueues(before, req, key, id, at, after, r),
    ensures
        (exists|i: int| 0 <= i < before.len() && (#[trigger] before[i]).idempotency_key == key)
            ==> after == before && exists|i: int|
            0 <= i < before.len() && (#[trigger] before[i]).idempotency_key == key && r is Ok
                && r->Ok_0@ == before[i].task.id,
        (forall|i: int| 0 <= i < before.len() ==> (#[trigger] before[i]).idempotency_key != key)
            ==> if exists|i: int| 0 <= i < before.len() && (#[trigger] before[i]).task.id == id {
            after == before && r is Err
        } else {
            &&& r is Ok
            &&& r->Ok_0@ == id
            &&& after.len() == before.len() + 1
            &&& forall|i: int| 0 <= i < before.len() ==> #[trigger] after[i] == before[i]
            &&& after.last().idempotency_key == key
            &&& after.last().next_retry_at is None
            &&& after.last().task.id == id
            &&& after.last().task.session_id == req.session_id@
            &&& after.last().task.agent == req.agent@
            &&& after.last().task.action == req.action@
            &&& after.last().task.payload == req.payload@
            &&& after.last().task.priority == req.priority
            &&& after.last().task.status == TaskStatus::Pending
            &&& after.last().task.lease_owner is None
            &&& after.last().task.lease_expires_at is None
            &&& after.last().task.attempts == 0
            &&& after.last().task.max_attempts == req.max_attempts
            &&& after.last().task.created_at == at
            &&& after.last().task.started_at is None
            &&& after.last().task.finished_at is None
            &&& after.last().task.last_error is None
        },
{
    lemma_key_found(before, key, 0);
    lemma_row_place(before, id, 0);
    match key_place(before, key, 0) {
        Some(i) => {
            assert(before[i].idempotency_key == key);
        },
        None => {
            match row_place(before, id, 0) {
                Some(i) => {
                    assert(before[i].task.id == id);
                },
                None => {},
            }
        },
    }
}

/// Queuing twice under one key gives one task: the second time the id of the first
/// comes back and nothing is added, whatever is asked for.
pub proof fn law_one_task_for_one_key(
    rows: Seq<RowView>,
    a: EnqueueRequest,
    b: EnqueueRequest,
    key: Seq<char>,
    id_a: Seq<char>,
    id_b: Seq<char>,
    at_a: Seq<char>,
    at_b: Seq<char>,
    mid: Seq<RowView>,
    after: Seq<RowView>,
    ra: Result<String, QueueError>,
    rb: Result<String, QueueError>,
)
    requires
        enqueues(rows, a, key, id_a, at_a, mid, ra),
        enqueues(mid, b, key, id_b, at_b, after, rb),
        ra is Ok,
    ensures
        after == mid,
        rb is Ok,
        rb->Ok_0@ == ra->Ok_0@,
{
    lemma_key_found(rows, key, 0);
    lemma_key_found(mid, key, 0);
    match key_place(rows, key, 0) {
        Some(i) => {},
        None => {
            lemma_key_last(rows, new_row(a, key, id_a, at_a), 0);
        },
    }
}

/// The owner of a lease who completes a task makes it done, with the time and
/// without an error; all else of it stays, and so does every other task.
pub proof fn law_completion_is_recorded(
    rows: Seq<RowView>,
    id: Seq<char>,
    worker: Seq<char>,
    finished: Seq<char>,
    i: int,
)
    requires
        unique(rows),
        0 <= i < rows.len(),
        rows[i].task.id == id,
        rows[i].task.lease_owner == Some(worker),
    ensures
        ({
            let after = after_complete(rows, id, worker, finished);
            &&& after.len() == rows.len()
            &&& forall|j: int| 0 <= j < rows.len() && j != i ==> #[trigger] after[j] == rows[j]
            &&& after[i].task.status == TaskStatus::Done
            &&& after[i].task.finished_at == Some(finished)
            &&& after[i].task.last_error is None
            &&& after[i].idempotency_key == rows[i].idempotency_key
            &&& after[i].next_retry_at == rows[i].next_retry_at
            &&& same_task(after[i].task, rows[i].task)
            &&& after[i].task.lease_owner == rows[i].task.lease_owner
            &&& after[i].task.lease_expires_at == rows[i].task.lease_expires_at
        }),
{
    lemma_row_is(rows, id, i);
}

/// Whether two records are of one task: what was asked for, its attempts and when it
/// was queued and begun are the same.
pub open spec fn same_task(a: TaskView, b: TaskView) -> bool {
    &&& a.id == b.id
    &&& a.session_id == b.session_id
    &&& a.agent == b.agent
    &&& a.action == b.action
    &&& a.payload == b.payload
    &&& a.priority == b.priority
    &&& a.attempts == b.attempts
    &&& a.max_attempts == b.max_attempts
    &&& a.created_at == b.created_at
    &&& a.started_at == b.started_at
}

proof fn lemma_row_is(rows: Seq<RowView>, id: Seq<char>, i: int)
    requires
        unique(rows),
        0 <= i < rows.len(),
        rows[i].task.id == id,
    ensures
        row_place(rows, id, 0) == Some(i),
{
    lemma_row_place(rows, id, 0);
    match row_place(rows, id, 0) {
        Some(k) => {
            if k < i {
                assert(rows[k].task.id != rows[i].task.id);
            } else if i < k {
                assert(rows[i].task.id != rows[k].task.id);
            }
        },
        None => {
            assert(rows[i].task.id != id);
        },
    }
}

/// The owner of a lease who fails a task gives it back with the error: to wait for
/// its next attempt while it has attempts left, with no time of its end, and dead
/// otherwise. All else of it stays, and so does every other task.
pub proof fn law_failure_is_recorded(
    rows: Seq<RowView>,
    id: Seq<char>,
    worker: Seq<char>,
    error: Seq<char>,
    base_ms: i64,
    now: i64,
    finished: Seq<char>,
    i: int,
)
    requires
        unique(rows),
        0 <= i < rows.len(),
        rows[i].task.id == id,
        rows[i].task.lease_owner == Some(worker),
        0 <= base_ms,
        0 <= now <= i64::MAX - 300_000,
    ensures
        ({
            let after = after_fail(rows, id, worker, error, base_ms, now, finished);
            &&& after.len() == rows.len()
            &&& forall|j: int| 0 <= j < rows.len() && j != i ==> #[trigger] after[j] == rows[j]
            &&& same_task(after[i].task, rows[i].task)
            &&& after[i].idempotency_key == rows[i].idempotency_key
            &&& after[i].task.last_error == Some(error)
            &&& after[i].task.lease_owner is None
            &&& after[i].task.lease_expires_at is None
            &&& if rows[i].task.attempts >= rows[i].task.max_attempts {
                &&& after[i].task.status == TaskStatus::Dead
                &&& after[i].task.finished_at == Some(finished)
                &&& after[i].next_retry_at is None
            } else {
                &&& after[i].task.status == TaskStatus::Pending
                &&& after[i].task.finished_at is None
                &&& after[i].next_retry_at is Some
                &&& after[i].next_retry_at->0 == now + backoff(base_ms, rows[i].task.attempts)
            }
        }),
{
    lemma_row_is(rows, id, i);
    law_backoff_bounds(base_ms, rows[i].task.attempts, rows[i].task.attempts);
}

/// The delay after the first attempt is the base and eight hundredths of it, five
/// minutes at most; with each of the next ten attempts it is as if the base had
/// doubled once more; after that it stays.
pub proof fn law_backoff_doubles(base_ms: i64, attempts: i64)
    requires
        0 <= base_ms,
    ensures
        base_ms <= 1_000_000_000 ==> backoff(base_ms, 1) == (if base_ms + base_ms as int / 10
            - base_ms as int / 10 / 5 < 300_000 {
            base_ms + base_ms as int / 10 - base_ms as int / 10 / 5
        } else {
            300_000
        }),
        attempts <= 1 ==> backoff(base_ms, attempts) == backoff(base_ms, 1),
        1 <= attempts <= 10 && 2 * base_ms <= i64::MAX ==> backoff(base_ms, (attempts + 1) as i64)
            == backoff((2 * base_ms) as i64, attempts),
        attempts >= 11 ==> backoff(base_ms, attempts) == backoff(base_ms, 11),
{
    let g = growth(attempts);
    if 1 <= attempts <= 10 && 2 * base_ms <= i64::MAX {
        assert(growth((attempts + 1) as i64) == 2 * g);
        assert(base_ms * (2 * g) == (2 * base_ms) * g) by (nonlinear_arith);
    }
}

/// Taking back leases touches the leased tasks whose time is over, and no other:
/// each waits again, or is dead where it has used up its attempts.
pub proof fn law_only_expired_leases_are_taken_back(
    rows: Seq<RowView>,
    now: i64,
    at: Seq<char>,
    i: int,
)
    requires
        0 <= i < rows.len(),
    ensures
        ({
            let after = after_reclaim(rows, now, at);
            let over = rows[i].task.status == TaskStatus::Leased && rows[i].task.lease_expires_at
                is Some && rows[i].task.lease_expires_at->0 < now;
            &&& after.len() == rows.len()
            &&& !over ==> after[i] == rows[i]
            &&& over ==> {
                &&& same_task(after[i].task, rows[i].task)
                &&& after[i].idempotency_key == rows[i].idempotency_key
                &&& after[i].next_retry_at == rows[i].next_retry_at
                &&& after[i].task.last_error is Some
                &&& if rows[i].task.attempts < rows[i].task.max_attempts {
                    &&& after[i].task.status == TaskStatus::Pending
                    &&& after[i].task.lease_owner is None
                    &&& after[i].task.lease_expires_at is None
                    &&& after[i].task.finished_at == rows[i].task.finished_at
                    &&& after[i].task.last_error->0 == (match rows[i].task.last_error {
                        Some(e) => e,
                        None => Seq::empty(),
                    }) + " [reclaimed]"@
                } else {
                    &&& after[i].task.status == TaskStatus::Dead
                    &&& after[i].task.finished_at == Some(at)
                    &&& after[i].task.last_error->0 == (match rows[i].task.last_error {
                        Some(e) => e,
                        None => Seq::empty(),
                    }) + " [deadline]"@
                }
            }
        }),
{
    assert(Seq::<char>::empty() + " [reclaimed]"@ =~= " [reclaimed]"@);
    assert(Seq::<char>::empty() + " [deadline]"@ =~= " [deadline]"@);
}

/// Cancelling a session touches its waiting tasks, and no other.
pub proof fn law_only_waiting_tasks_are_cancelled(
    rows: Seq<RowView>,
    session: Seq<char>,
    at: Seq<char>,
    i: int,
)
    requires
        0 <= i < rows.len(),
    ensures
        ({
            let after = after_cancel(rows, session, at);
            let waits = rows[i].task.status == TaskStatus::Pending && rows[i].task.session_id
                == session;
            &&& after.len() == rows.len()
            &&& !waits ==> after[i] == rows[i]
            &&& waits ==> {
                &&& same_task(after[i].task, rows[i].task)
                &&& after[i].idempotency_key == rows[i].idempotency_key
                &&& after[i].next_retry_at == rows[i].next_retry_at
                &&& after[i].task.status == TaskStatus::Cancelled
                &&& after[i].task.finished_at == Some(at)
                &&& after[i].task.last_error == rows[i].task.last_error
            }
        }),
{
}

/// Tasks are counted one by one: two queues together hold as many as each, and one
/// task counts where it is of the session and has the status, whatever they are.
pub proof fn law_tasks_are_counted_one_by_one(
    a: Seq<RowView>,
    b: Seq<RowView>,
    row: RowView,
    session: Seq<char>,
    status: TaskStatus,
    now: i64,
)
    ensures
        counted(a + b, session, status) == counted(a, session, status) + counted(
            b,
            session,
            status,
        ),
        counted(Seq::empty(), session, status) == 0,
        counted(seq![row], session, status) == (if row.task.session_id == session
            && row.task.status == status {
            1nat
        } else {
            0
        }),
        expired_count(a + b, now) == expired_count(a, now) + expired_count(b, now),
        expired_count(Seq::empty(), now) == 0,
        expired_count(seq![row], now) == (if row.task.status == TaskStatus::Leased
            && row.task.lease_expires_at is Some && row.task.lease_expires_at->0 < now {
            1nat
        } else {
            0
        }),
    decreases b.len(),
{
    reveal_with_fuel(counted, 2);
    reveal_with_fuel(expired_count, 2);
    if b.len() == 0 {
        assert(a + b =~= a);
    } else {
        law_tasks_are_counted_one_by_one(a, b.drop_last(), row, session, status, now);
        assert((a + b).drop_last() =~= a + b.drop_last());
    }
}

proof fn lemma_counted_update(
    rows: Seq<RowView>,
    i: int,
    row: RowView,
    session: Seq<char>,
    status: TaskStatus,
)
    requires
        0 <= i < rows.len(),
    ensures
        counted(rows.update(i, row), session, status) + (if rows[i].task.session_id == session
            && rows[i].task.status == status {
            1nat
        } else {
            0
        }) == counted(rows, session, status) + (if row.task.session_id == session
            && row.task.status == status {
            1nat
        } else {
            0
        }),
{
    let a = rows.take(i);
    let c = rows.skip(i + 1);
    assert(rows =~= a + seq![rows[i]] + c);
    assert(rows.update(i, row) =~= a + seq![row] + c);
    law_tasks_are_counted_one_by_one(a, seq![rows[i]], rows[i], session, status, 0);
    law_tasks_are_counted_one_by_one(a + seq![rows[i]], c, rows[i], session, status, 0);
    law_tasks_are_counted_one_by_one(a, seq![row], row, session, status, 0);
    law_tasks_are_counted_one_by_one(a + seq![row], c, row, session, status, 0);
}

/// A claim moves one task of the session from those that wait to those under way.
pub proof fn law_claim_moves_one_task(
    before: Seq<RowView>,
    session: Seq<char>,
    worker: Seq<char>,
    expires: i64,
    now: i64,
    started: Seq<char>,
    after: Seq<RowView>,
    r: Option<Task>,
)
    requires
        claims(before, Some(session), worker, expires, now, started, after, r),
        r is Some,
    ensures
        counted(after, session, TaskStatus::Pending) + 1 == counted(
            before,
            session,
            TaskStatus::Pending,
        ),
        counted(after, session, TaskStatus::Leased) == counted(before, session, TaskStatus::Leased)
            + 1,
{
    law_claim_takes_first(before, Some(session), now);
    let i = next_ready(before, Some(session), now)->0;
    lemma_counted_update(before, i, after[i], session, TaskStatus::Pending);
    lemma_counted_update(before, i, after[i], session, TaskStatus::Leased);
}

} // verus!
