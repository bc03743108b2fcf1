//! Background task bookkeeping: task metadata, lifecycle states and the
//! notifications that tasks feed back into the conversation.
use vstd::prelude::*;
use crate::keyed::{keyed_map, keys_unique, lemma_keyed_dom, lemma_keyed_push, lemma_keyed_update, lemma_keyed_value};
use crate::text::str_eq;

verus! {

broadcast use vstd::string::group_string_axioms;

/// The lifecycle state of a background task.
#[derive(Clone, Copy, Debug, PartialEq, Eq, Structural)]
pub enum TaskState {
    Pending,
    Running,
    Completed,
    Failed,
    Cancelled,
}

/// A state after which a task does no more work.
pub open spec fn is_terminal(s: TaskState) -> bool {
    s == TaskState::Completed || s == TaskState::Failed || s == TaskState::Cancelled
}

/// A notification emitted by a task that can be fed back into the conversation.
#[derive(Clone, Debug)]
pub struct TaskNotification {
    pub task_id: String,
    pub message: String,
    pub is_final: bool,
}

/// A UTC instant: seconds since the Unix epoch and the nanoseconds past that
/// second (above 999,999,999 only during a leap second).
#[derive(Clone, Copy, Debug, PartialEq, Eq, Structural)]
pub struct Timestamp {
    pub secs: i64,
    pub nanos: u32,
}

/// The time elapsed since the Unix epoch by the system clock: whole seconds
/// and the nanoseconds past them, or `None` when the clock is set before the
/// epoch.
///
/// Calls `std::time::UNIX_EPOCH.elapsed()` (`SystemTime::elapsed`) and reads
/// the `Duration`'s `as_secs` and `subsec_nanos`. The time is outside the
/// library's control: nothing is stated of it but `Duration`'s documented
/// bound on the nanoseconds.
#[verifier::external_body]
fn clock_since_epoch() -> (r: Option<(u64, u32)>)
    ensures
        r matches Some(t) ==> t.1 < 1_000_000_000,
{
    match std::time::UNIX_EPOCH.elapsed() {
        Ok(d) => Some((d.as_secs(), d.subsec_nanos())),
        Err(_) => None,
    }
}

/// The current UTC time, or `None` when the system clock is set before the
/// Unix epoch or beyond what a [`Timestamp`] holds.
fn utc_now() -> (t: Option<Timestamp>)
    ensures
        t matches Some(now) ==> 0 <= now.secs && now.nanos < 1_000_000_000,
{
    match clock_since_epoch() {
        Some((secs, nanos)) => {
            if secs <= i64::MAX as u64 {
                Some(Timestamp { secs: secs as i64, nanos })
            } else {
                None
            }
        },
        None => None,
    }
}

/// The system clock could not give the current time (it is set before the
/// Unix epoch).
#[derive(Clone, Copy, Debug, PartialEq, Eq, Structural)]
pub struct ClockUnavailable;

/// Metadata describing a running or completed task.
#[derive(Clone, Debug)]
pub struct TaskInfo {
    pub id: String,
    pub name: String,
    pub state: TaskState,
    pub output: Option<String>,
    pub created_at: Timestamp,
    pub finished_at: Option<Timestamp>,
}

impl TaskInfo {
    /// A copy of this record.
    pub fn duplicate(&self) -> (r: TaskInfo)
        ensures
            r == *self,
    {
        TaskInfo {
            id: self.id.clone(),
            name: self.name.clone(),
            state: self.state,
            output: match &self.output {
                Some(o) => Some(o.clone()),
                None => None,
            },
            created_at: self.created_at,
            finished_at: self.finished_at,
        }
    }
}

/// A task record's key: its id.
pub open spec fn task_key() -> spec_fn(TaskInfo) -> Seq<char> {
    |t: TaskInfo| t.id@
}

/// `info` after moving to `state` at time `now`: a terminal state also records
/// `now` as the finishing time.
pub open spec fn with_state(info: TaskInfo, state: TaskState, now: Timestamp) -> TaskInfo {
    TaskInfo {
        state,
        finished_at: if is_terminal(state) {
            Some(now)
        } else {
            info.finished_at
        },
        ..info
    }
}

/// Tracks all registered tasks, keyed by id, and the notifications not yet
/// fed back into the conversation.
pub struct TaskManager {
    tasks: Vec<TaskInfo>,
    notifications: Vec<TaskNotification>,
}

impl TaskManager {
    #[verifier::type_invariant]
    closed spec fn well_formed(&self) -> bool {
        keys_unique(self.tasks@, task_key())
    }

    /// The registered tasks by id.
    pub closed spec fn tasks(&self) -> Map<Seq<char>, TaskInfo> {
        keyed_map(self.tasks@, task_key())
    }

    /// The pending notifications, oldest first.
    pub closed spec fn notifications(&self) -> Seq<TaskNotification> {
        self.notifications@
    }

    pub fn new() -> (m: Self)
        ensures
            m.tasks() == Map::<Seq<char>, TaskInfo>::empty(),
            m.notifications() == Seq::<TaskNotification>::empty(),
    {
        TaskManager { tasks: Vec::new(), notifications: Vec::new() }
    }

    fn find(&self, task_id: &str) -> (r: Option<usize>)
        ensures
            match r {
                Some(i) => i < self.tasks@.len() && self.tasks@[i as int].id@ == task_id@,
                None => forall|i: int| 0 <= i < self.tasks@.len() ==> (#[trigger] self.tasks@[i]).id@ != task_id@,
            },
    {
        let mut i: usize = 0;
        while i < self.tasks.len()
            invariant
                i <= self.tasks@.len(),
                forall|j: int| 0 <= j < i ==> (#[trigger] self.tasks@[j]).id@ != task_id@,
            decreases self.tasks@.len() - i,
        {
            if str_eq(self.tasks[i].id.as_str(), task_id) {
                return Some(i);
            }
            i = i + 1;
        }
        None
    }

    /// Registers a task, replacing any task with the same id.
    pub fn register(&mut self, info: TaskInfo)
        ensures
            final(self).tasks() == old(self).tasks().insert(info.id@, info),
            final(self).notifications() == old(self).notifications(),
    {
        proof {
            use_type_invariant(&*self);
        }
        let ghost old_tasks = self.tasks@;
        let found = self.find(info.id.as_str());
        let mut tasks = Vec::new();
        std::mem::swap(&mut tasks, &mut self.tasks);
        match found {
            Some(i) => {
                proof {
                    lemma_keyed_update(old_tasks, task_key(), i as int, info);
                }
                tasks.set(i, info);
            },
            None => {
                proof {
                    lemma_keyed_push(old_tasks, task_key(), info);
                }
                tasks.push(info);
            },
        }
        self.tasks = tasks;
    }

    /// Moves a registered task to `state`; a terminal state records `now` as
    /// its finishing time. An unknown id changes nothing.
    pub fn update_state_at(&mut self, task_id: &str, state: TaskState, now: Timestamp)
        ensures
            final(self).tasks() == if old(self).tasks().dom().contains(task_id@) {
                old(self).tasks().insert(task_id@, with_state(old(self).tasks()[task_id@], state, now))
            } else {
                old(self).tasks()
            },
            final(self).notifications() == old(self).notifications(),
    {
        proof {
            use_type_invariant(&*self);
            lemma_keyed_dom(self.tasks@, task_key(), task_id@);
        }
        let ghost old_tasks = self.tasks@;
        match self.find(task_id) {
            Some(i) => {
                let mut tasks = Vec::new();
                std::mem::swap(&mut tasks, &mut self.tasks);
                let mut info = tasks[i].duplicate();
                info.state = state;
                if state == TaskState::Completed || state == TaskState::Failed || state == TaskState::Cancelled {
                    info.finished_at = Some(now);
                }
                proof {
                    lemma_keyed_value(old_tasks, task_key(), i as int);
                    assert(info == with_state(old_tasks[i as int], state, now));
                    lemma_keyed_update(old_tasks, task_key(), i as int, info);
                }
                tasks.set(i, info);
                self.tasks = tasks;
            },
            None => {},
        }
    }

    /// Moves a registered task to `state`, stamping a terminal state with the
    /// current time (see [`TaskManager::update_state_at`]). The clock is read
    /// only for a registered task moving to a terminal state; when it gives no
    /// time, nothing changes and `ClockUnavailable` is returned.
    pub fn update_state(&mut self, task_id: &str, state: TaskState) -> (r: Result<(), ClockUnavailable>)
        ensures
            match r {
                Ok(()) => exists|now: Timestamp| final(self).tasks() == if old(self).tasks().dom().contains(
                    task_id@,
                ) {
                    old(self).tasks().insert(task_id@, #[trigger] with_state(old(self).tasks()[task_id@], state, now))
                } else {
                    old(self).tasks()
                },
                Err(_) => {
                    &&& old(self).tasks().dom().contains(task_id@)
                    &&& is_terminal(state)
                    &&& final(self).tasks() == old(self).tasks()
                },
            },
            !(old(self).tasks().dom().contains(task_id@) && is_terminal(state)) ==> r is Ok,
            final(self).notifications() == old(self).notifications(),
    {
        proof {
            use_type_invariant(&*self);
            lemma_keyed_dom(self.tasks@, task_key(), task_id@);
        }
        let terminal = state == TaskState::Completed || state == TaskState::Failed || state
            == TaskState::Cancelled;
        let now = if terminal && self.find(task_id).is_some() {
            match utc_now() {
                Some(t) => t,
                None => return Err(ClockUnavailable),
            }
        } else {
            Timestamp { secs: 0, nanos: 0 }
        };
        self.update_state_at(task_id, state, now);
        Ok(())
    }

    /// Records the output of a registered task. An unknown id changes nothing.
    pub fn set_output(&mut self, task_id: &str, output: String)
        ensures
            final(self).tasks() == if old(self).tasks().dom().contains(task_id@) {
                old(self).tasks().insert(
                    task_id@,
                    TaskInfo { output: Some(output), ..old(self).tasks()[task_id@] },
                )
            } else {
                old(self).tasks()
            },
            final(self).notifications() == old(self).notifications(),
    {
        proof {
            use_type_invariant(&*self);
            lemma_keyed_dom(self.tasks@, task_key(), task_id@);
        }
        let ghost old_tasks = self.tasks@;
        match self.find(task_id) {
            Some(i) => {
                let mut tasks = Vec::new();
                std::mem::swap(&mut tasks, &mut self.tasks);
                let mut info = tasks[i].duplicate();
                info.output = Some(output);
                proof {
                    lemma_keyed_value(old_tasks, task_key(), i as int);
                    lemma_keyed_update(old_tasks, task_key(), i as int, info);
                }
                tasks.set(i, info);
                self.tasks = tasks;
            },
            None => {},
        }
    }

    /// Queues a notification.
    pub fn push_notification(&mut self, notification: TaskNotification)
        ensures
            final(self).tasks() == old(self).tasks(),
            final(self).notifications() == old(self).notifications().push(notification),
    {
        proof {
            use_type_invariant(&*self);
        }
        let mut notifications = Vec::new();
        std::mem::swap(&mut notifications, &mut self.notifications);
        notifications.push(notification);
        self.notifications = notifications;
    }

    /// Drains all pending notifications, oldest first, for injection into the
    /// next turn; none remain pending.
    pub fn drain_notifications(&mut self) -> (r: Vec<TaskNotification>)
        ensures
            r@ == old(self).notifications(),
            final(self).notifications() == Seq::<TaskNotification>::empty(),
            final(self).tasks() == old(self).tasks(),
    {
        proof {
            use_type_invariant(&*self);
        }
        let mut r = Vec::new();
        std::mem::swap(&mut r, &mut self.notifications);
        r
    }

    /// A copy of the task with this id, if one is registered.
    pub fn get(&self, task_id: &str) -> (r: Option<TaskInfo>)
        ensures
            match r {
                Some(info) => self.tasks().dom().contains(task_id@) && info == self.tasks()[task_id@],
                None => !self.tasks().dom().contains(task_id@),
            },
    {
        proof {
            use_type_invariant(self);
            lemma_keyed_dom(self.tasks@, task_key(), task_id@);
        }
        match self.find(task_id) {
            Some(i) => {
                proof {
                    lemma_keyed_value(self.tasks@, task_key(), i as int);
                }
                Some(self.tasks[i].duplicate())
            },
            None => None,
        }
    }

    /// Copies of all registered tasks, one per id.
    pub fn list(&self) -> (r: Vec<TaskInfo>)
        ensures
            keys_unique(r@, task_key()),
            forall|i: int| 0 <= i < r@.len() ==>
                #[trigger] self.tasks().dom().contains(r@[i].id@) && self.tasks()[r@[i].id@] == r@[i],
            forall|k: Seq<char>| #[trigger] self.tasks().dom().contains(k) ==>
                exists|i: int| 0 <= i < r@.len() && (#[trigger] r@[i]).id@ == k,
    {
        proof {
            use_type_invariant(self);
        }
        let mut r: Vec<TaskInfo> = Vec::new();
        let mut i: usize = 0;
        while i < self.tasks.len()
            invariant
                keys_unique(self.tasks@, task_key()),
                i <= self.tasks@.len(),
                r@ == self.tasks@.take(i as int),
            decreases self.tasks@.len() - i,
        {
            r.push(self.tasks[i].duplicate());
            proof {
                assert(self.tasks@.take(i + 1) =~= self.tasks@.take(i as int).push(self.tasks@[i as int]));
            }
            i = i + 1;
        }
        proof {
            assert(self.tasks@.take(self.tasks@.len() as int) =~= self.tasks@);
            assert forall|i: int| 0 <= i < r@.len() implies
                #[trigger] self.tasks().dom().contains(r@[i].id@) && self.tasks()[r@[i].id@] == r@[i] by {
                lemma_keyed_value(self.tasks@, task_key(), i);
            }
            assert forall|k: Seq<char>| #[trigger] self.tasks().dom().contains(k) implies
                exists|i: int| 0 <= i < r@.len() && (#[trigger] r@[i]).id@ == k by {
                lemma_keyed_dom(self.tasks@, task_key(), k);
            }
        }
        r
    }

    /// Marks a task cancelled at `now` (see [`TaskManager::update_state_at`]).
    pub fn cancel_at(&mut self, task_id: &str, now: Timestamp)
        ensures
            final(self).tasks() == if old(self).tasks().dom().contains(task_id@) {
                old(self).tasks().insert(
                    task_id@,
                    with_state(old(self).tasks()[task_id@], TaskState::Cancelled, now),
                )
            } else {
                old(self).tasks()
            },
            final(self).notifications() == old(self).notifications(),
    {
        self.update_state_at(task_id, TaskState::Cancelled, now);
    }

    /// Marks a task cancelled, stamped with the current time (see
    /// [`TaskManager::update_state`]).
    pub fn cancel(&mut self, task_id: &str) -> (r: Result<(), ClockUnavailable>)
        ensures
            match r {
                Ok(()) => exists|now: Timestamp| final(self).tasks() == if old(self).tasks().dom().contains(
                    task_id@,
                ) {
                    old(self).tasks().insert(
                        task_id@,
                        #[trigger] with_state(old(self).tasks()[task_id@], TaskState::Cancelled, now),
                    )
                } else {
                    old(self).tasks()
                },
                Err(_) => old(self).tasks().dom().contains(task_id@) && final(self).tasks() == old(self).tasks(),
            },
            !old(self).tasks().dom().contains(task_id@) ==> r is Ok,
            final(self).notifications() == old(self).notifications(),
    {
        self.update_state(task_id, TaskState::Cancelled)
    }
}

impl Default for TaskManager {
    fn default() -> (m: Self)
        ensures
            m.tasks() == Map::<Seq<char>, TaskInfo>::empty(),
            m.notifications() == Seq::<TaskNotification>::empty(),
    {
        TaskManager::new()
    }
}

/// Moving a task to a terminal state records when it finished; moving it to
/// any other state keeps what was recorded. Either way the task's id, name,
/// output and creation time stay.
pub proof fn law_finish_time_recorded(info: TaskInfo, state: TaskState, now: Timestamp)
    ensures
        is_terminal(state) ==> with_state(info, state, now).finished_at == Some(now),
        !is_terminal(state) ==> with_state(info, state, now).finished_at == info.finished_at,
        with_state(info, state, now).state == state,
        with_state(info, state, now).id == info.id,
        with_state(info, state, now).name == info.name,
        with_state(info, state, now).output == info.output,
        with_state(info, state, now).created_at == info.created_at,
{
}

} // verus!
