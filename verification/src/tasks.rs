//! The team's shared task list: create, exclusive claim, completion.
use vstd::prelude::*;
use crate::seqs::{first_index, lemma_first_index, lemma_first_index_is, lemma_first_index_update};
use crate::store::{store_error_text, StoreErrorView, StoreView, TeamStore, TeamStoreError};
use crate::text::{concat_str, debug_list, debug_list_view, owned};
use crate::types::{TaskStatus, TeamTask, TeamTaskView};

verus! {

#[derive(Debug)]
pub enum TaskError {
    Store(TeamStoreError),
    NotFound(String),
    WrongStatus(String, TaskStatus),
    Blocked(String, Vec<String>),
    AlreadyClaimed(String, String),
    UnknownMember(String),
}

pub enum TaskErrorView {
    Store(StoreErrorView),
    NotFound(Seq<char>),
    WrongStatus(Seq<char>, TaskStatus),
    Blocked(Seq<char>, Seq<Seq<char>>),
    AlreadyClaimed(Seq<char>, Seq<char>),
    UnknownMember(Seq<char>),
}

impl View for TaskError {
    type V = TaskErrorView;

    open spec fn view(&self) -> TaskErrorView {
        match self {
            TaskError::Store(e) => TaskErrorView::Store(e@),
            TaskError::NotFound(s) => TaskErrorView::NotFound(s@),
            TaskError::WrongStatus(s, st) => TaskErrorView::WrongStatus(s@, *st),
            TaskError::Blocked(s, deps) => TaskErrorView::Blocked(s@, deps.deep_view()),
            TaskError::AlreadyClaimed(s, o) => TaskErrorView::AlreadyClaimed(s@, o@),
            TaskError::UnknownMember(s) => TaskErrorView::UnknownMember(s@),
        }
    }
}

pub open spec fn task_result_view(r: Result<TeamTask, TaskError>) -> Result<
    TeamTaskView,
    TaskErrorView,
> {
    match r {
        Ok(t) => Ok(t@),
        Err(e) => Err(e@),
    }
}

/// The task whose id is `id`.
pub open spec fn has_id(id: Seq<char>) -> spec_fn(TeamTaskView) -> bool {
    |t: TeamTaskView| t.id == id
}

/// Some task with id `dep` is completed.
pub open spec fn is_completed(tasks: Seq<TeamTaskView>, dep: Seq<char>) -> bool {
    exists|j: int| 0 <= j < tasks.len() && #[trigger] tasks[j].id == dep && tasks[j].status
        == TaskStatus::Completed
}

/// The dependencies in `deps` that no completed task satisfies, in order.
pub open spec fn unfinished(deps: Seq<Seq<char>>, tasks: Seq<TeamTaskView>) -> Seq<Seq<char>>
    decreases deps.len(),
{
    if deps.len() == 0 {
        Seq::empty()
    } else {
        let r = unfinished(deps.drop_last(), tasks);
        if is_completed(tasks, deps.last()) {
            r
        } else {
            r.push(deps.last())
        }
    }
}

impl StoreView {
    pub open spec fn create_task(
        self,
        t: Seq<char>,
        id: Seq<char>,
        title: Seq<char>,
        depends_on: Seq<Seq<char>>,
        now: i64,
    ) -> (StoreView, TeamTaskView) {
        let task = TeamTaskView {
            id,
            title,
            status: TaskStatus::Pending,
            assignee: None,
            depends_on,
            created_unix_ms: now,
        };
        (self.write_tasks(t, self.read_tasks(t).push(task)), task)
    }

    /// Exclusive claim: the claimant must be a member, and the task must be
    /// pending, unassigned and unblocked.
    pub open spec fn claim_task(self, t: Seq<char>, id: Seq<char>, claimant: Seq<char>) -> (
        StoreView,
        Result<TeamTaskView, TaskErrorView>,
    ) {
        match self.load(t) {
            Err(e) => (self, Err(TaskErrorView::Store(e))),
            Ok(c) => if c.member(claimant) is None {
                (self, Err(TaskErrorView::UnknownMember(claimant)))
            } else {
                let tasks = self.read_tasks(t);
                let i = first_index(tasks, has_id(id));
                if i >= tasks.len() {
                    (self, Err(TaskErrorView::NotFound(id)))
                } else if tasks[i].status != TaskStatus::Pending {
                    (self, Err(TaskErrorView::WrongStatus(id, tasks[i].status)))
                } else if tasks[i].assignee is Some {
                    (self, Err(TaskErrorView::AlreadyClaimed(id, tasks[i].assignee->0)))
                } else if unfinished(tasks[i].depends_on, tasks).len() > 0 {
                    (self, Err(TaskErrorView::Blocked(id, unfinished(tasks[i].depends_on, tasks))))
                } else {
                    let claimed = TeamTaskView {
                        status: TaskStatus::InProgress,
                        assignee: Some(claimant),
                        ..tasks[i]
                    };
                    (self.write_tasks(t, tasks.update(i, claimed)), Ok(claimed))
                }
            },
        }
    }

    pub open spec fn complete_task(self, t: Seq<char>, id: Seq<char>) -> (
        StoreView,
        Result<TeamTaskView, TaskErrorView>,
    ) {
        let tasks = self.read_tasks(t);
        let i = first_index(tasks, has_id(id));
        if i >= tasks.len() {
            (self, Err(TaskErrorView::NotFound(id)))
        } else if tasks[i].status == TaskStatus::Completed {
            (self, Err(TaskErrorView::WrongStatus(id, TaskStatus::Completed)))
        } else {
            let done = TeamTaskView { status: TaskStatus::Completed, ..tasks[i] };
            (self.write_tasks(t, tasks.update(i, done)), Ok(done))
        }
    }
}

pub fn create_task(
    store: &mut TeamStore,
    team_id: &str,
    id: String,
    title: String,
    depends_on: Vec<String>,
    now_unix_ms: i64,
) -> (r: Result<TeamTask, TaskError>)
    requires
        old(store).wf(),
    ensures
        final(store).wf(),
        r matches Ok(task) && (final(store)@, task@) == old(store)@.create_task(
            team_id@,
            id@,
            title@,
            depends_on.deep_view(),
            now_unix_ms,
        ),
{
    let mut tasks = match store.read_tasks(team_id) {
        Ok(v) => v,
        Err(e) => return Err(TaskError::Store(e)),
    };
    let task = TeamTask {
        id,
        title,
        status: TaskStatus::Pending,
        assignee: None,
        depends_on,
        created_unix_ms: now_unix_ms,
    };
    let ghost before = tasks.deep_view();
    tasks.push(task.clone());
    proof {
        assert(tasks.deep_view() =~= before.push(task@));
        assert(tasks@.map_values(|t: TeamTask| t@) =~= tasks.deep_view());
    }
    let _ = store.write_tasks(team_id, tasks.as_slice());
    Ok(task)
}

/// True when some task with id `dep` is completed.
fn dependency_done(tasks: &Vec<TeamTask>, dep: &String) -> (b: bool)
    ensures
        b == is_completed(tasks.deep_view(), dep@),
{
    let n = tasks.len();
    let mut j: usize = 0;
    while j < n
        invariant
            n == tasks.len(),
            j <= n,
            forall|k: int|
                0 <= k < j ==> !(#[trigger] tasks.deep_view()[k].id == dep@ && tasks.deep_view()[k].status
                    == TaskStatus::Completed),
        decreases n - j,
    {
        if tasks[j].id == *dep && tasks[j].status == TaskStatus::Completed {
            assert(tasks.deep_view()[j as int].id == dep@);
            return true;
        }
        j = j + 1;
    }
    false
}

/// The dependencies of a task that are not completed yet, in order.
fn unfinished_dependencies(deps: &Vec<String>, tasks: &Vec<TeamTask>) -> (r: Vec<String>)
    ensures
        r.deep_view() == unfinished(deps.deep_view(), tasks.deep_view()),
{
    let mut r: Vec<String> = Vec::new();
    let n = deps.len();
    let mut i: usize = 0;
    while i < n
        invariant
            n == deps.len(),
            i <= n,
            r.deep_view() == unfinished(deps.deep_view().subrange(0, i as int), tasks.deep_view()),
        decreases n - i,
    {
        let ghost prefix = deps.deep_view().subrange(0, i as int);
        let ghost next = deps.deep_view().subrange(0, i as int + 1);
        assert(next.drop_last() =~= prefix);
        let ghost prev = r.deep_view();
        if !dependency_done(tasks, &deps[i]) {
            r.push(deps[i].clone());
            assert(r.deep_view() =~= prev.push(deps.deep_view()[i as int]));
        }
        i = i + 1;
    }
    assert(deps.deep_view().subrange(0, n as int) =~= deps.deep_view());
    r
}

/// Index of the first task whose id is `task_id`.
pub(crate) fn task_position(tasks: &Vec<TeamTask>, task_id: &str) -> (r: Option<usize>)
    ensures
        r is Some <==> first_index(tasks.deep_view(), has_id(task_id@)) < tasks.len(),
        r matches Some(i) ==> i == first_index(tasks.deep_view(), has_id(task_id@)),
        r is None ==> first_index(tasks.deep_view(), has_id(task_id@)) == tasks.len(),
{
    let key = owned(task_id);
    let n = tasks.len();
    let mut i: usize = 0;
    proof {
        lemma_first_index(tasks.deep_view(), has_id(task_id@));
    }
    while i < n
        invariant
            n == tasks.len(),
            i <= n,
            key@ == task_id@,
            forall|k: int| 0 <= k < i ==> !has_id(task_id@)(#[trigger] tasks.deep_view()[k]),
        decreases n - i,
    {
        if tasks[i].id == key {
            proof {
                lemma_first_index_is(tasks.deep_view(), has_id(task_id@), i as int);
            }
            return Some(i);
        }
        i = i + 1;
    }
    proof {
        lemma_first_index_is(tasks.deep_view(), has_id(task_id@), n as int);
    }
    None
}

pub fn claim_task(store: &mut TeamStore, team_id: &str, task_id: &str, claimant: &str) -> (r:
    Result<TeamTask, TaskError>)
    requires
        old(store).wf(),
    ensures
        final(store).wf(),
        (final(store)@, task_result_view(r)) == old(store)@.claim_task(
            team_id@,
            task_id@,
            claimant@,
        ),
{
    let config = match store.load(team_id) {
        Ok(c) => c,
        Err(e) => return Err(TaskError::Store(e)),
    };
    if config.member(claimant).is_none() {
        return Err(TaskError::UnknownMember(owned(claimant)));
    }
    let mut tasks = match store.read_tasks(team_id) {
        Ok(v) => v,
        Err(e) => return Err(TaskError::Store(e)),
    };
    let idx = match task_position(&tasks, task_id) {
        Some(i) => i,
        None => return Err(TaskError::NotFound(owned(task_id))),
    };
    if tasks[idx].status != TaskStatus::Pending {
        return Err(TaskError::WrongStatus(owned(task_id), tasks[idx].status));
    }
    match &tasks[idx].assignee {
        Some(owner) => return Err(TaskError::AlreadyClaimed(owned(task_id), owner.clone())),
        None => {},
    }
    let blocking = unfinished_dependencies(&tasks[idx].depends_on, &tasks);
    if blocking.len() > 0 {
        return Err(TaskError::Blocked(owned(task_id), blocking));
    }
    let ghost before = tasks.deep_view();
    let old_task = tasks.remove(idx);
    let claimed = TeamTask {
        id: old_task.id,
        title: old_task.title,
        status: TaskStatus::InProgress,
        assignee: Some(owned(claimant)),
        depends_on: old_task.depends_on,
        created_unix_ms: old_task.created_unix_ms,
    };
    let result = claimed.clone();
    tasks.insert(idx, claimed);
    proof {
        assert(tasks.deep_view() =~= before.update(idx as int, result@));
        assert(tasks@.map_values(|t: TeamTask| t@) =~= tasks.deep_view());
    }
    let _ = store.write_tasks(team_id, tasks.as_slice());
    Ok(result)
}

pub fn complete_task(store: &mut TeamStore, team_id: &str, task_id: &str) -> (r: Result<
    TeamTask,
    TaskError,
>)
    requires
        old(store).wf(),
    ensures
        final(store).wf(),
        (final(store)@, task_result_view(r)) == old(store)@.complete_task(team_id@, task_id@),
{
    let mut tasks = match store.read_tasks(team_id) {
        Ok(v) => v,
        Err(e) => return Err(TaskError::Store(e)),
    };
    let idx = match task_position(&tasks, task_id) {
        Some(i) => i,
        None => return Err(TaskError::NotFound(owned(task_id))),
    };
    if tasks[idx].status == TaskStatus::Completed {
        return Err(TaskError::WrongStatus(owned(task_id), TaskStatus::Completed));
    }
    let ghost before = tasks.deep_view();
    let old_task = tasks.remove(idx);
    let done = TeamTask {
        id: old_task.id,
        title: old_task.title,
        status: TaskStatus::Completed,
        assignee: old_task.assignee,
        depends_on: old_task.depends_on,
        created_unix_ms: old_task.created_unix_ms,
    };
    let result = done.clone();
    tasks.insert(idx, done);
    proof {
        assert(tasks.deep_view() =~= before.update(idx as int, result@));
        assert(tasks@.map_values(|t: TeamTask| t@) =~= tasks.deep_view());
    }
    let _ = store.write_tasks(team_id, tasks.as_slice());
    Ok(result)
}

/// The `{:?}` name of a status.
pub open spec fn status_debug_view(s: TaskStatus) -> Seq<char> {
    match s {
        TaskStatus::Pending => "Pending"@,
        TaskStatus::InProgress => "InProgress"@,
        TaskStatus::Completed => "Completed"@,
    }
}

/// The error's message.
pub open spec fn task_error_text(e: TaskErrorView) -> Seq<char> {
    match e {
        TaskErrorView::Store(e) => store_error_text(e),
        TaskErrorView::NotFound(id) => "task not found: "@ + id,
        TaskErrorView::WrongStatus(id, s) => "task "@ + id + " is already "@ + status_debug_view(s),
        TaskErrorView::Blocked(id, deps) => "task "@ + id + " is blocked by unfinished dependencies: "@
            + debug_list_view(deps),
        TaskErrorView::AlreadyClaimed(id, owner) => "task "@ + id + " is already claimed by "@ + owner,
        TaskErrorView::UnknownMember(m) => "unknown member: "@ + m,
    }
}

fn status_debug(s: TaskStatus) -> (r: &'static str)
    ensures
        r@ == status_debug_view(s),
{
    proof {
        reveal_strlit("Pending");
        reveal_strlit("InProgress");
        reveal_strlit("Completed");
    }
    match s {
        TaskStatus::Pending => "Pending",
        TaskStatus::InProgress => "InProgress",
        TaskStatus::Completed => "Completed",
    }
}

impl TaskError {
    /// The error's message.
    pub fn message(&self) -> (s: String)
        ensures
            s@ == task_error_text(self@),
    {
        proof {
            reveal_strlit("task not found: ");
            reveal_strlit("task ");
            reveal_strlit(" is already ");
            reveal_strlit(" is blocked by unfinished dependencies: ");
            reveal_strlit(" is already claimed by ");
            reveal_strlit("unknown member: ");
        }
        match self {
            TaskError::Store(e) => e.message(),
            TaskError::NotFound(id) => concat_str("task not found: ", id.as_str()),
            TaskError::WrongStatus(id, st) => {
                let mut s = concat_str("task ", id.as_str());
                s.append(" is already ");
                s.append(status_debug(*st));
                s
            },
            TaskError::Blocked(id, deps) => {
                let mut s = concat_str("task ", id.as_str());
                s.append(" is blocked by unfinished dependencies: ");
                let list = debug_list(deps);
                s.append(list.as_str());
                s
            },
            TaskError::AlreadyClaimed(id, owner) => {
                let mut s = concat_str("task ", id.as_str());
                s.append(" is already claimed by ");
                s.append(owner.as_str());
                s
            },
            TaskError::UnknownMember(m) => concat_str("unknown member: ", m.as_str()),
        }
    }
}

} // verus!
