//! Laws of the team store, the mailbox and the task list: what a read gives
//! back of a write, what a refused request leaves behind, and how claims and
//! completions interact.
use vstd::prelude::*;
use crate::mailbox::MailboxErrorView;
use crate::seqs::{first_index, lemma_first_index, lemma_first_index_is, lemma_first_index_push, lemma_first_index_update};
use crate::store::{with_dir, StoreErrorView, StoreView};
use crate::tasks::{has_id, is_completed, unfinished, TaskErrorView};
use crate::text::trim_view;
use crate::types::{
    bound_to, is_lead_member, named, team_id_view, MailboxKind, MailboxMessageView, MemberRole,
    TaskStatus, TeamConfigView, TeamMemberView, TeamTaskView,
};

verus! {

/// A config written is the config loaded back.
pub proof fn law_load_after_write_config(s: StoreView, c: TeamConfigView)
    ensures
        s.write_config(c).load(c.team_id) == Ok::<TeamConfigView, StoreErrorView>(c),
{
}

/// A task list written is the task list read back.
pub proof fn law_read_tasks_after_write(s: StoreView, t: Seq<char>, tasks: Seq<TeamTaskView>)
    ensures
        s.write_tasks(t, tasks).read_tasks(t) == tasks,
{
}

/// An inbox written for a member of a loaded team is the inbox read back.
pub proof fn law_read_inbox_after_write(
    s: StoreView,
    t: Seq<char>,
    m: Seq<char>,
    msgs: Seq<MailboxMessageView>,
)
    requires
        s.load(t) is Ok,
        s.load(t)->Ok_0.member(m) is Some,
    ensures
        s.write_inbox(t, m, msgs).read_inbox(t, m) == Ok::<
            Seq<MailboxMessageView>,
            StoreErrorView,
        >(msgs),
{
}

/// A cursor written is read back trimmed, and as nothing when it is blank.
pub proof fn law_read_cursor_after_write(s: StoreView, t: Seq<char>, m: Seq<char>, id: Seq<char>)
    ensures
        s.write_cursor(t, m, id).read_cursor(t, m) == (if trim_view(id).len() > 0 {
            Some(trim_view(id))
        } else {
            None
        }),
{
}

/// After a lead creates a team, a scan for the lead's session finds a team.
pub proof fn law_created_team_is_found_by_lead_session(
    s: StoreView,
    sid: Seq<char>,
    lead_name: Seq<char>,
    now: i64,
)
    requires
        s.create_for_lead(sid, lead_name, now).1 is Ok,
    ensures
        s.create_for_lead(sid, lead_name, now).0.find_by_session(sid) is Some,
        s.create_for_lead(sid, lead_name, now).1->Ok_0.team_id == team_id_view(sid),
        s.create_for_lead(sid, lead_name, now).1->Ok_0.lead() == Some(
            TeamMemberView {
                name: lead_name,
                role: MemberRole::TeamLead,
                session_id: Some(sid),
                spawn_prompt: None,
            },
        ),
{
    let (s2, r) = s.create_for_lead(sid, lead_name, now);
    let t = team_id_view(sid);
    let c = StoreView::lead_config(sid, lead_name, now);
    assert(s2.dirs.contains(t)) by {
        assert(s2.dirs[s.dirs.len() as int] == t);
    }
    let i = choose|i: int| 0 <= i < s2.dirs.len() && s2.dirs[i] == t;
    lemma_first_index_is(c.members, bound_to(sid), 0);
    lemma_first_index_is(c.members, is_lead_member(), 0);
    assert(s2.holds_session(sid)(s2.dirs[i]));
    lemma_first_index(s2.dirs, s2.holds_session(sid));
}

/// A second team for the same lead session is refused and changes nothing.
pub proof fn law_one_team_per_lead_session(s: StoreView, sid: Seq<char>, a: Seq<char>, b: Seq<char>, now: i64, later: i64)
    requires
        s.create_for_lead(sid, a, now).1 is Ok,
    ensures
        ({
            let s2 = s.create_for_lead(sid, a, now).0;
            s2.create_for_lead(sid, b, later) == (s2, Err::<TeamConfigView, StoreErrorView>(
                StoreErrorView::AlreadyExists(team_id_view(sid)),
            ))
        }),
{
    let s2 = s.create_for_lead(sid, a, now).0;
    assert(s2.dirs.contains(team_id_view(sid))) by {
        assert(s2.dirs[s.dirs.len() as int] == team_id_view(sid));
    }
}

/// A member just added is found by name, with an empty inbox, and adding
/// the same name again is refused.
pub proof fn law_added_member_is_found(
    s: StoreView,
    t: Seq<char>,
    name: Seq<char>,
    sid: Option<Seq<char>>,
    prompt: Option<Seq<char>>,
    sid2: Option<Seq<char>>,
    prompt2: Option<Seq<char>>,
)
    requires
        s.add_member(t, name, sid, prompt).1 is Ok,
        s.add_member(t, name, sid, prompt).1->Ok_0.team_id == t,
    ensures
        ({
            let s2 = s.add_member(t, name, sid, prompt).0;
            &&& s2.load(t) is Ok
            &&& s2.load(t)->Ok_0.member(name) == Some(
                TeamMemberView { name, role: MemberRole::Teammate, session_id: sid, spawn_prompt: prompt },
            )
            &&& s2.read_inbox(t, name) == Ok::<Seq<MailboxMessageView>, StoreErrorView>(
                Seq::empty(),
            )
            &&& s2.add_member(t, name, sid2, prompt2) == (s2, Err::<TeamConfigView, StoreErrorView>(
                StoreErrorView::DuplicateMember(name),
            ))
        }),
{
    let c = s.load(t)->Ok_0;
    let m = TeamMemberView { name, role: MemberRole::Teammate, session_id: sid, spawn_prompt: prompt };
    lemma_first_index(c.members, named(name));
    lemma_first_index_push(c.members, named(name), m);
}

/// Binding a member to a session records the session and clears the
/// pending spawn prompt.
pub proof fn law_bind_records_session(s: StoreView, t: Seq<char>, name: Seq<char>, sid: Seq<char>)
    requires
        s.bind_session(t, name, sid).1 is Ok,
        s.bind_session(t, name, sid).1->Ok_0.team_id == t,
    ensures
        ({
            let s2 = s.bind_session(t, name, sid).0;
            &&& s2.load(t) is Ok
            &&& s2.load(t)->Ok_0.member(name) is Some
            &&& s2.load(t)->Ok_0.member(name)->0.session_id == Some(sid)
            &&& s2.load(t)->Ok_0.member(name)->0.spawn_prompt is None
        }),
{
    let c = s.load(t)->Ok_0;
    let i = first_index(c.members, named(name));
    lemma_first_index(c.members, named(name));
    let m2 = TeamMemberView { session_id: Some(sid), spawn_prompt: None, ..c.members[i] };
    lemma_first_index_update(c.members, named(name), i, m2);
}

/// A message goes to the recipient's inbox only: it is appended there, and
/// nothing else in the store changes.
pub proof fn law_send_appends_to_recipient_only(
    s: StoreView,
    t: Seq<char>,
    from: Seq<char>,
    to: Seq<char>,
    kind: MailboxKind,
    subject: Option<Seq<char>>,
    body: Seq<char>,
    now: i64,
    id: Seq<char>,
)
    requires
        s.send_message(t, from, to, kind, subject, body, now, id).1 is Ok,
    ensures
        ({
            let (s2, r) = s.send_message(t, from, to, kind, subject, body, now, id);
            let msg = r->Ok_0;
            &&& msg == MailboxMessageView { id, from, to, kind, subject, body, created_unix_ms: now }
            &&& s2.read_inbox(t, to) == Ok::<Seq<MailboxMessageView>, StoreErrorView>(
                s.read_inbox(t, to)->Ok_0.push(msg),
            )
            &&& forall|m: Seq<char>| m != to ==> #[trigger] s2.read_inbox(t, m) == s.read_inbox(t, m)
            &&& forall|t2: Seq<char>, m: Seq<char>|
                t2 != t ==> #[trigger] s2.read_inbox(t2, m) == s.read_inbox(t2, m)
            &&& s2.configs == s.configs
            &&& s2.tasks == s.tasks
            &&& s2.cursors == s.cursors
        }),
{
}

/// A refused message leaves the store as it was.
pub proof fn law_refused_send_changes_nothing(
    s: StoreView,
    t: Seq<char>,
    from: Seq<char>,
    to: Seq<char>,
    kind: MailboxKind,
    subject: Option<Seq<char>>,
    body: Seq<char>,
    now: i64,
    id: Seq<char>,
)
    requires
        s.send_message(t, from, to, kind, subject, body, now, id).1 is Err,
    ensures
        s.send_message(t, from, to, kind, subject, body, now, id).0 == s,
{
}

/// A member cannot mail itself.
pub proof fn law_no_self_send(
    s: StoreView,
    t: Seq<char>,
    who: Seq<char>,
    kind: MailboxKind,
    subject: Option<Seq<char>>,
    body: Seq<char>,
    now: i64,
    id: Seq<char>,
)
    ensures
        s.send_message(t, who, who, kind, subject, body, now, id) == (s, Err::<
            MailboxMessageView,
            MailboxErrorView,
        >(MailboxErrorView::SelfSend)),
{
}

/// A claim is exclusive: once a member has claimed a task, a claim by any
/// member fails with the task in progress, and changes nothing.
pub proof fn law_claim_is_exclusive(s: StoreView, t: Seq<char>, id: Seq<char>, a: Seq<char>, b: Seq<char>)
    requires
        s.claim_task(t, id, a).1 is Ok,
        s.load(t)->Ok_0.member(b) is Some,
    ensures
        ({
            let s2 = s.claim_task(t, id, a).0;
            s2.claim_task(t, id, b) == (s2, Err::<TeamTaskView, TaskErrorView>(
                TaskErrorView::WrongStatus(id, TaskStatus::InProgress),
            ))
        }),
{
    let tasks = s.read_tasks(t);
    let i = first_index(tasks, has_id(id));
    lemma_first_index(tasks, has_id(id));
    let claimed = TeamTaskView { status: TaskStatus::InProgress, assignee: Some(a), ..tasks[i] };
    lemma_first_index_update(tasks, has_id(id), i, claimed);
}

/// A task that does not exist cannot be claimed or completed.
pub proof fn law_missing_task(s: StoreView, t: Seq<char>, id: Seq<char>, who: Seq<char>)
    requires
        forall|j: int| 0 <= j < s.read_tasks(t).len() ==> #[trigger] s.read_tasks(t)[j].id != id,
        s.load(t) is Ok,
        s.load(t)->Ok_0.member(who) is Some,
    ensures
        s.claim_task(t, id, who) == (s, Err::<TeamTaskView, TaskErrorView>(TaskErrorView::NotFound(id))),
        s.complete_task(t, id) == (s, Err::<TeamTaskView, TaskErrorView>(TaskErrorView::NotFound(id))),
{
    lemma_first_index_is(s.read_tasks(t), has_id(id), s.read_tasks(t).len() as int);
}

proof fn lemma_unfinished_contains(deps: Seq<Seq<char>>, tasks: Seq<TeamTaskView>, d: Seq<char>)
    ensures
        unfinished(deps, tasks).contains(d) <==> (deps.contains(d) && !is_completed(tasks, d)),
    decreases deps.len(),
{
    if deps.len() > 0 {
        let init = deps.drop_last();
        lemma_unfinished_contains(init, tasks, d);
        let r = unfinished(init, tasks);
        let u = unfinished(deps, tasks);
        assert(deps =~= init.push(deps.last()));
        assert(deps.contains(d) <==> (init.contains(d) || deps.last() == d)) by {
            if deps.contains(d) {
                let k = choose|k: int| 0 <= k < deps.len() && deps[k] == d;
                if k < deps.len() - 1 {
                    assert(init[k] == d);
                }
            }
            if init.contains(d) {
                let k = choose|k: int| 0 <= k < init.len() && init[k] == d;
                assert(deps[k] == d);
            }
            if deps.last() == d {
                assert(deps[deps.len() - 1] == d);
            }
        }
        if !is_completed(tasks, deps.last()) {
            assert(u == r.push(deps.last()));
            assert(u.contains(d) <==> (r.contains(d) || deps.last() == d)) by {
                if u.contains(d) {
                    let k = choose|k: int| 0 <= k < u.len() && u[k] == d;
                    if k < r.len() {
                        assert(r[k] == d);
                    }
                }
                if r.contains(d) {
                    let k = choose|k: int| 0 <= k < r.len() && r[k] == d;
                    assert(u[k] == d);
                }
                if deps.last() == d {
                    assert(u[r.len() as int] == d);
                }
            }
        }
    }
}

/// Completing a task unblocks its dependents: afterwards it is no longer an
/// unfinished dependency of any task, and every other dependency is exactly
/// as finished as before.
pub proof fn law_complete_unblocks_dependents(s: StoreView, t: Seq<char>, id: Seq<char>, deps: Seq<Seq<char>>)
    requires
        s.complete_task(t, id).1 is Ok,
    ensures
        ({
            let after = s.complete_task(t, id).0.read_tasks(t);
            let before = s.read_tasks(t);
            forall|d: Seq<char>| #[trigger] unfinished(deps, after).contains(d) <==> (unfinished(
                deps,
                before,
            ).contains(d) && d != id)
        }),
{
    let before = s.read_tasks(t);
    let i = first_index(before, has_id(id));
    lemma_first_index(before, has_id(id));
    let after = s.complete_task(t, id).0.read_tasks(t);
    assert(after == before.update(i, TeamTaskView { status: TaskStatus::Completed, ..before[i] }));
    assert forall|d: Seq<char>| #[trigger] unfinished(deps, after).contains(d) <==> (unfinished(
        deps,
        before,
    ).contains(d) && d != id) by {
        lemma_unfinished_contains(deps, after, d);
        lemma_unfinished_contains(deps, before, d);
        if d == id {
            assert(after[i].id == d);
            assert(is_completed(after, d));
        } else {
            if is_completed(after, d) {
                let j = choose|j: int| 0 <= j < after.len() && #[trigger] after[j].id == d && after[j].status == TaskStatus::Completed;
                assert(j != i);
                assert(before[j].id == d);
            }
            if is_completed(before, d) {
                let j = choose|j: int| 0 <= j < before.len() && #[trigger] before[j].id == d && before[j].status == TaskStatus::Completed;
                assert(j != i);
                assert(after[j].id == d);
            }
        }
    }
}

/// A task whose dependencies are all completed, pending and unassigned, is
/// claimed by any member, who becomes its assignee.
pub proof fn law_unblocked_pending_task_is_claimable(s: StoreView, t: Seq<char>, id: Seq<char>, who: Seq<char>)
    requires
        s.load(t) is Ok,
        s.load(t)->Ok_0.member(who) is Some,
        first_index(s.read_tasks(t), has_id(id)) < s.read_tasks(t).len(),
        s.read_tasks(t)[first_index(s.read_tasks(t), has_id(id))].status == TaskStatus::Pending,
        s.read_tasks(t)[first_index(s.read_tasks(t), has_id(id))].assignee is None,
        forall|d: Seq<char>| #[trigger] s.read_tasks(t)[first_index(s.read_tasks(t), has_id(id))].depends_on.contains(d)
            ==> is_completed(s.read_tasks(t), d),
    ensures
        s.claim_task(t, id, who).1 is Ok,
        s.claim_task(t, id, who).1->Ok_0.status == TaskStatus::InProgress,
        s.claim_task(t, id, who).1->Ok_0.assignee == Some(who),
{
    let tasks = s.read_tasks(t);
    let i = first_index(tasks, has_id(id));
    let u = unfinished(tasks[i].depends_on, tasks);
    if u.len() > 0 {
        lemma_unfinished_contains(tasks[i].depends_on, tasks, u[0]);
        assert(u.contains(u[0]));
    }
}

} // verus!
