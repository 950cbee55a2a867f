//! Pager-side team orchestration: which pending teammates to start, how
//! mailbox traffic becomes tagged user turns, and the panel snapshot a lead
//! sees.
use vstd::prelude::*;
use crate::panel::{
    RowView, SnapshotView, TaskSummaryView, TeamActivity, TeamPanelRow, TeamSnapshot,
    TeamTaskSummary,
};
use crate::seqs::{first_index, lemma_first_index, lemma_first_index_is};
use crate::store::{StoreView, TeamStore};
use crate::numbers::{decimal_view, u64_to_decimal};
use crate::text::{concat_str, is_blank, is_blank_view, owned, str_eq};
use crate::types::{
    is_lead_member, MailboxMessage, MailboxMessageView, MemberRole, TaskStatus, TeamConfig,
    TeamConfigView, TeamMember, TeamMemberView, TeamTask, TeamTaskView,
};

verus! {

/// A teammate recorded by `spawn_teammate` that no session holds yet and this
/// pager has not started.
pub open spec fn awaits_spawn(m: TeamMemberView, in_flight: Seq<Seq<char>>) -> bool {
    m.role == MemberRole::Teammate && m.session_id is None && m.spawn_prompt is Some
        && !in_flight.contains(m.name)
}

/// `(name, prompt)` of each member awaiting a spawn, in member order.
pub open spec fn pending_view(members: Seq<TeamMemberView>, in_flight: Seq<Seq<char>>) -> Seq<
    (Seq<char>, Seq<char>),
>
    decreases members.len(),
{
    if members.len() == 0 {
        Seq::empty()
    } else {
        let r = pending_view(members.drop_last(), in_flight);
        if awaits_spawn(members.last(), in_flight) {
            r.push((members.last().name, members.last().spawn_prompt->0))
        } else {
            r
        }
    }
}

/// Whether `name` is among `names`.
pub fn contains_name(names: &Vec<String>, name: &str) -> (b: bool)
    ensures
        b == names.deep_view().contains(name@),
{
    let key = owned(name);
    let n = names.len();
    let mut i: usize = 0;
    while i < n
        invariant
            n == names.len(),
            i <= n,
            key@ == name@,
            forall|k: int| 0 <= k < i ==> names.deep_view()[k] != name@,
        decreases n - i,
    {
        if names[i] == key {
            assert(names.deep_view()[i as int] == name@);
            return true;
        }
        i = i + 1;
    }
    false
}

/// Members to materialize as top-level sessions: teammates with a spawn
/// prompt, no session, and not already started by this pager.
pub fn pending_to_materialize(team: &TeamConfig, in_flight: &Vec<String>) -> (r: Vec<(String, String)>)
    ensures
        r.deep_view() == pending_view(team@.members, in_flight.deep_view()),
{
    let mut r: Vec<(String, String)> = Vec::new();
    let n = team.members.len();
    let mut i: usize = 0;
    while i < n
        invariant
            n == team.members.len(),
            i <= n,
            r.deep_view() == pending_view(team@.members.subrange(0, i as int), in_flight.deep_view()),
        decreases n - i,
    {
        let m = &team.members[i];
        let ghost before = team@.members.subrange(0, i as int);
        let ghost after = team@.members.subrange(0, i as int + 1);
        assert(after.drop_last() =~= before);
        assert(after.last() == m@);
        let ghost prev = r.deep_view();
        if m.role == MemberRole::Teammate && m.session_id.is_none() {
            match &m.spawn_prompt {
                Some(p) => {
                    if !contains_name(in_flight, m.name.as_str()) {
                        r.push((m.name.clone(), p.clone()));
                        assert(r.deep_view() =~= prev.push((m.name@, p@)));
                    }
                },
                None => {},
            }
        }
        i = i + 1;
    }
    assert(team@.members.subrange(0, n as int) =~= team@.members);
    r
}

/// The user turn a mailbox message becomes: a header naming the sender,
/// the subject when it is not blank, and the body.
pub open spec fn delivery_prompt_view(m: MailboxMessageView) -> Seq<char> {
    let header = "[from teammate "@ + m.from + ", not the human]"@;
    match m.subject {
        Some(s) => if !is_blank_view(s) {
            header + "\n"@ + s + "\n\n"@ + m.body
        } else {
            header + "\n"@ + m.body
        },
        None => header + "\n"@ + m.body,
    }
}

pub fn mailbox_delivery_prompt(msg: &MailboxMessage) -> (s: String)
    ensures
        s@ == delivery_prompt_view(msg@),
{
    let mut s = String::from_str("[from teammate ");
    s.append(msg.from.as_str());
    s.append(", not the human]");
    proof {
        reveal_strlit("[from teammate ");
        reveal_strlit(", not the human]");
        reveal_strlit("\n");
        reveal_strlit("\n\n");
    }
    let with_subject = match &msg.subject {
        Some(subject) => !is_blank(subject.as_str()),
        None => false,
    };
    if with_subject {
        match &msg.subject {
            Some(subject) => {
                s.append("\n");
                s.append(subject.as_str());
                s.append("\n\n");
            },
            None => {},
        }
    } else {
        s.append("\n");
    }
    s.append(msg.body.as_str());
    assert(s@ =~= delivery_prompt_view(msg@));
    s
}

/// The message whose id is `id`.
pub open spec fn with_message_id(id: Seq<char>) -> spec_fn(MailboxMessageView) -> bool {
    |m: MailboxMessageView| m.id == id
}

/// Messages after the cursor's message: the whole inbox without a cursor or
/// when the cursor's message is not in it.
pub open spec fn undelivered_view(inbox: Seq<MailboxMessageView>, cursor: Option<Seq<char>>) -> Seq<
    MailboxMessageView,
> {
    match cursor {
        None => inbox,
        Some(c) => {
            let i = first_index(inbox, with_message_id(c));
            if i < inbox.len() {
                inbox.subrange(i + 1, inbox.len() as int)
            } else {
                inbox
            }
        },
    }
}

pub fn undelivered<'a>(inbox: &'a [MailboxMessage], cursor: Option<&str>) -> (r: &'a [MailboxMessage])
    ensures
        r@.map_values(|m: MailboxMessage| m@) == undelivered_view(
            inbox@.map_values(|m: MailboxMessage| m@),
            match cursor {
                Some(c) => Some(c@),
                None => None,
            },
        ),
{
    let ghost all = inbox@.map_values(|m: MailboxMessage| m@);
    match cursor {
        None => inbox,
        Some(c) => {
            let key = owned(c);
            let n = inbox.len();
            let mut i: usize = 0;
            while i < n
                invariant
                    n == inbox@.len(),
                    i <= n,
                    key@ == c@,
                    cursor == Some(c),
                    all == inbox@.map_values(|m: MailboxMessage| m@),
                    forall|k: int| 0 <= k < i ==> !with_message_id(c@)(#[trigger] all[k]),
                decreases n - i,
            {
                if inbox[i].id == key {
                    proof {
                        lemma_first_index_is(all, with_message_id(c@), i as int);
                    }
                    let (_, rest) = inbox.split_at(i + 1);
                    assert(rest@.map_values(|m: MailboxMessage| m@) =~= all.subrange(
                        i + 1,
                        n as int,
                    ));
                    assert(first_index(all, with_message_id(c@)) == i as int);
                    assert(undelivered_view(all, Some(c@)) == all.subrange(i + 1, n as int));
                    return rest;
                }
                i = i + 1;
            }
            proof {
                lemma_first_index_is(all, with_message_id(c@), n as int);
            }
            inbox
        },
    }
}

/// The first prompt a materialized teammate gets.
pub open spec fn spawn_prompt_view(name: Seq<char>, prompt: Seq<char>) -> Seq<char> {
    "You are teammate @"@ + name
        + " on an agent team. You are a full top-level session, not a subagent. Use send_message to talk to other members by name. Do not wait for the human to relay.\n\n"@
        + prompt
}

pub fn team_spawn_prompt(name: &str, prompt: &str) -> (s: String)
    ensures
        s@ == spawn_prompt_view(name@, prompt@),
{
    let mut s = String::from_str("You are teammate @");
    s.append(name);
    s.append(
        " on an agent team. You are a full top-level session, not a subagent. Use send_message to talk to other members by name. Do not wait for the human to relay.\n\n",
    );
    s.append(prompt);
    proof {
        reveal_strlit("You are teammate @");
        reveal_strlit(
            " on an agent team. You are a full top-level session, not a subagent. Use send_message to talk to other members by name. Do not wait for the human to relay.\n\n",
        );
        assert(s@ =~= spawn_prompt_view(name@, prompt@));
    }
    s
}

/// The task status as the panel prints it (its debug name, lower-cased).
pub open spec fn status_text_view(s: TaskStatus) -> Seq<char> {
    match s {
        TaskStatus::Pending => "pending"@,
        TaskStatus::InProgress => "inprogress"@,
        TaskStatus::Completed => "completed"@,
    }
}

pub fn status_text(s: TaskStatus) -> (r: String)
    ensures
        r@ == status_text_view(s),
{
    proof {
        reveal_strlit("pending");
        reveal_strlit("inprogress");
        reveal_strlit("completed");
    }
    match s {
        TaskStatus::Pending => String::from_str("pending"),
        TaskStatus::InProgress => String::from_str("inprogress"),
        TaskStatus::Completed => String::from_str("completed"),
    }
}

/// The activity last seen for session `sid` (a later entry wins).
pub open spec fn live_lookup(live: Seq<(Seq<char>, TeamActivity)>, sid: Seq<char>) -> Option<
    TeamActivity,
>
    decreases live.len(),
{
    if live.len() == 0 {
        None
    } else if live.last().0 == sid {
        Some(live.last().1)
    } else {
        live_lookup(live.drop_last(), sid)
    }
}

pub fn lookup_live(live: &Vec<(String, TeamActivity)>, sid: &str) -> (r: Option<TeamActivity>)
    ensures
        r == live_lookup(live.deep_view(), sid@),
{
    let key = owned(sid);
    let mut i: usize = live.len();
    assert(live.deep_view().subrange(0, i as int) =~= live.deep_view());
    while i > 0
        invariant
            i <= live.len(),
            key@ == sid@,
            live_lookup(live.deep_view().subrange(0, i as int), sid@) == live_lookup(
                live.deep_view(),
                sid@,
            ),
        decreases i,
    {
        let ghost pre = live.deep_view().subrange(0, i as int);
        assert(pre.drop_last() =~= live.deep_view().subrange(0, i as int - 1));
        assert(pre.last() == live.deep_view()[i as int - 1]);
        if live[i - 1].0 == key {
            return Some(live[i - 1].1);
        }
        i = i - 1;
    }
    assert(live.deep_view().subrange(0, 0) =~= Seq::<(Seq<char>, TeamActivity)>::empty());
    None
}

/// Unread messages in a member's inbox: those after the member's cursor (an
/// unreadable inbox counts as empty).
pub open spec fn member_unread(s: StoreView, t: Seq<char>, name: Seq<char>) -> nat {
    let inbox = match s.read_inbox(t, name) {
        Ok(v) => v,
        Err(_) => Seq::empty(),
    };
    undelivered_view(inbox, s.read_cursor(t, name)).len()
}

/// Whether a member's row shows a spawn in flight: no session yet, and a
/// spawn prompt recorded or a start underway.
pub open spec fn spawn_pending_view(m: TeamMemberView, in_flight: Seq<Seq<char>>) -> bool {
    m.session_id is None && (m.spawn_prompt is Some || in_flight.contains(m.name))
}

/// The panel row of a member.
pub open spec fn member_row(
    s: StoreView,
    t: Seq<char>,
    m: TeamMemberView,
    live: Seq<(Seq<char>, TeamActivity)>,
    in_flight: Seq<Seq<char>>,
) -> RowView {
    let pending = spawn_pending_view(m, in_flight);
    let activity = if pending {
        TeamActivity::Pending
    } else {
        match m.session_id {
            Some(sid) => match live_lookup(live, sid) {
                Some(a) => a,
                None => TeamActivity::Idle,
            },
            None => TeamActivity::Pending,
        }
    };
    RowView {
        name: m.name,
        is_lead: m.role == MemberRole::TeamLead,
        activity,
        unread: member_unread(s, t, m.name) as u32,
        session_id: m.session_id,
        spawn_pending: pending,
    }
}

/// The members' unread counts, summed with saturation.
pub open spec fn unread_sum(s: StoreView, t: Seq<char>, members: Seq<TeamMemberView>) -> u32
    decreases members.len(),
{
    if members.len() == 0 {
        0
    } else {
        let a = unread_sum(s, t, members.drop_last());
        let b = member_unread(s, t, members.last().name) as u32;
        if a + b > u32::MAX {
            u32::MAX
        } else {
            (a + b) as u32
        }
    }
}

/// The panel line of a task.
pub open spec fn task_summary(t: TeamTaskView) -> TaskSummaryView {
    TaskSummaryView { id: t.id, title: t.title, status: status_text_view(t.status) }
}

/// The snapshot a session sees: only the lead of a team gets one.
pub open spec fn snapshot_view(
    s: StoreView,
    sid: Seq<char>,
    live: Seq<(Seq<char>, TeamActivity)>,
    in_flight: Seq<Seq<char>>,
) -> Option<SnapshotView> {
    match s.find_by_session(sid) {
        None => None,
        Some(team) => match team.lead() {
            None => None,
            Some(lead) => if lead.session_id != Some(sid) && team.lead_session_id != sid {
                None
            } else {
                Some(
                    SnapshotView {
                        team_id: team.team_id,
                        rows: team.members.map_values(
                            |m: TeamMemberView| member_row(s, team.team_id, m, live, in_flight),
                        ),
                        tasks: s.read_tasks(team.team_id).map_values(
                            |t: TeamTaskView| task_summary(t),
                        ),
                        unread_total: unread_sum(s, team.team_id, team.members),
                    },
                )
            },
        },
    }
}

/// The unread count of one member.
pub(crate) fn unread_for(store: &TeamStore, team_id: &str, name: &str) -> (n: usize)
    ensures
        n == member_unread(store@, team_id@, name@),
{
    let inbox = match store.read_inbox(team_id, name) {
        Ok(v) => v,
        Err(_) => Vec::new(),
    };
    let cursor = match store.read_cursor(team_id, name) {
        Ok(c) => c,
        Err(_) => None,
    };
    let fresh = match &cursor {
        Some(c) => undelivered(inbox.as_slice(), Some(c.as_str())),
        None => undelivered(inbox.as_slice(), None),
    };
    proof {
        assert(inbox@.map_values(|m: MailboxMessage| m@) =~= match store@.read_inbox(
            team_id@,
            name@,
        ) {
            Ok(v) => v,
            Err(_) => Seq::<MailboxMessageView>::empty(),
        });
        assert(fresh@.map_values(|m: MailboxMessage| m@).len() == fresh@.len());
    }
    fresh.len()
}

fn row_for(
    store: &TeamStore,
    team_id: &str,
    member: &crate::types::TeamMember,
    live: &Vec<(String, TeamActivity)>,
    in_flight: &Vec<String>,
) -> (r: TeamPanelRow)
    ensures
        r@ == member_row(store@, team_id@, member@, live.deep_view(), in_flight.deep_view()),
{
    let unread = unread_for(store, team_id, member.name.as_str()) as u32;
    let spawn_pending = member.session_id.is_none() && (member.spawn_prompt.is_some()
        || contains_name(in_flight, member.name.as_str()));
    let activity = if spawn_pending {
        TeamActivity::Pending
    } else {
        match &member.session_id {
            Some(sid) => match lookup_live(live, sid.as_str()) {
                Some(a) => a,
                None => TeamActivity::Idle,
            },
            None => TeamActivity::Pending,
        }
    };
    TeamPanelRow {
        name: member.name.clone(),
        is_lead: member.role == MemberRole::TeamLead,
        activity,
        unread,
        session_id: member.session_id.clone(),
        spawn_pending,
    }
}

pub fn snapshot_for_session(
    store: &TeamStore,
    session_id: &str,
    live: &Vec<(String, TeamActivity)>,
    in_flight: &Vec<String>,
) -> (r: Option<TeamSnapshot>)
    requires
        store.wf(),
    ensures
        match r {
            Some(snap) => snapshot_view(store@, session_id@, live.deep_view(), in_flight.deep_view())
                == Some(snap@),
            None => snapshot_view(store@, session_id@, live.deep_view(), in_flight.deep_view())
                is None,
        },
{
    let team = match store.find_by_session(session_id) {
        Ok(Some(t)) => t,
        _ => return None,
    };
    let lead = match team.lead() {
        Some(l) => l,
        None => return None,
    };
    let key = owned(session_id);
    let lead_holds = match &lead.session_id {
        Some(s) => *s == key,
        None => false,
    };
    if !lead_holds && team.lead_session_id != key {
        return None;
    }
    let ghost tv = team@;
    let team_id = team.team_id.as_str();
    let mut unread_total: u32 = 0;
    let mut rows: Vec<TeamPanelRow> = Vec::new();
    let n = team.members.len();
    let mut i: usize = 0;
    while i < n
        invariant
            n == team.members.len(),
            tv == team@,
            team_id@ == tv.team_id,
            i <= n,
            rows.deep_view() == tv.members.subrange(0, i as int).map_values(
                |m: TeamMemberView| member_row(store@, tv.team_id, m, live.deep_view(), in_flight.deep_view()),
            ),
            unread_total == unread_sum(store@, tv.team_id, tv.members.subrange(0, i as int)),
        decreases n - i,
    {
        let member = &team.members[i];
        let ghost before = tv.members.subrange(0, i as int);
        let ghost after = tv.members.subrange(0, i as int + 1);
        assert(after.drop_last() =~= before);
        assert(after.last() == member@);
        let row = row_for(store, team_id, member, live, in_flight);
        unread_total = unread_total.saturating_add(row.unread);
        let ghost prev = rows.deep_view();
        rows.push(row);
        assert(rows.deep_view() =~= after.map_values(
            |m: TeamMemberView| member_row(store@, tv.team_id, m, live.deep_view(), in_flight.deep_view()),
        )) by {
            assert(rows.deep_view() =~= prev.push(rows.deep_view().last()));
        }
        i = i + 1;
    }
    assert(tv.members.subrange(0, n as int) =~= tv.members);
    let all_tasks = match store.read_tasks(team_id) {
        Ok(v) => v,
        Err(_) => Vec::new(),
    };
    let mut tasks: Vec<TeamTaskSummary> = Vec::new();
    let k = all_tasks.len();
    let mut j: usize = 0;
    while j < k
        invariant
            k == all_tasks.len(),
            j <= k,
            tasks.deep_view() == all_tasks.deep_view().subrange(0, j as int).map_values(
                |t: TeamTaskView| task_summary(t),
            ),
        decreases k - j,
    {
        let t = &all_tasks[j];
        let ghost prev = tasks.deep_view();
        tasks.push(TeamTaskSummary { id: t.id.clone(), title: t.title.clone(), status: status_text(t.status) });
        assert(tasks.deep_view() =~= all_tasks.deep_view().subrange(0, j as int + 1).map_values(
            |t: TeamTaskView| task_summary(t),
        )) by {
            assert(tasks.deep_view() =~= prev.push(task_summary(all_tasks.deep_view()[j as int])));
        }
        j = j + 1;
    }
    assert(all_tasks.deep_view().subrange(0, k as int) =~= all_tasks.deep_view());
    Some(TeamSnapshot { team_id: team.team_id.clone(), rows, tasks, unread_total })
}


/// `lead` or `teammate`.
pub open spec fn role_word(r: MemberRole) -> Seq<char> {
    match r {
        MemberRole::TeamLead => "lead"@,
        MemberRole::Teammate => "teammate"@,
    }
}

/// One member line of `/team status`:
/// `\n  @{name} ({role}) {session {id} | not started} · {n} unread`.
pub open spec fn status_member_line(s: StoreView, t: Seq<char>, m: TeamMemberView) -> Seq<char> {
    "\n  @"@ + m.name + " ("@ + role_word(m.role) + ") "@ + match m.session_id {
        Some(sid) => "session "@ + sid,
        None => "not started"@,
    } + " \u{b7} "@ + decimal_view(member_unread(s, t, m.name)) + " unread"@
}

/// One task line of `/team status`: `\n  [{status}] {id} {title}`, plus
/// ` @{assignee}` when the task is claimed.
pub open spec fn status_task_line(task: TeamTaskView) -> Seq<char> {
    "\n  ["@ + status_text_view(task.status) + "] "@ + task.id + " "@ + task.title + match task.assignee {
        Some(a) => " @"@ + a,
        None => Seq::empty(),
    }
}

pub open spec fn status_member_lines(s: StoreView, t: Seq<char>, members: Seq<TeamMemberView>) -> Seq<char>
    decreases members.len(),
{
    if members.len() == 0 {
        Seq::empty()
    } else {
        status_member_lines(s, t, members.drop_last()) + status_member_line(s, t, members.last())
    }
}

pub open spec fn status_task_lines(tasks: Seq<TeamTaskView>) -> Seq<char>
    decreases tasks.len(),
{
    if tasks.len() == 0 {
        Seq::empty()
    } else {
        status_task_lines(tasks.drop_last()) + status_task_line(tasks.last())
    }
}

/// The text of `/team status` for session `sid`: the team id, each member
/// with its role, session binding and unread count, then the shared tasks;
/// or a note that the session is on no team.
pub open spec fn team_status_text(s: StoreView, sid: Seq<char>) -> Seq<char> {
    match s.find_by_session(sid) {
        None => "This session is not on an agent team."@,
        Some(team) => {
            let tasks = s.read_tasks(team.team_id);
            "Team "@ + team.team_id + "\nMembers:"@ + status_member_lines(s, team.team_id, team.members)
                + "\nTasks:"@ + if tasks.len() == 0 {
                " none"@
            } else {
                status_task_lines(tasks)
            }
        },
    }
}

fn status_member_line_of(store: &TeamStore, team_id: &str, m: &TeamMember) -> (r: String)
    requires
        store.wf(),
    ensures
        r@ == status_member_line(store@, team_id@, m@),
{
    proof {
        reveal_strlit("\n  @");
        reveal_strlit(" (");
        reveal_strlit(") ");
        reveal_strlit("lead");
        reveal_strlit("teammate");
        reveal_strlit("session ");
        reveal_strlit("not started");
        reveal_strlit(" \u{b7} ");
        reveal_strlit(" unread");
    }
    let mut r = concat_str("\n  @", m.name.as_str());
    r.append(" (");
    r.append(
        match m.role {
            MemberRole::TeamLead => "lead",
            MemberRole::Teammate => "teammate",
        },
    );
    r.append(") ");
    match &m.session_id {
        Some(sid) => {
            r.append("session ");
            r.append(sid.as_str());
        },
        None => r.append("not started"),
    }
    r.append(" \u{b7} ");
    let n = unread_for(store, team_id, m.name.as_str());
    let digits = u64_to_decimal(n as u64);
    r.append(digits.as_str());
    r.append(" unread");
    r
}

fn status_task_line_of(task: &TeamTask) -> (r: String)
    ensures
        r@ == status_task_line(task@),
{
    proof {
        reveal_strlit("\n  [");
        reveal_strlit("] ");
        reveal_strlit(" ");
        reveal_strlit(" @");
    }
    let mut r = owned("\n  [");
    let st = status_text(task.status);
    r.append(st.as_str());
    r.append("] ");
    r.append(task.id.as_str());
    r.append(" ");
    r.append(task.title.as_str());
    match &task.assignee {
        Some(a) => {
            r.append(" @");
            r.append(a.as_str());
        },
        None => {},
    }
    r
}

/// The text `/team status` prints for session `session_id`.
pub fn format_team_status(store: &TeamStore, session_id: &str) -> (r: String)
    requires
        store.wf(),
    ensures
        r@ == team_status_text(store@, session_id@),
{
    proof {
        reveal_strlit("This session is not on an agent team.");
        reveal_strlit("Team ");
        reveal_strlit("\nMembers:");
        reveal_strlit("\nTasks:");
        reveal_strlit(" none");
    }
    let team = match store.find_by_session(session_id) {
        Ok(Some(t)) => t,
        _ => return owned("This session is not on an agent team."),
    };
    let ghost tv = team@;
    let mut r = concat_str("Team ", team.team_id.as_str());
    r.append("\nMembers:");
    let ghost head = r@;
    let n = team.members.len();
    let mut i: usize = 0;
    while i < n
        invariant
            store.wf(),
            tv == team@,
            n == tv.members.len(),
            i <= n,
            r@ == head + status_member_lines(store@, tv.team_id, tv.members.subrange(0, i as int)),
        decreases n - i,
    {
        let ghost before = tv.members.subrange(0, i as int);
        let ghost after = tv.members.subrange(0, i as int + 1);
        assert(after.drop_last() =~= before);
        assert(after.last() == team.members[i as int]@);
        let line = status_member_line_of(store, team.team_id.as_str(), &team.members[i]);
        r.append(line.as_str());
        assert(r@ =~= head + status_member_lines(store@, tv.team_id, after));
        i = i + 1;
    }
    assert(tv.members.subrange(0, n as int) =~= tv.members);
    r.append("\nTasks:");
    let tasks = match store.read_tasks(team.team_id.as_str()) {
        Ok(v) => v,
        Err(_) => Vec::new(),
    };
    let ghost tasks_v = tasks.deep_view();
    assert(tasks_v == store@.read_tasks(tv.team_id));
    if tasks.len() == 0 {
        r.append(" none");
        return r;
    }
    let ghost mid = r@;
    let k = tasks.len();
    let mut j: usize = 0;
    while j < k
        invariant
            k == tasks.len(),
            tasks_v == tasks.deep_view(),
            j <= k,
            r@ == mid + status_task_lines(tasks_v.subrange(0, j as int)),
        decreases k - j,
    {
        let ghost before = tasks_v.subrange(0, j as int);
        let ghost after = tasks_v.subrange(0, j as int + 1);
        assert(after.drop_last() =~= before);
        assert(after.last() == tasks[j as int]@);
        let line = status_task_line_of(&tasks[j]);
        r.append(line.as_str());
        assert(r@ =~= mid + status_task_lines(after));
        j = j + 1;
    }
    assert(tasks_v.subrange(0, k as int) =~= tasks_v);
    r
}


/// Whether agent teams are on. The `GROK_EXPERIMENTAL_AGENT_TEAMS` variable
/// wins when it is set: `1`, `true`, `TRUE` or `yes` turn teams on, any
/// other value (such as `0` or `false`) turns them off. Without it,
/// `[features] agent_teams` of the config file decides; teams are off when
/// neither says.
pub open spec fn enabled_view(env: Option<Seq<char>>, config: Option<bool>) -> bool {
    match env {
        Some(v) => v == "1"@ || v == "true"@ || v == "TRUE"@ || v == "yes"@,
        None => config == Some(true),
    }
}

pub fn enabled(env: Option<&str>, config: Option<bool>) -> (b: bool)
    ensures
        b == enabled_view(
            match env {
                Some(v) => Some(v@),
                None => None,
            },
            config,
        ),
{
    match env {
        Some(v) => str_eq(v, "1") || str_eq(v, "true") || str_eq(v, "TRUE") || str_eq(v, "yes"),
        None => match config {
            Some(c) => c,
            None => false,
        },
    }
}

} // verus!
