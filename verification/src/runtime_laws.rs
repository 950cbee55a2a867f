//! Laws of the team runtime and tools: who gets started, what mail is
//! delivered once, who sees the panel, and who may spawn.
use vstd::prelude::*;
use crate::pager::{cleared, has_agent_id, turn_end_body, turn_end_id, turn_end_kind, AppState};
use crate::panel::PanelView;
use crate::runtime::{awaits_spawn, pending_view, snapshot_view, undelivered_view, with_message_id};
use crate::seqs::{first_index, lemma_first_index, lemma_first_index_is};
use crate::store::StoreView;
use crate::text::trim_view;
use crate::tasks::has_id;
use crate::tools::{
    invalid, may_complete, require_member_view, spawn_teammate_view, task_complete_view, task_create_view,
    ToolErrorView,
};
use crate::types::{
    bound_to, is_lead_member, named, MailboxMessageView, MemberRole, TeamConfigView, TeamMemberView,
};

verus! {

/// `e` is the start entry of member `m`, which awaits a spawn.
pub open spec fn entry_of(m: TeamMemberView, in_flight: Seq<Seq<char>>, e: (Seq<char>, Seq<char>)) -> bool {
    awaits_spawn(m, in_flight) && e == (m.name, m.spawn_prompt->0)
}

/// `e` is the start entry of some member awaiting a spawn.
pub open spec fn is_entry(members: Seq<TeamMemberView>, in_flight: Seq<Seq<char>>, e: (Seq<char>, Seq<char>)) -> bool {
    exists|i: int| 0 <= i < members.len() && entry_of(#[trigger] members[i], in_flight, e)
}

/// The teammates to start are exactly the members awaiting a spawn, in
/// member order, each with its own spawn prompt.
pub proof fn law_pending_are_awaiting(members: Seq<TeamMemberView>, in_flight: Seq<Seq<char>>)
    ensures
        forall|k: int| 0 <= k < pending_view(members, in_flight).len() ==> #[trigger] is_entry(
            members,
            in_flight,
            pending_view(members, in_flight)[k],
        ),
        forall|i: int| 0 <= i < members.len() && awaits_spawn(#[trigger] members[i], in_flight)
            ==> pending_view(members, in_flight).contains((members[i].name, members[i].spawn_prompt->0)),
    decreases members.len(),
{
    if members.len() > 0 {
        let init = members.drop_last();
        law_pending_are_awaiting(init, in_flight);
        let r = pending_view(init, in_flight);
        let p = pending_view(members, in_flight);
        assert forall|k: int| 0 <= k < p.len() implies #[trigger] is_entry(members, in_flight, p[k]) by {
            if k < r.len() {
                assert(is_entry(init, in_flight, r[k]));
                let i = choose|i: int| 0 <= i < init.len() && entry_of(#[trigger] init[i], in_flight, r[k]);
                assert(members[i] == init[i]);
                assert(p[k] == r[k]);
                assert(entry_of(members[i], in_flight, p[k]));
            } else {
                assert(members[members.len() - 1] == members.last());
                assert(entry_of(members[members.len() - 1], in_flight, p[k]));
            }
        }
        assert forall|i: int| 0 <= i < members.len() && awaits_spawn(#[trigger] members[i], in_flight)
            implies p.contains((members[i].name, members[i].spawn_prompt->0)) by {
            if i < members.len() - 1 {
                assert(init[i] == members[i]);
                let k = choose|k: int| 0 <= k < r.len() && r[k] == (init[i].name, init[i].spawn_prompt->0);
                assert(p[k] == r[k]);
            } else {
                assert(p[r.len() as int] == (members[i].name, members[i].spawn_prompt->0));
            }
        }
    }
}

/// A member with a session, without a spawn prompt, or already started is
/// never started again.
pub proof fn law_bound_or_started_not_pending(
    members: Seq<TeamMemberView>,
    in_flight: Seq<Seq<char>>,
    name: Seq<char>,
    prompt: Seq<char>,
)
    requires
        forall|i: int| 0 <= i < members.len() && #[trigger] members[i].name == name ==> (
        members[i].session_id is Some || members[i].spawn_prompt is None || in_flight.contains(name)),
    ensures
        !pending_view(members, in_flight).contains((name, prompt)),
{
    law_pending_are_awaiting(members, in_flight);
    if pending_view(members, in_flight).contains((name, prompt)) {
        let k = choose|k: int| 0 <= k < pending_view(members, in_flight).len() && pending_view(members, in_flight)[k] == (name, prompt);
        assert(is_entry(members, in_flight, pending_view(members, in_flight)[k]));
        let i = choose|i: int|
            0 <= i < members.len() && entry_of(#[trigger] members[i], in_flight, pending_view(members, in_flight)[k]);
        assert(members[i].name == name);
    }
}

/// Without a cursor every message is undelivered; with the cursor on the
/// last message, and message ids unique, nothing is.
pub proof fn law_undelivered_cursor(inbox: Seq<MailboxMessageView>)
    ensures
        undelivered_view(inbox, None) == inbox,
        inbox.len() > 0 && (forall|i: int, j: int|
            0 <= i < j < inbox.len() ==> #[trigger] inbox[i].id != #[trigger] inbox[j].id)
            ==> undelivered_view(inbox, Some(inbox.last().id)).len() == 0,
{
    if inbox.len() > 0 && (forall|i: int, j: int|
        0 <= i < j < inbox.len() ==> #[trigger] inbox[i].id != #[trigger] inbox[j].id) {
        let c = inbox.last().id;
        assert forall|k: int| 0 <= k < inbox.len() - 1 implies !with_message_id(c)(#[trigger] inbox[k]) by {
            assert(inbox[k].id != inbox[inbox.len() - 1].id);
        }
        lemma_first_index_is(inbox, with_message_id(c), inbox.len() - 1);
    }
}

/// Mail is delivered once: after a member's unread mail is delivered, with
/// unique message ids that are their own trim, nothing of it is unread.
pub proof fn law_delivered_mail_is_read(s: StoreView, e: (u64, Seq<char>, Seq<char>), app: AppState)
    requires
        s.read_inbox(e.1, e.2) is Ok,
        forall|i: int, j: int|
            0 <= i < j < s.read_inbox(e.1, e.2)->Ok_0.len() ==> #[trigger] s.read_inbox(e.1, e.2)->Ok_0[i].id
                != #[trigger] s.read_inbox(e.1, e.2)->Ok_0[j].id,
        forall|i: int|
            0 <= i < s.read_inbox(e.1, e.2)->Ok_0.len() ==> trim_view(
                #[trigger] s.read_inbox(e.1, e.2)->Ok_0[i].id,
            ) == s.read_inbox(e.1, e.2)->Ok_0[i].id && s.read_inbox(e.1, e.2)->Ok_0[i].id.len() > 0,
    ensures
        ({
            let s2 = app.deliver_one(s, e).1;
            &&& s2.read_inbox(e.1, e.2) == s.read_inbox(e.1, e.2)
            &&& undelivered_view(s2.read_inbox(e.1, e.2)->Ok_0, s2.read_cursor(e.1, e.2)).len() == 0
        }),
{
    let inbox = s.read_inbox(e.1, e.2)->Ok_0;
    let fresh = undelivered_view(inbox, s.read_cursor(e.1, e.2));
    if fresh.len() > 0 {
        let c = s.read_cursor(e.1, e.2);
        match c {
            Some(cc) => {
                let i = first_index(inbox, with_message_id(cc));
                lemma_first_index(inbox, with_message_id(cc));
                if i < inbox.len() {
                    assert(fresh.last() == inbox.last());
                } else {
                    assert(fresh == inbox);
                }
            },
            None => {},
        }
        assert(fresh.last() == inbox.last());
        assert(trim_view(inbox[inbox.len() - 1].id) == inbox.last().id);
        law_undelivered_cursor(inbox);
    }
}

/// Only the lead sees the team panel: a snapshot exists only for the lead
/// session or the session bound to the lead member.
pub proof fn law_snapshot_only_for_lead(
    s: StoreView,
    sid: Seq<char>,
    live: Seq<(Seq<char>, crate::panel::TeamActivity)>,
    in_flight: Seq<Seq<char>>,
)
    requires
        snapshot_view(s, sid, live, in_flight) is Some,
    ensures
        s.find_by_session(sid) is Some,
        s.find_by_session(sid)->0.lead_session_id == sid || (s.find_by_session(sid)->0.lead() is Some
            && s.find_by_session(sid)->0.lead()->0.session_id == Some(sid)),
{
}

/// With teams off, every panel is cleared, and a cleared panel takes no space.
pub proof fn law_disabled_clears_panels(app: AppState, s: StoreView, now: u64, max_area: u16)
    ensures
        forall|i: int| 0 <= i < app.agents.len() ==> #[trigger] app.refresh_all_panels(s, false, now).agents[i]
            == cleared(app.agents[i], now),
        forall|i: int| 0 <= i < app.agents.len() ==> #[trigger] app.refresh_all_panels(s, false, now).agents[i].team.desired_height(max_area, now) == 0,
        app.sync(s, false, now) == (app, s),
{
}

/// Only the lead may spawn: a session on a team that it does not lead is
/// refused, and the store is left as it was.
pub proof fn law_only_lead_spawns(s: StoreView, sid: Seq<char>, name: Seq<char>, prompt: Seq<char>, now: i64)
    requires
        crate::types::valid_member_name_view(name),
        !crate::text::is_blank_view(prompt),
        s.find_by_session(sid) is Some,
        require_member_view(s.find_by_session(sid)->0, sid) is Ok,
        require_member_view(s.find_by_session(sid)->0, sid)->Ok_0.role != MemberRole::TeamLead,
    ensures
        spawn_teammate_view(s, Some(sid), name, prompt, now) == (s, Err::<
            crate::tools::SpawnOutputView,
            ToolErrorView,
        >(invalid("only the team lead can spawn teammates"@))),
{
}

/// A session on no team that spawns a teammate becomes the lead of a new
/// team, and the teammate is recorded without a session, with its prompt.
pub proof fn law_first_spawn_creates_team(s: StoreView, sid: Seq<char>, name: Seq<char>, prompt: Seq<char>, now: i64)
    requires
        crate::types::valid_member_name_view(name),
        !crate::text::is_blank_view(prompt),
        name != "lead"@,
        s.find_by_session(sid) is None,
        !s.dirs.contains(crate::types::team_id_view(sid)),
    ensures
        ({
            let (s2, r) = spawn_teammate_view(s, Some(sid), name, prompt, now);
            let t = crate::types::team_id_view(sid);
            &&& r is Ok
            &&& r->Ok_0.team_id == t
            &&& r->Ok_0.spawn_pending
            &&& s2.load(t) is Ok
            &&& s2.load(t)->Ok_0.member(name) == Some(
                TeamMemberView { name, role: MemberRole::Teammate, session_id: None, spawn_prompt: Some(prompt) },
            )
            &&& s2.load(t)->Ok_0.lead() == Some(
                TeamMemberView { name: "lead"@, role: MemberRole::TeamLead, session_id: Some(sid), spawn_prompt: None },
            )
        }),
{
    let (s1, c) = s.create_for_lead(sid, "lead"@, now);
    let t = crate::types::team_id_view(sid);
    crate::laws::law_created_team_is_found_by_lead_session(s, sid, "lead"@, now);
    let cv = c->Ok_0;
    assert(s1.load(t) == Ok::<crate::types::TeamConfigView, crate::store::StoreErrorView>(cv));
    lemma_first_index(cv.members, crate::types::named(name));
    assert(cv.members.len() == 1);
    assert(!crate::types::named(name)(cv.members[0]));
    assert(cv.member(name) is None);
    crate::laws::law_added_member_is_found(s1, t, name, None, Some(prompt), None, None);
    let (s2, r2) = s1.add_member(t, name, None, Some(prompt));
    let c2 = r2->Ok_0;
    let m = TeamMemberView { name, role: MemberRole::Teammate, session_id: None, spawn_prompt: Some(prompt) };
    assert(c2.members == cv.members.push(m));
    lemma_first_index_is(c2.members, crate::types::is_lead_member(), 0);
}

/// Only the lead may create tasks: a teammate's request is refused and the
/// store is left as it was.
pub proof fn law_only_lead_creates_tasks(
    s: StoreView,
    sid: Seq<char>,
    call_id: Seq<char>,
    title: Seq<char>,
    depends_on: Seq<Seq<char>>,
    now: i64,
)
    requires
        !crate::text::is_blank_view(title),
        s.find_by_session(sid) is Some,
        require_member_view(s.find_by_session(sid)->0, sid) is Ok,
        require_member_view(s.find_by_session(sid)->0, sid)->Ok_0.role != MemberRole::TeamLead,
    ensures
        task_create_view(s, Some(sid), call_id, title, depends_on, now) == (s, Err::<
            (Seq<char>, Seq<char>),
            ToolErrorView,
        >(invalid("only the team lead can create tasks"@))),
{
}

/// A teammate may complete only a task assigned to it: completing someone
/// else's task, or an unassigned one, is refused and changes nothing.
pub proof fn law_complete_by_assignee_or_lead(s: StoreView, sid: Seq<char>, task_id: Seq<char>, i: int)
    requires
        s.find_by_session(sid) is Some,
        require_member_view(s.find_by_session(sid)->0, sid) is Ok,
        ({
            let tasks = s.read_tasks(s.find_by_session(sid)->0.team_id);
            &&& 0 <= i < tasks.len()
            &&& tasks[i].id == task_id
            &&& forall|k: int| 0 <= k < i ==> tasks[k].id != task_id
        }),
        !may_complete(
            require_member_view(s.find_by_session(sid)->0, sid)->Ok_0,
            s.read_tasks(s.find_by_session(sid)->0.team_id),
            i,
        ),
    ensures
        task_complete_view(s, Some(sid), task_id) == (s, Err::<Seq<char>, ToolErrorView>(
            invalid("only the task's assignee or the team lead may mark it completed"@),
        )),
{
    let tasks = s.read_tasks(s.find_by_session(sid)->0.team_id);
    lemma_first_index_is(tasks, has_id(task_id), i);
}


/// Every listed member is found by its name.
proof fn lemma_listed_member_found(c: TeamConfigView, j: int)
    requires
        0 <= j < c.members.len(),
    ensures
        c.member(c.members[j].name) is Some,
{
    lemma_first_index(c.members, named(c.members[j].name));
}

/// What `member_for_session` and `lead` give is one of the listed members.
pub proof fn lemma_session_member_listed(c: TeamConfigView, sid: Seq<char>)
    ensures
        c.member_for_session(sid) is Some ==> c.member(c.member_for_session(sid)->0.name) is Some,
        c.lead() is Some ==> c.member(c.lead()->0.name) is Some,
{
    lemma_first_index(c.members, bound_to(sid));
    lemma_first_index(c.members, is_lead_member());
    let b = first_index(c.members, bound_to(sid));
    let l = first_index(c.members, is_lead_member());
    if b < c.members.len() {
        lemma_listed_member_found(c, b);
    }
    if l < c.members.len() {
        lemma_listed_member_found(c, l);
    }
}

/// When a teammate's turn ends, its lead's inbox gains exactly one note from
/// that teammate: `idle` after a finished turn, `failed` after a failed one.
pub proof fn law_turn_end_notifies_lead(app: AppState, s: StoreView, agent_id: u64, failed: bool, now: i64)
    requires
        ({
            let i = first_index(app.agents, has_agent_id(agent_id));
            &&& i < app.agents.len()
            &&& !app.agents[i].is_subagent_view
            &&& app.agents[i].session_id is Some
            &&& s.find_by_session(app.agents[i].session_id->0) is Some
        }),
        ({
            let sid = app.agents[first_index(app.agents, has_agent_id(agent_id))].session_id->0;
            let team = s.find_by_session(sid)->0;
            &&& s.load(team.team_id) == Ok::<TeamConfigView, crate::store::StoreErrorView>(team)
            &&& team.member_for_session(sid) is Some
            &&& team.member_for_session(sid)->0.role == MemberRole::Teammate
            &&& team.lead() is Some
            &&& team.lead()->0.name != team.member_for_session(sid)->0.name
        }),
    ensures
        ({
            let sid = app.agents[first_index(app.agents, has_agent_id(agent_id))].session_id->0;
            let team = s.find_by_session(sid)->0;
            let m = team.member_for_session(sid)->0.name;
            let lead = team.lead()->0.name;
            let s2 = app.turn_ended(s, agent_id, failed, true, now);
            &&& s.read_inbox(team.team_id, lead) is Ok
            &&& s2.read_inbox(team.team_id, lead) == Ok::<Seq<MailboxMessageView>, crate::store::StoreErrorView>(
                s.read_inbox(team.team_id, lead)->Ok_0.push(
                    MailboxMessageView {
                        id: turn_end_id(m, failed, now),
                        from: m,
                        to: lead,
                        kind: turn_end_kind(failed),
                        subject: None,
                        body: turn_end_body(m, failed),
                        created_unix_ms: now,
                    },
                ),
            )
            &&& forall|n: Seq<char>| n != lead ==> #[trigger] s2.read_inbox(team.team_id, n)
                == s.read_inbox(team.team_id, n)
        }),
{
    let sid = app.agents[first_index(app.agents, has_agent_id(agent_id))].session_id->0;
    let team = s.find_by_session(sid)->0;
    lemma_session_member_listed(team, sid);
    let m = team.member_for_session(sid)->0.name;
    let lead = team.lead()->0.name;
    crate::laws::law_send_appends_to_recipient_only(
        s,
        team.team_id,
        m,
        lead,
        turn_end_kind(failed),
        None,
        turn_end_body(m, failed),
        now,
        turn_end_id(m, failed, now),
    );
}

/// The tool accepts the `idle` and `failed` kinds: a member's note of either
/// kind to another member is appended to that member's inbox.
pub proof fn law_send_accepts_turn_kinds(
    s: StoreView,
    sid: Seq<char>,
    call_id: Seq<char>,
    to: Seq<char>,
    body: Seq<char>,
    failed: bool,
    now: i64,
)
    requires
        !crate::text::is_blank_view(body),
        s.find_by_session(sid) is Some,
        s.load(s.find_by_session(sid)->0.team_id) == Ok::<TeamConfigView, crate::store::StoreErrorView>(
            s.find_by_session(sid)->0,
        ),
        s.find_by_session(sid)->0.member_for_session(sid) is Some,
        s.find_by_session(sid)->0.member(to) is Some,
        to != s.find_by_session(sid)->0.member_for_session(sid)->0.name,
    ensures
        ({
            let team = s.find_by_session(sid)->0;
            let from = team.member_for_session(sid)->0.name;
            let kind = if failed { Some("failed"@) } else { Some("idle"@) };
            let (s2, r) = crate::tools::send_message_view(s, Some(sid), call_id, to, body, None, kind, now);
            &&& r == Ok::<(Seq<char>, Seq<char>), ToolErrorView>(("m-"@ + call_id, to))
            &&& s2.read_inbox(team.team_id, to) == Ok::<Seq<MailboxMessageView>, crate::store::StoreErrorView>(
                s.read_inbox(team.team_id, to)->Ok_0.push(
                    MailboxMessageView {
                        id: "m-"@ + call_id,
                        from,
                        to,
                        kind: turn_end_kind(failed),
                        subject: None,
                        body,
                        created_unix_ms: now,
                    },
                ),
            )
        }),
{
    let team = s.find_by_session(sid)->0;
    lemma_session_member_listed(team, sid);
    let from = team.member_for_session(sid)->0.name;
    reveal_strlit("idle");
    reveal_strlit("failed");
    reveal_strlit("text");
    reveal_strlit("plan_approval");
    reveal_strlit("shutdown");
    reveal_strlit("task_update");
    crate::laws::law_send_appends_to_recipient_only(
        s,
        team.team_id,
        from,
        to,
        turn_end_kind(failed),
        None,
        body,
        now,
        "m-"@ + call_id,
    );
    let kind = if failed { Some("failed"@) } else { Some("idle"@) };
    assert("idle"@[0] != "text"@[0] && "idle"@.len() != "plan_approval"@.len());
    assert("idle"@.len() != "shutdown"@.len() && "idle"@.len() != "task_update"@.len());
    assert("failed"@.len() != "text"@.len() && "failed"@.len() != "plan_approval"@.len());
    assert("failed"@.len() != "shutdown"@.len() && "failed"@.len() != "task_update"@.len());
    assert("failed"@.len() != "idle"@.len());
    assert(crate::tools::kind_view(kind) == Ok::<crate::types::MailboxKind, ToolErrorView>(turn_end_kind(failed)));
}

} // verus!
