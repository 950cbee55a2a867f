//! Laws that pin what single operations answer, stated over their inputs:
//! who `team_status` lists as pending, what a snapshot's unread total is,
//! how task statuses print, where the arrow keys move the selection, and
//! which kind a named message kind is.
use vstd::prelude::*;
use crate::panel::{KeyCode, KeyEvent, PanelView, RowView};
use crate::runtime::{snapshot_view, status_text_view, unread_sum, member_row};
use crate::store::StoreView;
use crate::tasks::status_debug_view;
use crate::tools::{kind_view, team_status_view, pending_spawn_names, ToolErrorView};
use crate::types::{MailboxKind, MemberRole, TaskStatus, TeamMemberView};

verus! {

// --- team_status: pending spawns ---

/// Some member named `name` is a teammate that no session holds.
pub open spec fn unbound_teammate(members: Seq<TeamMemberView>, name: Seq<char>) -> bool {
    exists|i: int|
        0 <= i < members.len() && (#[trigger] members[i]).name == name && members[i].role == MemberRole::Teammate
            && members[i].session_id is None
}

proof fn lemma_pending_names(members: Seq<TeamMemberView>)
    ensures
        forall|name: Seq<char>| #[trigger] pending_spawn_names(members).contains(name) <==> unbound_teammate(members, name),
    decreases members.len(),
{
    if members.len() > 0 {
        let init = members.drop_last();
        lemma_pending_names(init);
        let r = pending_spawn_names(init);
        let p = pending_spawn_names(members);
        let last = members.last();
        let n = members.len() - 1;
        assert(members[n] == last);
        assert forall|name: Seq<char>| #[trigger] p.contains(name) <==> unbound_teammate(members, name) by {
            if p.contains(name) {
                let k = choose|k: int| 0 <= k < p.len() && p[k] == name;
                if k < r.len() {
                    assert(r[k] == name);
                    assert(r.contains(name));
                    assert(unbound_teammate(init, name));
                    let i = choose|i: int|
                        0 <= i < init.len() && (#[trigger] init[i]).name == name && init[i].role == MemberRole::Teammate
                            && init[i].session_id is None;
                    assert(members[i] == init[i]);
                } else {
                    assert(members[n].name == name);
                }
            }
            if unbound_teammate(members, name) {
                let i = choose|i: int|
                    0 <= i < members.len() && (#[trigger] members[i]).name == name && members[i].role
                        == MemberRole::Teammate && members[i].session_id is None;
                if i < n {
                    assert(init[i] == members[i]);
                    assert(unbound_teammate(init, name));
                    assert(r.contains(name));
                    let k = choose|k: int| 0 <= k < r.len() && r[k] == name;
                    assert(p[k] == name);
                } else {
                    assert(p[p.len() - 1] == name);
                }
            }
        }
    }
}

/// `team_status` lists a name as a pending spawn exactly when a member of
/// the caller's team with that name is a teammate that no session holds: a
/// teammate whose session is bound, and the lead, are never pending.
pub proof fn law_pending_spawns_are_unbound_teammates(s: StoreView, sid: Seq<char>)
    requires
        team_status_view(s, Some(sid)) is Ok,
    ensures
        s.find_by_session(sid) is Some,
        forall|name: Seq<char>|
            #[trigger] team_status_view(s, Some(sid))->Ok_0.pending_spawns.contains(name) <==> unbound_teammate(
                s.find_by_session(sid)->0.members,
                name,
            ),
{
    lemma_pending_names(s.find_by_session(sid)->0.members);
}

// --- snapshot: unread total ---

/// The sum of the rows' unread counts.
pub open spec fn rows_unread(rows: Seq<RowView>) -> nat
    decreases rows.len(),
{
    if rows.len() == 0 {
        0
    } else {
        rows_unread(rows.drop_last()) + rows.last().unread as nat
    }
}

proof fn lemma_unread_sum(
    s: StoreView,
    t: Seq<char>,
    members: Seq<TeamMemberView>,
    live: Seq<(Seq<char>, crate::panel::TeamActivity)>,
    in_flight: Seq<Seq<char>>,
)
    ensures
        ({
            let total = rows_unread(members.map_values(|m: TeamMemberView| member_row(s, t, m, live, in_flight)));
            unread_sum(s, t, members) == if total > u32::MAX { u32::MAX as nat } else { total }
        }),
    decreases members.len(),
{
    if members.len() > 0 {
        let init = members.drop_last();
        lemma_unread_sum(s, t, init, live, in_flight);
        let rows = members.map_values(|m: TeamMemberView| member_row(s, t, m, live, in_flight));
        let rows0 = init.map_values(|m: TeamMemberView| member_row(s, t, m, live, in_flight));
        assert(rows.drop_last() =~= rows0);
        assert(rows.last() == member_row(s, t, members.last(), live, in_flight));
    }
}

/// A lead's snapshot counts all unread mail: its unread total is the sum of
/// its rows' unread counts, capped at `u32::MAX`.
pub proof fn law_unread_total_sums_rows(
    s: StoreView,
    sid: Seq<char>,
    live: Seq<(Seq<char>, crate::panel::TeamActivity)>,
    in_flight: Seq<Seq<char>>,
)
    requires
        snapshot_view(s, sid, live, in_flight) is Some,
    ensures
        ({
            let snap = snapshot_view(s, sid, live, in_flight)->0;
            let total = rows_unread(snap.rows);
            snap.unread_total == if total > u32::MAX { u32::MAX as nat } else { total }
        }),
{
    let team = s.find_by_session(sid)->0;
    lemma_unread_sum(s, team.team_id, team.members, live, in_flight);
}

// --- task status text ---

/// ASCII upper-case letters lowered, everything else kept.
pub open spec fn ascii_lower(s: Seq<char>) -> Seq<char> {
    s.map_values(|c: char| if 'A' <= c && c <= 'Z' { ((c as u32) + 32) as char } else { c })
}

/// A task's status prints as its debug name in lower case (`Completed`
/// prints `completed`), and different statuses print differently.
pub proof fn law_status_text_is_lowered_debug_name(a: TaskStatus, b: TaskStatus)
    ensures
        status_text_view(a) == ascii_lower(status_debug_view(a)),
        a != b ==> status_text_view(a) != status_text_view(b),
{
    reveal_strlit("pending");
    reveal_strlit("inprogress");
    reveal_strlit("completed");
    reveal_strlit("Pending");
    reveal_strlit("InProgress");
    reveal_strlit("Completed");
    assert(status_text_view(a) =~= ascii_lower(status_debug_view(a)));
    if a != b {
        assert(status_text_view(a)[0] != status_text_view(b)[0] || status_text_view(a).len()
            != status_text_view(b).len());
    }
}

// --- arrow keys ---

/// Down moves the selection from a painted row to the next painted row
/// below it, skipping none; it stays put only on the last painted row.
pub proof fn law_down_selects_next_painted_row(p: PanelView, now: u64)
    requires
        p.rows.len() <= usize::MAX,
        p.visible(now).contains(p.selected),
    ensures
        ({
            let q = p.handle_key(KeyEvent { code: KeyCode::Down, modifiers: 0 }, now).0;
            let v = p.visible(now);
            &&& v.contains(q.selected)
            &&& p.selected <= q.selected
            &&& forall|i: usize| #[trigger] v.contains(i) ==> !(p.selected < i && i < q.selected)
            &&& q.selected == p.selected ==> forall|i: usize| #[trigger] v.contains(i) ==> i <= p.selected
        }),
{
    let v = p.visible(now);
    crate::panel::lemma_visible_view(p.rows, crate::panel::collapsed(p.last_all_idle_at, now));
    crate::seqs::lemma_first_index(v, crate::panel::equals(p.selected));
    let pos = crate::panel::first_position(v, p.selected);
    let k0 = choose|k: int| 0 <= k < v.len() && v[k] == p.selected;
    assert(pos <= k0);
    assert(v[pos] == p.selected);
    let q = p.handle_key(KeyEvent { code: KeyCode::Down, modifiers: 0 }, now).0;
    assert(q == p.select_delta(1i32, now));
    let next: int = if pos + 1 < v.len() - 1 { pos + 1 } else { v.len() - 1 };
    assert(q.selected == v[next]);
    assert(next == pos || next == pos + 1);
    assert(v.contains(v[next]));
    assert forall|i: usize| #[trigger] v.contains(i) implies !(p.selected < i && i < q.selected) by {
        let j = choose|j: int| 0 <= j < v.len() && v[j] == i;
        if j < pos {
            assert(v[j] < v[pos]);
        } else if j > next {
            assert(v[next] < v[j]);
        }
    }
    if q.selected == p.selected {
        assert(next == pos);
        assert(pos == v.len() - 1);
        assert forall|i: usize| #[trigger] v.contains(i) implies i <= p.selected by {
            let j = choose|j: int| 0 <= j < v.len() && v[j] == i;
            if j < pos {
                assert(v[j] < v[pos]);
            }
        }
    }
}

/// Up moves the selection from a painted row to the next painted row above
/// it, skipping none; it stays put only on the first painted row.
pub proof fn law_up_selects_previous_painted_row(p: PanelView, now: u64)
    requires
        p.rows.len() <= usize::MAX,
        p.visible(now).contains(p.selected),
    ensures
        ({
            let q = p.handle_key(KeyEvent { code: KeyCode::Up, modifiers: 0 }, now).0;
            let v = p.visible(now);
            &&& v.contains(q.selected)
            &&& q.selected <= p.selected
            &&& forall|i: usize| #[trigger] v.contains(i) ==> !(q.selected < i && i < p.selected)
            &&& q.selected == p.selected ==> forall|i: usize| #[trigger] v.contains(i) ==> p.selected <= i
        }),
{
    let v = p.visible(now);
    crate::panel::lemma_visible_view(p.rows, crate::panel::collapsed(p.last_all_idle_at, now));
    crate::seqs::lemma_first_index(v, crate::panel::equals(p.selected));
    let pos = crate::panel::first_position(v, p.selected);
    let k0 = choose|k: int| 0 <= k < v.len() && v[k] == p.selected;
    assert(pos <= k0);
    assert(v[pos] == p.selected);
    let q = p.handle_key(KeyEvent { code: KeyCode::Up, modifiers: 0 }, now).0;
    assert(q == p.select_delta(-1i32, now));
    let next: int = if pos > 0 { pos - 1 } else { 0 };
    assert(q.selected == v[next]);
    assert(v.contains(v[next]));
    assert forall|i: usize| #[trigger] v.contains(i) implies !(q.selected < i && i < p.selected) by {
        let j = choose|j: int| 0 <= j < v.len() && v[j] == i;
        if j < next {
            assert(v[j] < v[next]);
        } else if j > pos {
            assert(v[pos] < v[j]);
        }
    }
    if q.selected == p.selected {
        assert(next == pos);
        assert(pos == 0);
        assert forall|i: usize| #[trigger] v.contains(i) implies p.selected <= i by {
            let j = choose|j: int| 0 <= j < v.len() && v[j] == i;
            if j > 0 {
                assert(v[0] < v[j]);
            }
        }
    }
}

// --- message kinds ---

/// The name a kind has in tool arguments and on disk.
pub open spec fn kind_name(k: MailboxKind) -> Seq<char> {
    match k {
        MailboxKind::Text => "text"@,
        MailboxKind::PlanApproval => "plan_approval"@,
        MailboxKind::Shutdown => "shutdown"@,
        MailboxKind::TaskUpdate => "task_update"@,
        MailboxKind::Idle => "idle"@,
        MailboxKind::Failed => "failed"@,
    }
}

/// A kind argument names exactly one kind: `k` is accepted as `kind` exactly
/// when `k` is that kind's name; any other text is refused; no argument
/// means `text`.
pub proof fn law_kind_argument_names_its_kind(k: Seq<char>, kind: MailboxKind)
    ensures
        kind_view(Some(k)) == Ok::<MailboxKind, ToolErrorView>(kind) <==> k == kind_name(kind),
        kind_view(Some(k)) is Err <==> (forall|other: MailboxKind| #[trigger] kind_name(other) != k),
        kind_view(None) == Ok::<MailboxKind, ToolErrorView>(MailboxKind::Text),
{
    reveal_strlit("text");
    reveal_strlit("plan_approval");
    reveal_strlit("shutdown");
    reveal_strlit("task_update");
    reveal_strlit("idle");
    reveal_strlit("failed");
    assert("idle"@[0] != "text"@[0]);
    if kind_view(Some(k)) is Err {
        assert forall|other: MailboxKind| #[trigger] kind_name(other) != k by {
            match other {
                MailboxKind::Text => {},
                MailboxKind::PlanApproval => {},
                MailboxKind::Shutdown => {},
                MailboxKind::TaskUpdate => {},
                MailboxKind::Idle => {},
                MailboxKind::Failed => {},
            }
        }
    } else {
        let found = kind_view(Some(k))->Ok_0;
        assert(kind_name(found) == k);
    }
}


/// A message sent with a kind argument carries the kind that argument names:
/// `send_message` with kind `kind_name(kind)` from a member to another
/// member appends, to the recipient's inbox, one message of that kind.
pub proof fn law_sent_message_has_named_kind(
    s: StoreView,
    sid: Seq<char>,
    call_id: Seq<char>,
    to: Seq<char>,
    body: Seq<char>,
    kind: MailboxKind,
    now: i64,
)
    requires
        !crate::text::is_blank_view(body),
        s.find_by_session(sid) is Some,
        s.load(s.find_by_session(sid)->0.team_id) == Ok::<crate::types::TeamConfigView, crate::store::StoreErrorView>(
            s.find_by_session(sid)->0,
        ),
        s.find_by_session(sid)->0.member_for_session(sid) is Some,
        s.find_by_session(sid)->0.member(to) is Some,
        to != s.find_by_session(sid)->0.member_for_session(sid)->0.name,
    ensures
        ({
            let team = s.find_by_session(sid)->0;
            let from = team.member_for_session(sid)->0.name;
            let (s2, r) = crate::tools::send_message_view(s, Some(sid), call_id, to, body, None, Some(kind_name(kind)), now);
            &&& r is Ok
            &&& s2.read_inbox(team.team_id, to) is Ok
            &&& s2.read_inbox(team.team_id, to)->Ok_0 == s.read_inbox(team.team_id, to)->Ok_0.push(
                crate::types::MailboxMessageView {
                    id: "m-"@ + call_id,
                    from,
                    to,
                    kind,
                    subject: None,
                    body,
                    created_unix_ms: now,
                },
            )
        }),
{
    let team = s.find_by_session(sid)->0;
    crate::runtime_laws::lemma_session_member_listed(team, sid);
    let from = team.member_for_session(sid)->0.name;
    law_kind_argument_names_its_kind(kind_name(kind), kind);
    crate::laws::law_send_appends_to_recipient_only(s, team.team_id, from, to, kind, None, body, now, "m-"@ + call_id);
}

/// `team_status` answers for the caller's team: its id, every member's name
/// in member order, the caller's own member name, the number of tasks, and
/// one unread count per member, which is the whole inbox when the member has
/// no cursor.
pub proof fn law_team_status_describes_the_team(s: StoreView, sid: Seq<char>)
    requires
        team_status_view(s, Some(sid)) is Ok,
    ensures
        ({
            let team = s.find_by_session(sid)->0;
            let v = team_status_view(s, Some(sid))->Ok_0;
            &&& s.find_by_session(sid) is Some
            &&& v.team_id == team.team_id
            &&& v.members.len() == team.members.len()
            &&& forall|i: int| 0 <= i < team.members.len() ==> #[trigger] v.members[i] == team.members[i].name
            &&& team.member_for_session(sid) is Some
            &&& v.you == team.member_for_session(sid)->0.name
            &&& v.tasks == s.read_tasks(team.team_id).len()
            &&& v.unread.len() == team.members.len()
            &&& forall|i: int|
                0 <= i < team.members.len() && s.read_cursor(team.team_id, team.members[i].name) is None
                    && s.read_inbox(team.team_id, team.members[i].name) is Ok ==> #[trigger] v.unread[i]
                    == s.read_inbox(team.team_id, team.members[i].name)->Ok_0.len()
        }),
{
}

/// A lead's snapshot has one row per member, in member order, with the
/// member's name, whether it is the lead, and its unread count (the whole
/// inbox when it has no cursor); its tasks are the team's tasks, in order,
/// each with its printed status.
pub proof fn law_snapshot_rows_follow_members(
    s: StoreView,
    sid: Seq<char>,
    live: Seq<(Seq<char>, crate::panel::TeamActivity)>,
    in_flight: Seq<Seq<char>>,
)
    requires
        snapshot_view(s, sid, live, in_flight) is Some,
    ensures
        ({
            let team = s.find_by_session(sid)->0;
            let snap = snapshot_view(s, sid, live, in_flight)->0;
            let tasks = s.read_tasks(team.team_id);
            &&& snap.team_id == team.team_id
            &&& snap.rows.len() == team.members.len()
            &&& forall|i: int| 0 <= i < team.members.len() ==> {
                &&& (#[trigger] snap.rows[i]).name == team.members[i].name
                &&& snap.rows[i].is_lead == (team.members[i].role == MemberRole::TeamLead)
                &&& snap.rows[i].session_id == team.members[i].session_id
                &&& (s.read_cursor(team.team_id, team.members[i].name) is None && s.read_inbox(
                    team.team_id,
                    team.members[i].name,
                ) is Ok && s.read_inbox(team.team_id, team.members[i].name)->Ok_0.len() <= u32::MAX)
                    ==> snap.rows[i].unread == s.read_inbox(team.team_id, team.members[i].name)->Ok_0.len()
            }
            &&& snap.tasks.len() == tasks.len()
            &&& forall|k: int| 0 <= k < tasks.len() ==> (#[trigger] snap.tasks[k]).id == tasks[k].id
                && snap.tasks[k].title == tasks[k].title && snap.tasks[k].status == status_text_view(tasks[k].status)
        }),
{
}

} // verus!
