//! Laws of one runtime pass taken twice: mail already delivered is not
//! delivered again, and teammates already started are not started again.
use vstd::prelude::*;
use crate::pager::{
    fresh_agent, has_agent_id, lead_entries, leads_team, member_entries, AgentState, AppState, SessionEffect,
};
use crate::runtime::{awaits_spawn, pending_view, undelivered_view, with_message_id};
use crate::runtime_laws::{entry_of, is_entry, law_pending_are_awaiting, law_undelivered_cursor};
use crate::seqs::{
    first_index, lemma_first_index, lemma_first_index_is, lemma_first_index_push, lemma_first_index_update,
};
use crate::store::StoreView;
use crate::text::trim_view;
use crate::types::MailboxMessageView;

verus! {

/// An inbox whose message ids are pairwise distinct, non-empty, and free of
/// surrounding white space.
pub open spec fn ids_ok(msgs: Seq<MailboxMessageView>) -> bool {
    &&& forall|i: int, j: int| 0 <= i < j < msgs.len() ==> #[trigger] msgs[i].id != #[trigger] msgs[j].id
    &&& forall|i: int| 0 <= i < msgs.len() ==> trim_view(#[trigger] msgs[i].id) == msgs[i].id && msgs[i].id.len() > 0
}

/// Every inbox of the store has well-formed ids.
pub open spec fn inboxes_ok(s: StoreView) -> bool {
    forall|k: (Seq<char>, Seq<char>)| #[trigger] s.inboxes.contains_key(k) ==> ids_ok(s.inboxes[k])
}

/// Every team directory that holds a config is listed.
pub open spec fn configs_listed(s: StoreView) -> bool {
    forall|t: Seq<char>| #[trigger] s.configs.contains_key(t) ==> s.dirs.contains(t)
}

/// Nothing is left to deliver to the member entry `e`.
pub open spec fn quiet(s: StoreView, e: (u64, Seq<char>, Seq<char>)) -> bool {
    match s.read_inbox(e.1, e.2) {
        Err(_) => true,
        Ok(inbox) => undelivered_view(inbox, s.read_cursor(e.1, e.2)).len() == 0,
    }
}

/// Two pager states with the same sessions, entry for entry.
pub open spec fn same_sessions(a: AppState, b: AppState) -> bool {
    &&& a.agents.len() == b.agents.len()
    &&& forall|i: int|
        0 <= i < a.agents.len() ==> #[trigger] a.agents[i].id == b.agents[i].id && a.agents[i].session_id
            == b.agents[i].session_id
}

/// Writing a cursor moves no team: every session finds the team it found.
proof fn lemma_cursor_keeps_teams(s: StoreView, t: Seq<char>, m: Seq<char>, id: Seq<char>)
    requires
        configs_listed(s),
    ensures
        configs_listed(s.write_cursor(t, m, id)),
        forall|sid: Seq<char>| #[trigger] s.write_cursor(t, m, id).find_by_session(sid) == s.find_by_session(sid),
{
    let s2 = s.write_cursor(t, m, id);
    assert forall|t2: Seq<char>| #[trigger] s2.configs.contains_key(t2) implies s2.dirs.contains(t2) by {
        let i = choose|i: int| 0 <= i < s.dirs.len() && s.dirs[i] == t2;
        if !s.dirs.contains(t) {
            assert(s2.dirs[i] == t2);
        }
    }
    assert forall|sid: Seq<char>| #[trigger] s2.find_by_session(sid) == s.find_by_session(sid) by {
        assert(s2.holds_session(sid) =~= s.holds_session(sid));
        if !s.dirs.contains(t) {
            lemma_first_index_push(s.dirs, s.holds_session(sid), t);
            lemma_first_index(s.dirs, s.holds_session(sid));
        }
    }
}

/// The last message of what is undelivered is the inbox's last message.
proof fn lemma_fresh_last(inbox: Seq<MailboxMessageView>, cursor: Option<Seq<char>>)
    requires
        undelivered_view(inbox, cursor).len() > 0,
    ensures
        inbox.len() > 0,
        undelivered_view(inbox, cursor).last() == inbox.last(),
{
    match cursor {
        None => {},
        Some(c) => {
            lemma_first_index(inbox, with_message_id(c));
        },
    }
}

/// An inbox read from a store with well-formed inboxes has well-formed ids.
proof fn lemma_read_ids_ok(s: StoreView, t: Seq<char>, m: Seq<char>)
    requires
        inboxes_ok(s),
        s.read_inbox(t, m) is Ok,
    ensures
        ids_ok(s.read_inbox(t, m)->Ok_0),
{
    if !s.inboxes.contains_key((t, m)) {
        assert(s.read_inbox(t, m)->Ok_0 =~= Seq::<MailboxMessageView>::empty());
    }
}

/// One member's delivery: it changes only that member's cursor and agent
/// queue, leaves every quiet entry quiet, and leaves its own entry quiet.
proof fn lemma_deliver_step(a: AppState, s: StoreView, e0: (u64, Seq<char>, Seq<char>))
    requires
        inboxes_ok(s),
        configs_listed(s),
    ensures
        ({
            let (a2, s2) = a.deliver_one(s, e0);
            &&& s2.configs == s.configs
            &&& s2.inboxes == s.inboxes
            &&& s2.tasks == s.tasks
            &&& configs_listed(s2)
            &&& forall|sid: Seq<char>| #[trigger] s2.find_by_session(sid) == s.find_by_session(sid)
            &&& same_sessions(a, a2)
            &&& quiet(s2, e0)
            &&& forall|e: (u64, Seq<char>, Seq<char>)| quiet(s, e) ==> #[trigger] quiet(s2, e)
        }),
{
    let (a2, s2) = a.deliver_one(s, e0);
    match s.read_inbox(e0.1, e0.2) {
        Err(_) => {},
        Ok(inbox) => {
            let fresh = undelivered_view(inbox, s.read_cursor(e0.1, e0.2));
            if fresh.len() > 0 {
                let last = fresh.last().id;
                lemma_cursor_keeps_teams(s, e0.1, e0.2, last);
                lemma_fresh_last(inbox, s.read_cursor(e0.1, e0.2));
                lemma_read_ids_ok(s, e0.1, e0.2);
                assert(inbox[inbox.len() - 1] == inbox.last());
                assert(s2.read_cursor(e0.1, e0.2) == Some(last));
                assert(s2.read_inbox(e0.1, e0.2) == s.read_inbox(e0.1, e0.2));
                law_undelivered_cursor(inbox);
                assert forall|e: (u64, Seq<char>, Seq<char>)| quiet(s, e) implies #[trigger] quiet(s2, e) by {
                    assert(s2.read_inbox(e.1, e.2) == s.read_inbox(e.1, e.2));
                    if (e.1, e.2) != (e0.1, e0.2) {
                        assert(s2.read_cursor(e.1, e.2) == s.read_cursor(e.1, e.2));
                    }
                }
                let prompts = fresh.map_values(|m: MailboxMessageView| crate::runtime::delivery_prompt_view(m));
                assert(a2 == a.enqueue(e0.0, prompts));
                let i = crate::seqs::first_index(a.agents, crate::pager::has_agent_id(e0.0));
                lemma_first_index(a.agents, crate::pager::has_agent_id(e0.0));
                if i < a.agents.len() {
                    let ag = a.agents[i];
                    let upd = crate::pager::AgentState { queued_prompts: ag.queued_prompts + prompts, ..ag };
                    assert(a2.agents == a.agents.update(i, upd));
                    assert forall|k: int| 0 <= k < a.agents.len() implies #[trigger] a.agents[k].id == a2.agents[k].id
                        && a.agents[k].session_id == a2.agents[k].session_id by {
                        if k == i {
                            assert(a2.agents[k] == upd);
                        }
                    }
                } else {
                    assert(a2 == a);
                }
            }
        },
    }
}

/// A pass over member entries: every entry already quiet, and every entry
/// of the pass, is quiet afterwards; only cursors and queues change.
proof fn lemma_deliver_pass(
    a: AppState,
    s: StoreView,
    es: Seq<(u64, Seq<char>, Seq<char>)>,
    done: Seq<(u64, Seq<char>, Seq<char>)>,
)
    requires
        inboxes_ok(s),
        configs_listed(s),
        forall|k: int| 0 <= k < done.len() ==> quiet(s, #[trigger] done[k]),
    ensures
        ({
            let (a2, s2) = a.deliver_from(s, es);
            &&& s2.configs == s.configs
            &&& s2.inboxes == s.inboxes
            &&& s2.tasks == s.tasks
            &&& configs_listed(s2)
            &&& forall|sid: Seq<char>| #[trigger] s2.find_by_session(sid) == s.find_by_session(sid)
            &&& same_sessions(a, a2)
            &&& forall|k: int| 0 <= k < done.len() ==> quiet(s2, #[trigger] done[k])
            &&& forall|k: int| 0 <= k < es.len() ==> quiet(s2, #[trigger] es[k])
        }),
    decreases es.len(),
{
    if es.len() > 0 {
        let (a1, s1) = a.deliver_one(s, es[0]);
        lemma_deliver_step(a, s, es[0]);
        let done1 = done.push(es[0]);
        assert forall|k: int| 0 <= k < done1.len() implies quiet(s1, #[trigger] done1[k]) by {
            if k < done.len() {
                assert(done1[k] == done[k]);
                assert(quiet(s, done[k]));
            }
        }
        lemma_deliver_pass(a1, s1, es.drop_first(), done1);
        let (a2, s2) = a1.deliver_from(s1, es.drop_first());
        assert forall|k: int| 0 <= k < done.len() implies quiet(s2, #[trigger] done[k]) by {
            assert(done1[k] == done[k]);
        }
        assert forall|k: int| 0 <= k < es.len() implies quiet(s2, #[trigger] es[k]) by {
            if k == 0 {
                assert(done1[done.len() as int] == es[0]);
            } else {
                assert(es.drop_first()[k - 1] == es[k]);
            }
        }
        assert forall|k: int| 0 <= k < a.agents.len() implies #[trigger] a.agents[k].id == a2.agents[k].id
            && a.agents[k].session_id == a2.agents[k].session_id by {
            assert(a1.agents[k].id == a.agents[k].id);
        }
    }
}

/// Delivering to entries that are all quiet changes nothing.
proof fn lemma_quiet_pass(a: AppState, s: StoreView, es: Seq<(u64, Seq<char>, Seq<char>)>)
    requires
        forall|k: int| 0 <= k < es.len() ==> quiet(s, #[trigger] es[k]),
    ensures
        a.deliver_from(s, es) == (a, s),
    decreases es.len(),
{
    if es.len() > 0 {
        assert(quiet(s, es[0]));
        assert forall|k: int| 0 <= k < es.drop_first().len() implies quiet(s, #[trigger] es.drop_first()[k]) by {
            assert(es.drop_first()[k] == es[k + 1]);
        }
        lemma_quiet_pass(a, s, es.drop_first());
    }
}

/// The member entries depend only on each agent's id and session, and on
/// which team each session finds.
proof fn lemma_member_entries_same(a: Seq<crate::pager::AgentState>, b: Seq<crate::pager::AgentState>, s: StoreView, t: StoreView)
    requires
        a.len() == b.len(),
        forall|i: int| 0 <= i < a.len() ==> #[trigger] a[i].id == b[i].id && a[i].session_id == b[i].session_id,
        forall|sid: Seq<char>| #[trigger] t.find_by_session(sid) == s.find_by_session(sid),
    ensures
        member_entries(b, t) == member_entries(a, s),
    decreases a.len(),
{
    if a.len() > 0 {
        assert(a.last() == a[a.len() - 1]);
        assert(b.last() == b[b.len() - 1]);
        assert(a[a.len() - 1].id == b[a.len() - 1].id);
        assert(a.last().session_id == b.last().session_id);
        assert forall|i: int| 0 <= i < a.drop_last().len() implies #[trigger] a.drop_last()[i].id
            == b.drop_last()[i].id && a.drop_last()[i].session_id == b.drop_last()[i].session_id by {
            assert(a.drop_last()[i] == a[i]);
            assert(b.drop_last()[i] == b[i]);
        }
        lemma_member_entries_same(a.drop_last(), b.drop_last(), s, t);
        match a.last().session_id {
            Some(sid) => {
                assert(t.find_by_session(sid) == s.find_by_session(sid));
            },
            None => {},
        }
    }
}

/// Mail is delivered once: after a pass, every member session's cursor sits
/// on the last message of its inbox, inboxes, configs and tasks are as they
/// were, and a second pass right after changes nothing.
pub proof fn law_delivery_is_once(app: AppState, s: StoreView)
    requires
        inboxes_ok(s),
        configs_listed(s),
    ensures
        ({
            let (a1, s1) = app.deliver_mailboxes(s);
            &&& a1.deliver_mailboxes(s1) == (a1, s1)
            &&& s1.inboxes == s.inboxes
            &&& s1.configs == s.configs
            &&& s1.tasks == s.tasks
            &&& forall|k: int| 0 <= k < member_entries(app.agents, s).len() ==> {
                let e = #[trigger] member_entries(app.agents, s)[k];
                (s.read_inbox(e.1, e.2) is Ok && s.read_inbox(e.1, e.2)->Ok_0.len() > 0) ==> s1.read_cursor(e.1, e.2)
                    == Some(s.read_inbox(e.1, e.2)->Ok_0.last().id)
            }
        }),
{
    let es = member_entries(app.agents, s);
    lemma_deliver_pass(app, s, es, Seq::empty());
    let (a1, s1) = app.deliver_mailboxes(s);
    lemma_member_entries_same(app.agents, a1.agents, s, s1);
    lemma_quiet_pass(a1, s1, es);
    assert forall|k: int| 0 <= k < es.len() implies {
        let e = #[trigger] es[k];
        (s.read_inbox(e.1, e.2) is Ok && s.read_inbox(e.1, e.2)->Ok_0.len() > 0) ==> s1.read_cursor(e.1, e.2)
            == Some(s.read_inbox(e.1, e.2)->Ok_0.last().id)
    } by {
        let e = es[k];
        assert(quiet(s1, e));
        assert(s1.read_inbox(e.1, e.2) == s.read_inbox(e.1, e.2));
        if s.read_inbox(e.1, e.2) is Ok && s.read_inbox(e.1, e.2)->Ok_0.len() > 0 {
            let inbox = s.read_inbox(e.1, e.2)->Ok_0;
            match s1.read_cursor(e.1, e.2) {
                None => {},
                Some(c) => {
                    lemma_first_index(inbox, with_message_id(c));
                    assert(inbox[inbox.len() - 1] == inbox.last());
                },
            }
        }
    }
}


/// Agent ids are pairwise distinct.
pub open spec fn ids_distinct(agents: Seq<AgentState>) -> bool {
    forall|i: int, j: int| 0 <= i < j < agents.len() ==> #[trigger] agents[i].id != #[trigger] agents[j].id
}

/// Every name in `a` is in `b`.
pub open spec fn includes(a: Seq<Seq<char>>, b: Seq<Seq<char>>) -> bool {
    forall|n: Seq<char>| #[trigger] a.contains(n) ==> b.contains(n)
}

/// Every started name of `pending` is in `names`.
pub open spec fn covers(pending: Seq<(Seq<char>, Seq<char>)>, names: Seq<Seq<char>>) -> bool {
    forall|k: int| 0 <= k < pending.len() ==> names.contains(#[trigger] pending[k].0)
}

/// A session that can lead a team: bound, and not a subagent view.
pub open spec fn eligible(a: AgentState) -> bool {
    !a.is_subagent_view && a.session_id is Some
}

/// `b` extends `a`: the entries of `a` keep their id, session and flags and
/// only gain in-flight names; entries added after them have no session; the
/// focus is unchanged.
pub open spec fn grows(a: AppState, b: AppState) -> bool {
    &&& b.agents.len() >= a.agents.len()
    &&& b.active_view == a.active_view
    &&& forall|i: int| 0 <= i < a.agents.len() ==> {
        &&& #[trigger] b.agents[i].id == a.agents[i].id
        &&& b.agents[i].session_id == a.agents[i].session_id
        &&& b.agents[i].is_subagent_view == a.agents[i].is_subagent_view
        &&& includes(a.agents[i].team.in_flight, b.agents[i].team.in_flight)
    }
    &&& forall|i: int| a.agents.len() <= i < b.agents.len() ==> (#[trigger] b.agents[i]).session_id is None
}

proof fn lemma_grows_trans(a: AppState, b: AppState, c: AppState)
    requires
        grows(a, b),
        grows(b, c),
    ensures
        grows(a, c),
{
    assert forall|i: int| 0 <= i < a.agents.len() implies {
        &&& #[trigger] c.agents[i].id == a.agents[i].id
        &&& c.agents[i].session_id == a.agents[i].session_id
        &&& c.agents[i].is_subagent_view == a.agents[i].is_subagent_view
        &&& includes(a.agents[i].team.in_flight, c.agents[i].team.in_flight)
    } by {
        assert(b.agents[i].id == a.agents[i].id);
        assert(c.agents[i].id == b.agents[i].id);
    }
    assert forall|i: int| a.agents.len() <= i < c.agents.len() implies (#[trigger] c.agents[i]).session_id is None by {
        if i < b.agents.len() {
            assert(b.agents[i].session_id is None);
            assert(c.agents[i].id == b.agents[i].id);
        }
    }
}

/// The first entry with a given id stays where it was as the state grows.
proof fn lemma_first_id_kept(a: AppState, b: AppState, id: u64)
    requires
        grows(a, b),
        first_index(a.agents, has_agent_id(id)) < a.agents.len(),
    ensures
        first_index(b.agents, has_agent_id(id)) == first_index(a.agents, has_agent_id(id)),
{
    lemma_first_index(a.agents, has_agent_id(id));
    let q = first_index(a.agents, has_agent_id(id));
    assert forall|k: int| 0 <= k < q implies !has_agent_id(id)(#[trigger] b.agents[k]) by {
        assert(b.agents[k].id == a.agents[k].id);
        assert(!has_agent_id(id)(a.agents[k]));
    }
    assert(b.agents[q].id == a.agents[q].id);
    lemma_first_index_is(b.agents, has_agent_id(id), q);
}

/// With distinct ids, an entry is the first with its id.
proof fn lemma_first_id_is(agents: Seq<AgentState>, q: int)
    requires
        ids_distinct(agents),
        0 <= q < agents.len(),
    ensures
        first_index(agents, has_agent_id(agents[q].id)) == q,
{
    assert forall|k: int| 0 <= k < q implies !has_agent_id(agents[q].id)(#[trigger] agents[k]) by {
        assert(agents[k].id != agents[q].id);
    }
    lemma_first_index_is(agents, has_agent_id(agents[q].id), q);
}

/// Starting a session and marking a name in flight only grow the state, and
/// the lead then has the name in flight.
proof fn lemma_spawn_one(a: AppState, lead_id: u64, team_id: Seq<char>, name: Seq<char>, prompt: Seq<char>)
    requires
        first_index(a.agents, has_agent_id(lead_id)) < a.agents.len(),
    ensures
        ({
            let b = a.spawn_session(team_id, name, prompt).mark_in_flight(lead_id, name);
            let p = first_index(a.agents, has_agent_id(lead_id));
            &&& grows(a, b)
            &&& b.agents[p].team.in_flight.contains(name)
        }),
{
    let a1 = a.spawn_session(team_id, name, prompt);
    assert(grows(a, a1)) by {
        assert forall|i: int| 0 <= i < a.agents.len() implies includes(
            a.agents[i].team.in_flight,
            #[trigger] a1.agents[i].team.in_flight,
        ) by {
            if a.next_agent_id != u64::MAX {
                assert(a1.agents[i] == a.agents[i]);
            }
        }
    }
    lemma_first_id_kept(a, a1, lead_id);
    let p = first_index(a.agents, has_agent_id(lead_id));
    lemma_first_index(a.agents, has_agent_id(lead_id));
    let b = a1.mark_in_flight(lead_id, name);
    let ag = a1.agents[p];
    let inf = if ag.team.in_flight.contains(name) {
        ag.team.in_flight
    } else {
        ag.team.in_flight.push(name)
    };
    assert(inf.contains(name)) by {
        if !ag.team.in_flight.contains(name) {
            assert(inf[inf.len() - 1] == name);
        }
    }
    assert(includes(ag.team.in_flight, inf)) by {
        assert forall|n: Seq<char>| #[trigger] ag.team.in_flight.contains(n) implies inf.contains(n) by {
            let k = choose|k: int| 0 <= k < ag.team.in_flight.len() && ag.team.in_flight[k] == n;
            assert(inf[k] == n);
        }
    }
    assert(grows(a1, b)) by {
        assert forall|i: int| 0 <= i < a1.agents.len() implies includes(
            a1.agents[i].team.in_flight,
            #[trigger] b.agents[i].team.in_flight,
        ) by {
            if i != p {
                assert(b.agents[i] == a1.agents[i]);
            }
        }
    }
    lemma_grows_trans(a, a1, b);
}

/// Starting every pending teammate grows the state and leaves each of them
/// in flight on the lead.
proof fn lemma_spawn_all(a: AppState, lead_id: u64, team_id: Seq<char>, pending: Seq<(Seq<char>, Seq<char>)>)
    requires
        first_index(a.agents, has_agent_id(lead_id)) < a.agents.len(),
    ensures
        ({
            let b = a.spawn_all(lead_id, team_id, pending);
            let p = first_index(a.agents, has_agent_id(lead_id));
            &&& grows(a, b)
            &&& covers(pending, b.agents[p].team.in_flight)
        }),
    decreases pending.len(),
{
    let p = first_index(a.agents, has_agent_id(lead_id));
    if pending.len() == 0 {
        assert(grows(a, a)) by {
            assert forall|i: int| 0 <= i < a.agents.len() implies includes(
                a.agents[i].team.in_flight,
                #[trigger] a.agents[i].team.in_flight,
            ) by {}
        }
    } else {
        let a1 = a.spawn_session(team_id, pending[0].0, pending[0].1).mark_in_flight(lead_id, pending[0].0);
        lemma_spawn_one(a, lead_id, team_id, pending[0].0, pending[0].1);
        lemma_first_id_kept(a, a1, lead_id);
        lemma_spawn_all(a1, lead_id, team_id, pending.drop_first());
        let b = a1.spawn_all(lead_id, team_id, pending.drop_first());
        lemma_grows_trans(a, a1, b);
        lemma_first_index(a.agents, has_agent_id(lead_id));
        assert(b.agents[p].id == a1.agents[p].id);
        assert(includes(a1.agents[p].team.in_flight, b.agents[p].team.in_flight));
        assert forall|k: int| 0 <= k < pending.len() implies b.agents[p].team.in_flight.contains(#[trigger] pending[k].0) by {
            if k == 0 {
                assert(a1.agents[p].team.in_flight.contains(pending[0].0));
            } else {
                assert(pending.drop_first()[k - 1] == pending[k]);
            }
        }
    }
}

/// What one lead entry owes after a pass: when its session leads its team,
/// the lead has every teammate it found pending in flight.
pub open spec fn started(a0: AppState, a: AppState, s: StoreView, e: (u64, Seq<char>, Seq<Seq<char>>)) -> bool {
    match s.find_by_session(e.1) {
        Some(team) => leads_team(team, e.1) ==> {
            let q = first_index(a0.agents, has_agent_id(e.0));
            q < a0.agents.len() && covers(pending_view(team.members, e.2), a.agents[q].team.in_flight)
        },
        None => true,
    }
}

proof fn lemma_started_kept(a0: AppState, a: AppState, b: AppState, s: StoreView, e: (u64, Seq<char>, Seq<Seq<char>>))
    requires
        grows(a0, a),
        grows(a, b),
        started(a0, a, s, e),
    ensures
        started(a0, b, s, e),
{
    match s.find_by_session(e.1) {
        Some(team) => if leads_team(team, e.1) {
            let q = first_index(a0.agents, has_agent_id(e.0));
            let pv = pending_view(team.members, e.2);
            lemma_first_index(a0.agents, has_agent_id(e.0));
            assert(a.agents[q].id == a0.agents[q].id);
            assert(b.agents[q].id == a.agents[q].id);
            assert(includes(a.agents[q].team.in_flight, b.agents[q].team.in_flight));
            assert forall|k: int| 0 <= k < pv.len() implies b.agents[q].team.in_flight.contains(#[trigger] pv[k].0) by {
                assert(a.agents[q].team.in_flight.contains(pv[k].0));
            }
        },
        None => {},
    }
}

/// A pass over lead entries, each the entry of some agent of `a0`: every
/// entry is started afterwards, and the state only grows.
proof fn lemma_materialize_pass(
    a0: AppState,
    a: AppState,
    s: StoreView,
    leads: Seq<(u64, Seq<char>, Seq<Seq<char>>)>,
)
    requires
        grows(a0, a),
        forall|k: int| 0 <= k < leads.len() ==> first_index(a0.agents, has_agent_id(#[trigger] leads[k].0))
            < a0.agents.len(),
    ensures
        grows(a, a.materialize_from(s, leads)),
        forall|k: int| 0 <= k < leads.len() ==> started(a0, a.materialize_from(s, leads), s, #[trigger] leads[k]),
    decreases leads.len(),
{
    if leads.len() == 0 {
        assert(grows(a, a)) by {
            assert forall|i: int| 0 <= i < a.agents.len() implies includes(
                a.agents[i].team.in_flight,
                #[trigger] a.agents[i].team.in_flight,
            ) by {}
        }
    } else {
        let e = leads[0];
        let a1 = a.materialize_lead(s, e);
        assert(first_index(a0.agents, has_agent_id(e.0)) < a0.agents.len());
        lemma_first_id_kept(a0, a, e.0);
        match s.find_by_session(e.1) {
            Some(team) => if leads_team(team, e.1) {
                lemma_spawn_all(a, e.0, team.team_id, pending_view(team.members, e.2));
            } else {
                assert(grows(a, a1)) by {
                    assert forall|i: int| 0 <= i < a.agents.len() implies includes(
                        a.agents[i].team.in_flight,
                        #[trigger] a.agents[i].team.in_flight,
                    ) by {}
                }
            },
            None => {
                assert(grows(a, a1)) by {
                    assert forall|i: int| 0 <= i < a.agents.len() implies includes(
                        a.agents[i].team.in_flight,
                        #[trigger] a.agents[i].team.in_flight,
                    ) by {}
                }
            },
        }
        lemma_grows_trans(a0, a, a1);
        assert forall|k: int| 0 <= k < leads.drop_first().len() implies first_index(
            a0.agents,
            has_agent_id(#[trigger] leads.drop_first()[k].0),
        ) < a0.agents.len() by {
            assert(leads.drop_first()[k] == leads[k + 1]);
        }
        lemma_materialize_pass(a0, a1, s, leads.drop_first());
        let b = a1.materialize_from(s, leads.drop_first());
        lemma_grows_trans(a, a1, b);
        assert forall|k: int| 0 <= k < leads.len() implies started(a0, b, s, #[trigger] leads[k]) by {
            if k == 0 {
                lemma_started_kept(a0, a1, b, s, e);
            } else {
                assert(leads.drop_first()[k - 1] == leads[k]);
            }
        }
    }
}

/// `e` is the lead entry of an eligible agent.
pub open spec fn agent_entry(agents: Seq<AgentState>, e: (u64, Seq<char>, Seq<Seq<char>>)) -> bool {
    exists|q: int|
        0 <= q < agents.len() && eligible(#[trigger] agents[q]) && e == (
            agents[q].id,
            agents[q].session_id->0,
            agents[q].team.in_flight,
        )
}

/// Each lead entry is the entry of an eligible agent, and each eligible
/// agent has its entry.
proof fn lemma_lead_entries(agents: Seq<AgentState>)
    ensures
        forall|k: int| 0 <= k < lead_entries(agents).len() ==> agent_entry(agents, #[trigger] lead_entries(agents)[k]),
        forall|q: int| 0 <= q < agents.len() && eligible(#[trigger] agents[q]) ==> lead_entries(agents).contains(
            (agents[q].id, agents[q].session_id->0, agents[q].team.in_flight),
        ),
    decreases agents.len(),
{
    if agents.len() > 0 {
        let init = agents.drop_last();
        lemma_lead_entries(init);
        let r = lead_entries(init);
        let l = lead_entries(agents);
        let n = agents.len() - 1;
        assert(agents.last() == agents[n]);
        assert forall|k: int| 0 <= k < l.len() implies agent_entry(agents, #[trigger] l[k]) by {
            if k < r.len() {
                assert(agent_entry(init, r[k]));
                let q = choose|q: int|
                    0 <= q < init.len() && eligible(#[trigger] init[q]) && r[k] == (
                        init[q].id,
                        init[q].session_id->0,
                        init[q].team.in_flight,
                    );
                assert(init[q] == agents[q]);
                assert(l[k] == r[k]);
            } else {
                assert(eligible(agents[n]));
            }
        }
        assert forall|q: int| 0 <= q < agents.len() && eligible(#[trigger] agents[q]) implies l.contains(
            (agents[q].id, agents[q].session_id->0, agents[q].team.in_flight),
        ) by {
            if q < n {
                assert(init[q] == agents[q]);
                let k = choose|k: int| 0 <= k < r.len() && r[k] == (init[q].id, init[q].session_id->0, init[q].team.in_flight);
                assert(l[k] == r[k]);
            } else {
                assert(l[r.len() as int] == (agents[n].id, agents[n].session_id->0, agents[n].team.in_flight));
            }
        }
    }
}

/// Nobody awaits a start once every awaited name is in flight.
proof fn lemma_nothing_pending(
    members: Seq<crate::types::TeamMemberView>,
    inf0: Seq<Seq<char>>,
    inf1: Seq<Seq<char>>,
)
    requires
        includes(inf0, inf1),
        covers(pending_view(members, inf0), inf1),
    ensures
        pending_view(members, inf1).len() == 0,
{
    law_pending_are_awaiting(members, inf1);
    law_pending_are_awaiting(members, inf0);
    let p1 = pending_view(members, inf1);
    if p1.len() > 0 {
        assert(is_entry(members, inf1, p1[0]));
        let i = choose|i: int| 0 <= i < members.len() && entry_of(#[trigger] members[i], inf1, p1[0]);
        let m = members[i];
        assert(!inf1.contains(m.name));
        assert(!inf0.contains(m.name));
        assert(awaits_spawn(members[i], inf0));
        let p0 = pending_view(members, inf0);
        assert(p0.contains((m.name, m.spawn_prompt->0)));
        let k = choose|k: int| 0 <= k < p0.len() && p0[k] == (m.name, m.spawn_prompt->0);
        assert(inf1.contains(p0[k].0));
    }
}

/// A pass over lead entries that all have nothing pending changes nothing.
proof fn lemma_idle_pass(a: AppState, s: StoreView, leads: Seq<(u64, Seq<char>, Seq<Seq<char>>)>)
    requires
        forall|k: int| 0 <= k < leads.len() ==> match s.find_by_session((#[trigger] leads[k]).1) {
            Some(team) => leads_team(team, leads[k].1) ==> pending_view(team.members, leads[k].2).len() == 0,
            None => true,
        },
    ensures
        a.materialize_from(s, leads) == a,
    decreases leads.len(),
{
    if leads.len() > 0 {
        let e = leads[0];
        match s.find_by_session(e.1) {
            Some(team) => if leads_team(team, e.1) {
                assert(pending_view(team.members, e.2).len() == 0);
            },
            None => {},
        }
        assert(a.materialize_lead(s, e) == a);
        assert forall|k: int| 0 <= k < leads.drop_first().len() implies match s.find_by_session(
            (#[trigger] leads.drop_first()[k]).1,
        ) {
            Some(team) => leads_team(team, leads.drop_first()[k].1) ==> pending_view(team.members, leads.drop_first()[k].2).len() == 0,
            None => true,
        } by {
            assert(leads.drop_first()[k] == leads[k + 1]);
        }
        lemma_idle_pass(a, s, leads.drop_first());
    }
}

/// Teammates are started once: after a pass, every session that leads its
/// team has each teammate it found awaiting a start in flight, the focus is
/// unchanged, the existing sessions keep their ids and bindings, new entries
/// are unbound, and a second pass right after starts nobody.
pub proof fn law_start_is_once(app: AppState, s: StoreView)
    requires
        ids_distinct(app.agents),
    ensures
        ({
            let a1 = app.materialize_pending(s);
            &&& a1.materialize_pending(s) == a1
            &&& grows(app, a1)
            &&& forall|q: int| 0 <= q < app.agents.len() && eligible(#[trigger] app.agents[q]) ==> match s.find_by_session(
                app.agents[q].session_id->0,
            ) {
                Some(team) => leads_team(team, app.agents[q].session_id->0) ==> covers(
                    pending_view(team.members, app.agents[q].team.in_flight),
                    a1.agents[q].team.in_flight,
                ),
                None => true,
            }
        }),
{
    let l0 = lead_entries(app.agents);
    lemma_lead_entries(app.agents);
    assert forall|k: int| 0 <= k < l0.len() implies first_index(app.agents, has_agent_id(#[trigger] l0[k].0))
        < app.agents.len() by {
        let q = choose|q: int|
            0 <= q < app.agents.len() && eligible(#[trigger] app.agents[q]) && l0[k] == (
                app.agents[q].id,
                app.agents[q].session_id->0,
                app.agents[q].team.in_flight,
            );
        lemma_first_id_is(app.agents, q);
    }
    assert(grows(app, app)) by {
        assert forall|i: int| 0 <= i < app.agents.len() implies includes(
            app.agents[i].team.in_flight,
            #[trigger] app.agents[i].team.in_flight,
        ) by {}
    }
    lemma_materialize_pass(app, app, s, l0);
    let a1 = app.materialize_pending(s);
    assert forall|q: int| 0 <= q < app.agents.len() && eligible(#[trigger] app.agents[q]) implies match s.find_by_session(
        app.agents[q].session_id->0,
    ) {
        Some(team) => leads_team(team, app.agents[q].session_id->0) ==> covers(
            pending_view(team.members, app.agents[q].team.in_flight),
            a1.agents[q].team.in_flight,
        ),
        None => true,
    } by {
        let e = (app.agents[q].id, app.agents[q].session_id->0, app.agents[q].team.in_flight);
        assert(l0.contains(e));
        let k = choose|k: int| 0 <= k < l0.len() && l0[k] == e;
        assert(started(app, a1, s, l0[k]));
        lemma_first_id_is(app.agents, q);
    }
    let l1 = lead_entries(a1.agents);
    lemma_lead_entries(a1.agents);
    assert forall|k: int| 0 <= k < l1.len() implies match s.find_by_session((#[trigger] l1[k]).1) {
        Some(team) => leads_team(team, l1[k].1) ==> pending_view(team.members, l1[k].2).len() == 0,
        None => true,
    } by {
        let q = choose|q: int|
            0 <= q < a1.agents.len() && eligible(#[trigger] a1.agents[q]) && l1[k] == (
                a1.agents[q].id,
                a1.agents[q].session_id->0,
                a1.agents[q].team.in_flight,
            );
        if q >= app.agents.len() {
            assert(a1.agents[q].session_id is None);
        }
        assert(a1.agents[q].id == app.agents[q].id);
        assert(eligible(app.agents[q]));
        match s.find_by_session(l1[k].1) {
            Some(team) => if leads_team(team, l1[k].1) {
                lemma_nothing_pending(team.members, app.agents[q].team.in_flight, a1.agents[q].team.in_flight);
            },
            None => {},
        }
    }
    lemma_idle_pass(a1, s, l1);
}


/// Delivery only moves cursors: inboxes and configs stay as they were.
proof fn lemma_deliver_keeps_inboxes(a: AppState, s: StoreView, es: Seq<(u64, Seq<char>, Seq<char>)>)
    ensures
        a.deliver_from(s, es).1.inboxes == s.inboxes,
        a.deliver_from(s, es).1.configs == s.configs,
    decreases es.len(),
{
    if es.len() > 0 {
        let (a1, s1) = a.deliver_one(s, es[0]);
        lemma_deliver_keeps_inboxes(a1, s1, es.drop_first());
    }
}

/// A runtime pass leaves every inbox as it was: what a turn end wrote to the
/// lead is still there, last, after the next pass.
pub proof fn law_turn_end_then_sync(
    app: AppState,
    s: StoreView,
    agent_id: u64,
    failed: bool,
    now: i64,
    later: AppState,
    tick: u64,
)
    requires
        ({
            let i = first_index(app.agents, has_agent_id(agent_id));
            &&& i < app.agents.len()
            &&& !app.agents[i].is_subagent_view
            &&& app.agents[i].session_id is Some
            &&& s.find_by_session(app.agents[i].session_id->0) is Some
        }),
        ({
            let sid = app.agents[first_index(app.agents, has_agent_id(agent_id))].session_id->0;
            let team = s.find_by_session(sid)->0;
            &&& s.load(team.team_id) == Ok::<crate::types::TeamConfigView, crate::store::StoreErrorView>(team)
            &&& team.member_for_session(sid) is Some
            &&& team.member_for_session(sid)->0.role == crate::types::MemberRole::Teammate
            &&& team.lead() is Some
            &&& team.lead()->0.name != team.member_for_session(sid)->0.name
        }),
    ensures
        ({
            let sid = app.agents[first_index(app.agents, has_agent_id(agent_id))].session_id->0;
            let team = s.find_by_session(sid)->0;
            let m = team.member_for_session(sid)->0.name;
            let lead = team.lead()->0.name;
            let s2 = app.turn_ended(s, agent_id, failed, true, now);
            let s3 = later.sync(s2, true, tick).1;
            &&& s.read_inbox(team.team_id, lead) is Ok
            &&& s3.read_inbox(team.team_id, lead) == Ok::<Seq<MailboxMessageView>, crate::store::StoreErrorView>(
                s.read_inbox(team.team_id, lead)->Ok_0.push(
                    MailboxMessageView {
                        id: crate::pager::turn_end_id(m, failed, now),
                        from: m,
                        to: lead,
                        kind: crate::pager::turn_end_kind(failed),
                        subject: None,
                        body: crate::pager::turn_end_body(m, failed),
                        created_unix_ms: now,
                    },
                ),
            )
        }),
{
    crate::runtime_laws::law_turn_end_notifies_lead(app, s, agent_id, failed, now);
    let s2 = app.turn_ended(s, agent_id, failed, true, now);
    let a1 = later.materialize_pending(s2);
    lemma_deliver_keeps_inboxes(a1, s2, member_entries(a1.agents, s2));
}


/// The prompts a member entry is owed: one tagged turn per message after its
/// cursor, in inbox order.
pub open spec fn owed_prompts(s: StoreView, e: (u64, Seq<char>, Seq<char>)) -> Seq<Seq<char>> {
    match s.read_inbox(e.1, e.2) {
        Err(_) => Seq::empty(),
        Ok(inbox) => undelivered_view(inbox, s.read_cursor(e.1, e.2)).map_values(
            |m: MailboxMessageView| crate::runtime::delivery_prompt_view(m),
        ),
    }
}

/// No two entries name the same member of the same team.
pub open spec fn keys_distinct(es: Seq<(u64, Seq<char>, Seq<char>)>) -> bool {
    forall|j: int, k: int| 0 <= j < k < es.len() ==> (#[trigger] es[j].1, es[j].2) != (#[trigger] es[k].1, es[k].2)
}

/// No two entries are for the same agent.
pub open spec fn entry_agents_distinct(es: Seq<(u64, Seq<char>, Seq<char>)>) -> bool {
    forall|j: int, k: int| 0 <= j < k < es.len() ==> #[trigger] es[j].0 != #[trigger] es[k].0
}

/// No entry is for agent `id`.
pub open spec fn no_entry_for(es: Seq<(u64, Seq<char>, Seq<char>)>, id: u64) -> bool {
    forall|k: int| 0 <= k < es.len() ==> #[trigger] es[k].0 != id
}

/// Some agent has id `id`.
pub open spec fn has_id_in(agents: Seq<AgentState>, id: u64) -> bool {
    exists|q: int| 0 <= q < agents.len() && #[trigger] agents[q].id == id
}

/// States with the same agent ids, entry for entry, find the same first
/// agent for every id.
proof fn lemma_same_ids_first(a: Seq<AgentState>, b: Seq<AgentState>, id: u64)
    requires
        a.len() == b.len(),
        forall|i: int| 0 <= i < a.len() ==> #[trigger] a[i].id == b[i].id,
    ensures
        first_index(b, has_agent_id(id)) == first_index(a, has_agent_id(id)),
{
    lemma_first_index(a, has_agent_id(id));
    let q = first_index(a, has_agent_id(id));
    assert forall|k: int| 0 <= k < q implies !has_agent_id(id)(#[trigger] b[k]) by {
        assert(a[k].id == b[k].id);
    }
    if q < a.len() {
        assert(a[q].id == b[q].id);
    }
    lemma_first_index_is(b, has_agent_id(id), q);
}

/// Member entries are for agents of the list, one each when ids are
/// distinct.
proof fn lemma_member_entry_ids(agents: Seq<AgentState>, s: StoreView)
    ensures
        forall|k: int| 0 <= k < member_entries(agents, s).len() ==> has_id_in(agents, #[trigger] member_entries(agents, s)[k].0),
        ids_distinct(agents) ==> entry_agents_distinct(member_entries(agents, s)),
    decreases agents.len(),
{
    if agents.len() > 0 {
        let init = agents.drop_last();
        lemma_member_entry_ids(init, s);
        let r = member_entries(init, s);
        let es = member_entries(agents, s);
        let n = agents.len() - 1;
        assert(agents.last() == agents[n]);
        assert forall|k: int| 0 <= k < es.len() implies has_id_in(agents, #[trigger] es[k].0) by {
            if k < r.len() {
                assert(es[k] == r[k]);
                assert(has_id_in(init, r[k].0));
                let q = choose|q: int| 0 <= q < init.len() && #[trigger] init[q].id == r[k].0;
                assert(agents[q] == init[q]);
            } else {
                assert(agents[n].id == es[k].0);
            }
        }
        if ids_distinct(agents) {
            assert(ids_distinct(init)) by {
                assert forall|i: int, j: int| 0 <= i < j < init.len() implies #[trigger] init[i].id != #[trigger] init[j].id by {
                    assert(init[i] == agents[i] && init[j] == agents[j]);
                }
            }
            assert forall|j: int, k: int| 0 <= j < k < es.len() implies #[trigger] es[j].0 != #[trigger] es[k].0 by {
                assert(es[j] == r[j]);
                if k < r.len() {
                    assert(es[k] == r[k]);
                } else {
                    assert(has_id_in(init, r[j].0));
                    let q = choose|q: int| 0 <= q < init.len() && #[trigger] init[q].id == r[j].0;
                    assert(agents[q] == init[q]);
                    assert(agents[q].id != agents[n].id);
                }
            }
        }
    }
}

/// A delivery pass over entries for distinct agents and distinct members:
/// each entry's agent gains exactly its owed prompts, and every other agent
/// keeps its queue.
proof fn lemma_deliver_queues(a: AppState, s: StoreView, es: Seq<(u64, Seq<char>, Seq<char>)>)
    requires
        keys_distinct(es),
        entry_agents_distinct(es),
        forall|k: int| 0 <= k < es.len() ==> first_index(a.agents, has_agent_id(#[trigger] es[k].0)) < a.agents.len(),
    ensures
        ({
            let a2 = a.deliver_from(s, es).0;
            &&& same_sessions(a, a2)
            &&& forall|k: int| 0 <= k < es.len() ==> {
                let q = first_index(a.agents, has_agent_id(#[trigger] es[k].0));
                a2.agents[q].queued_prompts == a.agents[q].queued_prompts + owed_prompts(s, es[k])
            }
            &&& forall|i: int|
                0 <= i < a.agents.len() && no_entry_for(es, #[trigger] a.agents[i].id) ==> a2.agents[i].queued_prompts
                    == a.agents[i].queued_prompts
        }),
    decreases es.len(),
{
    if es.len() == 0 {
    } else {
        let e0 = es[0];
        let (a1, s1) = a.deliver_one(s, e0);
        let q0 = first_index(a.agents, has_agent_id(e0.0));
        lemma_first_index(a.agents, has_agent_id(e0.0));
        // One step: agent q0 gains its owed prompts; nothing else changes
        // but the cursor of e0's member.
        assert(same_sessions(a, a1) && a1.agents[q0].queued_prompts == a.agents[q0].queued_prompts + owed_prompts(s, e0)
            && (forall|i: int| 0 <= i < a.agents.len() && i != q0 ==> #[trigger] a1.agents[i] == a.agents[i])) by {
            match s.read_inbox(e0.1, e0.2) {
                Err(_) => {
                    assert(a.agents[q0].queued_prompts + Seq::<Seq<char>>::empty() =~= a.agents[q0].queued_prompts);
                },
                Ok(inbox) => {
                    let fresh = undelivered_view(inbox, s.read_cursor(e0.1, e0.2));
                    if fresh.len() == 0 {
                        assert(owed_prompts(s, e0) =~= Seq::<Seq<char>>::empty());
                        assert(a.agents[q0].queued_prompts + Seq::<Seq<char>>::empty() =~= a.agents[q0].queued_prompts);
                    } else {
                        let prompts = fresh.map_values(|m: MailboxMessageView| crate::runtime::delivery_prompt_view(m));
                        let ag = a.agents[q0];
                        let upd = AgentState { queued_prompts: ag.queued_prompts + prompts, ..ag };
                        assert(a1.agents == a.agents.update(q0, upd));
                    }
                },
            }
        }
        assert forall|k: int| 0 <= k < es.drop_first().len() implies first_index(
            a1.agents,
            has_agent_id(#[trigger] es.drop_first()[k].0),
        ) < a1.agents.len() by {
            assert(es.drop_first()[k] == es[k + 1]);
            lemma_same_ids_first(a.agents, a1.agents, es[k + 1].0);
        }
        assert(keys_distinct(es.drop_first())) by {
            assert forall|j: int, k: int| 0 <= j < k < es.drop_first().len() implies (
                #[trigger] es.drop_first()[j].1,
                es.drop_first()[j].2,
            ) != (#[trigger] es.drop_first()[k].1, es.drop_first()[k].2) by {
                assert(es.drop_first()[j] == es[j + 1] && es.drop_first()[k] == es[k + 1]);
            }
        }
        assert(entry_agents_distinct(es.drop_first())) by {
            assert forall|j: int, k: int| 0 <= j < k < es.drop_first().len() implies #[trigger] es.drop_first()[j].0
                != #[trigger] es.drop_first()[k].0 by {
                assert(es.drop_first()[j] == es[j + 1] && es.drop_first()[k] == es[k + 1]);
            }
        }
        lemma_deliver_queues(a1, s1, es.drop_first());
        let a2 = a1.deliver_from(s1, es.drop_first()).0;
        assert(a.deliver_from(s, es).0 == a2);
        assert forall|k: int| 0 <= k < es.len() implies {
            let q = first_index(a.agents, has_agent_id(#[trigger] es[k].0));
            a2.agents[q].queued_prompts == a.agents[q].queued_prompts + owed_prompts(s, es[k])
        } by {
            lemma_same_ids_first(a.agents, a1.agents, es[k].0);
            let q = first_index(a.agents, has_agent_id(es[k].0));
            lemma_first_index(a.agents, has_agent_id(es[k].0));
            if k == 0 {
                assert forall|j: int| 0 <= j < es.drop_first().len() implies #[trigger] es.drop_first()[j].0 != a1.agents[q0].id by {
                    assert(es.drop_first()[j] == es[j + 1]);
                    assert(es[0].0 != es[j + 1].0);
                }
                assert(no_entry_for(es.drop_first(), a1.agents[q0].id));
            } else {
                assert(es.drop_first()[k - 1] == es[k]);
                assert(es[0].0 != es[k].0);
                assert(q != q0);
                assert(a1.agents[q] == a.agents[q]);
                // The cursor written for e0 is not this member's.
                assert((es[0].1, es[0].2) != (es[k].1, es[k].2));
                assert(s1.read_inbox(es[k].1, es[k].2) == s.read_inbox(es[k].1, es[k].2));
                assert(s1.read_cursor(es[k].1, es[k].2) == s.read_cursor(es[k].1, es[k].2));
                assert(owed_prompts(s1, es[k]) == owed_prompts(s, es[k]));
            }
        }
        assert forall|i: int|
            0 <= i < a.agents.len() && no_entry_for(es, #[trigger] a.agents[i].id) implies a2.agents[i].queued_prompts
                == a.agents[i].queued_prompts by {
            assert(es[0].0 != a.agents[i].id);
            assert(a.agents[q0].id == e0.0);
            assert(i != q0);
            assert(a1.agents[i] == a.agents[i]);
            assert forall|j: int| 0 <= j < es.drop_first().len() implies #[trigger] es.drop_first()[j].0 != a1.agents[i].id by {
                assert(es.drop_first()[j] == es[j + 1]);
            }
        }
        assert forall|i: int| 0 <= i < a.agents.len() implies #[trigger] a.agents[i].id == a2.agents[i].id
            && a.agents[i].session_id == a2.agents[i].session_id by {
            assert(a1.agents[i].id == a.agents[i].id);
        }
    }
}

/// Each member session's queue gains exactly the tagged turns for the
/// messages after its cursor, in order, whether the session is idle or busy;
/// sessions that are no team member keep their queues.
pub proof fn law_delivery_queues(app: AppState, s: StoreView)
    requires
        ids_distinct(app.agents),
        keys_distinct(member_entries(app.agents, s)),
    ensures
        ({
            let a1 = app.deliver_mailboxes(s).0;
            let es = member_entries(app.agents, s);
            &&& forall|k: int| 0 <= k < es.len() ==> {
                let q = first_index(app.agents, has_agent_id(#[trigger] es[k].0));
                &&& q < app.agents.len()
                &&& a1.agents[q].queued_prompts == app.agents[q].queued_prompts + owed_prompts(s, es[k])
            }
            &&& forall|i: int|
                0 <= i < app.agents.len() && no_entry_for(es, #[trigger] app.agents[i].id) ==> a1.agents[i].queued_prompts
                    == app.agents[i].queued_prompts
        }),
{
    let es = member_entries(app.agents, s);
    lemma_member_entry_ids(app.agents, s);
    assert forall|k: int| 0 <= k < es.len() implies first_index(app.agents, has_agent_id(#[trigger] es[k].0))
        < app.agents.len() by {
        assert(has_id_in(app.agents, es[k].0));
        let q = choose|q: int| 0 <= q < app.agents.len() && #[trigger] app.agents[q].id == es[k].0;
        lemma_first_index(app.agents, has_agent_id(es[k].0));
        assert(has_agent_id(es[k].0)(app.agents[q]));
    }
    lemma_deliver_queues(app, s, es);
}


/// `(team, name, prompt)` of each teammate one lead entry starts: the
/// members awaiting a start, when the session leads its team.
pub open spec fn lead_starts(s: StoreView, e: (u64, Seq<char>, Seq<Seq<char>>)) -> Seq<(Seq<char>, Seq<char>, Seq<char>)> {
    match s.find_by_session(e.1) {
        Some(team) => if leads_team(team, e.1) {
            pending_view(team.members, e.2).map_values(
                |p: (Seq<char>, Seq<char>)| (team.team_id, p.0, p.1),
            )
        } else {
            Seq::empty()
        },
        None => Seq::empty(),
    }
}

/// The teammates a pass over `leads` starts, lead by lead.
pub open spec fn starts(s: StoreView, leads: Seq<(u64, Seq<char>, Seq<Seq<char>>)>) -> Seq<(Seq<char>, Seq<char>, Seq<char>)>
    decreases leads.len(),
{
    if leads.len() == 0 {
        Seq::empty()
    } else {
        lead_starts(s, leads[0]) + starts(s, leads.drop_first())
    }
}

/// The start effects for `n` sessions with ids from `first` on.
pub open spec fn start_effects(first: u64, n: nat) -> Seq<SessionEffect> {
    Seq::new(n, |k: int| SessionEffect::Start { agent: (first + k) as u64 })
}

proof fn lemma_spawn_all_new(
    a: AppState,
    lead_id: u64,
    t: Seq<char>,
    pending: Seq<(Seq<char>, Seq<char>)>,
    n0: int,
)
    requires
        0 <= n0 <= a.agents.len(),
        first_index(a.agents, has_agent_id(lead_id)) < n0,
        a.next_agent_id + pending.len() <= u64::MAX,
    ensures
        ({
            let b = a.spawn_all(lead_id, t, pending);
            &&& b.agents.len() == a.agents.len() + pending.len()
            &&& b.next_agent_id == a.next_agent_id + pending.len()
            &&& b.active_view == a.active_view
            &&& b.pending_effects == a.pending_effects + start_effects(a.next_agent_id, pending.len())
            &&& forall|i: int| n0 <= i < a.agents.len() ==> #[trigger] b.agents[i] == a.agents[i]
            &&& forall|k: int| 0 <= k < pending.len() ==> #[trigger] b.agents[a.agents.len() + k] == fresh_agent(
                (a.next_agent_id + k) as u64,
                t,
                pending[k].0,
                pending[k].1,
            )
            &&& first_index(b.agents, has_agent_id(lead_id)) == first_index(a.agents, has_agent_id(lead_id))
        }),
    decreases pending.len(),
{
    if pending.len() == 0 {
        assert(a.pending_effects + start_effects(a.next_agent_id, 0) =~= a.pending_effects);
    } else {
        let n = a.agents.len() as int;
        let a1 = a.spawn_session(t, pending[0].0, pending[0].1);
        let fa = fresh_agent(a.next_agent_id, t, pending[0].0, pending[0].1);
        assert(a1.agents == a.agents.push(fa));
        lemma_first_index_push(a.agents, has_agent_id(lead_id), fa);
        let p = first_index(a.agents, has_agent_id(lead_id));
        lemma_first_index(a.agents, has_agent_id(lead_id));
        let a2 = a1.mark_in_flight(lead_id, pending[0].0);
        let ag = a1.agents[p];
        let inf = if ag.team.in_flight.contains(pending[0].0) {
            ag.team.in_flight
        } else {
            ag.team.in_flight.push(pending[0].0)
        };
        let upd = AgentState { team: crate::panel::PanelView { in_flight: inf, ..ag.team }, ..ag };
        assert(a2.agents == a1.agents.update(p, upd));
        lemma_first_index_update(a1.agents, has_agent_id(lead_id), p, upd);
        lemma_spawn_all_new(a2, lead_id, t, pending.drop_first(), n0);
        let b = a2.spawn_all(lead_id, t, pending.drop_first());
        assert forall|i: int| n0 <= i < n implies #[trigger] b.agents[i] == a.agents[i] by {
            assert(b.agents[i] == a2.agents[i]);
            assert(a2.agents[i] == a1.agents[i]);
        }
        assert forall|k: int| 0 <= k < pending.len() implies #[trigger] b.agents[n + k] == fresh_agent(
            (a.next_agent_id + k) as u64,
            t,
            pending[k].0,
            pending[k].1,
        ) by {
            if k == 0 {
                assert(b.agents[n] == a2.agents[n]);
                assert(a2.agents[n] == a1.agents[n]);
            } else {
                assert(pending.drop_first()[k - 1] == pending[k]);
                assert(b.agents[a2.agents.len() + (k - 1)] == b.agents[n + k]);
            }
        }
        assert(b.pending_effects =~= a.pending_effects + start_effects(a.next_agent_id, pending.len()));
    }
}

proof fn lemma_materialize_new(a: AppState, s: StoreView, leads: Seq<(u64, Seq<char>, Seq<Seq<char>>)>, n0: int)
    requires
        0 <= n0 <= a.agents.len(),
        forall|k: int| 0 <= k < leads.len() ==> first_index(a.agents, has_agent_id(#[trigger] leads[k].0)) < n0,
        a.next_agent_id + starts(s, leads).len() <= u64::MAX,
    ensures
        ({
            let b = a.materialize_from(s, leads);
            let l = starts(s, leads);
            &&& b.agents.len() == a.agents.len() + l.len()
            &&& b.next_agent_id == a.next_agent_id + l.len()
            &&& b.active_view == a.active_view
            &&& b.pending_effects == a.pending_effects + start_effects(a.next_agent_id, l.len())
            &&& forall|i: int| n0 <= i < a.agents.len() ==> #[trigger] b.agents[i] == a.agents[i]
            &&& forall|k: int| 0 <= k < l.len() ==> #[trigger] b.agents[a.agents.len() + k] == fresh_agent(
                (a.next_agent_id + k) as u64,
                l[k].0,
                l[k].1,
                l[k].2,
            )
        }),
    decreases leads.len(),
{
    if leads.len() == 0 {
        assert(a.pending_effects + start_effects(a.next_agent_id, 0) =~= a.pending_effects);
    } else {
        let e = leads[0];
        let a1 = a.materialize_lead(s, e);
        let p1 = lead_starts(s, e);
        let rest = starts(s, leads.drop_first());
        assert(starts(s, leads) == p1 + rest);
        let n = a.agents.len() as int;
        assert(first_index(a.agents, has_agent_id(e.0)) < n0);
        // The lead's step: its starts are appended after the existing agents.
        assert(a1.agents.len() == n + p1.len() && a1.next_agent_id == a.next_agent_id + p1.len()
            && a1.active_view == a.active_view && a1.pending_effects == a.pending_effects + start_effects(
            a.next_agent_id,
            p1.len(),
        ) && (forall|i: int| n0 <= i < n ==> #[trigger] a1.agents[i] == a.agents[i]) && (forall|k: int|
            0 <= k < p1.len() ==> #[trigger] a1.agents[n + k] == fresh_agent(
                (a.next_agent_id + k) as u64,
                p1[k].0,
                p1[k].1,
                p1[k].2,
            )) && grows(a, a1)) by {
            match s.find_by_session(e.1) {
                Some(team) => if leads_team(team, e.1) {
                    let pv = pending_view(team.members, e.2);
                    lemma_spawn_all_new(a, e.0, team.team_id, pv, n0);
                    lemma_spawn_all(a, e.0, team.team_id, pv);
                } else {
                    assert(a.pending_effects + start_effects(a.next_agent_id, 0) =~= a.pending_effects);
                    assert(grows(a, a)) by {
                        assert forall|i: int| 0 <= i < a.agents.len() implies includes(
                            a.agents[i].team.in_flight,
                            #[trigger] a.agents[i].team.in_flight,
                        ) by {}
                    }
                },
                None => {
                    assert(a.pending_effects + start_effects(a.next_agent_id, 0) =~= a.pending_effects);
                    assert(grows(a, a)) by {
                        assert forall|i: int| 0 <= i < a.agents.len() implies includes(
                            a.agents[i].team.in_flight,
                            #[trigger] a.agents[i].team.in_flight,
                        ) by {}
                    }
                },
            }
        }
        assert forall|k: int| 0 <= k < leads.drop_first().len() implies first_index(
            a1.agents,
            has_agent_id(#[trigger] leads.drop_first()[k].0),
        ) < n0 by {
            assert(leads.drop_first()[k] == leads[k + 1]);
            lemma_first_id_kept(a, a1, leads[k + 1].0);
        }
        lemma_materialize_new(a1, s, leads.drop_first(), n0);
        let b = a1.materialize_from(s, leads.drop_first());
        let l = starts(s, leads);
        assert forall|i: int| n0 <= i < n implies #[trigger] b.agents[i] == a.agents[i] by {
            assert(b.agents[i] == a1.agents[i]);
        }
        assert forall|k: int| 0 <= k < l.len() implies #[trigger] b.agents[n + k] == fresh_agent(
            (a.next_agent_id + k) as u64,
            l[k].0,
            l[k].1,
            l[k].2,
        ) by {
            if k < p1.len() {
                assert(b.agents[n + k] == a1.agents[n + k]);
                assert(l[k] == p1[k]);
            } else {
                assert(l[k] == rest[k - p1.len()]);
                assert(b.agents[a1.agents.len() + (k - p1.len())] == b.agents[n + k]);
            }
        }
        assert(b.pending_effects =~= a.pending_effects + start_effects(a.next_agent_id, l.len()));
    }
}

/// One new session per teammate awaiting a start: after a pass, the
/// sessions started are appended after the existing ones, one for each
/// `(team, name, prompt)` the leads had pending, in lead order, each unbound,
/// bound to its team and name, and queued with its spawn prompt; one start
/// effect is recorded for each, the next id moves past them, the focus is
/// unchanged, and every agent that existed keeps its entry apart from its
/// in-flight names.
pub proof fn law_start_adds_one_per_pending(app: AppState, s: StoreView)
    requires
        app.next_agent_id + starts(s, lead_entries(app.agents)).len() <= u64::MAX,
    ensures
        ({
            let a1 = app.materialize_pending(s);
            let l = starts(s, lead_entries(app.agents));
            let n = app.agents.len();
            &&& a1.agents.len() == n + l.len()
            &&& a1.next_agent_id == app.next_agent_id + l.len()
            &&& a1.active_view == app.active_view
            &&& a1.pending_effects == app.pending_effects + start_effects(app.next_agent_id, l.len())
            &&& forall|k: int| 0 <= k < l.len() ==> #[trigger] a1.agents[n + k] == fresh_agent(
                (app.next_agent_id + k) as u64,
                l[k].0,
                l[k].1,
                l[k].2,
            )
            &&& grows(app, a1)
        }),
{
    let l0 = lead_entries(app.agents);
    lemma_lead_entries(app.agents);
    assert forall|k: int| 0 <= k < l0.len() implies first_index(app.agents, has_agent_id(#[trigger] l0[k].0))
        < app.agents.len() by {
        assert(agent_entry(app.agents, l0[k]));
        let q = choose|q: int|
            0 <= q < app.agents.len() && eligible(#[trigger] app.agents[q]) && l0[k] == (
                app.agents[q].id,
                app.agents[q].session_id->0,
                app.agents[q].team.in_flight,
            );
        lemma_first_index(app.agents, has_agent_id(l0[k].0));
        assert(has_agent_id(l0[k].0)(app.agents[q]));
    }
    lemma_materialize_new(app, s, l0, app.agents.len() as int);
    assert(grows(app, app)) by {
        assert forall|i: int| 0 <= i < app.agents.len() implies includes(
            app.agents[i].team.in_flight,
            #[trigger] app.agents[i].team.in_flight,
        ) by {}
    }
    lemma_materialize_pass(app, app, s, l0);
}

} // verus!
