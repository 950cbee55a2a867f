//! The in-flight names of each session: the teammates a lead has started and
//! that have not bound their sessions yet. No name is in flight twice; every
//! runtime step keeps that so.
use vstd::prelude::*;
use crate::pager::{has_agent_id, without, AgentState, AppState};
use crate::panel::PanelView;
use crate::runtime::pending_view;
use crate::seqs::{first_index, lemma_first_index};
use crate::store::StoreView;

verus! {

/// No name occurs twice.
pub open spec fn no_dups(names: Seq<Seq<char>>) -> bool {
    forall|i: int, j: int| 0 <= i < j < names.len() ==> #[trigger] names[i] != #[trigger] names[j]
}

/// Every session has each in-flight name once.
pub open spec fn in_flight_ok(app: AppState) -> bool {
    forall|i: int| 0 <= i < app.agents.len() ==> no_dups(#[trigger] app.agents[i].team.in_flight)
}

/// Two states whose sessions have the same in-flight names.
pub open spec fn same_in_flight(a: AppState, b: AppState) -> bool {
    &&& a.agents.len() == b.agents.len()
    &&& forall|i: int| 0 <= i < a.agents.len() ==> #[trigger] a.agents[i].team.in_flight == b.agents[i].team.in_flight
}

pub proof fn lemma_same_in_flight(a: AppState, b: AppState)
    requires
        same_in_flight(a, b),
        in_flight_ok(a),
    ensures
        in_flight_ok(b),
{
    assert forall|i: int| 0 <= i < b.agents.len() implies no_dups(#[trigger] b.agents[i].team.in_flight) by {
        assert(a.agents[i].team.in_flight == b.agents[i].team.in_flight);
    }
}

pub proof fn lemma_mark_keeps(a: AppState, lead_id: u64, name: Seq<char>)
    requires
        in_flight_ok(a),
    ensures
        in_flight_ok(a.mark_in_flight(lead_id, name)),
{
    let b = a.mark_in_flight(lead_id, name);
    let i = first_index(a.agents, has_agent_id(lead_id));
    lemma_first_index(a.agents, has_agent_id(lead_id));
    if i < a.agents.len() {
        let inf = a.agents[i].team.in_flight;
        assert(no_dups(inf));
        assert forall|k: int| 0 <= k < b.agents.len() implies no_dups(#[trigger] b.agents[k].team.in_flight) by {
            if k == i && !inf.contains(name) {
                let p = inf.push(name);
                assert forall|x: int, y: int| 0 <= x < y < p.len() implies #[trigger] p[x] != #[trigger] p[y] by {
                    if y == inf.len() {
                        assert(p[x] == inf[x]);
                    } else {
                        assert(p[x] == inf[x] && p[y] == inf[y]);
                    }
                }
            } else if k != i {
                assert(b.agents[k] == a.agents[k]);
            }
        }
    }
}

pub proof fn lemma_spawn_session_keeps(a: AppState, t: Seq<char>, name: Seq<char>, prompt: Seq<char>)
    requires
        in_flight_ok(a),
    ensures
        in_flight_ok(a.spawn_session(t, name, prompt)),
{
    let b = a.spawn_session(t, name, prompt);
    assert forall|k: int| 0 <= k < b.agents.len() implies no_dups(#[trigger] b.agents[k].team.in_flight) by {
        if k < a.agents.len() {
            assert(b.agents[k] == a.agents[k]);
        }
    }
}

pub proof fn lemma_spawn_all_keeps(a: AppState, lead_id: u64, t: Seq<char>, pending: Seq<(Seq<char>, Seq<char>)>)
    requires
        in_flight_ok(a),
    ensures
        in_flight_ok(a.spawn_all(lead_id, t, pending)),
    decreases pending.len(),
{
    if pending.len() > 0 {
        let a1 = a.spawn_session(t, pending[0].0, pending[0].1);
        lemma_spawn_session_keeps(a, t, pending[0].0, pending[0].1);
        lemma_mark_keeps(a1, lead_id, pending[0].0);
        lemma_spawn_all_keeps(a1.mark_in_flight(lead_id, pending[0].0), lead_id, t, pending.drop_first());
    }
}

pub proof fn lemma_materialize_keeps(a: AppState, s: StoreView, leads: Seq<(u64, Seq<char>, Seq<Seq<char>>)>)
    requires
        in_flight_ok(a),
    ensures
        in_flight_ok(a.materialize_from(s, leads)),
    decreases leads.len(),
{
    if leads.len() > 0 {
        let e = leads[0];
        match s.find_by_session(e.1) {
            Some(team) => {
                lemma_spawn_all_keeps(a, e.0, team.team_id, pending_view(team.members, e.2));
            },
            None => {},
        }
        lemma_materialize_keeps(a.materialize_lead(s, e), s, leads.drop_first());
    }
}

pub proof fn lemma_enqueue_same(a: AppState, id: u64, prompts: Seq<Seq<char>>)
    ensures
        same_in_flight(a, a.enqueue(id, prompts)),
{
    let b = a.enqueue(id, prompts);
    let i = first_index(a.agents, has_agent_id(id));
    lemma_first_index(a.agents, has_agent_id(id));
    assert forall|k: int| 0 <= k < a.agents.len() implies #[trigger] a.agents[k].team.in_flight
        == b.agents[k].team.in_flight by {
        if i < a.agents.len() && k == i {
        } else {
            assert(b.agents[k] == a.agents[k]);
        }
    }
}

pub proof fn lemma_deliver_same(a: AppState, s: StoreView, es: Seq<(u64, Seq<char>, Seq<char>)>)
    ensures
        same_in_flight(a, a.deliver_from(s, es).0),
    decreases es.len(),
{
    if es.len() > 0 {
        let (a1, s1) = a.deliver_one(s, es[0]);
        match s.read_inbox(es[0].1, es[0].2) {
            Ok(inbox) => {
                let fresh = crate::runtime::undelivered_view(inbox, s.read_cursor(es[0].1, es[0].2));
                if fresh.len() > 0 {
                    lemma_enqueue_same(
                        a,
                        es[0].0,
                        fresh.map_values(|m: crate::types::MailboxMessageView| crate::runtime::delivery_prompt_view(m)),
                    );
                } else {
                    assert(a1 == a);
                }
            },
            Err(_) => {},
        }
        lemma_deliver_same(a1, s1, es.drop_first());
        let a2 = a1.deliver_from(s1, es.drop_first()).0;
        assert forall|k: int| 0 <= k < a.agents.len() implies #[trigger] a.agents[k].team.in_flight
            == a2.agents[k].team.in_flight by {
            assert(a1.agents[k].team.in_flight == a.agents[k].team.in_flight);
        }
    }
}

/// A name left out of a list of distinct names leaves it distinct, and keeps
/// only names that were there.
proof fn lemma_without(names: Seq<Seq<char>>, name: Seq<char>)
    ensures
        forall|x: Seq<char>| #[trigger] without(names, name).contains(x) ==> names.contains(x) && x != name,
        no_dups(names) ==> no_dups(without(names, name)),
    decreases names.len(),
{
    if names.len() > 0 {
        let init = names.drop_last();
        lemma_without(init, name);
        let r = without(init, name);
        let w = without(names, name);
        assert forall|x: Seq<char>| #[trigger] w.contains(x) implies names.contains(x) && x != name by {
            let k = choose|k: int| 0 <= k < w.len() && w[k] == x;
            if k < r.len() {
                assert(r[k] == x);
                assert(r.contains(x));
                let j = choose|j: int| 0 <= j < init.len() && init[j] == x;
                assert(names[j] == x);
            } else {
                assert(names[names.len() - 1] == x);
            }
        }
        if no_dups(names) {
            assert(no_dups(init)) by {
                assert forall|x: int, y: int| 0 <= x < y < init.len() implies #[trigger] init[x] != #[trigger] init[y] by {
                    assert(init[x] == names[x] && init[y] == names[y]);
                }
            }
            if names.last() != name {
                assert(!r.contains(names.last())) by {
                    if r.contains(names.last()) {
                        let j = choose|j: int| 0 <= j < init.len() && init[j] == names.last();
                        assert(names[j] == names[names.len() - 1]);
                    }
                }
                assert forall|x: int, y: int| 0 <= x < y < w.len() implies #[trigger] w[x] != #[trigger] w[y] by {
                    if y == r.len() {
                        assert(w[x] == r[x]);
                        assert(r.contains(r[x]));
                    } else {
                        assert(w[x] == r[x] && w[y] == r[y]);
                    }
                }
            }
        }
    }
}

pub proof fn lemma_bound_keeps(a: AppState, s: StoreView, agent_id: u64, enabled: bool)
    requires
        in_flight_ok(a),
    ensures
        in_flight_ok(a.on_session_bound(s, agent_id, enabled).0),
{
    let b = a.on_session_bound(s, agent_id, enabled).0;
    let i = first_index(a.agents, has_agent_id(agent_id));
    lemma_first_index(a.agents, has_agent_id(agent_id));
    if enabled && i < a.agents.len() {
        match (a.agents[i].team_bind, a.agents[i].session_id) {
            (Some(bind), Some(sid)) => {
                let j = first_index(a.agents, crate::pager::starting(bind.0, bind.1));
                lemma_first_index(a.agents, crate::pager::starting(bind.0, bind.1));
                assert forall|k: int| 0 <= k < b.agents.len() implies no_dups(#[trigger] b.agents[k].team.in_flight) by {
                    assert(no_dups(a.agents[k].team.in_flight));
                    if k == j {
                        lemma_without(a.agents[k].team.in_flight, bind.1);
                    } else {
                        assert(b.agents[k] == a.agents[k]);
                    }
                }
            },
            _ => {},
        }
    }
}

pub proof fn lemma_refresh_same(a: AppState, s: StoreView, enabled: bool, now: u64)
    ensures
        same_in_flight(a, a.refresh_all_panels(s, enabled, now)),
{
}


pub proof fn lemma_sync_keeps(a: AppState, s: StoreView, enabled: bool, now: u64)
    requires
        in_flight_ok(a),
    ensures
        in_flight_ok(a.sync(s, enabled, now).0),
{
    if enabled {
        let a1 = a.materialize_pending(s);
        lemma_materialize_keeps(a, s, crate::pager::lead_entries(a.agents));
        let (a2, s2) = a1.deliver_mailboxes(s);
        lemma_deliver_same(a1, s, crate::pager::member_entries(a1.agents, s));
        lemma_same_in_flight(a1, a2);
        lemma_refresh_same(a2, s2, true, now);
        lemma_same_in_flight(a2, a2.refresh_all_panels(s2, true, now));
    }
}

} // verus!
