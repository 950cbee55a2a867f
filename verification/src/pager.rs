//! The pager's view of its sessions, as far as the team runtime reads and
//! changes it, and the runtime steps over it: starting pending teammates,
//! binding their sessions, delivering mail, and refreshing each panel.
//!
//! Starting a session is the pager's own work: the runtime adds the new
//! session's entry (no session id yet) and records a `SessionEffect` that
//! the pager carries out.
use vstd::prelude::*;
use crate::panel::{PanelView, SnapshotView, TeamActivity, TeamPanel, TeamSnapshot};
use crate::runtime::{
    awaits_spawn, contains_name, delivery_prompt_view, live_lookup, mailbox_delivery_prompt,
    pending_to_materialize, pending_view, snapshot_for_session, snapshot_view, spawn_prompt_view,
    team_spawn_prompt, undelivered, undelivered_view,
};
use crate::in_flight::{
    in_flight_ok, lemma_bound_keeps, lemma_deliver_same, lemma_enqueue_same, lemma_mark_keeps,
    lemma_materialize_keeps, lemma_refresh_same, lemma_same_in_flight, lemma_spawn_session_keeps,
    lemma_sync_keeps,
};
use crate::mailbox::send_message;
use crate::numbers::{decimal_view, u64_to_decimal};
use crate::seqs::{first_index, lemma_first_index, lemma_first_index_is};
use crate::store::{StoreView, TeamStore};
use crate::text::{concat_str, owned};
use crate::types::{
    MailboxKind, MailboxMessage, MailboxMessageView, MemberRole, TeamConfigView, TeamMemberView,
};

verus! {

/// What the pager must do after a runtime step.
#[derive(Debug, Clone, Copy, PartialEq, Eq, Structural)]
pub enum SessionEffect {
    /// Start the session of the agent entry `agent`.
    Start { agent: u64 },
}

impl View for SessionEffect {
    type V = SessionEffect;

    open spec fn view(&self) -> SessionEffect {
        *self
    }
}

impl DeepView for SessionEffect {
    type V = SessionEffect;

    open spec fn deep_view(&self) -> SessionEffect {
        *self
    }
}

/// One pager session, as the team runtime sees it.
#[derive(Debug)]
pub struct AgentView {
    pub id: u64,
    /// The session id, once the session is bound.
    pub session_id: Option<String>,
    pub is_subagent_view: bool,
    /// Permission requests waiting for the human.
    pub pending_permissions: usize,
    /// A question waiting for the human.
    pub has_question: bool,
    /// The session is running a turn.
    pub busy: bool,
    /// The session is idle.
    pub idle: bool,
    pub team: TeamPanel,
    /// `(team_id, member)` this session was started for.
    pub team_bind: Option<(String, String)>,
    /// Prompts queued for the session, sent in order when it is idle.
    pub queued_prompts: Vec<String>,
}

pub struct AgentState {
    pub id: u64,
    pub session_id: Option<Seq<char>>,
    pub is_subagent_view: bool,
    pub pending_permissions: usize,
    pub has_question: bool,
    pub busy: bool,
    pub idle: bool,
    pub team: PanelView,
    pub team_bind: Option<(Seq<char>, Seq<char>)>,
    pub queued_prompts: Seq<Seq<char>>,
}

impl View for AgentView {
    type V = AgentState;

    open spec fn view(&self) -> AgentState {
        AgentState {
            id: self.id,
            session_id: self.session_id.deep_view(),
            is_subagent_view: self.is_subagent_view,
            pending_permissions: self.pending_permissions,
            has_question: self.has_question,
            busy: self.busy,
            idle: self.idle,
            team: self.team@,
            team_bind: self.team_bind.deep_view(),
            queued_prompts: self.queued_prompts.deep_view(),
        }
    }
}

impl DeepView for AgentView {
    type V = AgentState;

    open spec fn deep_view(&self) -> AgentState {
        self@
    }
}

/// The pager's sessions.
#[derive(Debug)]
pub struct AppView {
    pub agents: Vec<AgentView>,
    pub active_view: u64,
    pub pending_effects: Vec<SessionEffect>,
    /// The id the next started session gets.
    pub next_agent_id: u64,
}

pub struct AppState {
    pub agents: Seq<AgentState>,
    pub active_view: u64,
    pub pending_effects: Seq<SessionEffect>,
    pub next_agent_id: u64,
}

impl View for AppView {
    type V = AppState;

    open spec fn view(&self) -> AppState {
        AppState {
            agents: self.agents.deep_view(),
            active_view: self.active_view,
            pending_effects: self.pending_effects.deep_view(),
            next_agent_id: self.next_agent_id,
        }
    }
}

/// Blocked on the human (a permission or a question), else working while a
/// turn runs, else idle.
pub open spec fn activity_view(a: AgentState) -> TeamActivity {
    if a.pending_permissions > 0 || a.has_question {
        TeamActivity::Blocked
    } else if a.busy {
        TeamActivity::Working
    } else {
        TeamActivity::Idle
    }
}

pub fn activity_for_agent(agent: &AgentView) -> (a: TeamActivity)
    ensures
        a == activity_view(agent@),
{
    if agent.pending_permissions > 0 || agent.has_question {
        return TeamActivity::Blocked;
    }
    if agent.busy {
        return TeamActivity::Working;
    }
    TeamActivity::Idle
}

/// The agent entry with id `id`.
pub open spec fn has_agent_id(id: u64) -> spec_fn(AgentState) -> bool {
    |a: AgentState| a.id == id
}

/// The agent entry bound to session `sid`.
pub open spec fn has_session(sid: Seq<char>) -> spec_fn(AgentState) -> bool {
    |a: AgentState| a.session_id == Some(sid)
}

/// `(session, activity)` of every agent with a session, in order.
pub open spec fn live_view(agents: Seq<AgentState>) -> Seq<(Seq<char>, TeamActivity)>
    decreases agents.len(),
{
    if agents.len() == 0 {
        Seq::empty()
    } else {
        let r = live_view(agents.drop_last());
        match agents.last().session_id {
            Some(sid) => r.push((sid, activity_view(agents.last()))),
            None => r,
        }
    }
}

/// The agent after its panel takes the snapshot for its session.
pub open spec fn refreshed(
    a: AgentState,
    s: StoreView,
    live: Seq<(Seq<char>, TeamActivity)>,
    now: u64,
) -> AgentState {
    if a.is_subagent_view || a.session_id is None {
        AgentState { team: a.team.apply_snapshot(None, now), ..a }
    } else {
        AgentState {
            team: a.team.apply_snapshot(
                snapshot_view(s, a.session_id->0, live, a.team.in_flight),
                now,
            ),
            ..a
        }
    }
}

/// The agent with its panel cleared.
pub open spec fn cleared(a: AgentState, now: u64) -> AgentState {
    AgentState { team: a.team.apply_snapshot(None, now), ..a }
}

impl AppState {
    /// Every panel refreshed: cleared when teams are off, for subagent views,
    /// and for sessions not yet bound; else the session's snapshot.
    pub open spec fn refresh_all_panels(self, s: StoreView, enabled: bool, now: u64) -> AppState {
        if !enabled {
            AppState { agents: self.agents.map_values(|a: AgentState| cleared(a, now)), ..self }
        } else {
            let live = live_view(self.agents);
            AppState {
                agents: self.agents.map_values(|a: AgentState| refreshed(a, s, live, now)),
                ..self
            }
        }
    }

    /// A new session entry for teammate `name`, started with its spawn
    /// prompt; the lead keeps the focus. When no id is left, nothing starts.
    pub open spec fn spawn_session(self, team_id: Seq<char>, name: Seq<char>, prompt: Seq<char>) -> AppState {
        if self.next_agent_id == u64::MAX {
            self
        } else {
            let id = self.next_agent_id;
            AppState {
                agents: self.agents.push(fresh_agent(id, team_id, name, prompt)),
                pending_effects: self.pending_effects.push(SessionEffect::Start { agent: id }),
                next_agent_id: (id + 1) as u64,
                ..self
            }
        }
    }

    /// Records that the lead `lead_id` started `name`.
    pub open spec fn mark_in_flight(self, lead_id: u64, name: Seq<char>) -> AppState {
        let i = first_index(self.agents, has_agent_id(lead_id));
        if i < self.agents.len() {
            let a = self.agents[i];
            let inf = if a.team.in_flight.contains(name) {
                a.team.in_flight
            } else {
                a.team.in_flight.push(name)
            };
            AppState {
                agents: self.agents.update(i, AgentState { team: PanelView { in_flight: inf, ..a.team }, ..a }),
                ..self
            }
        } else {
            self
        }
    }

    /// Queues `prompts` on the agent `id`.
    pub open spec fn enqueue(self, id: u64, prompts: Seq<Seq<char>>) -> AppState {
        let i = first_index(self.agents, has_agent_id(id));
        if i < self.agents.len() {
            let a = self.agents[i];
            AppState {
                agents: self.agents.update(i, AgentState { queued_prompts: a.queued_prompts + prompts, ..a }),
                ..self
            }
        } else {
            self
        }
    }
}

/// A fresh session entry for a teammate.
pub open spec fn fresh_agent(id: u64, team_id: Seq<char>, name: Seq<char>, prompt: Seq<char>) -> AgentState {
    AgentState {
        id,
        session_id: None,
        is_subagent_view: false,
        pending_permissions: 0,
        has_question: false,
        busy: false,
        idle: true,
        team: PanelView {
            selected: 0,
            last_all_idle_at: None,
            rows: Seq::empty(),
            tasks: Seq::empty(),
            show_tasks: false,
            unread_total: 0,
            team_id: None,
            in_flight: Seq::empty(),
        },
        team_bind: Some((team_id, name)),
        queued_prompts: seq![spawn_prompt_view(name, prompt)],
    }
}

impl AgentView {
    /// A session entry with nothing queued and no team.
    pub fn new(id: u64) -> (a: Self)
        ensures
            a@.id == id,
            a@.session_id is None,
            !a@.is_subagent_view,
            a@.pending_permissions == 0,
            !a@.has_question,
            !a@.busy,
            a@.idle,
            a@.team_bind is None,
            a@.queued_prompts.len() == 0,
            a@.team == fresh_agent(id, Seq::empty(), Seq::empty(), Seq::empty()).team,
    {
        let a = AgentView {
            id,
            session_id: None,
            is_subagent_view: false,
            pending_permissions: 0,
            has_question: false,
            busy: false,
            idle: true,
            team: TeamPanel::new(),
            team_bind: None,
            queued_prompts: Vec::new(),
        };
        assert(a@.team.rows =~= Seq::empty());
        assert(a@.team.tasks =~= Seq::empty());
        assert(a@.team.in_flight =~= Seq::empty());
        a
    }
}

fn agent_index(app: &AppView, id: u64) -> (r: Option<usize>)
    ensures
        r is Some <==> first_index(app@.agents, has_agent_id(id)) < app@.agents.len(),
        r matches Some(i) ==> i == first_index(app@.agents, has_agent_id(id)),
{
    let n = app.agents.len();
    let mut i: usize = 0;
    while i < n
        invariant
            n == app.agents.len(),
            i <= n,
            forall|k: int| 0 <= k < i ==> !has_agent_id(id)(#[trigger] app@.agents[k]),
        decreases n - i,
    {
        assert(app@.agents[i as int].id == app.agents[i as int].id);
        if app.agents[i].id == id {
            proof {
                lemma_first_index_is(app@.agents, has_agent_id(id), i as int);
            }
            return Some(i);
        }
        i = i + 1;
    }
    proof {
        lemma_first_index_is(app@.agents, has_agent_id(id), n as int);
    }
    None
}

/// The agent whose session is `session_id`.
pub fn agent_id_for_session(app: &AppView, session_id: &str) -> (r: Option<u64>)
    ensures
        ({
            let i = first_index(app@.agents, has_session(session_id@));
            r == if i < app@.agents.len() {
                Some(app@.agents[i].id)
            } else {
                None
            }
        }),
{
    let key = owned(session_id);
    let n = app.agents.len();
    let mut i: usize = 0;
    while i < n
        invariant
            n == app.agents.len(),
            i <= n,
            key@ == session_id@,
            forall|k: int| 0 <= k < i ==> !has_session(session_id@)(#[trigger] app@.agents[k]),
        decreases n - i,
    {
        assert(app@.agents[i as int] == app.agents[i as int]@);
        let hit = match &app.agents[i].session_id {
            Some(s) => *s == key,
            None => false,
        };
        if hit {
            proof {
                lemma_first_index_is(app@.agents, has_session(session_id@), i as int);
            }
            return Some(app.agents[i].id);
        }
        i = i + 1;
    }
    proof {
        lemma_first_index_is(app@.agents, has_session(session_id@), n as int);
    }
    None
}

/// `(id, session, in_flight)` of each session that can lead a team: bound,
/// and not a subagent view.
pub open spec fn lead_entries(agents: Seq<AgentState>) -> Seq<(u64, Seq<char>, Seq<Seq<char>>)>
    decreases agents.len(),
{
    if agents.len() == 0 {
        Seq::empty()
    } else {
        let r = lead_entries(agents.drop_last());
        let a = agents.last();
        if !a.is_subagent_view && a.session_id is Some {
            r.push((a.id, a.session_id->0, a.team.in_flight))
        } else {
            r
        }
    }
}

/// `sid` is the lead of `team`: its lead session, or the session bound to
/// its lead member.
pub open spec fn leads_team(team: TeamConfigView, sid: Seq<char>) -> bool {
    team.lead_session_id == sid || (team.lead() is Some && team.lead()->0.session_id == Some(sid))
}

impl AppState {
    /// Starts each pending teammate in order, marking it in flight on the lead.
    pub open spec fn spawn_all(
        self,
        lead_id: u64,
        team_id: Seq<char>,
        pending: Seq<(Seq<char>, Seq<char>)>,
    ) -> AppState
        decreases pending.len(),
    {
        if pending.len() == 0 {
            self
        } else {
            self.spawn_session(team_id, pending[0].0, pending[0].1).mark_in_flight(
                lead_id,
                pending[0].0,
            ).spawn_all(lead_id, team_id, pending.drop_first())
        }
    }

    /// One lead's pass: when the session still leads its team, start the
    /// teammates awaiting a spawn.
    pub open spec fn materialize_lead(
        self,
        s: StoreView,
        lead: (u64, Seq<char>, Seq<Seq<char>>),
    ) -> AppState {
        match s.find_by_session(lead.1) {
            Some(team) => if leads_team(team, lead.1) {
                self.spawn_all(lead.0, team.team_id, pending_view(team.members, lead.2))
            } else {
                self
            },
            None => self,
        }
    }

    pub open spec fn materialize_from(self, s: StoreView, leads: Seq<(u64, Seq<char>, Seq<Seq<char>>)>) -> AppState
        decreases leads.len(),
    {
        if leads.len() == 0 {
            self
        } else {
            self.materialize_lead(s, leads[0]).materialize_from(s, leads.drop_first())
        }
    }

    /// Every lead's pending teammates started, leads taken in agent order
    /// with their in-flight sets as they were before the pass.
    pub open spec fn materialize_pending(self, s: StoreView) -> AppState {
        self.materialize_from(s, lead_entries(self.agents))
    }
}

/// Starts a top-level session for teammate `name` of `team_id` and queues
/// its spawn prompt; the focus stays where it was.
pub fn spawn_teammate_session(app: &mut AppView, team_id: &str, name: &str, prompt: &str)
    ensures
        final(app)@ == old(app)@.spawn_session(team_id@, name@, prompt@),
        in_flight_ok(old(app)@) ==> in_flight_ok(final(app)@),
{
    proof {
        if in_flight_ok(app@) {
            lemma_spawn_session_keeps(app@, team_id@, name@, prompt@);
        }
    }
    if app.next_agent_id == u64::MAX {
        return;
    }
    let id = app.next_agent_id;
    let mut agent = AgentView::new(id);
    agent.team_bind = Some((owned(team_id), owned(name)));
    agent.queued_prompts.push(team_spawn_prompt(name, prompt));
    let ghost before = app@;
    app.agents.push(agent);
    app.pending_effects.push(SessionEffect::Start { agent: id });
    app.next_agent_id = id + 1;
    proof {
        let want = before.spawn_session(team_id@, name@, prompt@);
        assert(app@.agents.last().queued_prompts =~= seq![spawn_prompt_view(name@, prompt@)]);
        assert(app@.agents.last() == fresh_agent(id, team_id@, name@, prompt@));
        assert(app@.agents =~= want.agents);
        assert(app@.pending_effects =~= want.pending_effects);
    }
}

/// Records on the lead `lead_id` that `name` is being started.
pub fn mark_in_flight(app: &mut AppView, lead_id: u64, name: &str)
    ensures
        final(app)@ == old(app)@.mark_in_flight(lead_id, name@),
        in_flight_ok(old(app)@) ==> in_flight_ok(final(app)@),
{
    proof {
        if in_flight_ok(app@) {
            lemma_mark_keeps(app@, lead_id, name@);
        }
    }
    match agent_index(app, lead_id) {
        None => {},
        Some(i) => {
            let ghost before = app@;
            let mut a = app.agents.remove(i);
            let ghost a0 = a@;
            assert(a0 == before.agents[i as int]);
            if !contains_name(&a.team.in_flight, name) {
                let ghost f0 = a.team.in_flight.deep_view();
                a.team.in_flight.push(owned(name));
                assert(a.team.in_flight.deep_view() =~= f0.push(name@));
            }
            let ghost a1 = a@;
            app.agents.insert(i, a);
            proof {
                let want = before.mark_in_flight(lead_id, name@);
                assert(app@.agents =~= before.agents.update(i as int, a1));
                assert(want.agents == before.agents.update(i as int, a1));
            }
        },
    }
}

/// Queues `prompts`, in order, on the agent `id`.
pub fn enqueue_prompts(app: &mut AppView, id: u64, prompts: Vec<String>)
    ensures
        final(app)@ == old(app)@.enqueue(id, prompts.deep_view()),
        in_flight_ok(old(app)@) ==> in_flight_ok(final(app)@),
{
    proof {
        if in_flight_ok(app@) {
            lemma_enqueue_same(app@, id, prompts.deep_view());
            lemma_same_in_flight(app@, app@.enqueue(id, prompts.deep_view()));
        }
    }
    match agent_index(app, id) {
        None => {},
        Some(i) => {
            let ghost before = app@;
            let mut a = app.agents.remove(i);
            let ghost a0 = a@;
            assert(a0 == before.agents[i as int]);
            let ghost q0 = a.queued_prompts.deep_view();
            let n = prompts.len();
            let mut k: usize = 0;
            while k < n
                invariant
                    n == prompts.len(),
                    k <= n,
                    a.queued_prompts.deep_view() == q0 + prompts.deep_view().subrange(0, k as int),
                    a@ == (AgentState { queued_prompts: a@.queued_prompts, ..a0 }),
                    q0 == a0.queued_prompts,
                decreases n - k,
            {
                let ghost prev = a.queued_prompts.deep_view();
                a.queued_prompts.push(prompts[k].clone());
                assert(a.queued_prompts.deep_view() =~= prev.push(prompts.deep_view()[k as int]));
                assert(prompts.deep_view().subrange(0, k as int + 1) =~= prompts.deep_view().subrange(0, k as int).push(prompts.deep_view()[k as int]));
                k = k + 1;
                assert(a.queued_prompts.deep_view() =~= q0 + prompts.deep_view().subrange(0, k as int));
            }
            assert(prompts.deep_view().subrange(0, n as int) =~= prompts.deep_view());
            let ghost a1 = a@;
            assert(a1.queued_prompts =~= a0.queued_prompts + prompts.deep_view());
            app.agents.insert(i, a);
            proof {
                let want = before.enqueue(id, prompts.deep_view());
                assert(app@.agents =~= before.agents.update(i as int, a1));
                assert(want.agents == before.agents.update(i as int, a1));
            }
        },
    }
}

fn spawn_pending(app: &mut AppView, lead_id: u64, team_id: &str, pending: &Vec<(String, String)>)
    ensures
        final(app)@ == old(app)@.spawn_all(lead_id, team_id@, pending.deep_view()),
{
    let n = pending.len();
    let mut k: usize = 0;
    let ghost goal = app@.spawn_all(lead_id, team_id@, pending.deep_view());
    assert(pending.deep_view().subrange(0, n as int) =~= pending.deep_view());
    assert(pending.deep_view().subrange(0, n as int) == pending.deep_view().subrange(k as int, n as int));
    while k < n
        invariant
            n == pending.len(),
            k <= n,
            app@.spawn_all(lead_id, team_id@, pending.deep_view().subrange(k as int, n as int)) == goal,
        decreases n - k,
    {
        let ghost rest = pending.deep_view().subrange(k as int, n as int);
        assert(rest.drop_first() =~= pending.deep_view().subrange(k as int + 1, n as int));
        assert(rest[0] == pending.deep_view()[k as int]);
        let (name, prompt) = (&pending[k].0, &pending[k].1);
        spawn_teammate_session(app, team_id, name.as_str(), prompt.as_str());
        mark_in_flight(app, lead_id, name.as_str());
        k = k + 1;
    }
    assert(pending.deep_view().subrange(n as int, n as int) =~= Seq::<(Seq<char>, Seq<char>)>::empty());
}

fn collect_leads(app: &AppView) -> (r: Vec<(u64, String, Vec<String>)>)
    ensures
        r.deep_view() == lead_entries(app@.agents),
{
    let mut r: Vec<(u64, String, Vec<String>)> = Vec::new();
    let n = app.agents.len();
    let mut i: usize = 0;
    while i < n
        invariant
            n == app.agents.len(),
            i <= n,
            r.deep_view() == lead_entries(app@.agents.subrange(0, i as int)),
        decreases n - i,
    {
        let a = &app.agents[i];
        let ghost before = app@.agents.subrange(0, i as int);
        let ghost after = app@.agents.subrange(0, i as int + 1);
        assert(after.drop_last() =~= before);
        assert(after.last() == a@);
        let ghost prev = r.deep_view();
        if !a.is_subagent_view {
            match &a.session_id {
                Some(sid) => {
                    let inf = a.team.in_flight.clone();
                    assert(inf.deep_view() =~= a.team.in_flight.deep_view());
                    r.push((a.id, sid.clone(), inf));
                    assert(r.deep_view() =~= prev.push((a.id, sid@, a@.team.in_flight)));
                },
                None => {},
            }
        }
        i = i + 1;
    }
    assert(app@.agents.subrange(0, n as int) =~= app@.agents);
    r
}

/// Starts a top-level session for every teammate that awaits one, for every
/// session that leads a team.
pub fn materialize_pending(app: &mut AppView, store: &TeamStore)
    requires
        store.wf(),
    ensures
        final(app)@ == old(app)@.materialize_pending(store@),
        in_flight_ok(old(app)@) ==> in_flight_ok(final(app)@),
{
    proof {
        if in_flight_ok(app@) {
            lemma_materialize_keeps(app@, store@, lead_entries(app@.agents));
        }
    }
    let leads = collect_leads(app);
    let ghost goal = app@.materialize_pending(store@);
    let n = leads.len();
    let mut i: usize = 0;
    assert(leads.deep_view().subrange(0, n as int) =~= leads.deep_view());
    while i < n
        invariant
            store.wf(),
            n == leads.len(),
            i <= n,
            app@.materialize_from(store@, leads.deep_view().subrange(i as int, n as int)) == goal,
        decreases n - i,
    {
        let ghost rest = leads.deep_view().subrange(i as int, n as int);
        assert(rest.drop_first() =~= leads.deep_view().subrange(i as int + 1, n as int));
        assert(rest[0] == leads.deep_view()[i as int]);
        let lead_id = leads[i].0;
        let sid = &leads[i].1;
        let in_flight = &leads[i].2;
        match store.find_by_session(sid.as_str()) {
            Ok(Some(team)) => {
                let lead_bound = match team.lead() {
                    Some(m) => match &m.session_id {
                        Some(s) => *s == *sid,
                        None => false,
                    },
                    None => false,
                };
                if team.lead_session_id == *sid || lead_bound {
                    let pending = pending_to_materialize(&team, in_flight);
                    spawn_pending(app, lead_id, team.team_id.as_str(), &pending);
                }
            },
            _ => {},
        }
        i = i + 1;
    }
    assert(leads.deep_view().subrange(n as int, n as int) =~= Seq::<(u64, Seq<char>, Seq<Seq<char>>)>::empty());
}

/// `(agent, team, member)` of each bound session that is a team member,
/// in agent order.
pub open spec fn member_entries(agents: Seq<AgentState>, s: StoreView) -> Seq<(u64, Seq<char>, Seq<char>)>
    decreases agents.len(),
{
    if agents.len() == 0 {
        Seq::empty()
    } else {
        let r = member_entries(agents.drop_last(), s);
        let a = agents.last();
        match a.session_id {
            Some(sid) => match s.find_by_session(sid) {
                Some(team) => match team.member_for_session(sid) {
                    Some(m) => r.push((a.id, team.team_id, m.name)),
                    None => r,
                },
                None => r,
            },
            None => r,
        }
    }
}

/// `names` without `name`.
pub open spec fn without(names: Seq<Seq<char>>, name: Seq<char>) -> Seq<Seq<char>>
    decreases names.len(),
{
    if names.len() == 0 {
        Seq::empty()
    } else {
        let r = without(names.drop_last(), name);
        if names.last() == name {
            r
        } else {
            r.push(names.last())
        }
    }
}

/// The session that is starting `name` for team `t`: one whose panel shows
/// team `t`, or that has `name` in flight.
pub open spec fn starting(t: Seq<char>, name: Seq<char>) -> spec_fn(AgentState) -> bool {
    |a: AgentState| a.team.team_id == Some(t) || a.team.in_flight.contains(name)
}

impl AppState {
    /// One member's delivery: the messages after its cursor become queued
    /// prompts, and the cursor moves to the last of them.
    pub open spec fn deliver_one(self, s: StoreView, e: (u64, Seq<char>, Seq<char>)) -> (AppState, StoreView) {
        match s.read_inbox(e.1, e.2) {
            Err(_) => (self, s),
            Ok(inbox) => {
                let fresh = undelivered_view(inbox, s.read_cursor(e.1, e.2));
                if fresh.len() == 0 {
                    (self, s)
                } else {
                    (
                        self.enqueue(e.0, fresh.map_values(|m: MailboxMessageView| delivery_prompt_view(m))),
                        s.write_cursor(e.1, e.2, fresh.last().id),
                    )
                }
            },
        }
    }

    pub open spec fn deliver_from(self, s: StoreView, entries: Seq<(u64, Seq<char>, Seq<char>)>) -> (AppState, StoreView)
        decreases entries.len(),
    {
        if entries.len() == 0 {
            (self, s)
        } else {
            let step = self.deliver_one(s, entries[0]);
            step.0.deliver_from(step.1, entries.drop_first())
        }
    }

    /// Every member session gets its unread mail as queued prompts.
    pub open spec fn deliver_mailboxes(self, s: StoreView) -> (AppState, StoreView) {
        self.deliver_from(s, member_entries(self.agents, s))
    }

    /// A started teammate's session is bound: the store records it, and the
    /// lead stops counting it as in flight.
    pub open spec fn on_session_bound(self, s: StoreView, agent_id: u64, enabled: bool) -> (AppState, StoreView) {
        let i = first_index(self.agents, has_agent_id(agent_id));
        if !enabled || i >= self.agents.len() {
            (self, s)
        } else {
            let a = self.agents[i];
            match (a.team_bind, a.session_id) {
                (Some(bind), Some(sid)) => {
                    let (s2, r) = s.bind_session(bind.0, bind.1, sid);
                    let j = first_index(self.agents, starting(bind.0, bind.1));
                    if r is Ok && j < self.agents.len() {
                        let l = self.agents[j];
                        (
                            AppState {
                                agents: self.agents.update(
                                    j,
                                    AgentState {
                                        team: PanelView { in_flight: without(l.team.in_flight, bind.1), ..l.team },
                                        ..l
                                    },
                                ),
                                ..self
                            },
                            s2,
                        )
                    } else {
                        (self, s2)
                    }
                },
                _ => (self, s),
            }
        }
    }

    /// One runtime pass: start pending teammates, deliver mail, refresh panels.
    pub open spec fn sync(self, s: StoreView, enabled: bool, now: u64) -> (AppState, StoreView) {
        if !enabled {
            (self, s)
        } else {
            let a1 = self.materialize_pending(s);
            let (a2, s2) = a1.deliver_mailboxes(s);
            (a2.refresh_all_panels(s2, true, now), s2)
        }
    }
}

fn collect_members(app: &AppView, store: &TeamStore) -> (r: Vec<(u64, String, String)>)
    requires
        store.wf(),
    ensures
        r.deep_view() == member_entries(app@.agents, store@),
{
    let mut r: Vec<(u64, String, String)> = Vec::new();
    let n = app.agents.len();
    let mut i: usize = 0;
    while i < n
        invariant
            store.wf(),
            n == app.agents.len(),
            i <= n,
            r.deep_view() == member_entries(app@.agents.subrange(0, i as int), store@),
        decreases n - i,
    {
        let a = &app.agents[i];
        let ghost before = app@.agents.subrange(0, i as int);
        let ghost after = app@.agents.subrange(0, i as int + 1);
        assert(after.drop_last() =~= before);
        assert(after.last() == a@);
        let ghost prev = r.deep_view();
        match &a.session_id {
            Some(sid) => match store.find_by_session(sid.as_str()) {
                Ok(Some(team)) => match team.member_for_session(sid.as_str()) {
                    Some(m) => {
                        r.push((a.id, team.team_id.clone(), m.name.clone()));
                        assert(r.deep_view() =~= prev.push((a.id, team@.team_id, m@.name)));
                    },
                    None => {},
                },
                _ => {},
            },
            None => {},
        }
        i = i + 1;
    }
    assert(app@.agents.subrange(0, n as int) =~= app@.agents);
    r
}

/// Delivers unread mail to every member session: each message after the
/// member's cursor is queued as a tagged user turn (the queue drains when
/// the session is idle), and the cursor moves past it.
pub fn deliver_mailboxes(app: &mut AppView, store: &mut TeamStore)
    requires
        old(store).wf(),
    ensures
        final(store).wf(),
        (final(app)@, final(store)@) == old(app)@.deliver_mailboxes(old(store)@),
        in_flight_ok(old(app)@) ==> in_flight_ok(final(app)@),
{
    proof {
        if in_flight_ok(app@) {
            lemma_deliver_same(app@, store@, member_entries(app@.agents, store@));
            lemma_same_in_flight(app@, app@.deliver_mailboxes(store@).0);
        }
    }
    let entries = collect_members(app, store);
    let ghost goal = app@.deliver_mailboxes(store@);
    let n = entries.len();
    let mut i: usize = 0;
    assert(entries.deep_view().subrange(0, n as int) =~= entries.deep_view());
    while i < n
        invariant
            store.wf(),
            n == entries.len(),
            i <= n,
            app@.deliver_from(store@, entries.deep_view().subrange(i as int, n as int)) == goal,
        decreases n - i,
    {
        let ghost rest = entries.deep_view().subrange(i as int, n as int);
        assert(rest.drop_first() =~= entries.deep_view().subrange(i as int + 1, n as int));
        assert(rest[0] == entries.deep_view()[i as int]);
        let agent_id = entries[i].0;
        let team_id = entries[i].1.as_str();
        let name = entries[i].2.as_str();
        match store.read_inbox(team_id, name) {
            Ok(inbox) => {
                let cursor = match store.read_cursor(team_id, name) {
                    Ok(c) => c,
                    Err(_) => None,
                };
                let fresh = match &cursor {
                    Some(c) => undelivered(inbox.as_slice(), Some(c.as_str())),
                    None => undelivered(inbox.as_slice(), None),
                };
                let ghost fv = fresh@.map_values(|m: MailboxMessage| m@);
                proof {
                    assert(inbox@.map_values(|m: MailboxMessage| m@) =~= inbox.deep_view());
                }
                if fresh.len() > 0 {
                    let last_id = fresh[fresh.len() - 1].id.clone();
                    let mut prompts: Vec<String> = Vec::new();
                    let k = fresh.len();
                    let mut j: usize = 0;
                    while j < k
                        invariant
                            k == fresh@.len(),
                            j <= k,
                            fv == fresh@.map_values(|m: MailboxMessage| m@),
                            prompts.deep_view() == fv.subrange(0, j as int).map_values(
                                |m: MailboxMessageView| delivery_prompt_view(m),
                            ),
                        decreases k - j,
                    {
                        let ghost prev = prompts.deep_view();
                        prompts.push(mailbox_delivery_prompt(&fresh[j]));
                        assert(prompts.deep_view() =~= prev.push(delivery_prompt_view(fv[j as int])));
                        assert(fv.subrange(0, j as int + 1).map_values(
                            |m: MailboxMessageView| delivery_prompt_view(m),
                        ) =~= fv.subrange(0, j as int).map_values(
                            |m: MailboxMessageView| delivery_prompt_view(m),
                        ).push(delivery_prompt_view(fv[j as int])));
                        j = j + 1;
                    }
                    assert(fv.subrange(0, k as int) =~= fv);
                    assert(last_id@ == fv.last().id);
                    enqueue_prompts(app, agent_id, prompts);
                    let _ = store.write_cursor(team_id, name, last_id.as_str());
                }
            },
            Err(_) => {},
        }
        i = i + 1;
    }
    assert(entries.deep_view().subrange(n as int, n as int) =~= Seq::<(u64, Seq<char>, Seq<char>)>::empty());
}

fn starting_index(app: &AppView, team_id: &str, name: &str) -> (r: Option<usize>)
    ensures
        r is Some <==> first_index(app@.agents, starting(team_id@, name@)) < app@.agents.len(),
        r matches Some(i) ==> i == first_index(app@.agents, starting(team_id@, name@)),
{
    let key = owned(team_id);
    let n = app.agents.len();
    let mut i: usize = 0;
    while i < n
        invariant
            n == app.agents.len(),
            i <= n,
            key@ == team_id@,
            forall|k: int| 0 <= k < i ==> !starting(team_id@, name@)(#[trigger] app@.agents[k]),
        decreases n - i,
    {
        let a = &app.agents[i];
        assert(app@.agents[i as int] == a@);
        let same_team = match &a.team.team_id {
            Some(t) => *t == key,
            None => false,
        };
        if same_team || contains_name(&a.team.in_flight, name) {
            proof {
                lemma_first_index_is(app@.agents, starting(team_id@, name@), i as int);
            }
            return Some(i);
        }
        i = i + 1;
    }
    proof {
        lemma_first_index_is(app@.agents, starting(team_id@, name@), n as int);
    }
    None
}

fn names_without(names: &Vec<String>, name: &str) -> (r: Vec<String>)
    ensures
        r.deep_view() == without(names.deep_view(), name@),
{
    let key = owned(name);
    let mut r: Vec<String> = Vec::new();
    let n = names.len();
    let mut i: usize = 0;
    while i < n
        invariant
            n == names.len(),
            i <= n,
            key@ == name@,
            r.deep_view() == without(names.deep_view().subrange(0, i as int), name@),
        decreases n - i,
    {
        let ghost before = names.deep_view().subrange(0, i as int);
        let ghost after = names.deep_view().subrange(0, i as int + 1);
        assert(after.drop_last() =~= before);
        let ghost prev = r.deep_view();
        if names[i] != key {
            r.push(names[i].clone());
            assert(r.deep_view() =~= prev.push(names.deep_view()[i as int]));
        }
        i = i + 1;
    }
    assert(names.deep_view().subrange(0, n as int) =~= names.deep_view());
    r
}

/// Called when the session of agent `agent_id` gets its id: a teammate
/// session records the binding in the store, and the lead that started it
/// stops counting it as in flight.
pub fn on_session_bound(app: &mut AppView, store: &mut TeamStore, agent_id: u64, enabled: bool)
    requires
        old(store).wf(),
    ensures
        final(store).wf(),
        (final(app)@, final(store)@) == old(app)@.on_session_bound(old(store)@, agent_id, enabled),
        in_flight_ok(old(app)@) ==> in_flight_ok(final(app)@),
{
    proof {
        if in_flight_ok(app@) {
            lemma_bound_keeps(app@, store@, agent_id, enabled);
        }
    }
    if !enabled {
        return;
    }
    let i = match agent_index(app, agent_id) {
        Some(i) => i,
        None => return,
    };
    let (team_id, name) = match &app.agents[i].team_bind {
        Some(bind) => (bind.0.clone(), bind.1.clone()),
        None => return,
    };
    let sid = match &app.agents[i].session_id {
        Some(s) => s.clone(),
        None => return,
    };
    let bound = store.bind_session(team_id.as_str(), name.as_str(), sid.as_str());
    if bound.is_ok() {
        match starting_index(app, team_id.as_str(), name.as_str()) {
            Some(j) => {
                let ghost before = app@;
                let mut l = app.agents.remove(j);
                let ghost l0 = l@;
                assert(l0 == before.agents[j as int]);
                let kept = names_without(&l.team.in_flight, name.as_str());
                l.team.in_flight = kept;
                let ghost l1 = l@;
                app.agents.insert(j, l);
                proof {
                    assert(app@.agents =~= before.agents.update(j as int, l1));
                }
            },
            None => {},
        }
    }
}

fn collect_live(app: &AppView) -> (r: Vec<(String, TeamActivity)>)
    ensures
        r.deep_view() == live_view(app@.agents),
{
    let mut r: Vec<(String, TeamActivity)> = Vec::new();
    let n = app.agents.len();
    let mut i: usize = 0;
    while i < n
        invariant
            n == app.agents.len(),
            i <= n,
            r.deep_view() == live_view(app@.agents.subrange(0, i as int)),
        decreases n - i,
    {
        let a = &app.agents[i];
        let ghost before = app@.agents.subrange(0, i as int);
        let ghost after = app@.agents.subrange(0, i as int + 1);
        assert(after.drop_last() =~= before);
        assert(after.last() == a@);
        let ghost prev = r.deep_view();
        match &a.session_id {
            Some(sid) => {
                r.push((sid.clone(), activity_for_agent(a)));
                assert(r.deep_view() =~= prev.push((sid@, activity_view(a@))));
            },
            None => {},
        }
        i = i + 1;
    }
    assert(app@.agents.subrange(0, n as int) =~= app@.agents);
    r
}

/// Refreshes every session's panel from the store; all panels are cleared
/// when teams are off.
pub fn refresh_all_panels(app: &mut AppView, store: &TeamStore, enabled: bool, now: u64)
    requires
        store.wf(),
    ensures
        final(app)@ == old(app)@.refresh_all_panels(store@, enabled, now),
        in_flight_ok(old(app)@) ==> in_flight_ok(final(app)@),
{
    proof {
        if in_flight_ok(app@) {
            lemma_refresh_same(app@, store@, enabled, now);
            lemma_same_in_flight(app@, app@.refresh_all_panels(store@, enabled, now));
        }
    }
    let ghost start = app@;
    let live = if enabled {
        collect_live(app)
    } else {
        Vec::new()
    };
    let n = app.agents.len();
    let mut i: usize = 0;
    while i < n
        invariant
            store.wf(),
            n == app.agents.len(),
            n == start.agents.len(),
            i <= n,
            enabled ==> live.deep_view() == live_view(start.agents),
            app@.active_view == start.active_view,
            app@.pending_effects == start.pending_effects,
            app@.next_agent_id == start.next_agent_id,
            forall|k: int| 0 <= k < i ==> #[trigger] app@.agents[k] == (if enabled {
                refreshed(start.agents[k], store@, live_view(start.agents), now)
            } else {
                cleared(start.agents[k], now)
            }),
            forall|k: int| i <= k < n ==> #[trigger] app@.agents[k] == start.agents[k],
        decreases n - i,
    {
        let ghost before = app@;
        assert(before.agents[i as int] == start.agents[i as int]);
        let mut a = app.agents.remove(i);
        assert(a@ == before.agents[i as int]);
        if !enabled || a.is_subagent_view {
            a.team.apply_snapshot(None, now);
        } else {
            let snap = match &a.session_id {
                Some(sid) => snapshot_for_session(store, sid.as_str(), &live, &a.team.in_flight),
                None => None,
            };
            if a.session_id.is_none() {
                a.team.apply_snapshot(None, now);
            } else {
                a.team.apply_snapshot(snap, now);
            }
        }
        let ghost a1 = a@;
        app.agents.insert(i, a);
        assert(app@.agents =~= before.agents.update(i as int, a1));
        i = i + 1;
    }
    proof {
        let want = start.refresh_all_panels(store@, enabled, now);
        assert(app@.agents =~= want.agents);
    }
}

/// One runtime pass when teams are on: start pending teammates, deliver
/// mail, and refresh every panel.
pub fn sync(app: &mut AppView, store: &mut TeamStore, enabled: bool, now: u64)
    requires
        old(store).wf(),
    ensures
        final(store).wf(),
        (final(app)@, final(store)@) == old(app)@.sync(old(store)@, enabled, now),
        in_flight_ok(old(app)@) ==> in_flight_ok(final(app)@),
{
    proof {
        if in_flight_ok(app@) {
            lemma_sync_keeps(app@, store@, enabled, now);
        }
    }
    if !enabled {
        return;
    }
    materialize_pending(app, store);
    deliver_mailboxes(app, store);
    refresh_all_panels(app, store, true, now);
}


/// The kind of note a teammate's turn end leaves for the lead.
pub open spec fn turn_end_kind(failed: bool) -> MailboxKind {
    if failed {
        MailboxKind::Failed
    } else {
        MailboxKind::Idle
    }
}

/// `idle` or `failed`.
pub open spec fn turn_end_word(failed: bool) -> Seq<char> {
    if failed {
        "failed"@
    } else {
        "idle"@
    }
}

/// The note's body: `teammate @{name} is idle`, or `... failed its turn`.
pub open spec fn turn_end_body(name: Seq<char>, failed: bool) -> Seq<char> {
    "teammate @"@ + name + if failed {
        " failed its turn"@
    } else {
        " is idle"@
    }
}

/// The note's id: `{idle|failed}-{name}-{ms}`, with a clock before the epoch
/// read as 0.
pub open spec fn turn_end_id(name: Seq<char>, failed: bool, now: i64) -> Seq<char> {
    turn_end_word(failed) + "-"@ + name + "-"@ + decimal_view(if now >= 0 { now as nat } else { 0 })
}

impl AppState {
    /// A teammate's turn ended (`failed` when it failed): when teams are on
    /// and the agent's session is a teammate of a team with a lead, one
    /// `idle` or `failed` note from that teammate is appended to the lead's
    /// inbox. Anything else leaves the store as it was.
    pub open spec fn turn_ended(self, s: StoreView, agent_id: u64, failed: bool, enabled: bool, now: i64) -> StoreView {
        let i = first_index(self.agents, has_agent_id(agent_id));
        if !enabled || i >= self.agents.len() || self.agents[i].is_subagent_view {
            s
        } else {
            match self.agents[i].session_id {
                None => s,
                Some(sid) => match s.find_by_session(sid) {
                    None => s,
                    Some(team) => match (team.member_for_session(sid), team.lead()) {
                        (Some(m), Some(lead)) => if m.role == MemberRole::Teammate {
                            s.send_message(
                                team.team_id,
                                m.name,
                                lead.name,
                                turn_end_kind(failed),
                                None,
                                turn_end_body(m.name, failed),
                                now,
                                turn_end_id(m.name, failed, now),
                            ).0
                        } else {
                            s
                        },
                        _ => s,
                    },
                },
            }
        }
    }
}

fn turn_end_note(name: &str, failed: bool, now: i64) -> (r: (String, String))
    ensures
        r.0@ == turn_end_body(name@, failed),
        r.1@ == turn_end_id(name@, failed, now),
{
    proof {
        reveal_strlit("teammate @");
        reveal_strlit(" failed its turn");
        reveal_strlit(" is idle");
        reveal_strlit("failed");
        reveal_strlit("idle");
        reveal_strlit("-");
    }
    let mut body = concat_str("teammate @", name);
    body.append(if failed { " failed its turn" } else { " is idle" });
    let mut id = owned(if failed { "failed" } else { "idle" });
    id.append("-");
    id.append(name);
    id.append("-");
    let ms: u64 = if now >= 0 { now as u64 } else { 0 };
    let digits = u64_to_decimal(ms);
    id.append(digits.as_str());
    (body, id)
}

/// Called when the turn of agent `agent_id` finishes (`failed` when it
/// failed): a teammate's session leaves an `idle` or `failed` note from that
/// teammate in its lead's inbox.
pub fn on_turn_end(app: &AppView, store: &mut TeamStore, agent_id: u64, failed: bool, enabled: bool, now_unix_ms: i64)
    requires
        old(store).wf(),
    ensures
        final(store).wf(),
        final(store)@ == app@.turn_ended(old(store)@, agent_id, failed, enabled, now_unix_ms),
{
    if !enabled {
        return;
    }
    let i = match agent_index(app, agent_id) {
        Some(i) => i,
        None => return,
    };
    let a = &app.agents[i];
    assert(app@.agents[i as int] == a@);
    if a.is_subagent_view {
        return;
    }
    let sid = match &a.session_id {
        Some(s) => s,
        None => return,
    };
    let team = match store.find_by_session(sid.as_str()) {
        Ok(Some(t)) => t,
        _ => return,
    };
    let member = match team.member_for_session(sid.as_str()) {
        Some(m) => m,
        None => return,
    };
    let lead = match team.lead() {
        Some(l) => l,
        None => return,
    };
    if member.role != MemberRole::Teammate {
        return;
    }
    let kind = if failed { MailboxKind::Failed } else { MailboxKind::Idle };
    let (body, id) = turn_end_note(member.name.as_str(), failed, now_unix_ms);
    let _ = send_message(
        store,
        team.team_id.as_str(),
        member.name.as_str(),
        lead.name.as_str(),
        kind,
        None,
        body,
        now_unix_ms,
        id,
    );
}

} // verus!
