//! The model-facing team tools: what each call checks, what it changes in
//! the store, and what it answers.
//!
//! The calling session, the call id and the clock reading come in with the
//! call; the store is the team directory the tools act on.
use vstd::prelude::*;
use crate::mailbox::{mailbox_error_text, send_message, MailboxErrorView};
use crate::store::{store_error_text, StoreErrorView, StoreView, TeamStore};
use crate::runtime::{member_unread, unread_for};
use crate::seqs::first_index;
use crate::tasks::{
    claim_task, complete_task, create_task, has_id, task_error_text, task_position, TaskErrorView,
};
use crate::text::{concat_str, is_blank, is_blank_view, owned, str_eq};
use crate::types::{
    valid_member_name, valid_member_name_view, MailboxKind, MemberRole, TeamConfig,
    TeamConfigView, TeamMember, TeamMemberView, TeamTaskView,
};

verus! {

pub const SPAWN_TEAMMATE_TOOL_NAME: &'static str = "spawn_teammate";

pub const SEND_MESSAGE_TOOL_NAME: &'static str = "send_message";

pub const TEAM_TASK_CREATE_TOOL_NAME: &'static str = "team_task_create";

pub const TEAM_TASK_CLAIM_TOOL_NAME: &'static str = "team_task_claim";

pub const TEAM_TASK_COMPLETE_TOOL_NAME: &'static str = "team_task_complete";

pub const TEAM_STATUS_TOOL_NAME: &'static str = "team_status";

/// The team tools' names, in listing order.
pub open spec fn team_tool_names_view() -> Seq<Seq<char>> {
    seq![
        "spawn_teammate"@,
        "send_message"@,
        "team_task_create"@,
        "team_task_claim"@,
        "team_task_complete"@,
        "team_status"@,
    ]
}

/// `id` is a team tool: a bare tool name, or one qualified as `ns:name`.
pub open spec fn is_team_tool_view(id: Seq<char>) -> bool {
    exists|k: int|
        0 <= k < team_tool_names_view().len() && (id == #[trigger] team_tool_names_view()[k]
            || ends_with_view(id, ":"@ + team_tool_names_view()[k]))
}

/// `s` ends with `suffix`.
pub open spec fn ends_with_view(s: Seq<char>, suffix: Seq<char>) -> bool {
    s.len() >= suffix.len() && s.subrange(s.len() - suffix.len(), s.len() as int) == suffix
}

/// The team tools' names, in listing order.
pub fn team_tool_names() -> (v: Vec<&'static str>)
    ensures
        v@.map_values(|s: &str| s@) == team_tool_names_view(),
{
    let mut v: Vec<&'static str> = Vec::new();
    v.push(SPAWN_TEAMMATE_TOOL_NAME);
    v.push(SEND_MESSAGE_TOOL_NAME);
    v.push(TEAM_TASK_CREATE_TOOL_NAME);
    v.push(TEAM_TASK_CLAIM_TOOL_NAME);
    v.push(TEAM_TASK_COMPLETE_TOOL_NAME);
    v.push(TEAM_STATUS_TOOL_NAME);
    proof {
        reveal_strlit("spawn_teammate");
        reveal_strlit("send_message");
        reveal_strlit("team_task_create");
        reveal_strlit("team_task_claim");
        reveal_strlit("team_task_complete");
        reveal_strlit("team_status");
        assert(v@.map_values(|s: &str| s@) =~= team_tool_names_view());
    }
    v
}

fn ends_with(s: &str, suffix: &str) -> (b: bool)
    ensures
        b == ends_with_view(s@, suffix@),
{
    let a = crate::text::chars_of(s);
    let b = crate::text::chars_of(suffix);
    if a.len() < b.len() {
        return false;
    }
    let off = a.len() - b.len();
    let mut i: usize = 0;
    while i < b.len()
        invariant
            a@ == s@,
            b@ == suffix@,
            off == a.len() - b.len(),
            i <= b.len(),
            forall|k: int| 0 <= k < i ==> a@[off + k] == b@[k],
        decreases b.len() - i,
    {
        if a[off + i] != b[i] {
            assert(s@.subrange(s@.len() - suffix@.len(), s@.len() as int)[i as int] != suffix@[i as int]);
            return false;
        }
        i = i + 1;
    }
    assert(s@.subrange(s@.len() - suffix@.len(), s@.len() as int) =~= suffix@);
    true
}

/// True when `id` is a team tool (`GrokBuild:spawn_teammate` or bare name).
pub fn is_team_tool_id(id: &str) -> (b: bool)
    ensures
        b == is_team_tool_view(id@),
{
    let names = team_tool_names();
    let n = names.len();
    let mut k: usize = 0;
    proof {
        reveal_strlit(":");
    }
    while k < n
        invariant
            n == names.len(),
            k <= n,
            names@.map_values(|s: &str| s@) == team_tool_names_view(),
            forall|j: int|
                0 <= j < k ==> !(id@ == #[trigger] team_tool_names_view()[j] || ends_with_view(
                    id@,
                    ":"@ + team_tool_names_view()[j],
                )),
        decreases n - k,
    {
        let name = names[k];
        assert(name@ == team_tool_names_view()[k as int]);
        let qualified = concat_str(":", name);
        if str_eq(id, name) || ends_with(id, qualified.as_str()) {
            return true;
        }
        k = k + 1;
    }
    false
}

/// What a tool call carries besides its arguments.
#[derive(Debug)]
pub struct ToolCallContext {
    /// The calling session, when the runtime provides one.
    pub session_id: Option<String>,
    pub call_id: String,
}

/// Why a tool call failed.
#[derive(Debug)]
pub enum ToolError {
    Custom { code: String, message: String },
    InvalidArguments(String),
}

pub enum ToolErrorView {
    Custom { code: Seq<char>, message: Seq<char> },
    InvalidArguments(Seq<char>),
}

impl View for ToolError {
    type V = ToolErrorView;

    open spec fn view(&self) -> ToolErrorView {
        match self {
            ToolError::Custom { code, message } => ToolErrorView::Custom {
                code: code@,
                message: message@,
            },
            ToolError::InvalidArguments(m) => ToolErrorView::InvalidArguments(m@),
        }
    }
}

impl ToolError {
    /// The message the model sees.
    pub fn message(&self) -> (s: &str)
        ensures
            s@ == match self@ {
                ToolErrorView::Custom { message, .. } => message,
                ToolErrorView::InvalidArguments(m) => m,
            },
    {
        match self {
            ToolError::Custom { message, .. } => message.as_str(),
            ToolError::InvalidArguments(m) => m.as_str(),
        }
    }
}

/// Whether a tool only reads.
#[derive(Debug, Clone, Copy, PartialEq, Eq, Structural)]
pub enum ToolScope {
    Read,
    Write,
}

/// What the session runtime needs to know of a tool.
#[derive(Debug, Clone, Copy, PartialEq, Eq, Structural)]
pub struct ToolCapabilities {
    pub is_read_only: bool,
    pub tool_scope: ToolScope,
}

pub open spec fn invalid(m: Seq<char>) -> ToolErrorView {
    ToolErrorView::InvalidArguments(m)
}

fn invalid_arguments(m: &str) -> (e: ToolError)
    ensures
        e@ == invalid(m@),
{
    ToolError::InvalidArguments(owned(m))
}

/// The calling session, or `missing_session`.
pub open spec fn session_view(sid: Option<Seq<char>>) -> Result<Seq<char>, ToolErrorView> {
    match sid {
        Some(s) => Ok(s),
        None => Err(
            ToolErrorView::Custom {
                code: "missing_session"@,
                message: "SessionContext is required"@,
            },
        ),
    }
}

fn session_id(ctx: &ToolCallContext) -> (r: Result<String, ToolError>)
    ensures
        match (r, session_view(ctx.session_id.deep_view())) {
            (Ok(a), Ok(b)) => a@ == b,
            (Err(a), Err(b)) => a@ == b,
            _ => false,
        },
{
    match &ctx.session_id {
        Some(s) => Ok(s.clone()),
        None => {
            proof {
                reveal_strlit("missing_session");
                reveal_strlit("SessionContext is required");
            }
            Err(
                ToolError::Custom {
                    code: owned("missing_session"),
                    message: owned("SessionContext is required"),
                },
            )
        },
    }
}

/// The caller's member record, or a refusal.
pub open spec fn require_member_view(team: TeamConfigView, sid: Seq<char>) -> Result<
    TeamMemberView,
    ToolErrorView,
> {
    match team.member_for_session(sid) {
        Some(m) => Ok(m),
        None => Err(invalid("this session is not a member of the team"@)),
    }
}

fn require_member<'a>(team: &'a TeamConfig, sid: &str) -> (r: Result<&'a TeamMember, ToolError>)
    ensures
        match (r, require_member_view(team@, sid@)) {
            (Ok(a), Ok(b)) => a@ == b,
            (Err(a), Err(b)) => a@ == b,
            _ => false,
        },
{
    proof {
        reveal_strlit("this session is not a member of the team");
    }
    match team.member_for_session(sid) {
        Some(m) => Ok(m),
        None => Err(invalid_arguments("this session is not a member of the team")),
    }
}

/// The team of the calling session, or a refusal.
pub open spec fn team_view(s: StoreView, sid: Seq<char>) -> Result<TeamConfigView, ToolErrorView> {
    match s.find_by_session(sid) {
        Some(t) => Ok(t),
        None => Err(invalid("this session is not on a team"@)),
    }
}

fn team_for_session(store: &TeamStore, sid: &str) -> (r: Result<TeamConfig, ToolError>)
    requires
        store.wf(),
    ensures
        match (r, team_view(store@, sid@)) {
            (Ok(a), Ok(b)) => a@ == b,
            (Err(a), Err(b)) => a@ == b,
            _ => false,
        },
{
    proof {
        reveal_strlit("this session is not on a team");
    }
    match store.find_by_session(sid) {
        Ok(Some(t)) => Ok(t),
        _ => Err(invalid_arguments("this session is not on a team")),
    }
}

// --- spawn_teammate ---

#[derive(Debug, Clone)]
pub struct SpawnTeammateInput {
    /// The member name, matching `[a-z][a-z0-9_-]{0,31}`.
    pub name: String,
    /// Prompt the teammate should receive when its session starts.
    pub prompt: String,
}

#[derive(Debug, Clone)]
pub struct SpawnTeammateOutput {
    pub team_id: String,
    pub name: String,
    pub spawn_pending: bool,
    pub message: String,
}

pub struct SpawnOutputView {
    pub team_id: Seq<char>,
    pub name: Seq<char>,
    pub spawn_pending: bool,
    pub message: Seq<char>,
}

impl View for SpawnTeammateOutput {
    type V = SpawnOutputView;

    open spec fn view(&self) -> SpawnOutputView {
        SpawnOutputView {
            team_id: self.team_id@,
            name: self.name@,
            spawn_pending: self.spawn_pending,
            message: self.message@,
        }
    }
}

#[derive(Debug, Default)]
pub struct SpawnTeammateTool;

/// `spawn_teammate`: validates the name and prompt, finds the caller's team
/// (the caller must lead it) or creates one with the caller as `lead`, then
/// records the teammate as pending with its prompt.
pub open spec fn spawn_teammate_view(
    s: StoreView,
    sid: Option<Seq<char>>,
    name: Seq<char>,
    prompt: Seq<char>,
    now: i64,
) -> (StoreView, Result<SpawnOutputView, ToolErrorView>) {
    if !valid_member_name_view(name) {
        (s, Err(invalid("name must match [a-z][a-z0-9_-]{0,31}"@)))
    } else if is_blank_view(prompt) {
        (s, Err(invalid("prompt must not be empty"@)))
    } else {
        match session_view(sid) {
            Err(e) => (s, Err(e)),
            Ok(sid) => {
                let (s1, team) = match s.find_by_session(sid) {
                    Some(existing) => match require_member_view(existing, sid) {
                        Err(e) => (s, Err(e)),
                        Ok(m) => if m.role != MemberRole::TeamLead {
                            (s, Err(invalid("only the team lead can spawn teammates"@)))
                        } else {
                            (s, Ok(existing))
                        },
                    },
                    None => {
                        let (s1, r) = s.create_for_lead(sid, "lead"@, now);
                        match r {
                            Ok(c) => (s1, Ok(c)),
                            Err(e) => (s1, Err(invalid(store_error_text(e)))),
                        }
                    },
                };
                match team {
                    Err(e) => (s1, Err(e)),
                    Ok(team) => if name == "lead"@ {
                        (s1, Err(invalid("name 'lead' is reserved"@)))
                    } else {
                        let (s2, r) = s1.add_member(team.team_id, name, None, Some(prompt));
                        match r {
                            Err(e) => (s2, Err(invalid(store_error_text(e)))),
                            Ok(_) => (
                                s2,
                                Ok(
                                    SpawnOutputView {
                                        team_id: team.team_id,
                                        name,
                                        spawn_pending: true,
                                        message: "Teammate recorded. The pager will start a top-level session (not a subagent)."@,
                                    },
                                ),
                            ),
                        }
                    },
                }
            },
        }
    }
}

impl SpawnTeammateTool {
    pub fn description_template(&self) -> (s: &'static str)
        ensures
            s@ == "Spawn a named teammate for this agent team. The teammate is a full top-level session, not a subagent. Only the lead may call this. The pager creates the session after this call; do not also call spawn_subagent."@,
    {
        "Spawn a named teammate for this agent team. The teammate is a full top-level session, not a subagent. Only the lead may call this. The pager creates the session after this call; do not also call spawn_subagent."
    }

    pub fn capabilities(&self) -> (c: ToolCapabilities)
        ensures
            !c.is_read_only,
            c.tool_scope == ToolScope::Write,
    {
        ToolCapabilities { is_read_only: false, tool_scope: ToolScope::Write }
    }

    pub fn run(
        &self,
        ctx: &ToolCallContext,
        store: &mut TeamStore,
        input: SpawnTeammateInput,
        now_unix_ms: i64,
    ) -> (r: Result<SpawnTeammateOutput, ToolError>)
        requires
            old(store).wf(),
        ensures
            final(store).wf(),
            ({
                let (s, want) = spawn_teammate_view(
                    old(store)@,
                    ctx.session_id.deep_view(),
                    input.name@,
                    input.prompt@,
                    now_unix_ms,
                );
                &&& final(store)@ == s
                &&& match (r, want) {
                    (Ok(a), Ok(b)) => a@ == b,
                    (Err(a), Err(b)) => a@ == b,
                    _ => false,
                }
            }),
    {
        proof {
            reveal_strlit("name must match [a-z][a-z0-9_-]{0,31}");
            reveal_strlit("prompt must not be empty");
            reveal_strlit("only the team lead can spawn teammates");
            reveal_strlit("lead");
            reveal_strlit("name 'lead' is reserved");
            reveal_strlit(
                "Teammate recorded. The pager will start a top-level session (not a subagent).",
            );
        }
        if !valid_member_name(input.name.as_str()) {
            return Err(invalid_arguments("name must match [a-z][a-z0-9_-]{0,31}"));
        }
        if is_blank(input.prompt.as_str()) {
            return Err(invalid_arguments("prompt must not be empty"));
        }
        let sid = match session_id(ctx) {
            Ok(s) => s,
            Err(e) => return Err(e),
        };
        let team = match store.find_by_session(sid.as_str()) {
            Ok(Some(existing)) => {
                match require_member(&existing, sid.as_str()) {
                    Err(e) => return Err(e),
                    Ok(m) => {
                        if m.role != MemberRole::TeamLead {
                            return Err(invalid_arguments("only the team lead can spawn teammates"));
                        }
                    },
                }
                existing
            },
            _ => match store.create_for_lead(sid.as_str(), "lead", now_unix_ms) {
                Ok(c) => c,
                Err(e) => return Err(ToolError::InvalidArguments(e.message())),
            },
        };
        if str_eq(input.name.as_str(), "lead") {
            return Err(invalid_arguments("name 'lead' is reserved"));
        }
        match store.add_member(
            team.team_id.as_str(),
            input.name.as_str(),
            None,
            Some(input.prompt),
        ) {
            Err(e) => return Err(ToolError::InvalidArguments(e.message())),
            Ok(_) => {},
        }
        Ok(
            SpawnTeammateOutput {
                team_id: team.team_id,
                name: input.name,
                spawn_pending: true,
                message: owned(
                    "Teammate recorded. The pager will start a top-level session (not a subagent).",
                ),
            },
        )
    }
}

// --- send_message ---

#[derive(Debug, Clone)]
pub struct SendMessageInput {
    /// Recipient member name.
    pub to: String,
    pub body: String,
    pub subject: Option<String>,
    /// `text` | `plan_approval` | `shutdown` | `task_update` | `idle` | `failed`.
    pub kind: Option<String>,
}

#[derive(Debug, Clone)]
pub struct SendMessageOutput {
    pub id: String,
    pub to: String,
}

#[derive(Debug, Default)]
pub struct SendMessageTool;

/// The message kind a tool argument names.
pub open spec fn kind_view(kind: Option<Seq<char>>) -> Result<MailboxKind, ToolErrorView> {
    match kind {
        None => Ok(MailboxKind::Text),
        Some(k) => if k == "text"@ {
            Ok(MailboxKind::Text)
        } else if k == "plan_approval"@ {
            Ok(MailboxKind::PlanApproval)
        } else if k == "shutdown"@ {
            Ok(MailboxKind::Shutdown)
        } else if k == "task_update"@ {
            Ok(MailboxKind::TaskUpdate)
        } else if k == "idle"@ {
            Ok(MailboxKind::Idle)
        } else if k == "failed"@ {
            Ok(MailboxKind::Failed)
        } else {
            Err(invalid("unknown kind: "@ + k))
        },
    }
}

fn parse_kind(kind: &Option<String>) -> (r: Result<MailboxKind, ToolError>)
    ensures
        match (r, kind_view(kind.deep_view())) {
            (Ok(a), Ok(b)) => a == b,
            (Err(a), Err(b)) => a@ == b,
            _ => false,
        },
{
    proof {
        reveal_strlit("text");
        reveal_strlit("plan_approval");
        reveal_strlit("shutdown");
        reveal_strlit("task_update");
        reveal_strlit("idle");
        reveal_strlit("failed");
        reveal_strlit("unknown kind: ");
    }
    match kind {
        None => Ok(MailboxKind::Text),
        Some(k) => {
            if str_eq(k.as_str(), "text") {
                Ok(MailboxKind::Text)
            } else if str_eq(k.as_str(), "plan_approval") {
                Ok(MailboxKind::PlanApproval)
            } else if str_eq(k.as_str(), "shutdown") {
                Ok(MailboxKind::Shutdown)
            } else if str_eq(k.as_str(), "task_update") {
                Ok(MailboxKind::TaskUpdate)
            } else if str_eq(k.as_str(), "idle") {
                Ok(MailboxKind::Idle)
            } else if str_eq(k.as_str(), "failed") {
                Ok(MailboxKind::Failed)
            } else {
                Err(ToolError::InvalidArguments(concat_str("unknown kind: ", k.as_str())))
            }
        },
    }
}

/// `send_message`: a non-blank body, from the caller's member name to `to`,
/// with id `m-{call_id}`.
pub open spec fn send_message_view(
    s: StoreView,
    sid: Option<Seq<char>>,
    call_id: Seq<char>,
    to: Seq<char>,
    body: Seq<char>,
    subject: Option<Seq<char>>,
    kind: Option<Seq<char>>,
    now: i64,
) -> (StoreView, Result<(Seq<char>, Seq<char>), ToolErrorView>) {
    if is_blank_view(body) {
        (s, Err(invalid("body must not be empty"@)))
    } else {
        match session_view(sid) {
            Err(e) => (s, Err(e)),
            Ok(sid) => match team_view(s, sid) {
                Err(e) => (s, Err(e)),
                Ok(team) => match require_member_view(team, sid) {
                    Err(e) => (s, Err(e)),
                    Ok(from) => match kind_view(kind) {
                        Err(e) => (s, Err(e)),
                        Ok(k) => {
                            let (s2, r) = s.send_message(
                                team.team_id,
                                from.name,
                                to,
                                k,
                                subject,
                                body,
                                now,
                                "m-"@ + call_id,
                            );
                            match r {
                                Ok(m) => (s2, Ok((m.id, m.to))),
                                Err(e) => (s2, Err(invalid(mailbox_error_text(e)))),
                            }
                        },
                    },
                },
            },
        }
    }
}

impl SendMessageTool {
    pub fn description_template(&self) -> (s: &'static str)
        ensures
            s@ == "Send a mailbox message to another teammate by name. The recipient is a team member, not a subagent. Use this instead of summarizing for the lead to relay."@,
    {
        "Send a mailbox message to another teammate by name. The recipient is a team member, not a subagent. Use this instead of summarizing for the lead to relay."
    }

    pub fn capabilities(&self) -> (c: ToolCapabilities)
        ensures
            !c.is_read_only,
            c.tool_scope == ToolScope::Write,
    {
        ToolCapabilities { is_read_only: false, tool_scope: ToolScope::Write }
    }

    pub fn run(
        &self,
        ctx: &ToolCallContext,
        store: &mut TeamStore,
        input: SendMessageInput,
        now_unix_ms: i64,
    ) -> (r: Result<SendMessageOutput, ToolError>)
        requires
            old(store).wf(),
        ensures
            final(store).wf(),
            ({
                let (s, want) = send_message_view(
                    old(store)@,
                    ctx.session_id.deep_view(),
                    ctx.call_id@,
                    input.to@,
                    input.body@,
                    input.subject.deep_view(),
                    input.kind.deep_view(),
                    now_unix_ms,
                );
                &&& final(store)@ == s
                &&& match (r, want) {
                    (Ok(a), Ok(b)) => a.id@ == b.0 && a.to@ == b.1,
                    (Err(a), Err(b)) => a@ == b,
                    _ => false,
                }
            }),
    {
        proof {
            reveal_strlit("body must not be empty");
            reveal_strlit("m-");
        }
        if is_blank(input.body.as_str()) {
            return Err(invalid_arguments("body must not be empty"));
        }
        let sid = match session_id(ctx) {
            Ok(s) => s,
            Err(e) => return Err(e),
        };
        let team = match team_for_session(store, sid.as_str()) {
            Ok(t) => t,
            Err(e) => return Err(e),
        };
        let from = match require_member(&team, sid.as_str()) {
            Ok(m) => m,
            Err(e) => return Err(e),
        };
        let kind = match parse_kind(&input.kind) {
            Ok(k) => k,
            Err(e) => return Err(e),
        };
        let id = concat_str("m-", ctx.call_id.as_str());
        match send_message(
            store,
            team.team_id.as_str(),
            from.name.as_str(),
            input.to.as_str(),
            kind,
            input.subject,
            input.body,
            now_unix_ms,
            id,
        ) {
            Ok(msg) => Ok(SendMessageOutput { id: msg.id, to: msg.to }),
            Err(e) => Err(ToolError::InvalidArguments(e.message())),
        }
    }
}

// --- team_task_create ---

#[derive(Debug, Clone)]
pub struct TeamTaskCreateInput {
    pub title: String,
    pub depends_on: Vec<String>,
}

#[derive(Debug, Clone)]
pub struct TeamTaskCreateOutput {
    pub id: String,
    pub title: String,
}

#[derive(Debug, Default)]
pub struct TeamTaskCreateTool;

/// `team_task_create`: the lead adds a pending task `t-{call_id}`.
pub open spec fn task_create_view(
    s: StoreView,
    sid: Option<Seq<char>>,
    call_id: Seq<char>,
    title: Seq<char>,
    depends_on: Seq<Seq<char>>,
    now: i64,
) -> (StoreView, Result<(Seq<char>, Seq<char>), ToolErrorView>) {
    if is_blank_view(title) {
        (s, Err(invalid("title must not be empty"@)))
    } else {
        match session_view(sid) {
            Err(e) => (s, Err(e)),
            Ok(sid) => match team_view(s, sid) {
                Err(e) => (s, Err(e)),
                Ok(team) => match require_member_view(team, sid) {
                    Err(e) => (s, Err(e)),
                    Ok(member) => if member.role != MemberRole::TeamLead {
                        (s, Err(invalid("only the team lead can create tasks"@)))
                    } else {
                        let (s2, task) = s.create_task(
                            team.team_id,
                            "t-"@ + call_id,
                            title,
                            depends_on,
                            now,
                        );
                        (s2, Ok((task.id, task.title)))
                    },
                },
            },
        }
    }
}

impl TeamTaskCreateTool {
    pub fn description_template(&self) -> (s: &'static str)
        ensures
            s@ == "Add a pending task to the team's shared list. Other members can claim it with team_task_claim."@,
    {
        "Add a pending task to the team's shared list. Other members can claim it with team_task_claim."
    }

    pub fn capabilities(&self) -> (c: ToolCapabilities)
        ensures
            !c.is_read_only,
            c.tool_scope == ToolScope::Write,
    {
        ToolCapabilities { is_read_only: false, tool_scope: ToolScope::Write }
    }

    pub fn run(
        &self,
        ctx: &ToolCallContext,
        store: &mut TeamStore,
        input: TeamTaskCreateInput,
        now_unix_ms: i64,
    ) -> (r: Result<TeamTaskCreateOutput, ToolError>)
        requires
            old(store).wf(),
        ensures
            final(store).wf(),
            ({
                let (s, want) = task_create_view(
                    old(store)@,
                    ctx.session_id.deep_view(),
                    ctx.call_id@,
                    input.title@,
                    input.depends_on.deep_view(),
                    now_unix_ms,
                );
                &&& final(store)@ == s
                &&& match (r, want) {
                    (Ok(a), Ok(b)) => a.id@ == b.0 && a.title@ == b.1,
                    (Err(a), Err(b)) => a@ == b,
                    _ => false,
                }
            }),
    {
        proof {
            reveal_strlit("title must not be empty");
            reveal_strlit("only the team lead can create tasks");
            reveal_strlit("t-");
        }
        if is_blank(input.title.as_str()) {
            return Err(invalid_arguments("title must not be empty"));
        }
        let sid = match session_id(ctx) {
            Ok(s) => s,
            Err(e) => return Err(e),
        };
        let team = match team_for_session(store, sid.as_str()) {
            Ok(t) => t,
            Err(e) => return Err(e),
        };
        let member = match require_member(&team, sid.as_str()) {
            Ok(m) => m,
            Err(e) => return Err(e),
        };
        if member.role != MemberRole::TeamLead {
            return Err(invalid_arguments("only the team lead can create tasks"));
        }
        let id = concat_str("t-", ctx.call_id.as_str());
        match create_task(store, team.team_id.as_str(), id, input.title, input.depends_on, now_unix_ms) {
            Ok(task) => Ok(TeamTaskCreateOutput { id: task.id, title: task.title }),
            Err(e) => Err(ToolError::InvalidArguments(e.message())),
        }
    }
}

// --- team_task_claim ---

#[derive(Debug, Clone)]
pub struct TeamTaskClaimInput {
    pub task_id: String,
}

#[derive(Debug, Clone)]
pub struct TeamTaskClaimOutput {
    pub id: String,
    pub assignee: String,
}

#[derive(Debug, Default)]
pub struct TeamTaskClaimTool;

/// `team_task_claim`: the caller claims the task under its member name.
pub open spec fn task_claim_view(s: StoreView, sid: Option<Seq<char>>, task_id: Seq<char>) -> (
    StoreView,
    Result<(Seq<char>, Seq<char>), ToolErrorView>,
) {
    match session_view(sid) {
        Err(e) => (s, Err(e)),
        Ok(sid) => match team_view(s, sid) {
            Err(e) => (s, Err(e)),
            Ok(team) => match require_member_view(team, sid) {
                Err(e) => (s, Err(e)),
                Ok(member) => {
                    let (s2, r) = s.claim_task(team.team_id, task_id, member.name);
                    match r {
                        Ok(t) => (s2, Ok((t.id, match t.assignee {
                            Some(a) => a,
                            None => Seq::empty(),
                        }))),
                        Err(e) => (s2, Err(invalid(task_error_text(e)))),
                    }
                },
            },
        },
    }
}

impl TeamTaskClaimTool {
    pub fn description_template(&self) -> (s: &'static str)
        ensures
            s@ == "Claim a pending unblocked team task. Fails if another member already claimed it or dependencies are unfinished."@,
    {
        "Claim a pending unblocked team task. Fails if another member already claimed it or dependencies are unfinished."
    }

    pub fn capabilities(&self) -> (c: ToolCapabilities)
        ensures
            !c.is_read_only,
            c.tool_scope == ToolScope::Write,
    {
        ToolCapabilities { is_read_only: false, tool_scope: ToolScope::Write }
    }

    pub fn run(&self, ctx: &ToolCallContext, store: &mut TeamStore, input: TeamTaskClaimInput) -> (r:
        Result<TeamTaskClaimOutput, ToolError>)
        requires
            old(store).wf(),
        ensures
            final(store).wf(),
            ({
                let (s, want) = task_claim_view(old(store)@, ctx.session_id.deep_view(), input.task_id@);
                &&& final(store)@ == s
                &&& match (r, want) {
                    (Ok(a), Ok(b)) => a.id@ == b.0 && a.assignee@ == b.1,
                    (Err(a), Err(b)) => a@ == b,
                    _ => false,
                }
            }),
    {
        let sid = match session_id(ctx) {
            Ok(s) => s,
            Err(e) => return Err(e),
        };
        let team = match team_for_session(store, sid.as_str()) {
            Ok(t) => t,
            Err(e) => return Err(e),
        };
        let member = match require_member(&team, sid.as_str()) {
            Ok(m) => m,
            Err(e) => return Err(e),
        };
        match claim_task(store, team.team_id.as_str(), input.task_id.as_str(), member.name.as_str()) {
            Ok(claimed) => {
                let assignee = match claimed.assignee {
                    Some(a) => a,
                    None => String::new(),
                };
                Ok(TeamTaskClaimOutput { id: claimed.id, assignee })
            },
            Err(e) => Err(ToolError::InvalidArguments(e.message())),
        }
    }
}

// --- team_task_complete ---

#[derive(Debug, Clone)]
pub struct TeamTaskCompleteInput {
    pub task_id: String,
}

#[derive(Debug, Clone)]
pub struct TeamTaskCompleteOutput {
    pub id: String,
}

#[derive(Debug, Default)]
pub struct TeamTaskCompleteTool;

/// Whether `member` may complete the task at `i` of `tasks`: the lead may
/// complete any task, a teammate only one assigned to it.
pub open spec fn may_complete(member: TeamMemberView, tasks: Seq<TeamTaskView>, i: int) -> bool {
    member.role == MemberRole::TeamLead || tasks[i].assignee == Some(member.name)
}

/// `team_task_complete`: the task's assignee or the lead marks it completed.
pub open spec fn task_complete_view(s: StoreView, sid: Option<Seq<char>>, task_id: Seq<char>) -> (
    StoreView,
    Result<Seq<char>, ToolErrorView>,
) {
    match session_view(sid) {
        Err(e) => (s, Err(e)),
        Ok(sid) => match team_view(s, sid) {
            Err(e) => (s, Err(e)),
            Ok(team) => match require_member_view(team, sid) {
                Err(e) => (s, Err(e)),
                Ok(member) => {
                    let tasks = s.read_tasks(team.team_id);
                    let i = first_index(tasks, has_id(task_id));
                    if i < tasks.len() && !may_complete(member, tasks, i) {
                        (s, Err(invalid("only the task's assignee or the team lead may mark it completed"@)))
                    } else {
                    let (s2, r) = s.complete_task(team.team_id, task_id);
                    match r {
                        Ok(t) => (s2, Ok(t.id)),
                        Err(e) => (s2, Err(invalid(task_error_text(e)))),
                    }
                    }
                },
            },
        },
    }
}

impl TeamTaskCompleteTool {
    pub fn description_template(&self) -> (s: &'static str)
        ensures
            s@ == "Mark a team task completed. Unblocks dependents so another member can claim them."@,
    {
        "Mark a team task completed. Unblocks dependents so another member can claim them."
    }

    pub fn capabilities(&self) -> (c: ToolCapabilities)
        ensures
            !c.is_read_only,
            c.tool_scope == ToolScope::Write,
    {
        ToolCapabilities { is_read_only: false, tool_scope: ToolScope::Write }
    }

    pub fn run(&self, ctx: &ToolCallContext, store: &mut TeamStore, input: TeamTaskCompleteInput) -> (r:
        Result<TeamTaskCompleteOutput, ToolError>)
        requires
            old(store).wf(),
        ensures
            final(store).wf(),
            ({
                let (s, want) = task_complete_view(old(store)@, ctx.session_id.deep_view(), input.task_id@);
                &&& final(store)@ == s
                &&& match (r, want) {
                    (Ok(a), Ok(b)) => a.id@ == b,
                    (Err(a), Err(b)) => a@ == b,
                    _ => false,
                }
            }),
    {
        let sid = match session_id(ctx) {
            Ok(s) => s,
            Err(e) => return Err(e),
        };
        let team = match team_for_session(store, sid.as_str()) {
            Ok(t) => t,
            Err(e) => return Err(e),
        };
        let member = match require_member(&team, sid.as_str()) {
            Ok(m) => m,
            Err(e) => return Err(e),
        };
        let tasks = match store.read_tasks(team.team_id.as_str()) {
            Ok(v) => v,
            Err(e) => return Err(ToolError::InvalidArguments(e.message())),
        };
        if let Some(i) = task_position(&tasks, input.task_id.as_str()) {
            let allowed = member.role == MemberRole::TeamLead || match &tasks[i].assignee {
                Some(a) => str_eq(a.as_str(), member.name.as_str()),
                None => false,
            };
            if !allowed {
                proof {
                    reveal_strlit("only the task's assignee or the team lead may mark it completed");
                }
                return Err(invalid_arguments("only the task's assignee or the team lead may mark it completed"));
            }
        }
        match complete_task(store, team.team_id.as_str(), input.task_id.as_str()) {
            Ok(done) => Ok(TeamTaskCompleteOutput { id: done.id }),
            Err(e) => Err(ToolError::InvalidArguments(e.message())),
        }
    }
}

// --- team_status ---

#[derive(Debug, Clone)]
pub struct TeamStatusInput {}

#[derive(Debug, Clone)]
pub struct TeamStatusOutput {
    pub team_id: String,
    pub members: Vec<String>,
    pub pending_spawns: Vec<String>,
    pub tasks: usize,
    pub you: String,
    /// Each member's unread mailbox count (messages after its cursor), in
    /// member order.
    pub unread: Vec<usize>,
}

pub struct StatusView {
    pub team_id: Seq<char>,
    pub members: Seq<Seq<char>>,
    pub pending_spawns: Seq<Seq<char>>,
    pub tasks: nat,
    pub you: Seq<char>,
    pub unread: Seq<nat>,
}

#[derive(Debug, Default)]
pub struct TeamStatusTool;

/// Names of teammates that no session holds yet, in member order.
pub open spec fn pending_spawn_names(members: Seq<TeamMemberView>) -> Seq<Seq<char>>
    decreases members.len(),
{
    if members.len() == 0 {
        Seq::empty()
    } else {
        let r = pending_spawn_names(members.drop_last());
        if members.last().role == MemberRole::Teammate && members.last().session_id is None {
            r.push(members.last().name)
        } else {
            r
        }
    }
}

/// `team_status`: the caller's team, its member names, the teammates not yet
/// started, the task count, the caller's own name, and each member's
/// unread mailbox count.
pub open spec fn team_status_view(s: StoreView, sid: Option<Seq<char>>) -> Result<StatusView, ToolErrorView> {
    match session_view(sid) {
        Err(e) => Err(e),
        Ok(sid) => match team_view(s, sid) {
            Err(e) => Err(e),
            Ok(team) => match require_member_view(team, sid) {
                Err(e) => Err(e),
                Ok(you) => Ok(
                    StatusView {
                        team_id: team.team_id,
                        members: team.members.map_values(|m: TeamMemberView| m.name),
                        pending_spawns: pending_spawn_names(team.members),
                        tasks: s.read_tasks(team.team_id).len(),
                        you: you.name,
                        unread: team.members.map_values(
                            |m: TeamMemberView| member_unread(s, team.team_id, m.name),
                        ),
                    },
                ),
            },
        },
    }
}

impl TeamStatusTool {
    pub fn description_template(&self) -> (s: &'static str)
        ensures
            s@ == "Snapshot of this team's members, pending spawns, and task count."@,
    {
        "Snapshot of this team's members, pending spawns, and task count."
    }

    pub fn capabilities(&self) -> (c: ToolCapabilities)
        ensures
            c.is_read_only,
            c.tool_scope == ToolScope::Read,
    {
        ToolCapabilities { is_read_only: true, tool_scope: ToolScope::Read }
    }

    pub fn run(&self, ctx: &ToolCallContext, store: &TeamStore, input: TeamStatusInput) -> (r: Result<
        TeamStatusOutput,
        ToolError,
    >)
        requires
            store.wf(),
        ensures
            match (r, team_status_view(store@, ctx.session_id.deep_view())) {
                (Ok(a), Ok(b)) => a.team_id@ == b.team_id && a.members.deep_view() == b.members
                    && a.pending_spawns.deep_view() == b.pending_spawns && a.tasks == b.tasks
                    && a.you@ == b.you && a.unread@.map_values(|n: usize| n as nat) == b.unread,
                (Err(a), Err(b)) => a@ == b,
                _ => false,
            },
    {
        let sid = match session_id(ctx) {
            Ok(s) => s,
            Err(e) => return Err(e),
        };
        let team = match team_for_session(store, sid.as_str()) {
            Ok(t) => t,
            Err(e) => return Err(e),
        };
        let you = match require_member(&team, sid.as_str()) {
            Ok(m) => m.name.clone(),
            Err(e) => return Err(e),
        };
        let ghost tv = team@;
        let mut members: Vec<String> = Vec::new();
        let mut pending: Vec<String> = Vec::new();
        let mut unread: Vec<usize> = Vec::new();
        let n = team.members.len();
        let mut i: usize = 0;
        while i < n
            invariant
                n == team.members.len(),
                tv == team@,
                i <= n,
                members.deep_view() == tv.members.subrange(0, i as int).map_values(
                    |m: TeamMemberView| m.name,
                ),
                pending.deep_view() == pending_spawn_names(tv.members.subrange(0, i as int)),
                store.wf(),
                unread@.map_values(|k: usize| k as nat) == tv.members.subrange(0, i as int).map_values(
                    |m: TeamMemberView| member_unread(store@, tv.team_id, m.name),
                ),
            decreases n - i,
        {
            let m = &team.members[i];
            let ghost before = tv.members.subrange(0, i as int);
            let ghost after = tv.members.subrange(0, i as int + 1);
            assert(after.drop_last() =~= before);
            assert(after.last() == m@);
            let ghost pm = members.deep_view();
            members.push(m.name.clone());
            assert(members.deep_view() =~= pm.push(m@.name));
            assert(after.map_values(|m: TeamMemberView| m.name) =~= before.map_values(
                |m: TeamMemberView| m.name,
            ).push(m@.name));
            let ghost pu = unread@;
            let k = unread_for(store, team.team_id.as_str(), m.name.as_str());
            unread.push(k);
            assert(unread@.map_values(|k: usize| k as nat) =~= pu.map_values(|k: usize| k as nat).push(k as nat));
            assert(after.map_values(|m: TeamMemberView| member_unread(store@, tv.team_id, m.name))
                =~= before.map_values(|m: TeamMemberView| member_unread(store@, tv.team_id, m.name)).push(
                member_unread(store@, tv.team_id, m@.name),
            ));
            let ghost pp = pending.deep_view();
            if m.role == MemberRole::Teammate && m.session_id.is_none() {
                pending.push(m.name.clone());
                assert(pending.deep_view() =~= pp.push(m@.name));
            }
            i = i + 1;
        }
        assert(tv.members.subrange(0, n as int) =~= tv.members);
        let tasks = match store.read_tasks(team.team_id.as_str()) {
            Ok(v) => v.len(),
            Err(e) => return Err(ToolError::InvalidArguments(e.message())),
        };
        Ok(TeamStatusOutput { team_id: team.team_id, members, pending_spawns: pending, tasks, you, unread })
    }
}


/// The checks a tool call makes before it reads the store: these fail the
/// same way whatever the store holds, so a caller may make them before it
/// loads the team tree.
pub fn check_session(ctx: &ToolCallContext) -> (r: Result<(), ToolError>)
    ensures
        r is Ok <==> ctx.session_id is Some,
        r matches Err(e) ==> session_view(ctx.session_id.deep_view()) == Err::<Seq<char>, ToolErrorView>(e@),
        r matches Err(e) ==> forall|s: StoreView, task_id: Seq<char>| #[trigger] task_claim_view(
            s,
            ctx.session_id.deep_view(),
            task_id,
        ) == (s, Err::<(Seq<char>, Seq<char>), ToolErrorView>(e@)),
        r matches Err(e) ==> forall|s: StoreView, task_id: Seq<char>| #[trigger] task_complete_view(
            s,
            ctx.session_id.deep_view(),
            task_id,
        ) == (s, Err::<Seq<char>, ToolErrorView>(e@)),
        r matches Err(e) ==> forall|s: StoreView| #[trigger] team_status_view(s, ctx.session_id.deep_view())
            == Err::<StatusView, ToolErrorView>(e@),
{
    match session_id(ctx) {
        Ok(_) => Ok(()),
        Err(e) => Err(e),
    }
}

impl SpawnTeammateTool {
    /// The argument checks of `run`: a valid name, a non-blank prompt, and a
    /// calling session.
    pub fn check_arguments(&self, ctx: &ToolCallContext, input: &SpawnTeammateInput) -> (r: Result<(), ToolError>)
        ensures
            r is Ok <==> valid_member_name_view(input.name@) && !is_blank_view(input.prompt@)
                && ctx.session_id is Some,
            r matches Err(e) ==> forall|s: StoreView, now: i64| #[trigger] spawn_teammate_view(
                s,
                ctx.session_id.deep_view(),
                input.name@,
                input.prompt@,
                now,
            ) == (s, Err::<SpawnOutputView, ToolErrorView>(e@)),
    {
        proof {
            reveal_strlit("name must match [a-z][a-z0-9_-]{0,31}");
            reveal_strlit("prompt must not be empty");
        }
        if !valid_member_name(input.name.as_str()) {
            return Err(invalid_arguments("name must match [a-z][a-z0-9_-]{0,31}"));
        }
        if is_blank(input.prompt.as_str()) {
            return Err(invalid_arguments("prompt must not be empty"));
        }
        check_session(ctx)
    }
}

impl SendMessageTool {
    /// The argument checks of `run`: a non-blank body and a calling session.
    pub fn check_arguments(&self, ctx: &ToolCallContext, input: &SendMessageInput) -> (r: Result<(), ToolError>)
        ensures
            r is Ok <==> !is_blank_view(input.body@) && ctx.session_id is Some,
            r matches Err(e) ==> forall|s: StoreView, call_id: Seq<char>, now: i64| #[trigger] send_message_view(
                s,
                ctx.session_id.deep_view(),
                call_id,
                input.to@,
                input.body@,
                input.subject.deep_view(),
                input.kind.deep_view(),
                now,
            ) == (s, Err::<(Seq<char>, Seq<char>), ToolErrorView>(e@)),
    {
        proof {
            reveal_strlit("body must not be empty");
        }
        if is_blank(input.body.as_str()) {
            return Err(invalid_arguments("body must not be empty"));
        }
        check_session(ctx)
    }
}

impl TeamTaskCreateTool {
    /// The argument checks of `run`: a non-blank title and a calling session.
    pub fn check_arguments(&self, ctx: &ToolCallContext, input: &TeamTaskCreateInput) -> (r: Result<(), ToolError>)
        ensures
            r is Ok <==> !is_blank_view(input.title@) && ctx.session_id is Some,
            r matches Err(e) ==> forall|s: StoreView, call_id: Seq<char>, now: i64| #[trigger] task_create_view(
                s,
                ctx.session_id.deep_view(),
                call_id,
                input.title@,
                input.depends_on.deep_view(),
                now,
            ) == (s, Err::<(Seq<char>, Seq<char>), ToolErrorView>(e@)),
    {
        proof {
            reveal_strlit("title must not be empty");
        }
        if is_blank(input.title.as_str()) {
            return Err(invalid_arguments("title must not be empty"));
        }
        check_session(ctx)
    }
}

} // verus!
