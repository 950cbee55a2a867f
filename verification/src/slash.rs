//! `/team`: the lead's roster of the experimental agent team.
//!
//! Hidden unless agent teams are enabled. Teammates are top-level sessions,
//! not subagent children.
use vstd::prelude::*;
use crate::runtime::{format_team_status, team_status_text};
use crate::store::{StoreView, TeamStore};
use crate::text::{owned, str_eq, trim, trim_view};

verus! {

/// What a slash command answers.
#[derive(Debug, PartialEq, Eq)]
pub enum CommandResult {
    Error(String),
    Message(String),
}

pub enum CommandResultView {
    Error(Seq<char>),
    Message(Seq<char>),
}

impl View for CommandResult {
    type V = CommandResultView;

    open spec fn view(&self) -> CommandResultView {
        match self {
            CommandResult::Error(m) => CommandResultView::Error(m@),
            CommandResult::Message(m) => CommandResultView::Message(m@),
        }
    }
}

/// Show the current session's agent-team roster.
#[derive(Debug, Default)]
pub struct TeamCommand;

/// The answer to `/team {args}`: refused when teams are off or there is no
/// session; usage for an unknown argument or `help`; else the session's team
/// status.
pub open spec fn team_command_view(
    enabled: bool,
    session_id: Option<Seq<char>>,
    args: Seq<char>,
    s: StoreView,
) -> CommandResultView {
    let arg = trim_view(args);
    if !enabled {
        CommandResultView::Error(
            "Agent teams are off. Set GROK_EXPERIMENTAL_AGENT_TEAMS=1 or [features] agent_teams = true."@,
        )
    } else {
        match session_id {
            None => CommandResultView::Error("No active session"@),
            Some(sid) => if arg.len() != 0 && arg != "status"@ && arg != "help"@ {
                CommandResultView::Message(
                    "Usage: /team [status]\nShows members, unread mailbox counts, and shared tasks."@,
                )
            } else if arg == "help"@ {
                CommandResultView::Message(
                    "Usage: /team [status]\nTeammates are top-level sessions (not subagents). The lead calls spawn_teammate; peers use send_message and team_task_*."@,
                )
            } else {
                CommandResultView::Message(team_status_text(s, sid))
            },
        }
    }
}

impl TeamCommand {
    pub fn name(&self) -> (s: &'static str)
        ensures
            s@ == "team"@,
    {
        "team"
    }

    pub fn description(&self) -> (s: &'static str)
        ensures
            s@ == "Show this session's agent team (experimental)"@,
    {
        "Show this session's agent team (experimental)"
    }

    pub fn session_scoped(&self) -> (b: bool)
        ensures
            b,
    {
        true
    }

    pub fn usage(&self) -> (s: &'static str)
        ensures
            s@ == "/team [status]"@,
    {
        "/team [status]"
    }

    pub fn takes_args(&self) -> (b: bool)
        ensures
            b,
    {
        true
    }

    pub fn args_required(&self) -> (b: bool)
        ensures
            !b,
    {
        false
    }

    /// Listed only when agent teams are enabled.
    pub fn visible(&self, enabled: bool) -> (b: bool)
        ensures
            b == enabled,
    {
        enabled
    }

    pub fn run(&self, enabled: bool, session_id: Option<&str>, args: &str, store: &TeamStore) -> (r:
        CommandResult)
        requires
            store.wf(),
        ensures
            r@ == team_command_view(
                enabled,
                match session_id {
                    Some(s) => Some(s@),
                    None => None,
                },
                args@,
                store@,
            ),
    {
        proof {
            reveal_strlit(
                "Agent teams are off. Set GROK_EXPERIMENTAL_AGENT_TEAMS=1 or [features] agent_teams = true.",
            );
            reveal_strlit("No active session");
            reveal_strlit("status");
            reveal_strlit("help");
            reveal_strlit(
                "Usage: /team [status]\nShows members, unread mailbox counts, and shared tasks.",
            );
            reveal_strlit(
                "Usage: /team [status]\nTeammates are top-level sessions (not subagents). The lead calls spawn_teammate; peers use send_message and team_task_*.",
            );
        }
        if !enabled {
            return CommandResult::Error(
                owned(
                    "Agent teams are off. Set GROK_EXPERIMENTAL_AGENT_TEAMS=1 or [features] agent_teams = true.",
                ),
            );
        }
        let sid = match session_id {
            Some(s) => s,
            None => return CommandResult::Error(owned("No active session")),
        };
        let arg = trim(args);
        let is_status = str_eq(arg.as_str(), "status");
        let is_help = str_eq(arg.as_str(), "help");
        if !arg.as_str().is_empty() && !is_status && !is_help {
            return CommandResult::Message(
                owned("Usage: /team [status]\nShows members, unread mailbox counts, and shared tasks."),
            );
        }
        if is_help {
            return CommandResult::Message(
                owned(
                    "Usage: /team [status]\nTeammates are top-level sessions (not subagents). The lead calls spawn_teammate; peers use send_message and team_task_*.",
                ),
            );
        }
        CommandResult::Message(format_team_status(store, sid))
    }
}

} // verus!
