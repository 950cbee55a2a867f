use grok_team::store::TeamStore;
use grok_team::tools::{
    check_session,
    is_team_tool_id, SendMessageInput, SendMessageTool, SpawnTeammateInput, SpawnTeammateTool,
    TeamStatusInput, TeamStatusTool, TeamTaskClaimInput, TeamTaskClaimTool, TeamTaskCompleteInput,
    TeamTaskCompleteTool, TeamTaskCreateInput, TeamTaskCreateTool, ToolCallContext, ToolError,
};
use grok_team::types::{team_id_from_session, valid_member_name};

fn ctx(session: &str, call: &str) -> ToolCallContext {
    ToolCallContext { session_id: Some(session.to_string()), call_id: call.to_string() }
}

#[test]
fn team_id_helper_stable() {
    assert_eq!(
        team_id_from_session("019ffb5b-ad0b-7833-8305-0d9b097d7e74"),
        "session-019ffb5b"
    );
}

#[test]
fn is_team_tool_id_matches_qualified_and_bare() {
    assert!(is_team_tool_id("spawn_teammate"));
    assert!(is_team_tool_id("GrokBuild:send_message"));
    assert!(!is_team_tool_id("spawn_subagent"));
    assert!(!is_team_tool_id("task"));
}

#[test]
fn spawn_rejects_bad_name() {
    let mut store = TeamStore::new("/tmp/grok-home");
    let err = SpawnTeammateTool
        .run(
            &ctx("sess-1", "c1"),
            &mut store,
            SpawnTeammateInput { name: "Critic".into(), prompt: "inspect".into() },
            1,
        )
        .unwrap_err();
    assert!(err.message().contains("[a-z]"));
}

#[test]
fn member_names() {
    assert!(valid_member_name("critic"));
    assert!(valid_member_name("a"));
    assert!(valid_member_name("a-b_9"));
    assert!(valid_member_name(&"a".repeat(32)));
    assert!(!valid_member_name(&"a".repeat(33)));
    assert!(!valid_member_name(""));
    assert!(!valid_member_name("9a"));
    assert!(!valid_member_name("aB"));
    assert!(!valid_member_name("é"));
}

#[test]
fn spawn_then_status_then_tasks_flow() {
    let mut store = TeamStore::new("/tmp/grok-home");
    let out = SpawnTeammateTool
        .run(
            &ctx("019ffb5b-lead", "c1"),
            &mut store,
            SpawnTeammateInput { name: "critic".into(), prompt: "inspect the diff".into() },
            10,
        )
        .unwrap();
    assert_eq!(out.team_id, "session-019ffb5b");
    assert_eq!(out.name, "critic");
    assert!(out.spawn_pending);
    assert_eq!(
        out.message,
        "Teammate recorded. The pager will start a top-level session (not a subagent)."
    );

    let status = TeamStatusTool.run(&ctx("019ffb5b-lead", "c2"), &store, TeamStatusInput {}).unwrap();
    assert_eq!(status.team_id, "session-019ffb5b");
    assert_eq!(status.members, vec!["lead".to_string(), "critic".to_string()]);
    assert_eq!(status.pending_spawns, vec!["critic".to_string()]);
    assert_eq!(status.tasks, 0);
    assert_eq!(status.you, "lead");
    assert_eq!(status.unread, vec![0, 0]);

    let created = TeamTaskCreateTool
        .run(
            &ctx("019ffb5b-lead", "c3"),
            &mut store,
            TeamTaskCreateInput { title: "implement".into(), depends_on: vec![] },
            11,
        )
        .unwrap();
    assert_eq!(created.id, "t-c3");
    assert_eq!(created.title, "implement");

    let claimed = TeamTaskClaimTool
        .run(&ctx("019ffb5b-lead", "c4"), &mut store, TeamTaskClaimInput { task_id: "t-c3".into() })
        .unwrap();
    assert_eq!(claimed.id, "t-c3");
    assert_eq!(claimed.assignee, "lead");

    let done = TeamTaskCompleteTool
        .run(&ctx("019ffb5b-lead", "c5"), &mut store, TeamTaskCompleteInput { task_id: "t-c3".into() })
        .unwrap();
    assert_eq!(done.id, "t-c3");

    let sent = SendMessageTool
        .run(
            &ctx("019ffb5b-lead", "c6"),
            &mut store,
            SendMessageInput { to: "critic".into(), body: "hello".into(), subject: None, kind: Some("shutdown".into()) },
            12,
        )
        .unwrap();
    assert_eq!(sent.id, "m-c6");
    assert_eq!(sent.to, "critic");
    let inbox = store.read_inbox("session-019ffb5b", "critic").unwrap();
    assert_eq!(inbox.len(), 1);
    assert_eq!(inbox[0].kind, grok_team::types::MailboxKind::Shutdown);
}

#[test]
fn tool_refusals() {
    let mut store = TeamStore::new("/tmp/grok-home");
    let err = SpawnTeammateTool
        .run(&ctx("s1", "c"), &mut store, SpawnTeammateInput { name: "rev".into(), prompt: "  ".into() }, 1)
        .unwrap_err();
    assert_eq!(err.message(), "prompt must not be empty");
    let missing = ToolCallContext { session_id: None, call_id: "c".into() };
    let err = SpawnTeammateTool
        .run(&missing, &mut store, SpawnTeammateInput { name: "rev".into(), prompt: "go".into() }, 1)
        .unwrap_err();
    assert!(matches!(&err, ToolError::Custom { code, .. } if code == "missing_session"));
    assert_eq!(err.message(), "SessionContext is required");
    let err = SpawnTeammateTool
        .run(&ctx("aa11", "c"), &mut store, SpawnTeammateInput { name: "lead".into(), prompt: "go".into() }, 1)
        .unwrap_err();
    assert_eq!(err.message(), "name 'lead' is reserved");
    SpawnTeammateTool
        .run(&ctx("aa11", "c"), &mut store, SpawnTeammateInput { name: "rev".into(), prompt: "go".into() }, 1)
        .unwrap();
    store.bind_session("session-aa11", "rev", "rev-sid").unwrap();
    let err = SpawnTeammateTool
        .run(&ctx("rev-sid", "c"), &mut store, SpawnTeammateInput { name: "two".into(), prompt: "go".into() }, 1)
        .unwrap_err();
    assert_eq!(err.message(), "only the team lead can spawn teammates");
    let err = SendMessageTool
        .run(
            &ctx("rev-sid", "c9"),
            &mut store,
            SendMessageInput { to: "lead".into(), body: "x".into(), subject: None, kind: Some("memo".into()) },
            2,
        )
        .unwrap_err();
    assert_eq!(err.message(), "unknown kind: memo");
    let err = SendMessageTool
        .run(
            &ctx("nobody", "c9"),
            &mut store,
            SendMessageInput { to: "lead".into(), body: "x".into(), subject: None, kind: None },
            2,
        )
        .unwrap_err();
    assert_eq!(err.message(), "this session is not on a team");
    let err = SendMessageTool
        .run(
            &ctx("rev-sid", "c9"),
            &mut store,
            SendMessageInput { to: "rev".into(), body: "x".into(), subject: None, kind: None },
            2,
        )
        .unwrap_err();
    assert_eq!(err.message(), "cannot send a mailbox message to self");
    let err = TeamTaskCreateTool
        .run(&ctx("rev-sid", "c9"), &mut store, TeamTaskCreateInput { title: "".into(), depends_on: vec![] }, 2)
        .unwrap_err();
    assert_eq!(err.message(), "title must not be empty");
    let err = TeamTaskClaimTool
        .run(&ctx("rev-sid", "c9"), &mut store, TeamTaskClaimInput { task_id: "t-x".into() })
        .unwrap_err();
    assert_eq!(err.message(), "task not found: t-x");
}

#[test]
fn capabilities_and_descriptions() {
    assert!(TeamStatusTool.capabilities().is_read_only);
    assert!(!SpawnTeammateTool.capabilities().is_read_only);
    assert!(SpawnTeammateTool.description_template().contains("spawn_subagent"));
    assert!(SendMessageTool.description_template().starts_with("Send a mailbox message"));
}

#[test]
fn task_roles_follow_the_guide() {
    let mut store = TeamStore::new("/tmp/grok-home");
    for name in ["alpha", "beta"] {
        SpawnTeammateTool
            .run(&ctx("cafe01", "c0"), &mut store, SpawnTeammateInput { name: name.into(), prompt: "go".into() }, 1)
            .unwrap();
    }
    store.bind_session("session-cafe01", "alpha", "alpha-sid").unwrap();
    store.bind_session("session-cafe01", "beta", "beta-sid").unwrap();

    let err = TeamTaskCreateTool
        .run(&ctx("alpha-sid", "c1"), &mut store, TeamTaskCreateInput { title: "x".into(), depends_on: vec![] }, 2)
        .unwrap_err();
    assert_eq!(err.message(), "only the team lead can create tasks");
    assert!(store.read_tasks("session-cafe01").unwrap().is_empty());

    for call in ["c2", "c3"] {
        TeamTaskCreateTool
            .run(&ctx("cafe01", call), &mut store, TeamTaskCreateInput { title: "work".into(), depends_on: vec![] }, 3)
            .unwrap();
    }
    TeamTaskClaimTool
        .run(&ctx("alpha-sid", "c4"), &mut store, TeamTaskClaimInput { task_id: "t-c2".into() })
        .unwrap();

    let err = TeamTaskCompleteTool
        .run(&ctx("beta-sid", "c5"), &mut store, TeamTaskCompleteInput { task_id: "t-c2".into() })
        .unwrap_err();
    assert_eq!(err.message(), "only the task's assignee or the team lead may mark it completed");
    let err = TeamTaskCompleteTool
        .run(&ctx("beta-sid", "c6"), &mut store, TeamTaskCompleteInput { task_id: "t-c3".into() })
        .unwrap_err();
    assert_eq!(err.message(), "only the task's assignee or the team lead may mark it completed");
    let err = TeamTaskCompleteTool
        .run(&ctx("beta-sid", "c7"), &mut store, TeamTaskCompleteInput { task_id: "t-none".into() })
        .unwrap_err();
    assert_eq!(err.message(), "task not found: t-none");

    let done = TeamTaskCompleteTool
        .run(&ctx("alpha-sid", "c8"), &mut store, TeamTaskCompleteInput { task_id: "t-c2".into() })
        .unwrap();
    assert_eq!(done.id, "t-c2");
    let done = TeamTaskCompleteTool
        .run(&ctx("cafe01", "c9"), &mut store, TeamTaskCompleteInput { task_id: "t-c3".into() })
        .unwrap();
    assert_eq!(done.id, "t-c3");
}

#[test]
fn send_message_accepts_idle_and_failed() {
    let mut store = TeamStore::new("/tmp/grok-home");
    SpawnTeammateTool
        .run(&ctx("beef01", "c0"), &mut store, SpawnTeammateInput { name: "alpha".into(), prompt: "go".into() }, 1)
        .unwrap();
    store.bind_session("session-beef01", "alpha", "alpha-sid").unwrap();
    for (call, kind) in [("c1", "idle"), ("c2", "failed")] {
        let sent = SendMessageTool
            .run(
                &ctx("alpha-sid", call),
                &mut store,
                SendMessageInput { to: "lead".into(), body: "done".into(), subject: None, kind: Some(kind.into()) },
                7,
            )
            .unwrap();
        assert_eq!(sent.to, "lead");
    }
    let inbox = store.read_inbox("session-beef01", "lead").unwrap();
    assert_eq!(inbox.len(), 2);
    assert_eq!(inbox[0].kind, grok_team::types::MailboxKind::Idle);
    assert_eq!(inbox[1].kind, grok_team::types::MailboxKind::Failed);
    assert_eq!(inbox[1].from, "alpha");
    let status = TeamStatusTool.run(&ctx("alpha-sid", "c3"), &store, TeamStatusInput {}).unwrap();
    assert_eq!(status.members, vec!["lead".to_string(), "alpha".to_string()]);
    assert_eq!(status.unread, vec![2, 0]);
    assert_eq!(status.you, "alpha");
}

#[test]
fn argument_checks_come_before_the_store() {
    let missing = ToolCallContext { session_id: None, call_id: "c".into() };
    let err = SpawnTeammateTool
        .check_arguments(&ctx("s1", "c"), &SpawnTeammateInput { name: "Bad".into(), prompt: "go".into() })
        .unwrap_err();
    assert_eq!(err.message(), "name must match [a-z][a-z0-9_-]{0,31}");
    let err = SpawnTeammateTool
        .check_arguments(&ctx("s1", "c"), &SpawnTeammateInput { name: "ok".into(), prompt: " ".into() })
        .unwrap_err();
    assert_eq!(err.message(), "prompt must not be empty");
    let err = SpawnTeammateTool
        .check_arguments(&missing, &SpawnTeammateInput { name: "ok".into(), prompt: "go".into() })
        .unwrap_err();
    assert_eq!(err.message(), "SessionContext is required");
    assert!(SpawnTeammateTool
        .check_arguments(&ctx("s1", "c"), &SpawnTeammateInput { name: "ok".into(), prompt: "go".into() })
        .is_ok());
    let err = SendMessageTool
        .check_arguments(
            &ctx("s1", "c"),
            &SendMessageInput { to: "x".into(), body: "\n".into(), subject: None, kind: None },
        )
        .unwrap_err();
    assert_eq!(err.message(), "body must not be empty");
    let err = TeamTaskCreateTool
        .check_arguments(&ctx("s1", "c"), &TeamTaskCreateInput { title: "".into(), depends_on: vec![] })
        .unwrap_err();
    assert_eq!(err.message(), "title must not be empty");
    assert!(TeamTaskCreateTool
        .check_arguments(&ctx("s1", "c"), &TeamTaskCreateInput { title: "t".into(), depends_on: vec![] })
        .is_ok());
    assert!(check_session(&ctx("s1", "c")).is_ok());
    assert_eq!(check_session(&missing).unwrap_err().message(), "SessionContext is required");
}
