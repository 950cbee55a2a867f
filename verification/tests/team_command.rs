use grok_team::runtime::format_team_status;
use grok_team::slash::{CommandResult, TeamCommand};
use grok_team::store::TeamStore;
use grok_team::tasks::{claim_task, create_task};
use grok_team::mailbox::send_message;
use grok_team::types::MailboxKind;

fn run(enabled: bool, sid: Option<&str>, args: &str) -> CommandResult {
    TeamCommand.run(enabled, sid, args, &TeamStore::new("/tmp/grok-home"))
}

#[test]
fn no_session_errors() {
    match run(true, None, "") {
        CommandResult::Error(msg) => assert!(msg.contains("No active session") || msg.contains("off")),
        other => panic!("expected Error, got {other:?}"),
    }
    match run(false, None, "") {
        CommandResult::Error(msg) => assert!(msg.contains("No active session") || msg.contains("off")),
        other => panic!("expected Error, got {other:?}"),
    }
}

#[test]
fn help_arg_prints_usage() {
    match run(true, Some("s1"), "help") {
        CommandResult::Message(msg) => assert!(msg.contains("spawn_teammate"), "{msg}"),
        other => panic!("expected Message, got {other:?}"),
    }
}

#[test]
fn unknown_arg_prints_usage() {
    match run(true, Some("s1"), "wat") {
        CommandResult::Message(msg) => assert!(msg.contains("Usage"), "{msg}"),
        other => panic!("expected Message, got {other:?}"),
    }
}

#[test]
fn status_and_blank_args_show_status() {
    let none = CommandResult::Message("This session is not on an agent team.".into());
    assert_eq!(run(true, Some("s1"), "  status "), none);
    assert_eq!(run(true, Some("s1"), ""), none);
    assert_eq!(
        run(false, Some("s1"), "status"),
        CommandResult::Error(
            "Agent teams are off. Set GROK_EXPERIMENTAL_AGENT_TEAMS=1 or [features] agent_teams = true.".into()
        )
    );
    assert!(TeamCommand.visible(true));
    assert!(!TeamCommand.visible(false));
    assert_eq!(TeamCommand.name(), "team");
    assert_eq!(TeamCommand.usage(), "/team [status]");
}

#[test]
fn status_lists_members_unread_and_tasks() {
    let mut store = TeamStore::new("/tmp/grok-home");
    let team = store.create_for_lead("abcd1234-lead", "lead", 1).unwrap();
    store.add_member(&team.team_id, "writer", None, Some("draft".into())).unwrap();
    send_message(&mut store, &team.team_id, "lead", "writer", MailboxKind::Text, None, "hi".into(), 2, "m1".into())
        .unwrap();
    send_message(&mut store, &team.team_id, "lead", "writer", MailboxKind::Text, None, "again".into(), 3, "m2".into())
        .unwrap();
    store.write_cursor(&team.team_id, "writer", "m1").unwrap();
    create_task(&mut store, &team.team_id, "t1".into(), "draft intro".into(), vec![], 4).unwrap();
    create_task(&mut store, &team.team_id, "t2".into(), "edit".into(), vec![], 5).unwrap();
    claim_task(&mut store, &team.team_id, "t1", "writer").unwrap();
    let want = "Team session-abcd1234\nMembers:\n  @lead (lead) session abcd1234-lead \u{b7} 0 unread\n  @writer (teammate) not started \u{b7} 1 unread\nTasks:\n  [inprogress] t1 draft intro @writer\n  [pending] t2 edit";
    assert_eq!(format_team_status(&store, "abcd1234-lead"), want);
    assert_eq!(
        TeamCommand.run(true, Some("abcd1234-lead"), "status", &store),
        CommandResult::Message(want.into())
    );
    let mut lone = TeamStore::new("/tmp/grok-home");
    let t2 = lone.create_for_lead("ffff0000", "lead", 1).unwrap();
    assert_eq!(
        format_team_status(&lone, "ffff0000"),
        format!("Team {}\nMembers:\n  @lead (lead) session ffff0000 \u{b7} 0 unread\nTasks: none", t2.team_id)
    );
}
