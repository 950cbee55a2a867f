use grok_team::mailbox::{send_message, MailboxError};
use grok_team::store::{TeamStore, TeamStoreError};
use grok_team::tasks::{claim_task, complete_task, create_task, TaskError};
use grok_team::types::{team_id_from_session, MailboxKind, MemberRole, TaskStatus};

fn tmp_store() -> TeamStore {
    TeamStore::new("/tmp/grok-home")
}

#[test]
fn find_by_session_matches_lead() {
    let mut store = tmp_store();
    let team = store.create_for_lead("sess-lead-99", "lead", 1).unwrap();
    let found = store.find_by_session("sess-lead-99").unwrap().unwrap();
    assert_eq!(found.team_id, team.team_id);
    assert!(store.find_by_session("missing").unwrap().is_none());
}

#[test]
fn team_id_uses_first_eight_hex_digits() {
    assert_eq!(
        team_id_from_session("019ffb5b-ad0b-7833-8305-0d9b097d7e74"),
        "session-019ffb5b"
    );
    assert_eq!(team_id_from_session("!!!"), "session-unknown");
}

#[test]
fn create_team_and_add_member() {
    let mut store = tmp_store();
    let team = store.create_for_lead("sess-lead-01", "lead", 1_000).unwrap();
    assert_eq!(team.members.len(), 1);
    assert_eq!(team.lead().unwrap().name, "lead");

    let team = store
        .add_member(&team.team_id, "critic", Some("sess-rev".into()), None)
        .unwrap();
    assert_eq!(team.members.len(), 2);
    assert!(team.member("critic").is_some());
    assert!(store.read_inbox(&team.team_id, "critic").unwrap().is_empty());
}

#[test]
fn send_message_rejects_unknown_and_self() {
    let mut store = tmp_store();
    let team = store.create_for_lead("s1", "lead", 1).unwrap();
    store.add_member(&team.team_id, "critic", None, None).unwrap();

    let err = send_message(
        &mut store,
        &team.team_id,
        "lead",
        "lead",
        MailboxKind::Text,
        None,
        "hi".into(),
        2,
        "m1".into(),
    )
    .unwrap_err();
    assert!(matches!(err, MailboxError::SelfSend));

    let err = send_message(
        &mut store,
        &team.team_id,
        "lead",
        "ghost",
        MailboxKind::Text,
        None,
        "hi".into(),
        2,
        "m2".into(),
    )
    .unwrap_err();
    assert!(matches!(err, MailboxError::UnknownRecipient(_)));
}

#[test]
fn send_message_appends_to_recipient_only() {
    let mut store = tmp_store();
    let team = store.create_for_lead("s1", "lead", 1).unwrap();
    store.add_member(&team.team_id, "critic", None, None).unwrap();

    send_message(
        &mut store,
        &team.team_id,
        "lead",
        "critic",
        MailboxKind::Text,
        Some("inspect".into()),
        "please read src/lib.rs".into(),
        3,
        "m1".into(),
    )
    .unwrap();

    let inbox = store.read_inbox(&team.team_id, "critic").unwrap();
    assert_eq!(inbox.len(), 1);
    assert_eq!(inbox[0].from, "lead");
    assert_eq!(inbox[0].body, "please read src/lib.rs");
    assert!(store.read_inbox(&team.team_id, "lead").unwrap().is_empty());
}

#[test]
fn claim_blocked_until_dependency_completes() {
    let mut store = tmp_store();
    let team = store.create_for_lead("s1", "lead", 1).unwrap();
    store.add_member(&team.team_id, "builder", None, None).unwrap();
    store.add_member(&team.team_id, "critic", None, None).unwrap();

    create_task(&mut store, &team.team_id, "t-impl".into(), "implement".into(), vec![], 2).unwrap();
    create_task(
        &mut store,
        &team.team_id,
        "t-inspect".into(),
        "inspect".into(),
        vec!["t-impl".into()],
        3,
    )
    .unwrap();

    let err = claim_task(&mut store, &team.team_id, "t-inspect", "critic").unwrap_err();
    assert!(matches!(err, TaskError::Blocked(_, deps) if deps == ["t-impl"]));

    claim_task(&mut store, &team.team_id, "t-impl", "builder").unwrap();
    complete_task(&mut store, &team.team_id, "t-impl").unwrap();

    let claimed = claim_task(&mut store, &team.team_id, "t-inspect", "critic").unwrap();
    assert_eq!(claimed.status, TaskStatus::InProgress);
    assert_eq!(claimed.assignee.as_deref(), Some("critic"));
}

#[test]
fn second_claim_fails() {
    let mut store = tmp_store();
    let team = store.create_for_lead("s1", "lead", 1).unwrap();
    store.add_member(&team.team_id, "a", None, None).unwrap();
    store.add_member(&team.team_id, "b", None, None).unwrap();
    create_task(&mut store, &team.team_id, "t1".into(), "work".into(), vec![], 2).unwrap();

    claim_task(&mut store, &team.team_id, "t1", "a").unwrap();
    let err = claim_task(&mut store, &team.team_id, "t1", "b").unwrap_err();
    assert!(matches!(err, TaskError::WrongStatus(_, TaskStatus::InProgress)));
}

#[test]
fn second_team_for_same_lead_is_refused() {
    let mut store = tmp_store();
    store.create_for_lead("abc12345-x", "lead", 1).unwrap();
    let err = store.create_for_lead("abc12345-y", "other", 2).unwrap_err();
    assert!(matches!(&err, TeamStoreError::AlreadyExists(t) if t == "session-abc12345"));
    assert_eq!(err.message(), "team already exists: session-abc12345");
}

#[test]
fn duplicate_member_is_refused() {
    let mut store = tmp_store();
    let team = store.create_for_lead("s1", "lead", 1).unwrap();
    store.add_member(&team.team_id, "a", None, None).unwrap();
    let err = store.add_member(&team.team_id, "a", None, None).unwrap_err();
    assert!(matches!(&err, TeamStoreError::DuplicateMember(n) if n == "a"));
    assert_eq!(err.message(), "duplicate member name: a");
}

#[test]
fn unknown_team_and_member_errors() {
    let mut store = tmp_store();
    assert!(matches!(store.load("session-nope"), Err(TeamStoreError::NotFound(t)) if t == "session-nope"));
    let team = store.create_for_lead("s1", "lead", 1).unwrap();
    assert!(matches!(
        store.read_inbox(&team.team_id, "ghost"),
        Err(TeamStoreError::UnknownMember(m)) if m == "ghost"
    ));
    assert!(matches!(
        store.bind_session(&team.team_id, "ghost", "sid"),
        Err(TeamStoreError::UnknownMember(m)) if m == "ghost"
    ));
    assert!(matches!(
        store.add_member("session-nope", "a", None, None),
        Err(TeamStoreError::NotFound(_))
    ));
}

#[test]
fn bind_session_records_session_and_clears_prompt() {
    let mut store = tmp_store();
    let team = store.create_for_lead("s1", "lead", 1).unwrap();
    store
        .add_member(&team.team_id, "critic", None, Some("inspect it".into()))
        .unwrap();
    let cfg = store.bind_session(&team.team_id, "critic", "rev-sid").unwrap();
    let m = cfg.member("critic").unwrap();
    assert_eq!(m.session_id.as_deref(), Some("rev-sid"));
    assert!(m.spawn_prompt.is_none());
    assert_eq!(m.role, MemberRole::Teammate);
    let loaded = store.load(&team.team_id).unwrap();
    assert_eq!(loaded.member_for_session("rev-sid").unwrap().name, "critic");
    let found = store.find_by_session("rev-sid").unwrap().unwrap();
    assert_eq!(found.team_id, team.team_id);
}

#[test]
fn cursor_round_trip_is_trimmed() {
    let mut store = tmp_store();
    assert_eq!(store.read_cursor("session-x", "lead").unwrap(), None);
    store.write_cursor("session-x", "lead", "  m7\n").unwrap();
    assert_eq!(store.read_cursor("session-x", "lead").unwrap().as_deref(), Some("m7"));
    store.write_cursor("session-x", "lead", " \t ").unwrap();
    assert_eq!(store.read_cursor("session-x", "lead").unwrap(), None);
}

#[test]
fn tasks_read_back_what_was_written() {
    let mut store = tmp_store();
    assert!(store.read_tasks("session-none").unwrap().is_empty());
    let t = create_task(&mut store, "session-x", "t1".into(), "a".into(), vec!["t0".into()], 5).unwrap();
    assert_eq!(t.status, TaskStatus::Pending);
    assert!(t.assignee.is_none());
    let tasks = store.read_tasks("session-x").unwrap();
    assert_eq!(tasks.len(), 1);
    assert_eq!(tasks[0].id, "t1");
    assert_eq!(tasks[0].depends_on, vec!["t0".to_string()]);
    assert_eq!(tasks[0].created_unix_ms, 5);
}

#[test]
fn task_errors_and_messages() {
    let mut store = tmp_store();
    let team = store.create_for_lead("s1", "lead", 1).unwrap();
    store.add_member(&team.team_id, "a", None, None).unwrap();
    let err = claim_task(&mut store, &team.team_id, "t9", "a").unwrap_err();
    assert!(matches!(&err, TaskError::NotFound(id) if id == "t9"));
    assert_eq!(err.message(), "task not found: t9");
    let err = claim_task(&mut store, &team.team_id, "t9", "ghost").unwrap_err();
    assert!(matches!(&err, TaskError::UnknownMember(m) if m == "ghost"));
    create_task(&mut store, &team.team_id, "t1".into(), "w".into(), vec!["x".into(), "y".into()], 2).unwrap();
    let err = claim_task(&mut store, &team.team_id, "t1", "a").unwrap_err();
    assert_eq!(err.message(), "task t1 is blocked by unfinished dependencies: [\"x\", \"y\"]");
    complete_task(&mut store, &team.team_id, "t1").unwrap();
    let err = complete_task(&mut store, &team.team_id, "t1").unwrap_err();
    assert!(matches!(err, TaskError::WrongStatus(_, TaskStatus::Completed)));
    assert_eq!(err.message(), "task t1 is already Completed");
    let err = claim_task(&mut store, &team.team_id, "t1", "a").unwrap_err();
    assert_eq!(err.message(), "task t1 is already Completed");
    let err = complete_task(&mut store, &team.team_id, "nope").unwrap_err();
    assert!(matches!(err, TaskError::NotFound(_)));
}

#[test]
fn unknown_sender_and_refusal_leaves_inboxes() {
    let mut store = tmp_store();
    let team = store.create_for_lead("s1", "lead", 1).unwrap();
    store.add_member(&team.team_id, "critic", None, None).unwrap();
    let err = send_message(
        &mut store,
        &team.team_id,
        "ghost",
        "critic",
        MailboxKind::Text,
        None,
        "hi".into(),
        2,
        "m1".into(),
    )
    .unwrap_err();
    assert!(matches!(&err, MailboxError::UnknownSender(s) if s == "ghost"));
    assert_eq!(err.message(), "sender is not a team member: ghost");
    assert!(store.read_inbox(&team.team_id, "critic").unwrap().is_empty());
    let err = send_message(
        &mut store,
        "session-none",
        "a",
        "b",
        MailboxKind::Text,
        None,
        "hi".into(),
        2,
        "m1".into(),
    )
    .unwrap_err();
    assert_eq!(err.message(), "team not found: session-none");
}

#[test]
fn paths_follow_unix_join() {
    let store = TeamStore::new("/home/u/.grok");
    assert_eq!(store.team_dir("session-1"), "/home/u/.grok/teams/session-1");
    assert_eq!(store.inbox_path("session-1", "lead"), "/home/u/.grok/teams/session-1/inboxes/lead.json");
    assert_eq!(store.cursor_path("session-1", "lead"), "/home/u/.grok/teams/session-1/inboxes/lead.cursor");
    assert_eq!(store.tasks_path("session-1"), "/home/u/.grok/teams/session-1/tasks.json");
    assert_eq!(store.config_path("session-1"), "/home/u/.grok/teams/session-1/config.json");
    let slash = TeamStore::new("/root/");
    assert_eq!(slash.team_dir("t"), "/root/teams/t");
}

#[test]
fn team_id_lowercases_and_stops_at_eight() {
    assert_eq!(team_id_from_session("ABCDEF0123456789"), "session-abcdef01");
    assert_eq!(team_id_from_session("xyz-12"), "session-12");
    assert_eq!(team_id_from_session(""), "session-unknown");
}
