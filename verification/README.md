# grok_team

Agent teams for the Grok pager: a lead session plus named teammates that
share a mailbox and a task list.

- `src/` is the verified library. The team store (`store`, `table`) holds the
  team tree in memory; `mailbox` and `tasks` are the mailbox and the shared
  task list with exclusive claims; `tools` are the model-facing team tools;
  `panel` is the team band above the lead prompt; `runtime` and `pager` turn
  pending teammates into sessions, deliver mail, tell the lead when a
  teammate's turn ends, and refresh panels; `slash` is
  the `/team` command and its status text. `laws`, `panel_laws`,
  `runtime_laws` and `pass_laws` state and prove the properties that span
  several operations; `in_flight` proves that no started name is in flight
  twice.
- `app/` is the host side: reading the `GROK_EXPERIMENTAL_AGENT_TEAMS`
  variable and `config.toml`, the JSON files under `$GROK_HOME/teams`, the
  tool-runtime shapes with their JSON schemas, and the terminal painting of
  the panel.
- `tests/` exercises the library on concrete values.
