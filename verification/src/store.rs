//! The team directory `{root}/teams/{team_id}`: config, task list, one inbox
//! and one read cursor per member.
//!
//! `TeamStore` holds the directory's contents. Reading the files into it and
//! writing them back is the caller's business; every rule about what the
//! directory may hold, and what each operation does to it, lives here.
use vstd::prelude::*;
use crate::seqs::{first_index, lemma_first_index, lemma_first_index_is};
use crate::table::{Duplicate, Table};
use crate::text::{concat_str, owned, str_eq, trim, trim_view};
use crate::types::{
    bound_to, member_ref_view, named, team_id_from_session, team_id_view, MailboxMessage,
    MailboxMessageView, MemberRole, TeamConfig, TeamConfigView, TeamMember, TeamMemberView,
    TeamTask, TeamTaskView,
};

verus! {

/// What a store operation can refuse.
#[derive(Debug)]
pub enum TeamStoreError {
    AlreadyExists(String),
    NotFound(String),
    UnknownMember(String),
    DuplicateMember(String),
}

pub enum StoreErrorView {
    AlreadyExists(Seq<char>),
    NotFound(Seq<char>),
    UnknownMember(Seq<char>),
    DuplicateMember(Seq<char>),
}

impl View for TeamStoreError {
    type V = StoreErrorView;

    open spec fn view(&self) -> StoreErrorView {
        match self {
            TeamStoreError::AlreadyExists(s) => StoreErrorView::AlreadyExists(s@),
            TeamStoreError::NotFound(s) => StoreErrorView::NotFound(s@),
            TeamStoreError::UnknownMember(s) => StoreErrorView::UnknownMember(s@),
            TeamStoreError::DuplicateMember(s) => StoreErrorView::DuplicateMember(s@),
        }
    }
}

impl Clone for TeamStoreError {
    fn clone(&self) -> (r: Self)
        ensures
            r@ == self@,
    {
        match self {
            TeamStoreError::AlreadyExists(s) => TeamStoreError::AlreadyExists(s.clone()),
            TeamStoreError::NotFound(s) => TeamStoreError::NotFound(s.clone()),
            TeamStoreError::UnknownMember(s) => TeamStoreError::UnknownMember(s.clone()),
            TeamStoreError::DuplicateMember(s) => TeamStoreError::DuplicateMember(s.clone()),
        }
    }
}

/// The contents of the store: the team directories in scan order, and the
/// files each holds. A key `(team, member)` names a member's file in a team.
pub struct StoreView {
    pub root: Seq<char>,
    pub dirs: Seq<Seq<char>>,
    pub configs: Map<Seq<char>, TeamConfigView>,
    pub tasks: Map<Seq<char>, Seq<TeamTaskView>>,
    pub inboxes: Map<(Seq<char>, Seq<char>), Seq<MailboxMessageView>>,
    pub cursors: Map<(Seq<char>, Seq<char>), Seq<char>>,
}

/// `dirs` with `t` created (a directory that exists stays where it is).
pub open spec fn with_dir(dirs: Seq<Seq<char>>, t: Seq<char>) -> Seq<Seq<char>> {
    if dirs.contains(t) {
        dirs
    } else {
        dirs.push(t)
    }
}

/// `PathBuf::join` on Unix: an absolute part replaces the base; otherwise a
/// separator is added unless the base is empty or already ends with one.
pub open spec fn join_view(base: Seq<char>, part: Seq<char>) -> Seq<char> {
    if part.len() > 0 && part[0] == '/' {
        part
    } else if base.len() == 0 || base.last() == '/' {
        base + part
    } else {
        base + seq!['/'] + part
    }
}

impl StoreView {
    pub open spec fn write_config(self, c: TeamConfigView) -> StoreView {
        StoreView {
            dirs: with_dir(self.dirs, c.team_id),
            configs: self.configs.insert(c.team_id, c),
            ..self
        }
    }

    pub open spec fn write_tasks(self, t: Seq<char>, tasks: Seq<TeamTaskView>) -> StoreView {
        StoreView { dirs: with_dir(self.dirs, t), tasks: self.tasks.insert(t, tasks), ..self }
    }

    pub open spec fn write_inbox(
        self,
        t: Seq<char>,
        m: Seq<char>,
        msgs: Seq<MailboxMessageView>,
    ) -> StoreView {
        StoreView {
            dirs: with_dir(self.dirs, t),
            inboxes: self.inboxes.insert((t, m), msgs),
            ..self
        }
    }

    pub open spec fn write_cursor(self, t: Seq<char>, m: Seq<char>, id: Seq<char>) -> StoreView {
        StoreView {
            dirs: with_dir(self.dirs, t),
            cursors: self.cursors.insert((t, m), id),
            ..self
        }
    }

    pub open spec fn load(self, t: Seq<char>) -> Result<TeamConfigView, StoreErrorView> {
        if self.configs.contains_key(t) {
            Ok(self.configs[t])
        } else {
            Err(StoreErrorView::NotFound(t))
        }
    }

    pub open spec fn read_tasks(self, t: Seq<char>) -> Seq<TeamTaskView> {
        if self.tasks.contains_key(t) {
            self.tasks[t]
        } else {
            Seq::empty()
        }
    }

    pub open spec fn read_inbox(self, t: Seq<char>, m: Seq<char>) -> Result<
        Seq<MailboxMessageView>,
        StoreErrorView,
    > {
        match self.load(t) {
            Err(e) => Err(e),
            Ok(c) => if c.member(m) is None {
                Err(StoreErrorView::UnknownMember(m))
            } else if self.inboxes.contains_key((t, m)) {
                Ok(self.inboxes[(t, m)])
            } else {
                Ok(Seq::empty())
            },
        }
    }

    /// The trimmed cursor file, when it holds anything.
    pub open spec fn read_cursor(self, t: Seq<char>, m: Seq<char>) -> Option<Seq<char>> {
        if self.cursors.contains_key((t, m)) && trim_view(self.cursors[(t, m)]).len() > 0 {
            Some(trim_view(self.cursors[(t, m)]))
        } else {
            None
        }
    }

    /// A team directory whose config has a member for session `sid`.
    pub open spec fn holds_session(self, sid: Seq<char>) -> spec_fn(Seq<char>) -> bool {
        |t: Seq<char>| self.configs.contains_key(t) && self.configs[t].member_for_session(sid) is Some
    }

    /// The config of the first team directory, in scan order, with a member
    /// for session `sid`.
    pub open spec fn find_by_session(self, sid: Seq<char>) -> Option<TeamConfigView> {
        let i = first_index(self.dirs, self.holds_session(sid));
        if i < self.dirs.len() {
            Some(self.configs[self.dirs[i]])
        } else {
            None
        }
    }

    /// The config a new team gets for its lead.
    pub open spec fn lead_config(sid: Seq<char>, lead_name: Seq<char>, now: i64) -> TeamConfigView {
        TeamConfigView {
            team_id: team_id_view(sid),
            lead_session_id: sid,
            members: seq![
                TeamMemberView {
                    name: lead_name,
                    role: MemberRole::TeamLead,
                    session_id: Some(sid),
                    spawn_prompt: None,
                },
            ],
            created_unix_ms: now,
        }
    }

    pub open spec fn create_for_lead(self, sid: Seq<char>, lead_name: Seq<char>, now: i64) -> (
        StoreView,
        Result<TeamConfigView, StoreErrorView>,
    ) {
        let t = team_id_view(sid);
        if self.dirs.contains(t) {
            (self, Err(StoreErrorView::AlreadyExists(t)))
        } else {
            let c = StoreView::lead_config(sid, lead_name, now);
            (
                StoreView { dirs: self.dirs.push(t), ..self }.write_config(c).write_tasks(
                    t,
                    Seq::empty(),
                ).write_inbox(t, lead_name, Seq::empty()),
                Ok(c),
            )
        }
    }

    pub open spec fn add_member(
        self,
        t: Seq<char>,
        name: Seq<char>,
        sid: Option<Seq<char>>,
        prompt: Option<Seq<char>>,
    ) -> (StoreView, Result<TeamConfigView, StoreErrorView>) {
        match self.load(t) {
            Err(e) => (self, Err(e)),
            Ok(c) => if c.member(name) is Some {
                (self, Err(StoreErrorView::DuplicateMember(name)))
            } else {
                let c2 = TeamConfigView {
                    members: c.members.push(
                        TeamMemberView {
                            name,
                            role: MemberRole::Teammate,
                            session_id: sid,
                            spawn_prompt: prompt,
                        },
                    ),
                    ..c
                };
                (self.write_config(c2).write_inbox(t, name, Seq::empty()), Ok(c2))
            },
        }
    }

    pub open spec fn bind_session(self, t: Seq<char>, name: Seq<char>, sid: Seq<char>) -> (
        StoreView,
        Result<TeamConfigView, StoreErrorView>,
    ) {
        match self.load(t) {
            Err(e) => (self, Err(e)),
            Ok(c) => {
                let i = first_index(c.members, named(name));
                if i < c.members.len() {
                    let c2 = TeamConfigView {
                        members: c.members.update(
                            i,
                            TeamMemberView {
                                session_id: Some(sid),
                                spawn_prompt: None,
                                ..c.members[i]
                            },
                        ),
                        ..c
                    };
                    (self.write_config(c2), Ok(c2))
                } else {
                    (self, Err(StoreErrorView::UnknownMember(name)))
                }
            },
        }
    }
}

pub open spec fn config_result_view(r: Result<TeamConfig, TeamStoreError>) -> Result<
    TeamConfigView,
    StoreErrorView,
> {
    match r {
        Ok(c) => Ok(c@),
        Err(e) => Err(e@),
    }
}

/// File-backed team directory under `{root}/teams/{team_id}`, held in memory.
pub struct TeamStore {
    root: String,
    dirs: Table<String, ()>,
    configs: Table<String, TeamConfig>,
    tasks: Table<String, Vec<TeamTask>>,
    inboxes: Table<(String, String), Vec<MailboxMessage>>,
    cursors: Table<(String, String), String>,
}

/// The key views of a table's entries, in order.
pub open spec fn dir_order(t: Table<String, ()>) -> Seq<Seq<char>> {
    Seq::new(t.size(), |i: int| t.key_at(i))
}

impl View for TeamStore {
    type V = StoreView;

    closed spec fn view(&self) -> StoreView {
        StoreView {
            root: self.root@,
            dirs: dir_order(self.dirs),
            configs: self.configs.map(),
            tasks: self.tasks.map(),
            inboxes: self.inboxes.map(),
            cursors: self.cursors.map(),
        }
    }
}

/// Copies of the messages, element by element.
pub fn clone_messages(msgs: &[MailboxMessage]) -> (r: Vec<MailboxMessage>)
    ensures
        r.deep_view() == msgs@.map_values(|m: MailboxMessage| m@),
{
    let mut r: Vec<MailboxMessage> = Vec::new();
    let n = msgs.len();
    let mut i: usize = 0;
    while i < n
        invariant
            n == msgs@.len(),
            i <= n,
            r.deep_view() == msgs@.subrange(0, i as int).map_values(|m: MailboxMessage| m@),
        decreases n - i,
    {
        let m = msgs[i].clone();
        assert(m@ == msgs@[i as int]@);
        let ghost prev = r.deep_view();
        r.push(m);
        assert(r.deep_view() =~= prev.push(msgs@[i as int]@));
        assert(msgs@.subrange(0, i as int + 1).map_values(|m: MailboxMessage| m@) =~= msgs@.subrange(
            0,
            i as int,
        ).map_values(|m: MailboxMessage| m@).push(msgs@[i as int]@));
        i = i + 1;
    }
    assert(msgs@.subrange(0, n as int) =~= msgs@);
    r
}

/// Copies of the tasks, element by element.
pub fn clone_tasks(tasks: &[TeamTask]) -> (r: Vec<TeamTask>)
    ensures
        r.deep_view() == tasks@.map_values(|t: TeamTask| t@),
{
    let mut r: Vec<TeamTask> = Vec::new();
    let n = tasks.len();
    let mut i: usize = 0;
    while i < n
        invariant
            n == tasks@.len(),
            i <= n,
            r.deep_view() == tasks@.subrange(0, i as int).map_values(|t: TeamTask| t@),
        decreases n - i,
    {
        let t = tasks[i].clone();
        assert(t@ == tasks@[i as int]@);
        let ghost prev = r.deep_view();
        r.push(t);
        assert(r.deep_view() =~= prev.push(tasks@[i as int]@));
        assert(tasks@.subrange(0, i as int + 1).map_values(|t: TeamTask| t@) =~= tasks@.subrange(
            0,
            i as int,
        ).map_values(|t: TeamTask| t@).push(tasks@[i as int]@));
        i = i + 1;
    }
    assert(tasks@.subrange(0, n as int) =~= tasks@);
    r
}

/// `base.join(part)` with Unix path rules.
pub fn join_path(base: &str, part: &str) -> (r: String)
    ensures
        r@ == join_view(base@, part@),
{
    let b = crate::text::chars_of(base);
    let p = crate::text::chars_of(part);
    if p.len() > 0 && p[0] == '/' {
        owned(part)
    } else if b.len() == 0 || b[b.len() - 1] == '/' {
        concat_str(base, part)
    } else {
        let with_sep = concat_str(base, "/");
        proof {
            reveal_strlit("/");
            assert(with_sep@ =~= base@ + seq!['/']);
        }
        concat_str(with_sep.as_str(), part)
    }
}

impl TeamStore {
    /// The store is well formed: no table holds a key twice.
    pub closed spec fn wf(&self) -> bool {
        &&& self.dirs.wf()
        &&& self.configs.wf()
        &&& self.tasks.wf()
        &&& self.inboxes.wf()
        &&& self.cursors.wf()
    }

    /// An empty store rooted at `root`.
    pub fn new(root: &str) -> (s: Self)
        ensures
            s.wf(),
            s@.root == root@,
            s@.dirs == Seq::<Seq<char>>::empty(),
            s@.configs == Map::<Seq<char>, TeamConfigView>::empty(),
            s@.tasks == Map::<Seq<char>, Seq<TeamTaskView>>::empty(),
            s@.inboxes == Map::<(Seq<char>, Seq<char>), Seq<MailboxMessageView>>::empty(),
            s@.cursors == Map::<(Seq<char>, Seq<char>), Seq<char>>::empty(),
    {
        let s = TeamStore {
            root: owned(root),
            dirs: Table::new(),
            configs: Table::new(),
            tasks: Table::new(),
            inboxes: Table::new(),
            cursors: Table::new(),
        };
        assert(s@.dirs =~= Seq::<Seq<char>>::empty());
        s
    }

    /// `{root}/teams/{team_id}`.
    pub fn team_dir(&self, team_id: &str) -> (p: String)
        ensures
            p@ == join_view(join_view(self@.root, "teams"@), team_id@),
    {
        let teams = join_path(self.root.as_str(), "teams");
        join_path(teams.as_str(), team_id)
    }

    /// `{team_dir}/inboxes/{member}.json`.
    pub fn inbox_path(&self, team_id: &str, member: &str) -> (p: String)
        ensures
            p@ == join_view(
                join_view(join_view(join_view(self@.root, "teams"@), team_id@), "inboxes"@),
                member@ + ".json"@,
            ),
    {
        let dir = self.team_dir(team_id);
        let inboxes = join_path(dir.as_str(), "inboxes");
        let file = concat_str(member, ".json");
        join_path(inboxes.as_str(), file.as_str())
    }

    /// `{team_dir}/inboxes/{member}.cursor`.
    pub fn cursor_path(&self, team_id: &str, member: &str) -> (p: String)
        ensures
            p@ == join_view(
                join_view(join_view(join_view(self@.root, "teams"@), team_id@), "inboxes"@),
                member@ + ".cursor"@,
            ),
    {
        let dir = self.team_dir(team_id);
        let inboxes = join_path(dir.as_str(), "inboxes");
        let file = concat_str(member, ".cursor");
        join_path(inboxes.as_str(), file.as_str())
    }

    /// `{team_dir}/tasks.json`.
    pub fn tasks_path(&self, team_id: &str) -> (p: String)
        ensures
            p@ == join_view(join_view(join_view(self@.root, "teams"@), team_id@), "tasks.json"@),
    {
        let dir = self.team_dir(team_id);
        join_path(dir.as_str(), "tasks.json")
    }

    /// `{team_dir}/config.json`.
    pub fn config_path(&self, team_id: &str) -> (p: String)
        ensures
            p@ == join_view(join_view(join_view(self@.root, "teams"@), team_id@), "config.json"@),
    {
        let dir = self.team_dir(team_id);
        join_path(dir.as_str(), "config.json")
    }

    /// Creates the team directory `t` if it does not exist yet.
    fn ensure_dir(&mut self, t: &str)
        requires
            old(self).wf(),
        ensures
            final(self).wf(),
            final(self)@ == (StoreView { dirs: with_dir(old(self)@.dirs, t@), ..old(self)@ }),
    {
        let ghost before = dir_order(self.dirs);
        let key = owned(t);
        let present = self.dirs.contains_key(&key);
        proof {
            self.dirs.lemma_entries();
            if before.contains(t@) {
                let j = choose|j: int| 0 <= j < before.len() && before[j] == t@;
                assert(self.dirs.key_at(j) == t@);
            }
        }
        if !present {
            self.dirs.insert(key, ());
            proof {
                assert(dir_order(self.dirs) =~= before.push(t@));
            }
        } else {
            proof {
                let j = choose|j: int| 0 <= j < self.dirs.size() && self.dirs.key_at(j) == t@;
                assert(before[j] == t@);
            }
        }
    }

    pub fn write_config(&mut self, config: &TeamConfig) -> (r: Result<(), TeamStoreError>)
        requires
            old(self).wf(),
        ensures
            final(self).wf(),
            r is Ok,
            final(self)@ == old(self)@.write_config(config@),
    {
        self.ensure_dir(config.team_id.as_str());
        self.configs.insert(config.team_id.clone(), config.clone());
        Ok(())
    }

    pub fn write_inbox(&mut self, team_id: &str, member: &str, messages: &[MailboxMessage]) -> (r:
        Result<(), TeamStoreError>)
        requires
            old(self).wf(),
        ensures
            final(self).wf(),
            r is Ok,
            final(self)@ == old(self)@.write_inbox(
                team_id@,
                member@,
                messages@.map_values(|m: MailboxMessage| m@),
            ),
    {
        self.ensure_dir(team_id);
        let msgs = clone_messages(messages);
        self.inboxes.insert((owned(team_id), owned(member)), msgs);
        Ok(())
    }

    pub fn write_tasks(&mut self, team_id: &str, tasks: &[TeamTask]) -> (r: Result<
        (),
        TeamStoreError,
    >)
        requires
            old(self).wf(),
        ensures
            final(self).wf(),
            r is Ok,
            final(self)@ == old(self)@.write_tasks(team_id@, tasks@.map_values(|t: TeamTask| t@)),
    {
        self.ensure_dir(team_id);
        let copy = clone_tasks(tasks);
        self.tasks.insert(owned(team_id), copy);
        Ok(())
    }

    pub fn write_cursor(&mut self, team_id: &str, member: &str, last_id: &str) -> (r: Result<
        (),
        TeamStoreError,
    >)
        requires
            old(self).wf(),
        ensures
            final(self).wf(),
            r is Ok,
            final(self)@ == old(self)@.write_cursor(team_id@, member@, last_id@),
    {
        self.ensure_dir(team_id);
        self.cursors.insert((owned(team_id), owned(member)), owned(last_id));
        Ok(())
    }

    pub fn load(&self, team_id: &str) -> (r: Result<TeamConfig, TeamStoreError>)
        ensures
            config_result_view(r) == self@.load(team_id@),
    {
        let key = owned(team_id);
        match self.configs.get(&key) {
            Some(c) => Ok(c.clone()),
            None => Err(TeamStoreError::NotFound(key)),
        }
    }

    pub fn read_tasks(&self, team_id: &str) -> (r: Result<Vec<TeamTask>, TeamStoreError>)
        ensures
            r matches Ok(v) && v.deep_view() == self@.read_tasks(team_id@),
    {
        let key = owned(team_id);
        match self.tasks.get(&key) {
            Some(v) => {
                let copy = clone_tasks(v.as_slice());
                assert(copy.deep_view() =~= v.deep_view());
                Ok(copy)
            },
            None => {
                let empty: Vec<TeamTask> = Vec::new();
                assert(empty.deep_view() =~= Seq::<TeamTaskView>::empty());
                Ok(empty)
            },
        }
    }

    pub fn read_inbox(&self, team_id: &str, member: &str) -> (r: Result<
        Vec<MailboxMessage>,
        TeamStoreError,
    >)
        ensures
            match (r, self@.read_inbox(team_id@, member@)) {
                (Ok(v), Ok(w)) => v.deep_view() == w,
                (Err(e), Err(f)) => e@ == f,
                _ => false,
            },
    {
        let config = match self.load(team_id) {
            Ok(c) => c,
            Err(e) => return Err(e),
        };
        if config.member(member).is_none() {
            return Err(TeamStoreError::UnknownMember(owned(member)));
        }
        let key = (owned(team_id), owned(member));
        match self.inboxes.get(&key) {
            Some(v) => {
                let copy = clone_messages(v.as_slice());
                assert(copy.deep_view() =~= v.deep_view());
                Ok(copy)
            },
            None => {
                let empty: Vec<MailboxMessage> = Vec::new();
                assert(empty.deep_view() =~= Seq::<MailboxMessageView>::empty());
                Ok(empty)
            },
        }
    }

    pub fn read_cursor(&self, team_id: &str, member: &str) -> (r: Result<
        Option<String>,
        TeamStoreError,
    >)
        ensures
            r matches Ok(c) && c.deep_view() == self@.read_cursor(team_id@, member@),
    {
        let key = (owned(team_id), owned(member));
        match self.cursors.get(&key) {
            None => Ok(None),
            Some(raw) => {
                let id = trim(raw.as_str());
                if id.as_str().is_empty() {
                    proof {
                        assert(id@.len() == 0);
                    }
                    Ok(None)
                } else {
                    Ok(Some(id))
                }
            },
        }
    }

    pub fn create_for_lead(&mut self, lead_session_id: &str, lead_name: &str, now_unix_ms: i64) -> (r:
        Result<TeamConfig, TeamStoreError>)
        requires
            old(self).wf(),
        ensures
            final(self).wf(),
            (final(self)@, config_result_view(r)) == old(self)@.create_for_lead(
                lead_session_id@,
                lead_name@,
                now_unix_ms,
            ),
    {
        let team_id = team_id_from_session(lead_session_id);
        let exists = self.dirs.contains_key(&team_id);
        proof {
            self.dirs.lemma_entries();
            let d = dir_order(self.dirs);
            if d.contains(team_id@) {
                let j = choose|j: int| 0 <= j < d.len() && d[j] == team_id@;
                assert(self.dirs.key_at(j) == team_id@);
            }
            if exists {
                let j = choose|j: int| 0 <= j < self.dirs.size() && self.dirs.key_at(j) == team_id@;
                assert(d[j] == team_id@);
            }
        }
        if exists {
            return Err(TeamStoreError::AlreadyExists(team_id));
        }
        self.ensure_dir(team_id.as_str());
        let mut members: Vec<TeamMember> = Vec::new();
        members.push(
            TeamMember {
                name: owned(lead_name),
                role: MemberRole::TeamLead,
                session_id: Some(owned(lead_session_id)),
                spawn_prompt: None,
            },
        );
        let config = TeamConfig {
            team_id: team_id.clone(),
            lead_session_id: owned(lead_session_id),
            members,
            created_unix_ms: now_unix_ms,
        };
        assert(config@.members =~= StoreView::lead_config(
            lead_session_id@,
            lead_name@,
            now_unix_ms,
        ).members);
        let _ = self.write_config(&config);
        let no_tasks: Vec<TeamTask> = Vec::new();
        let _ = self.write_tasks(team_id.as_str(), no_tasks.as_slice());
        let no_messages: Vec<MailboxMessage> = Vec::new();
        let _ = self.write_inbox(team_id.as_str(), lead_name, no_messages.as_slice());
        proof {
            assert(no_tasks@.map_values(|t: TeamTask| t@) =~= Seq::<TeamTaskView>::empty());
            assert(no_messages@.map_values(|m: MailboxMessage| m@) =~= Seq::<
                MailboxMessageView,
            >::empty());
        }
        Ok(config)
    }

    pub fn add_member(
        &mut self,
        team_id: &str,
        name: &str,
        session_id: Option<String>,
        spawn_prompt: Option<String>,
    ) -> (r: Result<TeamConfig, TeamStoreError>)
        requires
            old(self).wf(),
        ensures
            final(self).wf(),
            (final(self)@, config_result_view(r)) == old(self)@.add_member(
                team_id@,
                name@,
                session_id.deep_view(),
                spawn_prompt.deep_view(),
            ),
    {
        let mut config = match self.load(team_id) {
            Ok(c) => c,
            Err(e) => return Err(e),
        };
        if config.member(name).is_some() {
            return Err(TeamStoreError::DuplicateMember(owned(name)));
        }
        let ghost before = config@;
        config.members.push(
            TeamMember { name: owned(name), role: MemberRole::Teammate, session_id, spawn_prompt },
        );
        proof {
            assert(config.members.deep_view() =~= before.members.push(
                TeamMemberView {
                    name: name@,
                    role: MemberRole::Teammate,
                    session_id: session_id.deep_view(),
                    spawn_prompt: spawn_prompt.deep_view(),
                },
            ));
        }
        let _ = self.write_config(&config);
        let no_messages: Vec<MailboxMessage> = Vec::new();
        let _ = self.write_inbox(team_id, name, no_messages.as_slice());
        proof {
            assert(no_messages@.map_values(|m: MailboxMessage| m@) =~= Seq::<
                MailboxMessageView,
            >::empty());
        }
        Ok(config)
    }

    pub fn bind_session(&mut self, team_id: &str, name: &str, session_id: &str) -> (r: Result<
        TeamConfig,
        TeamStoreError,
    >)
        requires
            old(self).wf(),
        ensures
            final(self).wf(),
            (final(self)@, config_result_view(r)) == old(self)@.bind_session(
                team_id@,
                name@,
                session_id@,
            ),
    {
        let mut config = match self.load(team_id) {
            Ok(c) => c,
            Err(e) => return Err(e),
        };
        let i = match config.member_position(name) {
            Some(i) => i,
            None => {
                proof {
                    lemma_first_index(config@.members, named(name@));
                }
                return Err(TeamStoreError::UnknownMember(owned(name)));
            },
        };
        let ghost before = config@;
        let old_member = config.members.remove(i);
        let updated = TeamMember {
            name: old_member.name,
            role: old_member.role,
            session_id: Some(owned(session_id)),
            spawn_prompt: None,
        };
        config.members.insert(i, updated);
        proof {
            assert(config.members.deep_view() =~= before.members.update(
                i as int,
                TeamMemberView {
                    session_id: Some(session_id@),
                    spawn_prompt: None,
                    ..before.members[i as int]
                },
            ));
        }
        let _ = self.write_config(&config);
        Ok(config)
    }

    /// Scans `{root}/teams/*/config.json`, in directory order, for a member
    /// bound to `session_id`.
    pub fn find_by_session(&self, session_id: &str) -> (r: Result<
        Option<TeamConfig>,
        TeamStoreError,
    >)
        requires
            self.wf(),
        ensures
            r matches Ok(found) && match (found, self@.find_by_session(session_id@)) {
                (Some(c), Some(d)) => c@ == d,
                (None, None) => true,
                _ => false,
            },
    {
        let n = self.dirs.len();
        let ghost order = dir_order(self.dirs);
        let ghost p = self@.holds_session(session_id@);
        let mut i: usize = 0;
        proof {
            lemma_first_index(order, p);
        }
        while i < n
            invariant
                self.wf(),
                n == self.dirs.size(),
                order == dir_order(self.dirs),
                p == self@.holds_session(session_id@),
                i <= n,
                forall|k: int| 0 <= k < i ==> !p(#[trigger] order[k]),
            decreases n - i,
        {
            let t = self.dirs.key(i);
            match self.configs.get(t) {
                Some(cfg) => {
                    if cfg.member_for_session(session_id).is_some() {
                        proof {
                            lemma_first_index_is(order, p, i as int);
                        }
                        return Ok(Some(cfg.clone()));
                    }
                },
                None => {},
            }
            i = i + 1;
        }
        proof {
            lemma_first_index_is(order, p, n as int);
        }
        Ok(None)
    }
}

/// The error's message.
pub open spec fn store_error_text(e: StoreErrorView) -> Seq<char> {
    match e {
        StoreErrorView::AlreadyExists(t) => "team already exists: "@ + t,
        StoreErrorView::NotFound(t) => "team not found: "@ + t,
        StoreErrorView::UnknownMember(m) => "unknown member: "@ + m,
        StoreErrorView::DuplicateMember(m) => "duplicate member name: "@ + m,
    }
}

impl TeamStoreError {
    /// The error's message.
    pub fn message(&self) -> (s: String)
        ensures
            s@ == store_error_text(self@),
    {
        proof {
            reveal_strlit("team already exists: ");
            reveal_strlit("team not found: ");
            reveal_strlit("unknown member: ");
            reveal_strlit("duplicate member name: ");
        }
        match self {
            TeamStoreError::AlreadyExists(t) => concat_str("team already exists: ", t.as_str()),
            TeamStoreError::NotFound(t) => concat_str("team not found: ", t.as_str()),
            TeamStoreError::UnknownMember(m) => concat_str("unknown member: ", m.as_str()),
            TeamStoreError::DuplicateMember(m) => concat_str("duplicate member name: ", m.as_str()),
        }
    }
}

impl TeamStore {
    /// The team directories, in scan order.
    pub fn team_dirs(&self) -> (v: Vec<String>)
        ensures
            v.deep_view() == self@.dirs,
    {
        let all = self.dirs.to_vec();
        let mut v: Vec<String> = Vec::new();
        let n = all.len();
        let mut i: usize = 0;
        while i < n
            invariant
                n == all.len(),
                n == self.dirs.size(),
                i <= n,
                forall|k: int| 0 <= k < n ==> #[trigger] all@[k].0.deep_view() == self.dirs.key_at(k),
                v.deep_view() == dir_order(self.dirs).subrange(0, i as int),
            decreases n - i,
        {
            let ghost prev = v.deep_view();
            v.push(all[i].0.clone());
            assert(v.deep_view() =~= dir_order(self.dirs).subrange(0, i as int + 1)) by {
                assert(v.deep_view() =~= prev.push(all@[i as int].0.deep_view()));
            }
            i = i + 1;
        }
        assert(dir_order(self.dirs).subrange(0, n as int) =~= dir_order(self.dirs));
        v
    }

    /// Every config file: `(team directory, config)`.
    pub fn config_files(&self) -> (v: Vec<(String, TeamConfig)>)
        requires
            self.wf(),
        ensures
            forall|i: int|
                0 <= i < v.len() ==> #[trigger] self@.configs.contains_key(v@[i].0@) && self@.configs[v@[i].0@]
                    == v@[i].1@,
            forall|t: Seq<char>| #[trigger]
                self@.configs.contains_key(t) ==> exists|i: int| 0 <= i < v.len() && #[trigger] v@[i].0@ == t,
    {
        let v = self.configs.to_vec();
        proof {
            self.configs.lemma_entries();
            assert forall|i: int| 0 <= i < v.len() implies #[trigger] self@.configs.contains_key(v@[i].0@)
                && self@.configs[v@[i].0@] == v@[i].1@ by {
                assert(v@[i].0.deep_view() == self.configs.key_at(i));
                assert(v@[i].1.deep_view() == self.configs.value_at(i));
                assert(self.configs.map().contains_key(self.configs.key_at(i)));
            }
            assert forall|t: Seq<char>| #[trigger] self@.configs.contains_key(t) implies exists|i: int|
                0 <= i < v.len() && #[trigger] v@[i].0@ == t by {
                let i = choose|i: int| 0 <= i < self.configs.size() && #[trigger] self.configs.key_at(i) == t;
                assert(v@[i].0.deep_view() == t);
            }
        }
        v
    }

    /// Every task file: `(team directory, tasks)`.
    pub fn task_files(&self) -> (v: Vec<(String, Vec<TeamTask>)>)
        requires
            self.wf(),
        ensures
            forall|i: int|
                0 <= i < v.len() ==> #[trigger] self@.tasks.contains_key(v@[i].0@) && self@.tasks[v@[i].0@]
                    == v@[i].1.deep_view(),
            forall|t: Seq<char>| #[trigger]
                self@.tasks.contains_key(t) ==> exists|i: int| 0 <= i < v.len() && #[trigger] v@[i].0@ == t,
    {
        let v = self.tasks.to_vec();
        proof {
            self.tasks.lemma_entries();
            assert forall|i: int| 0 <= i < v.len() implies #[trigger] self@.tasks.contains_key(v@[i].0@)
                && self@.tasks[v@[i].0@] == v@[i].1.deep_view() by {
                assert(v@[i].0.deep_view() == self.tasks.key_at(i));
                assert(v@[i].1.deep_view() == self.tasks.value_at(i));
                assert(self.tasks.map().contains_key(self.tasks.key_at(i)));
            }
            assert forall|t: Seq<char>| #[trigger] self@.tasks.contains_key(t) implies exists|i: int|
                0 <= i < v.len() && #[trigger] v@[i].0@ == t by {
                let i = choose|i: int| 0 <= i < self.tasks.size() && #[trigger] self.tasks.key_at(i) == t;
                assert(v@[i].0.deep_view() == t);
            }
        }
        v
    }

    /// Every inbox file: `((team directory, member), messages)`.
    pub fn inbox_files(&self) -> (v: Vec<((String, String), Vec<MailboxMessage>)>)
        requires
            self.wf(),
        ensures
            forall|i: int|
                0 <= i < v.len() ==> #[trigger] self@.inboxes.contains_key(v@[i].0.deep_view())
                    && self@.inboxes[v@[i].0.deep_view()] == v@[i].1.deep_view(),
            forall|k: (Seq<char>, Seq<char>)| #[trigger]
                self@.inboxes.contains_key(k) ==> exists|i: int| 0 <= i < v.len() && #[trigger] v@[i].0.deep_view() == k,
    {
        let v = self.inboxes.to_vec();
        proof {
            self.inboxes.lemma_entries();
            assert forall|i: int| 0 <= i < v.len() implies #[trigger] self@.inboxes.contains_key(v@[i].0.deep_view())
                && self@.inboxes[v@[i].0.deep_view()] == v@[i].1.deep_view() by {
                assert(v@[i].0.deep_view() == self.inboxes.key_at(i));
                assert(v@[i].1.deep_view() == self.inboxes.value_at(i));
                assert(self.inboxes.map().contains_key(self.inboxes.key_at(i)));
            }
            assert forall|k: (Seq<char>, Seq<char>)| #[trigger] self@.inboxes.contains_key(k) implies exists|i: int|
                0 <= i < v.len() && #[trigger] v@[i].0.deep_view() == k by {
                let i = choose|i: int| 0 <= i < self.inboxes.size() && #[trigger] self.inboxes.key_at(i) == k;
                assert(v@[i].0.deep_view() == k);
            }
        }
        v
    }

    /// Every cursor file: `((team directory, member), contents)`.
    pub fn cursor_files(&self) -> (v: Vec<((String, String), String)>)
        requires
            self.wf(),
        ensures
            forall|i: int|
                0 <= i < v.len() ==> #[trigger] self@.cursors.contains_key(v@[i].0.deep_view())
                    && self@.cursors[v@[i].0.deep_view()] == v@[i].1@,
            forall|k: (Seq<char>, Seq<char>)| #[trigger]
                self@.cursors.contains_key(k) ==> exists|i: int| 0 <= i < v.len() && #[trigger] v@[i].0.deep_view() == k,
    {
        let v = self.cursors.to_vec();
        proof {
            self.cursors.lemma_entries();
            assert forall|i: int| 0 <= i < v.len() implies #[trigger] self@.cursors.contains_key(v@[i].0.deep_view())
                && self@.cursors[v@[i].0.deep_view()] == v@[i].1@ by {
                assert(v@[i].0.deep_view() == self.cursors.key_at(i));
                assert(v@[i].1.deep_view() == self.cursors.value_at(i));
                assert(self.cursors.map().contains_key(self.cursors.key_at(i)));
            }
            assert forall|k: (Seq<char>, Seq<char>)| #[trigger] self@.cursors.contains_key(k) implies exists|i: int|
                0 <= i < v.len() && #[trigger] v@[i].0.deep_view() == k by {
                let i = choose|i: int| 0 <= i < self.cursors.size() && #[trigger] self.cursors.key_at(i) == k;
                assert(v@[i].0.deep_view() == k);
            }
        }
        v
    }

    /// Puts `config` in as the config file of team directory `team_id`, as
    /// read from disk (its own `team_id` may differ from the directory's).
    pub fn restore_config(&mut self, team_id: &str, config: TeamConfig)
        requires
            old(self).wf(),
        ensures
            final(self).wf(),
            final(self)@ == (StoreView {
                dirs: with_dir(old(self)@.dirs, team_id@),
                configs: old(self)@.configs.insert(team_id@, config@),
                ..old(self)@
            }),
    {
        self.ensure_dir(team_id);
        self.configs.insert(owned(team_id), config);
    }

    /// Records that the team directory `team_id` exists (an empty one, as
    /// found on disk).
    pub fn record_dir(&mut self, team_id: &str)
        requires
            old(self).wf(),
        ensures
            final(self).wf(),
            final(self)@ == (StoreView { dirs: with_dir(old(self)@.dirs, team_id@), ..old(self)@ }),
    {
        self.ensure_dir(team_id);
    }
}

} // verus!
