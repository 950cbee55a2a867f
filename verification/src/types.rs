//! The persisted shapes of a team: membership, mailbox messages and tasks,
//! each with a mathematical view over `Seq<char>` strings.
use vstd::prelude::*;
use crate::table::Duplicate;
use crate::seqs::{find_first, first_index, lemma_first_index, lemma_first_index_is};
use crate::text::{
    char_hex_to_lower, char_is_ascii_digit, char_is_ascii_hex, char_is_ascii_lower, chars_of,
    concat_str, hex_to_lower, is_ascii_digit, is_ascii_hex, is_ascii_lower, owned,
    string_from_chars,
};

verus! {

/// `session-` plus the compact slug: the first eight hexadecimal digits of
/// the session id, lower-cased, or `unknown` when it has none.
pub open spec fn team_id_view(session_id: Seq<char>) -> Seq<char> {
    let slug = compact_hex(session_id);
    if slug.len() == 0 {
        "session-unknown"@
    } else {
        "session-"@ + slug
    }
}

/// The hexadecimal digits of `s`, in order.
pub open spec fn hex_digits(s: Seq<char>) -> Seq<char>
    decreases s.len(),
{
    if s.len() == 0 {
        Seq::empty()
    } else {
        let r = hex_digits(s.drop_last());
        if is_ascii_hex(s.last()) {
            r.push(s.last())
        } else {
            r
        }
    }
}

/// At most the first eight hexadecimal digits of `s`, lower-cased.
pub open spec fn compact_hex(s: Seq<char>) -> Seq<char> {
    let h = hex_digits(s);
    let n: int = if h.len() < 8 {
        h.len() as int
    } else {
        8
    };
    h.subrange(0, n).map_values(|c: char| hex_to_lower(c))
}

/// Member names: `[a-z][a-z0-9_-]{0,31}`.
pub open spec fn valid_member_name_view(name: Seq<char>) -> bool {
    &&& 1 <= name.len() <= 32
    &&& is_ascii_lower(name[0])
    &&& forall|i: int| 1 <= i < name.len() ==> is_name_char(#[trigger] name[i])
}

/// A character allowed after the first one of a member name.
pub open spec fn is_name_char(c: char) -> bool {
    is_ascii_lower(c) || is_ascii_digit(c) || c == '_' || c == '-'
}

/// `session-` plus the first eight hex characters of the lead session id.
pub fn team_id_from_session(session_id: &str) -> (id: String)
    ensures
        id@ == team_id_view(session_id@),
{
    let v = chars_of(session_id);
    let n = v.len();
    let mut compact: Vec<char> = Vec::new();
    let mut i: usize = 0;
    while i < n && compact.len() < 8
        invariant
            n == v@.len(),
            v@ == session_id@,
            i <= n,
            compact.len() <= 8,
            compact@ == hex_digits(v@.subrange(0, i as int)).subrange(0, compact.len() as int).map_values(
                |c: char| hex_to_lower(c),
            ),
            compact.len() <= hex_digits(v@.subrange(0, i as int)).len(),
            compact.len() < 8 ==> compact.len() == hex_digits(v@.subrange(0, i as int)).len(),
        decreases n - i,
    {
        let c = v[i];
        let ghost before = v@.subrange(0, i as int);
        let ghost after = v@.subrange(0, i as int + 1);
        assert(after.drop_last() =~= before);
        if char_is_ascii_hex(c) {
            compact.push(char_hex_to_lower(c));
        }
        i = i + 1;
        assert(compact@ =~= hex_digits(after).subrange(0, compact.len() as int).map_values(
            |c: char| hex_to_lower(c),
        ));
    }
    proof {
        lemma_hex_digits_prefix(v@, i as int);
        let hp = hex_digits(v@.subrange(0, i as int));
        let h = hex_digits(v@);
        if compact.len() < 8 {
            assert(v@.subrange(0, i as int) =~= v@);
        } else {
            assert(h.subrange(0, 8) =~= hp.subrange(0, 8)) by {
                assert(h.subrange(0, hp.len() as int) =~= hp);
                assert forall|k: int| 0 <= k < 8 implies h.subrange(0, 8)[k] == hp.subrange(0, 8)[k] by {
                    assert(h.subrange(0, hp.len() as int)[k] == hp[k]);
                }
            }
        }
        assert(compact@ =~= compact_hex(session_id@));
    }
    if compact.len() == 0 {
        proof {
            reveal_strlit("session-unknown");
        }
        owned("session-unknown")
    } else {
        let slug = string_from_chars(&compact, 0, compact.len());
        proof {
            reveal_strlit("session-");
            assert(slug@ =~= compact@);
        }
        concat_str("session-", slug.as_str())
    }
}

/// The hex digits of a prefix are a prefix of the hex digits.
proof fn lemma_hex_digits_prefix(s: Seq<char>, i: int)
    requires
        0 <= i <= s.len(),
    ensures
        hex_digits(s.subrange(0, i)).len() <= hex_digits(s).len(),
        hex_digits(s).subrange(0, hex_digits(s.subrange(0, i)).len() as int) =~= hex_digits(
            s.subrange(0, i),
        ),
    decreases s.len() - i,
{
    if i < s.len() {
        lemma_hex_digits_prefix(s, i + 1);
        let a = s.subrange(0, i);
        let b = s.subrange(0, i + 1);
        assert(b.drop_last() =~= a);
    } else {
        assert(s.subrange(0, i) =~= s);
    }
}

/// `[a-z][a-z0-9_-]{0,31}` — same shape as Herdr agent names.
pub fn valid_member_name(name: &str) -> (ok: bool)
    ensures
        ok == valid_member_name_view(name@),
{
    let v = chars_of(name);
    let n = v.len();
    if n == 0 || !char_is_ascii_lower(v[0]) || n > 32 {
        return false;
    }
    let mut i: usize = 1;
    while i < n
        invariant
            v@ == name@,
            n == v@.len(),
            1 <= i <= n,
            forall|k: int| 1 <= k < i ==> is_name_char(#[trigger] v@[k]),
        decreases n - i,
    {
        let c = v[i];
        if !(char_is_ascii_lower(c) || char_is_ascii_digit(c) || c == '_' || c == '-') {
            return false;
        }
        i = i + 1;
    }
    true
}

#[derive(Debug, Clone, Copy, PartialEq, Eq, Structural)]
pub enum MemberRole {
    TeamLead,
    Teammate,
}

#[derive(Debug, PartialEq, Eq)]
pub struct TeamMember {
    pub name: String,
    pub role: MemberRole,
    pub session_id: Option<String>,
    /// Prompt the pager should send after it materializes this member.
    pub spawn_prompt: Option<String>,
}

pub struct TeamMemberView {
    pub name: Seq<char>,
    pub role: MemberRole,
    pub session_id: Option<Seq<char>>,
    pub spawn_prompt: Option<Seq<char>>,
}

impl View for TeamMember {
    type V = TeamMemberView;

    open spec fn view(&self) -> TeamMemberView {
        TeamMemberView {
            name: self.name@,
            role: self.role,
            session_id: self.session_id.deep_view(),
            spawn_prompt: self.spawn_prompt.deep_view(),
        }
    }
}

impl Clone for TeamMember {
    fn clone(&self) -> (r: Self)
        ensures
            r@ == self@,
    {
        TeamMember {
            name: self.name.clone(),
            role: self.role,
            session_id: self.session_id.clone(),
            spawn_prompt: self.spawn_prompt.clone(),
        }
    }
}

impl DeepView for TeamMember {
    type V = TeamMemberView;

    open spec fn deep_view(&self) -> TeamMemberView {
        self@
    }
}

#[derive(Debug, PartialEq, Eq)]
pub struct TeamConfig {
    pub team_id: String,
    pub lead_session_id: String,
    pub members: Vec<TeamMember>,
    pub created_unix_ms: i64,
}

pub struct TeamConfigView {
    pub team_id: Seq<char>,
    pub lead_session_id: Seq<char>,
    pub members: Seq<TeamMemberView>,
    pub created_unix_ms: i64,
}

impl View for TeamConfig {
    type V = TeamConfigView;

    open spec fn view(&self) -> TeamConfigView {
        TeamConfigView {
            team_id: self.team_id@,
            lead_session_id: self.lead_session_id@,
            members: self.members.deep_view(),
            created_unix_ms: self.created_unix_ms,
        }
    }
}

impl Clone for TeamConfig {
    fn clone(&self) -> (r: Self)
        ensures
            r@ == self@,
    {
        let members = self.members.clone();
        assert(members.deep_view() =~= self.members.deep_view());
        TeamConfig {
            team_id: self.team_id.clone(),
            lead_session_id: self.lead_session_id.clone(),
            members,
            created_unix_ms: self.created_unix_ms,
        }
    }
}

impl DeepView for TeamConfig {
    type V = TeamConfigView;

    open spec fn deep_view(&self) -> TeamConfigView {
        self@
    }
}

/// A member whose name is `name`.
pub open spec fn named(name: Seq<char>) -> spec_fn(TeamMemberView) -> bool {
    |m: TeamMemberView| m.name == name
}

/// A member with the lead role.
pub open spec fn is_lead_member() -> spec_fn(TeamMemberView) -> bool {
    |m: TeamMemberView| m.role == MemberRole::TeamLead
}

/// A member bound to session `sid`.
pub open spec fn bound_to(sid: Seq<char>) -> spec_fn(TeamMemberView) -> bool {
    |m: TeamMemberView| m.session_id == Some(sid)
}

impl TeamConfigView {
    /// The first member named `name`.
    pub open spec fn member(self, name: Seq<char>) -> Option<TeamMemberView> {
        find_first(self.members, named(name))
    }

    /// The first member with the lead role.
    pub open spec fn lead(self) -> Option<TeamMemberView> {
        find_first(self.members, is_lead_member())
    }

    /// The member bound to `sid`, else the lead when `sid` is the team's lead
    /// session.
    pub open spec fn member_for_session(self, sid: Seq<char>) -> Option<TeamMemberView> {
        match find_first(self.members, bound_to(sid)) {
            Some(m) => Some(m),
            None => if self.lead_session_id == sid {
                self.lead()
            } else {
                None
            },
        }
    }

    pub open spec fn has_member(self, name: Seq<char>) -> bool {
        self.member(name) is Some
    }
}

/// The view of an optional borrowed member.
pub open spec fn member_ref_view(m: Option<&TeamMember>) -> Option<TeamMemberView> {
    match m {
        Some(m) => Some(m@),
        None => None,
    }
}

impl TeamConfig {
    /// Index of the first member named `name`.
    pub fn member_position(&self, name: &str) -> (r: Option<usize>)
        ensures
            r is Some <==> self@.member(name@) is Some,
            r matches Some(i) ==> i == first_index(self@.members, named(name@)) && i
                < self.members.len(),
    {
        let n = self.members.len();
        let mut i: usize = 0;
        let key = owned(name);
        proof {
            lemma_first_index(self@.members, named(name@));
        }
        while i < n
            invariant
                n == self.members.len(),
                i <= n,
                key@ == name@,
                forall|k: int| 0 <= k < i ==> !named(name@)(#[trigger] self@.members[k]),
            decreases n - i,
        {
            if self.members[i].name == key {
                proof {
                    lemma_first_index_is(self@.members, named(name@), i as int);
                }
                return Some(i);
            }
            i = i + 1;
        }
        proof {
            lemma_first_index_is(self@.members, named(name@), n as int);
        }
        None
    }

    pub fn member(&self, name: &str) -> (r: Option<&TeamMember>)
        ensures
            member_ref_view(r) == self@.member(name@),
    {
        match self.member_position(name) {
            Some(i) => Some(&self.members[i]),
            None => None,
        }
    }

    pub fn lead(&self) -> (r: Option<&TeamMember>)
        ensures
            member_ref_view(r) == self@.lead(),
    {
        let n = self.members.len();
        let mut i: usize = 0;
        while i < n
            invariant
                n == self.members.len(),
                i <= n,
                forall|k: int| 0 <= k < i ==> !is_lead_member()(#[trigger] self@.members[k]),
            decreases n - i,
        {
            if self.members[i].role == MemberRole::TeamLead {
                proof {
                    lemma_first_index_is(self@.members, is_lead_member(), i as int);
                }
                return Some(&self.members[i]);
            }
            i = i + 1;
        }
        proof {
            lemma_first_index_is(self@.members, is_lead_member(), n as int);
        }
        None
    }

    pub fn member_for_session(&self, session_id: &str) -> (r: Option<&TeamMember>)
        ensures
            member_ref_view(r) == self@.member_for_session(session_id@),
    {
        let n = self.members.len();
        let key = owned(session_id);
        let mut i: usize = 0;
        while i < n
            invariant
                n == self.members.len(),
                i <= n,
                key@ == session_id@,
                forall|k: int| 0 <= k < i ==> !bound_to(session_id@)(#[trigger] self@.members[k]),
            decreases n - i,
        {
            let hit = match &self.members[i].session_id {
                Some(s) => *s == key,
                None => false,
            };
            if hit {
                proof {
                    lemma_first_index_is(self@.members, bound_to(session_id@), i as int);
                }
                return Some(&self.members[i]);
            }
            i = i + 1;
        }
        proof {
            lemma_first_index_is(self@.members, bound_to(session_id@), n as int);
        }
        if self.lead_session_id == key {
            self.lead()
        } else {
            None
        }
    }
}

#[derive(Debug, Clone, Copy, PartialEq, Eq, Structural)]
pub enum MailboxKind {
    Text,
    PlanApproval,
    Shutdown,
    TaskUpdate,
    /// A teammate finished its turn and is idle.
    Idle,
    /// A teammate's turn failed.
    Failed,
}

#[derive(Debug, PartialEq, Eq)]
pub struct MailboxMessage {
    pub id: String,
    pub from: String,
    pub to: String,
    pub kind: MailboxKind,
    pub subject: Option<String>,
    pub body: String,
    pub created_unix_ms: i64,
}

pub struct MailboxMessageView {
    pub id: Seq<char>,
    pub from: Seq<char>,
    pub to: Seq<char>,
    pub kind: MailboxKind,
    pub subject: Option<Seq<char>>,
    pub body: Seq<char>,
    pub created_unix_ms: i64,
}

impl View for MailboxMessage {
    type V = MailboxMessageView;

    open spec fn view(&self) -> MailboxMessageView {
        MailboxMessageView {
            id: self.id@,
            from: self.from@,
            to: self.to@,
            kind: self.kind,
            subject: self.subject.deep_view(),
            body: self.body@,
            created_unix_ms: self.created_unix_ms,
        }
    }
}

impl Clone for MailboxMessage {
    fn clone(&self) -> (r: Self)
        ensures
            r@ == self@,
    {
        MailboxMessage {
            id: self.id.clone(),
            from: self.from.clone(),
            to: self.to.clone(),
            kind: self.kind,
            subject: self.subject.clone(),
            body: self.body.clone(),
            created_unix_ms: self.created_unix_ms,
        }
    }
}

impl DeepView for MailboxMessage {
    type V = MailboxMessageView;

    open spec fn deep_view(&self) -> MailboxMessageView {
        self@
    }
}

#[derive(Debug, Clone, Copy, PartialEq, Eq, Structural)]
pub enum TaskStatus {
    Pending,
    InProgress,
    Completed,
}

#[derive(Debug, PartialEq, Eq)]
pub struct TeamTask {
    pub id: String,
    pub title: String,
    pub status: TaskStatus,
    pub assignee: Option<String>,
    pub depends_on: Vec<String>,
    pub created_unix_ms: i64,
}

pub struct TeamTaskView {
    pub id: Seq<char>,
    pub title: Seq<char>,
    pub status: TaskStatus,
    pub assignee: Option<Seq<char>>,
    pub depends_on: Seq<Seq<char>>,
    pub created_unix_ms: i64,
}

impl View for TeamTask {
    type V = TeamTaskView;

    open spec fn view(&self) -> TeamTaskView {
        TeamTaskView {
            id: self.id@,
            title: self.title@,
            status: self.status,
            assignee: self.assignee.deep_view(),
            depends_on: self.depends_on.deep_view(),
            created_unix_ms: self.created_unix_ms,
        }
    }
}

impl Clone for TeamTask {
    fn clone(&self) -> (r: Self)
        ensures
            r@ == self@,
    {
        let depends_on = self.depends_on.clone();
        assert(depends_on.deep_view() =~= self.depends_on.deep_view());
        TeamTask {
            id: self.id.clone(),
            title: self.title.clone(),
            status: self.status,
            assignee: self.assignee.clone(),
            depends_on,
            created_unix_ms: self.created_unix_ms,
        }
    }
}

impl DeepView for TeamTask {
    type V = TeamTaskView;

    open spec fn deep_view(&self) -> TeamTaskView {
        self@
    }
}

impl Duplicate for TeamConfig {
    fn duplicate(&self) -> (r: Self) {
        self.clone()
    }
}

impl Duplicate for Vec<TeamTask> {
    fn duplicate(&self) -> (r: Self) {
        let r = self.clone();
        assert(r.deep_view() =~= self.deep_view());
        r
    }
}

impl Duplicate for Vec<MailboxMessage> {
    fn duplicate(&self) -> (r: Self) {
        let r = self.clone();
        assert(r.deep_view() =~= self.deep_view());
        r
    }
}

} // verus!
