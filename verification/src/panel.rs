//! The agent-team panel above the lead prompt: which rows show, how tall the
//! band is, what a key does, and what each painted line says.
//!
//! Time is a monotonic clock reading in milliseconds; the caller reads the
//! clock and hands the reading in.
use vstd::prelude::*;
use crate::numbers::{decimal_view, u64_to_decimal};

verus! {

/// Hide idle teammate rows this long (milliseconds) after the whole team
/// goes idle.
pub const IDLE_COLLAPSE_AFTER: u64 = 30000;

/// Header (1) + at most this many member rows + footer (1).
pub const MAX_MEMBER_ROWS: usize = 6;

/// At most this many task lines.
pub const MAX_TASK_ROWS: usize = 4;

/// The band never grows past this many lines.
pub const MAX_PANEL_HEIGHT: u16 = 12;

#[derive(Debug, Clone, Copy, PartialEq, Eq, Structural)]
pub enum TeamActivity {
    Pending,
    Working,
    Blocked,
    Idle,
    Done,
}

impl View for TeamActivity {
    type V = TeamActivity;

    open spec fn view(&self) -> TeamActivity {
        *self
    }
}

impl DeepView for TeamActivity {
    type V = TeamActivity;

    open spec fn deep_view(&self) -> TeamActivity {
        *self
    }
}

pub open spec fn activity_label(a: TeamActivity) -> Seq<char> {
    match a {
        TeamActivity::Pending => "pending"@,
        TeamActivity::Working => "working"@,
        TeamActivity::Blocked => "blocked"@,
        TeamActivity::Idle => "idle"@,
        TeamActivity::Done => "done"@,
    }
}

pub open spec fn activity_is_busy(a: TeamActivity) -> bool {
    a == TeamActivity::Pending || a == TeamActivity::Working || a == TeamActivity::Blocked
}

pub open spec fn activity_is_idle_like(a: TeamActivity) -> bool {
    a == TeamActivity::Idle || a == TeamActivity::Done
}

impl TeamActivity {
    pub fn label(self) -> (s: &'static str)
        ensures
            s@ == activity_label(self),
    {
        proof {
            reveal_strlit("pending");
            reveal_strlit("working");
            reveal_strlit("blocked");
            reveal_strlit("idle");
            reveal_strlit("done");
        }
        match self {
            TeamActivity::Pending => "pending",
            TeamActivity::Working => "working",
            TeamActivity::Blocked => "blocked",
            TeamActivity::Idle => "idle",
            TeamActivity::Done => "done",
        }
    }

    pub fn is_busy(self) -> (b: bool)
        ensures
            b == activity_is_busy(self),
    {
        match self {
            TeamActivity::Pending | TeamActivity::Working | TeamActivity::Blocked => true,
            _ => false,
        }
    }

    pub fn is_idle_like(self) -> (b: bool)
        ensures
            b == activity_is_idle_like(self),
    {
        match self {
            TeamActivity::Idle | TeamActivity::Done => true,
            _ => false,
        }
    }
}

#[derive(Debug, PartialEq, Eq)]
pub struct TeamPanelRow {
    pub name: String,
    pub is_lead: bool,
    pub activity: TeamActivity,
    pub unread: u32,
    pub session_id: Option<String>,
    pub spawn_pending: bool,
}

pub struct RowView {
    pub name: Seq<char>,
    pub is_lead: bool,
    pub activity: TeamActivity,
    pub unread: u32,
    pub session_id: Option<Seq<char>>,
    pub spawn_pending: bool,
}

impl View for TeamPanelRow {
    type V = RowView;

    open spec fn view(&self) -> RowView {
        RowView {
            name: self.name@,
            is_lead: self.is_lead,
            activity: self.activity,
            unread: self.unread,
            session_id: self.session_id.deep_view(),
            spawn_pending: self.spawn_pending,
        }
    }
}

impl DeepView for TeamPanelRow {
    type V = RowView;

    open spec fn deep_view(&self) -> RowView {
        self@
    }
}

impl Clone for TeamPanelRow {
    fn clone(&self) -> (r: Self)
        ensures
            r@ == self@,
    {
        TeamPanelRow {
            name: self.name.clone(),
            is_lead: self.is_lead,
            activity: self.activity,
            unread: self.unread,
            session_id: self.session_id.clone(),
            spawn_pending: self.spawn_pending,
        }
    }
}

#[derive(Debug, PartialEq, Eq)]
pub struct TeamTaskSummary {
    pub id: String,
    pub title: String,
    pub status: String,
}

pub struct TaskSummaryView {
    pub id: Seq<char>,
    pub title: Seq<char>,
    pub status: Seq<char>,
}

impl View for TeamTaskSummary {
    type V = TaskSummaryView;

    open spec fn view(&self) -> TaskSummaryView {
        TaskSummaryView { id: self.id@, title: self.title@, status: self.status@ }
    }
}

impl DeepView for TeamTaskSummary {
    type V = TaskSummaryView;

    open spec fn deep_view(&self) -> TaskSummaryView {
        self@
    }
}

impl Clone for TeamTaskSummary {
    fn clone(&self) -> (r: Self)
        ensures
            r@ == self@,
    {
        TeamTaskSummary { id: self.id.clone(), title: self.title.clone(), status: self.status.clone() }
    }
}

#[derive(Debug, PartialEq, Eq)]
pub struct TeamSnapshot {
    pub team_id: String,
    pub rows: Vec<TeamPanelRow>,
    pub tasks: Vec<TeamTaskSummary>,
    pub unread_total: u32,
}

pub struct SnapshotView {
    pub team_id: Seq<char>,
    pub rows: Seq<RowView>,
    pub tasks: Seq<TaskSummaryView>,
    pub unread_total: u32,
}

impl View for TeamSnapshot {
    type V = SnapshotView;

    open spec fn view(&self) -> SnapshotView {
        SnapshotView {
            team_id: self.team_id@,
            rows: self.rows.deep_view(),
            tasks: self.tasks.deep_view(),
            unread_total: self.unread_total,
        }
    }
}

/// Outcome of a key while the team pane is focused.
#[derive(Debug, PartialEq, Eq)]
pub enum TeamPanelKey {
    SelectChanged,
    Open { session_id: String },
    Interrupt { session_id: String },
    ToggleTasks,
    FocusPrompt,
    Ignored,
}

pub enum PanelKeyView {
    SelectChanged,
    Open { session_id: Seq<char> },
    Interrupt { session_id: Seq<char> },
    ToggleTasks,
    FocusPrompt,
    Ignored,
}

impl View for TeamPanelKey {
    type V = PanelKeyView;

    open spec fn view(&self) -> PanelKeyView {
        match self {
            TeamPanelKey::SelectChanged => PanelKeyView::SelectChanged,
            TeamPanelKey::Open { session_id } => PanelKeyView::Open { session_id: session_id@ },
            TeamPanelKey::Interrupt { session_id } => PanelKeyView::Interrupt {
                session_id: session_id@,
            },
            TeamPanelKey::ToggleTasks => PanelKeyView::ToggleTasks,
            TeamPanelKey::FocusPrompt => PanelKeyView::FocusPrompt,
            TeamPanelKey::Ignored => PanelKeyView::Ignored,
        }
    }
}

/// The keys the panel reads.
#[derive(Debug, Clone, Copy, PartialEq, Eq, Structural)]
pub enum KeyCode {
    Up,
    Down,
    Enter,
    Esc,
    Tab,
    Char(char),
    Other,
}

/// Modifier bits, as the terminal reports them.
pub const MOD_SHIFT: u8 = 1;

pub const MOD_CONTROL: u8 = 2;

pub const MOD_ALT: u8 = 4;

pub const MOD_SUPER: u8 = 8;

pub const MOD_HYPER: u8 = 16;

pub const MOD_META: u8 = 32;

/// A key press: its code and the modifier bits held with it.
#[derive(Debug, Clone, Copy, PartialEq, Eq, Structural)]
pub struct KeyEvent {
    pub code: KeyCode,
    pub modifiers: u8,
}

impl KeyEvent {
    /// A key pressed with no modifier.
    pub fn plain(code: KeyCode) -> (k: Self)
        ensures
            k.code == code,
            k.modifiers == 0,
    {
        KeyEvent { code, modifiers: 0 }
    }

    /// A key pressed with Control alone.
    pub fn ctrl(code: KeyCode) -> (k: Self)
        ensures
            k.code == code,
            k.modifiers == MOD_CONTROL,
    {
        KeyEvent { code, modifiers: MOD_CONTROL }
    }
}

#[derive(Debug)]
pub struct TeamPanel {
    pub selected: usize,
    pub last_all_idle_at: Option<u64>,
    pub rows: Vec<TeamPanelRow>,
    pub tasks: Vec<TeamTaskSummary>,
    pub show_tasks: bool,
    pub unread_total: u32,
    pub team_id: Option<String>,
    /// Member names this pager has already started materializing.
    pub in_flight: Vec<String>,
}

pub struct PanelView {
    pub selected: usize,
    pub last_all_idle_at: Option<u64>,
    pub rows: Seq<RowView>,
    pub tasks: Seq<TaskSummaryView>,
    pub show_tasks: bool,
    pub unread_total: u32,
    pub team_id: Option<Seq<char>>,
    pub in_flight: Seq<Seq<char>>,
}

impl View for TeamPanel {
    type V = PanelView;

    open spec fn view(&self) -> PanelView {
        PanelView {
            selected: self.selected,
            last_all_idle_at: self.last_all_idle_at,
            rows: self.rows.deep_view(),
            tasks: self.tasks.deep_view(),
            show_tasks: self.show_tasks,
            unread_total: self.unread_total,
            team_id: self.team_id.deep_view(),
            in_flight: self.in_flight.deep_view(),
        }
    }
}

/// Whether idle rows have collapsed: the team went all idle at least
/// `IDLE_COLLAPSE_AFTER` ago (an earlier `now` counts as no time passed).
pub open spec fn collapsed(last_all_idle_at: Option<u64>, now: u64) -> bool {
    match last_all_idle_at {
        Some(t) => now >= t && now - t >= IDLE_COLLAPSE_AFTER,
        None => false,
    }
}

/// A row paints: never the lead, and an idle row without a pending spawn
/// only until the collapse.
pub open spec fn row_shows(row: RowView, collapse: bool) -> bool {
    !row.is_lead && !(collapse && activity_is_idle_like(row.activity) && !row.spawn_pending)
}

/// The indices of the rows that paint, in order.
pub open spec fn visible_view(rows: Seq<RowView>, collapse: bool) -> Seq<usize>
    decreases rows.len(),
{
    if rows.len() == 0 {
        Seq::empty()
    } else {
        let r = visible_view(rows.drop_last(), collapse);
        if row_shows(rows.last(), collapse) {
            r.push((rows.len() - 1) as usize)
        } else {
            r
        }
    }
}

/// What `visible_view` holds: exactly the indices of the rows that show, in
/// increasing order.
pub proof fn lemma_visible_view(rows: Seq<RowView>, collapse: bool)
    requires
        rows.len() <= usize::MAX,
    ensures
        forall|i: int|
            0 <= i < rows.len() ==> (visible_view(rows, collapse).contains(i as usize) <==> row_shows(
                #[trigger] rows[i],
                collapse,
            )),
        forall|k: int|
            0 <= k < visible_view(rows, collapse).len() ==> #[trigger] visible_view(rows, collapse)[k]
                < rows.len(),
        forall|a: int, b: int|
            0 <= a < b < visible_view(rows, collapse).len() ==> #[trigger] visible_view(
                rows,
                collapse,
            )[a] < #[trigger] visible_view(rows, collapse)[b],
        visible_view(rows, collapse).len() <= rows.len(),
    decreases rows.len(),
{
    if rows.len() > 0 {
        let init = rows.drop_last();
        lemma_visible_view(init, collapse);
        let r = visible_view(init, collapse);
        let v = visible_view(rows, collapse);
        assert forall|i: int| 0 <= i < rows.len() implies (v.contains(i as usize) <==> row_shows(
            #[trigger] rows[i],
            collapse,
        )) by {
            if i < rows.len() - 1 {
                assert(init[i] == rows[i]);
                if v.contains(i as usize) {
                    let k = choose|k: int| 0 <= k < v.len() && v[k] == i as usize;
                    if k < r.len() {
                        assert(r[k] == i as usize);
                    }
                }
                if r.contains(i as usize) {
                    let k = choose|k: int| 0 <= k < r.len() && r[k] == i as usize;
                    assert(v[k] == i as usize);
                }
            } else {
                if row_shows(rows[i], collapse) {
                    assert(v[r.len() as int] == i as usize);
                } else {
                    if v.contains(i as usize) {
                        let k = choose|k: int| 0 <= k < v.len() && v[k] == i as usize;
                        assert(r[k] < init.len());
                    }
                }
            }
        }
    }
}

/// Indices of rows that should paint. Idle rows drop after
/// `IDLE_COLLAPSE_AFTER` once every member is idle/done. Pending, working and
/// blocked rows always stay; the lead row never paints.
pub fn visible_row_indices(rows: &[TeamPanelRow], last_all_idle_at: Option<u64>, now: u64) -> (v:
    Vec<usize>)
    ensures
        v@ == visible_view(rows@.map_values(|r: TeamPanelRow| r@), collapsed(last_all_idle_at, now)),
{
    let collapse = match last_all_idle_at {
        Some(t) => now >= t && now - t >= IDLE_COLLAPSE_AFTER,
        None => false,
    };
    let ghost all = rows@.map_values(|r: TeamPanelRow| r@);
    let mut v: Vec<usize> = Vec::new();
    let n = rows.len();
    let mut i: usize = 0;
    while i < n
        invariant
            n == rows@.len(),
            all == rows@.map_values(|r: TeamPanelRow| r@),
            collapse == collapsed(last_all_idle_at, now),
            i <= n,
            v@ == visible_view(all.subrange(0, i as int), collapse),
        decreases n - i,
    {
        let row = &rows[i];
        let ghost before = all.subrange(0, i as int);
        let ghost after = all.subrange(0, i as int + 1);
        assert(after.drop_last() =~= before);
        let shows = !row.is_lead && !(collapse && row.activity.is_idle_like() && !row.spawn_pending);
        if shows {
            v.push(i);
        }
        i = i + 1;
    }
    assert(all.subrange(0, n as int) =~= all);
    v
}

/// The selection after a snapshot lands: kept when it still paints, else the
/// first painted row, else the first row.
pub open spec fn fixed_selection(selected: usize, visible: Seq<usize>) -> usize {
    if visible.len() == 0 {
        0
    } else if visible.contains(selected) {
        selected
    } else {
        visible[0]
    }
}

/// Every row is idle or done (and there is a row).
pub open spec fn all_idle(rows: Seq<RowView>) -> bool {
    rows.len() > 0 && forall|i: int| 0 <= i < rows.len() ==> activity_is_idle_like(#[trigger] rows[i].activity)
}

impl PanelView {
    /// The panel after `snap` is applied at `now`.
    pub open spec fn apply_snapshot(self, snap: Option<SnapshotView>, now: u64) -> PanelView {
        match snap {
            None => PanelView {
                rows: Seq::empty(),
                tasks: Seq::empty(),
                unread_total: 0,
                team_id: None,
                last_all_idle_at: None,
                selected: 0,
                ..self
            },
            Some(s) => {
                let idle_at = if all_idle(s.rows) {
                    if self.last_all_idle_at is None {
                        Some(now)
                    } else {
                        self.last_all_idle_at
                    }
                } else {
                    None
                };
                PanelView {
                    last_all_idle_at: idle_at,
                    team_id: Some(s.team_id),
                    rows: s.rows,
                    tasks: s.tasks,
                    unread_total: s.unread_total,
                    selected: fixed_selection(
                        self.selected,
                        visible_view(s.rows, collapsed(idle_at, now)),
                    ),
                    ..self
                }
            },
        }
    }

    /// The rows that paint at `now`.
    pub open spec fn visible(self, now: u64) -> Seq<usize> {
        visible_view(self.rows, collapsed(self.last_all_idle_at, now))
    }

    /// Lines the band wants: nothing without teammates; a header-only strip
    /// once everything collapsed; else header, painted rows (at most
    /// `MAX_MEMBER_ROWS`), shown tasks (at most `MAX_TASK_ROWS`) and footer,
    /// capped by `max_area` and `MAX_PANEL_HEIGHT`.
    pub open spec fn desired_height(self, max_area: u16, now: u64) -> u16 {
        if forall|i: int| 0 <= i < self.rows.len() ==> #[trigger] self.rows[i].is_lead {
            0
        } else {
            let visible = self.visible(now);
            if visible.len() == 0 && self.last_all_idle_at is Some {
                if max_area < 1 {
                    max_area
                } else {
                    1
                }
            } else {
                let member_rows: int = if visible.len() < MAX_MEMBER_ROWS {
                    visible.len() as int
                } else {
                    MAX_MEMBER_ROWS as int
                };
                let task_rows: int = if self.show_tasks && self.tasks.len() > 0 {
                    if self.tasks.len() < MAX_TASK_ROWS {
                        self.tasks.len() as int
                    } else {
                        MAX_TASK_ROWS as int
                    }
                } else {
                    0
                };
                let total = 1 + member_rows + task_rows + 1;
                let capped = if total < max_area {
                    total
                } else {
                    max_area as int
                };
                if capped < MAX_PANEL_HEIGHT {
                    capped as u16
                } else {
                    MAX_PANEL_HEIGHT
                }
            }
        }
    }

    /// Moves the selection one painted row up (`delta < 0`) or down, staying
    /// within the painted rows; from an unpainted row it moves from the first.
    pub open spec fn select_delta(self, delta: i32, now: u64) -> PanelView {
        let visible = self.visible(now);
        if visible.len() == 0 {
            self
        } else {
            let p = first_position(visible, self.selected);
            let pos: int = if p < visible.len() {
                p
            } else {
                0
            };
            let next: int = if delta < 0 {
                if pos > 0 {
                    pos - 1
                } else {
                    0
                }
            } else if pos + 1 < visible.len() - 1 {
                pos + 1
            } else {
                visible.len() - 1
            };
            PanelView { selected: visible[next], ..self }
        }
    }

    /// What a key does to the panel, and what it asks of the pager.
    pub open spec fn handle_key(self, key: KeyEvent, now: u64) -> (PanelView, PanelKeyView) {
        let sel = self.selected;
        if key.modifiers == 0 && key.code == KeyCode::Up {
            (self.select_delta(-1i32, now), PanelKeyView::SelectChanged)
        } else if key.modifiers == 0 && key.code == KeyCode::Down {
            (self.select_delta(1i32, now), PanelKeyView::SelectChanged)
        } else if key.modifiers == 0 && key.code == KeyCode::Enter {
            if sel < self.rows.len() && self.rows[sel as int].session_id is Some
                && !self.rows[sel as int].is_lead {
                (self, PanelKeyView::Open { session_id: self.rows[sel as int].session_id->0 })
            } else {
                (self, PanelKeyView::Ignored)
            }
        } else if key.modifiers == 0 && key.code == KeyCode::Char('x') {
            if sel < self.rows.len() && self.rows[sel as int].activity == TeamActivity::Working
                && self.rows[sel as int].session_id is Some {
                (self, PanelKeyView::Interrupt { session_id: self.rows[sel as int].session_id->0 })
            } else {
                (self, PanelKeyView::Ignored)
            }
        } else if key.modifiers == 0 && (key.code == KeyCode::Esc || key.code == KeyCode::Tab) {
            (self, PanelKeyView::FocusPrompt)
        } else if key.modifiers == MOD_CONTROL && key.code == KeyCode::Char('t') {
            (PanelView { show_tasks: !self.show_tasks, ..self }, PanelKeyView::ToggleTasks)
        } else {
            (self, PanelKeyView::Ignored)
        }
    }
}

/// The first position of `x` in `s` (`s.len()` when absent).
pub open spec fn first_position(s: Seq<usize>, x: usize) -> int {
    crate::seqs::first_index(s, equals(x))
}

/// The index equal to `x`.
pub open spec fn equals(x: usize) -> spec_fn(usize) -> bool {
    |y: usize| y == x
}

pub open spec fn row_ref_view(r: Option<&TeamPanelRow>) -> Option<RowView> {
    match r {
        Some(r) => Some(r@),
        None => None,
    }
}

impl Default for TeamPanel {
    fn default() -> (p: Self)
        ensures
            p@.selected == 0,
            p@.last_all_idle_at is None,
            p@.rows.len() == 0,
            p@.tasks.len() == 0,
            !p@.show_tasks,
            p@.unread_total == 0,
            p@.team_id is None,
            p@.in_flight.len() == 0,
    {
        TeamPanel::new()
    }
}

impl TeamPanel {
    pub fn new() -> (p: Self)
        ensures
            p@.selected == 0,
            p@.last_all_idle_at is None,
            p@.rows.len() == 0,
            p@.tasks.len() == 0,
            !p@.show_tasks,
            p@.unread_total == 0,
            p@.team_id is None,
            p@.in_flight.len() == 0,
    {
        TeamPanel {
            selected: 0,
            last_all_idle_at: None,
            rows: Vec::new(),
            tasks: Vec::new(),
            show_tasks: false,
            unread_total: 0,
            team_id: None,
            in_flight: Vec::new(),
        }
    }

    fn visible_now(&self, now: u64) -> (v: Vec<usize>)
        ensures
            v@ == self@.visible(now),
    {
        let v = visible_row_indices(self.rows.as_slice(), self.last_all_idle_at, now);
        assert(self.rows@.map_values(|r: TeamPanelRow| r@) =~= self.rows.deep_view());
        v
    }

    pub fn desired_height(&self, max_area: u16, now: u64) -> (h: u16)
        ensures
            h == self@.desired_height(max_area, now),
    {
        let n = self.rows.len();
        let mut all_lead = true;
        let mut i: usize = 0;
        while i < n
            invariant
                n == self.rows.len(),
                i <= n,
                all_lead == forall|k: int| 0 <= k < i ==> #[trigger] self@.rows[k].is_lead,
            decreases n - i,
        {
            assert(self@.rows[i as int].is_lead == self.rows[i as int].is_lead);
            if !self.rows[i].is_lead {
                all_lead = false;
            }
            i = i + 1;
        }
        if all_lead || n == 0 {
            return 0;
        }
        let visible = self.visible_now(now);
        if visible.len() == 0 && self.last_all_idle_at.is_some() {
            return if max_area < 1 {
                max_area
            } else {
                1
            };
        }
        let member_rows: usize = if visible.len() < MAX_MEMBER_ROWS {
            visible.len()
        } else {
            MAX_MEMBER_ROWS
        };
        let task_rows: usize = if self.show_tasks && self.tasks.len() > 0 {
            if self.tasks.len() < MAX_TASK_ROWS {
                self.tasks.len()
            } else {
                MAX_TASK_ROWS
            }
        } else {
            0
        };
        let total: usize = 1 + member_rows + task_rows + 1;
        let capped: u16 = if total < max_area as usize {
            total as u16
        } else {
            max_area
        };
        if capped < MAX_PANEL_HEIGHT {
            capped
        } else {
            MAX_PANEL_HEIGHT
        }
    }

    pub fn is_visible(&self, now: u64) -> (b: bool)
        ensures
            b == (self@.desired_height(u16::MAX, now) > 0),
    {
        self.desired_height(u16::MAX, now) > 0
    }

    pub fn selected_row(&self) -> (r: Option<&TeamPanelRow>)
        ensures
            row_ref_view(r) == (if self@.selected < self@.rows.len() {
                Some(self@.rows[self@.selected as int])
            } else {
                None
            }),
    {
        if self.selected < self.rows.len() {
            Some(&self.rows[self.selected])
        } else {
            None
        }
    }

    pub fn apply_snapshot(&mut self, snap: Option<TeamSnapshot>, now: u64)
        ensures
            final(self)@.in_flight == old(self)@.in_flight,
            final(self)@ == old(self)@.apply_snapshot(
                match snap {
                    Some(s) => Some(s@),
                    None => None,
                },
                now,
            ),
    {
        match snap {
            None => {
                self.rows = Vec::new();
                self.tasks = Vec::new();
                self.unread_total = 0;
                self.team_id = None;
                self.last_all_idle_at = None;
                self.selected = 0;
                proof {
                    assert(self@.rows =~= Seq::<RowView>::empty());
                    assert(self@.tasks =~= Seq::<TaskSummaryView>::empty());
                }
            },
            Some(snap) => {
                let ghost sv = snap@;
                let n = snap.rows.len();
                let mut every_idle = n > 0;
                let mut i: usize = 0;
                while i < n
                    invariant
                        n == snap.rows.len(),
                        i <= n,
                        every_idle == (n > 0 && forall|k: int|
                            0 <= k < i ==> activity_is_idle_like(#[trigger] snap.rows.deep_view()[k].activity)),
                    decreases n - i,
                {
                    assert(snap.rows.deep_view()[i as int].activity == snap.rows[i as int].activity);
                    if !snap.rows[i].activity.is_idle_like() {
                        every_idle = false;
                    }
                    i = i + 1;
                }
                assert(every_idle == all_idle(sv.rows));
                if every_idle {
                    if self.last_all_idle_at.is_none() {
                        self.last_all_idle_at = Some(now);
                    }
                } else {
                    self.last_all_idle_at = None;
                }
                self.team_id = Some(snap.team_id);
                self.rows = snap.rows;
                self.tasks = snap.tasks;
                self.unread_total = snap.unread_total;
                let visible = self.visible_now(now);
                if visible.len() == 0 {
                    self.selected = 0;
                } else if !contains_index(&visible, self.selected) {
                    self.selected = visible[0];
                }
            },
        }
    }

    fn select_delta(&mut self, delta: i32, now: u64)
        ensures
            final(self)@ == old(self)@.select_delta(delta, now),
    {
        let visible = self.visible_now(now);
        if visible.len() == 0 {
            return;
        }
        let pos = match position_of(&visible, self.selected) {
            Some(p) => p,
            None => 0,
        };
        let next = if delta < 0 {
            if pos > 0 {
                pos - 1
            } else {
                0
            }
        } else if pos + 1 < visible.len() - 1 {
            pos + 1
        } else {
            visible.len() - 1
        };
        self.selected = visible[next];
    }

    pub fn handle_key(&mut self, key: &KeyEvent, now: u64) -> (r: TeamPanelKey)
        ensures
            final(self)@.in_flight == old(self)@.in_flight,
            (final(self)@, r@) == old(self)@.handle_key(*key, now),
    {
        if key.modifiers == 0 {
            match key.code {
                KeyCode::Up => {
                    self.select_delta(-1, now);
                    return TeamPanelKey::SelectChanged;
                },
                KeyCode::Down => {
                    self.select_delta(1, now);
                    return TeamPanelKey::SelectChanged;
                },
                KeyCode::Enter => {
                    if self.selected < self.rows.len() {
                        let row = &self.rows[self.selected];
                        match &row.session_id {
                            Some(sid) => {
                                if !row.is_lead {
                                    return TeamPanelKey::Open { session_id: sid.clone() };
                                }
                            },
                            None => {},
                        }
                    }
                    return TeamPanelKey::Ignored;
                },
                KeyCode::Char(c) => {
                    if c == 'x' {
                        if self.selected < self.rows.len() {
                            let row = &self.rows[self.selected];
                            if row.activity == TeamActivity::Working {
                                match &row.session_id {
                                    Some(sid) => {
                                        return TeamPanelKey::Interrupt { session_id: sid.clone() };
                                    },
                                    None => {},
                                }
                            }
                        }
                        return TeamPanelKey::Ignored;
                    }
                },
                KeyCode::Esc | KeyCode::Tab => {
                    return TeamPanelKey::FocusPrompt;
                },
                _ => {},
            }
        }
        if key.modifiers == MOD_CONTROL && key.code == KeyCode::Char('t') {
            self.show_tasks = !self.show_tasks;
            return TeamPanelKey::ToggleTasks;
        }
        TeamPanelKey::Ignored
    }
}

/// Whether `x` occurs in `v`.
pub fn contains_index(v: &Vec<usize>, x: usize) -> (b: bool)
    ensures
        b == v@.contains(x),
{
    match position_of(v, x) {
        Some(_) => true,
        None => false,
    }
}

/// The first position of `x` in `v`.
pub fn position_of(v: &Vec<usize>, x: usize) -> (r: Option<usize>)
    ensures
        r is Some <==> v@.contains(x),
        r matches Some(p) ==> p == first_position(v@, x) && p < v.len(),
        r is None ==> first_position(v@, x) == v.len(),
{
    let n = v.len();
    let mut i: usize = 0;
    while i < n
        invariant
            n == v.len(),
            i <= n,
            forall|k: int| 0 <= k < i ==> v@[k] != x,
        decreases n - i,
    {
        if v[i] == x {
            proof {
                crate::seqs::lemma_first_index_is(v@, equals(x), i as int);
            }
            return Some(i);
        }
        i = i + 1;
    }
    proof {
        crate::seqs::lemma_first_index_is(v@, equals(x), n as int);
    }
    None
}

/// How a painted line is styled.
#[derive(Debug, Clone, Copy, PartialEq, Eq, Structural)]
pub enum LineKind {
    Header { focused: bool },
    Member { activity: TeamActivity, selected: bool },
    Task,
    Footer,
}

/// One line of the band: its offset from the band's top, its text (padded or
/// cut to the band's width by the painter), and how it is styled.
#[derive(Debug, PartialEq, Eq)]
pub struct PanelLine {
    pub offset: u16,
    pub text: String,
    pub kind: LineKind,
}

pub struct LineView {
    pub offset: int,
    pub text: Seq<char>,
    pub kind: LineKind,
}

impl View for PanelLine {
    type V = LineView;

    open spec fn view(&self) -> LineView {
        LineView { offset: self.offset as int, text: self.text@, kind: self.kind }
    }
}

impl DeepView for PanelLine {
    type V = LineView;

    open spec fn deep_view(&self) -> LineView {
        self@
    }
}

/// `  @{name}  {label}` plus ` · {unread}` when there is unread mail.
pub open spec fn row_text(row: RowView) -> Seq<char> {
    "  @"@ + row.name + "  "@ + activity_label(row.activity) + if row.unread > 0 {
        " \u{b7} "@ + decimal_view(row.unread as nat)
    } else {
        Seq::empty()
    }
}

/// `  · [{status}] {title}`.
pub open spec fn task_text(task: TaskSummaryView) -> Seq<char> {
    "  \u{b7} ["@ + task.status + "] "@ + task.title
}

/// The footer's key hints.
pub open spec fn footer_text() -> Seq<char> {
    " enter open \u{b7} x stop \u{b7} ctrl+t tasks "@
}

/// ` team {rows} · {status}  `: the unread count, else `all idle` when no
/// row paints, else the key hints.
pub open spec fn header_text(p: PanelView, now: u64) -> Seq<char> {
    " team "@ + decimal_view(p.rows.len()) + " \u{b7} "@ + (if p.unread_total > 0 {
        decimal_view(p.unread_total as nat) + " unread"@
    } else if p.visible(now).len() == 0 {
        "all idle"@
    } else {
        "\u{2191}\u{2193} enter x"@
    }) + "  "@
}

pub open spec fn min_int(a: int, b: int) -> int {
    if a < b {
        a
    } else {
        b
    }
}

impl PanelView {
    /// How many member lines paint in a band `height` lines tall.
    pub open spec fn member_lines(self, height: int, now: u64) -> int {
        min_int(min_int(self.visible(now).len() as int, MAX_MEMBER_ROWS as int), height - 2)
    }

    /// How many task lines paint below `member_lines` member lines.
    pub open spec fn task_lines(self, height: int, now: u64) -> int {
        if self.show_tasks {
            min_int(
                min_int(self.tasks.len() as int, MAX_TASK_ROWS as int),
                height - 2 - self.member_lines(height, now),
            )
        } else {
            0
        }
    }

    /// The lines of a `width` × `height` band: header; then, when there is
    /// room, the painted member rows, the shown tasks, and the footer, each
    /// section stopping where only the footer's line is left.
    pub open spec fn render(self, width: u16, height: u16, focused: bool, now: u64) -> Seq<
        LineView,
    > {
        let header = LineView {
            offset: 0,
            text: header_text(self, now),
            kind: LineKind::Header { focused },
        };
        if width == 0 || height == 0 {
            Seq::empty()
        } else if height == 1 {
            seq![header]
        } else {
            let m = self.member_lines(height as int, now);
            let k = self.task_lines(height as int, now);
            let visible = self.visible(now);
            let members = Seq::new(
                m as nat,
                |j: int|
                    LineView {
                        offset: 1 + j,
                        text: row_text(self.rows[visible[j] as int]),
                        kind: LineKind::Member {
                            activity: self.rows[visible[j] as int].activity,
                            selected: focused && visible[j] == self.selected,
                        },
                    },
            );
            let tasks = Seq::new(
                k as nat,
                |j: int|
                    LineView {
                        offset: 1 + m + j,
                        text: task_text(self.tasks[j]),
                        kind: LineKind::Task,
                    },
            );
            let footer = LineView { offset: 1 + m + k, text: footer_text(), kind: LineKind::Footer };
            seq![header] + members + tasks + seq![footer]
        }
    }
}

pub fn format_row(row: &TeamPanelRow) -> (s: String)
    ensures
        s@ == row_text(row@),
{
    let mut s = String::from_str("  @");
    s.append(row.name.as_str());
    s.append("  ");
    s.append(row.activity.label());
    if row.unread > 0 {
        s.append(" \u{b7} ");
        let n = u64_to_decimal(row.unread as u64);
        s.append(n.as_str());
    }
    proof {
        reveal_strlit("  @");
        reveal_strlit("  ");
        reveal_strlit(" \u{b7} ");
        assert(s@ =~= row_text(row@));
    }
    s
}

fn format_task(task: &TeamTaskSummary) -> (s: String)
    ensures
        s@ == task_text(task@),
{
    let mut s = String::from_str("  \u{b7} [");
    s.append(task.status.as_str());
    s.append("] ");
    s.append(task.title.as_str());
    proof {
        reveal_strlit("  \u{b7} [");
        reveal_strlit("] ");
        assert(s@ =~= task_text(task@));
    }
    s
}

impl TeamPanel {
    /// The lines to paint in a `width` × `height` band.
    pub fn render_lines(&self, width: u16, height: u16, focused: bool, now: u64) -> (lines: Vec<
        PanelLine,
    >)
        ensures
            lines.deep_view() == self@.render(width, height, focused, now),
    {
        let mut lines: Vec<PanelLine> = Vec::new();
        if width == 0 || height == 0 {
            assert(lines.deep_view() =~= self@.render(width, height, focused, now));
            return lines;
        }
        let visible = self.visible_now(now);
        let mut header = String::from_str(" team ");
        let count = u64_to_decimal(self.rows.len() as u64);
        header.append(count.as_str());
        header.append(" \u{b7} ");
        if self.unread_total > 0 {
            let u = u64_to_decimal(self.unread_total as u64);
            header.append(u.as_str());
            header.append(" unread");
        } else if visible.len() == 0 {
            header.append("all idle");
        } else {
            header.append("\u{2191}\u{2193} enter x");
        }
        header.append("  ");
        proof {
            reveal_strlit(" team ");
            reveal_strlit(" \u{b7} ");
            reveal_strlit(" unread");
            reveal_strlit("all idle");
            reveal_strlit("\u{2191}\u{2193} enter x");
            reveal_strlit("  ");
            assert(header@ =~= header_text(self@, now));
        }
        lines.push(PanelLine { offset: 0, text: header, kind: LineKind::Header { focused } });
        if height == 1 {
            assert(lines.deep_view() =~= self@.render(width, height, focused, now));
            return lines;
        }
        let ghost spec_lines = self@.render(width, height, focused, now);
        let ghost m = self@.member_lines(height as int, now);
        let ghost k = self@.task_lines(height as int, now);
        proof {
            lemma_visible_view(self@.rows, collapsed(self@.last_all_idle_at, now));
        }
        let mut y: u16 = 1;
        let mut j: usize = 0;
        while j < visible.len() && j < MAX_MEMBER_ROWS
            invariant
                2 <= height,
                visible@ == self@.visible(now),
                forall|q: int| 0 <= q < visible@.len() ==> #[trigger] visible@[q] < self@.rows.len(),
                j <= visible.len(),
                j <= MAX_MEMBER_ROWS,
                y == 1 + j,
                y <= height - 1,
                lines.deep_view() == spec_lines.subrange(0, 1 + j as int),
                spec_lines == self@.render(width, height, focused, now),
                m == self@.member_lines(height as int, now),
                k == self@.task_lines(height as int, now),
                j <= m,
                width != 0,
            ensures
                j == m,
                y == 1 + m,
                y <= height - 1,
                lines.deep_view() == spec_lines.subrange(0, 1 + m),
            decreases visible.len() - j,
        {
            if y + 1 >= height {
                break;
            }
            let idx = visible[j];
            let row = &self.rows[idx];
            let selected = focused && idx == self.selected;
            let text = format_row(row);
            let ghost before = lines.deep_view();
            lines.push(PanelLine { offset: y, text, kind: LineKind::Member { activity: row.activity, selected } });
            assert(lines.deep_view() =~= before.push(spec_lines[1 + j as int]));
            assert(spec_lines.subrange(0, 2 + j as int) =~= spec_lines.subrange(0, 1 + j as int).push(spec_lines[1 + j as int]));
            y = y + 1;
            j = j + 1;
        }
        if self.show_tasks {
            let mut t: usize = 0;
            while t < self.tasks.len() && t < MAX_TASK_ROWS
                invariant
                    2 <= height,
                    self.show_tasks,
                    t <= self.tasks.len(),
                    t <= MAX_TASK_ROWS,
                    j == m,
                    y == 1 + m + t,
                    y <= height - 1,
                    t <= k,
                    lines.deep_view() == spec_lines.subrange(0, 1 + m + t as int),
                    spec_lines == self@.render(width, height, focused, now),
                    m == self@.member_lines(height as int, now),
                    k == self@.task_lines(height as int, now),
                    width != 0,
                ensures
                    t == k,
                    y == 1 + m + k,
                    y <= height - 1,
                    lines.deep_view() == spec_lines.subrange(0, 1 + m + k),
                decreases self.tasks.len() - t,
            {
                if y + 1 >= height {
                    break;
                }
                let text = format_task(&self.tasks[t]);
                let ghost before = lines.deep_view();
                lines.push(PanelLine { offset: y, text, kind: LineKind::Task });
                assert(lines.deep_view() =~= before.push(spec_lines[1 + m + t as int]));
                assert(spec_lines.subrange(0, 2 + m + t as int) =~= spec_lines.subrange(0, 1 + m + t as int).push(spec_lines[1 + m + t as int]));
                y = y + 1;
                t = t + 1;
            }
        }
        proof {
            if !self.show_tasks {
                assert(k == 0);
            }
            assert(y == 1 + m + k);
            assert(lines.deep_view() == spec_lines.subrange(0, 1 + m + k));
            assert(spec_lines.len() == 2 + m + k);
        }
        if y < height {
            let footer = String::from_str(" enter open \u{b7} x stop \u{b7} ctrl+t tasks ");
            proof {
                reveal_strlit(" enter open \u{b7} x stop \u{b7} ctrl+t tasks ");
            }
            let ghost before = lines.deep_view();
            lines.push(PanelLine { offset: y, text: footer, kind: LineKind::Footer });
            assert(lines.deep_view() =~= before.push(spec_lines[1 + m + k]));
            assert(spec_lines =~= spec_lines.subrange(0, 1 + m + k).push(spec_lines[1 + m + k]));
        }
        lines
    }
}

} // verus!
