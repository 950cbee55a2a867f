//! Laws of the team panel: which rows can hide, where the selection can be,
//! and what keys can ask for.
use vstd::prelude::*;
use crate::panel::{
    activity_is_busy, activity_is_idle_like, all_idle, collapsed, lemma_visible_view, row_shows,
    visible_view, KeyCode, KeyEvent, PanelKeyView, PanelView, RowView, SnapshotView, TeamActivity,
    IDLE_COLLAPSE_AFTER, MOD_CONTROL,
};

verus! {

/// The lead row never paints; a teammate row that is pending, working or
/// blocked, or whose spawn is pending, always paints; and until the whole
/// team has been idle for `IDLE_COLLAPSE_AFTER`, every teammate row paints.
pub proof fn law_which_rows_paint(rows: Seq<RowView>, last_all_idle_at: Option<u64>, now: u64)
    requires
        rows.len() <= usize::MAX,
    ensures
        ({
            let v = visible_view(rows, collapsed(last_all_idle_at, now));
            &&& forall|k: int| 0 <= k < v.len() ==> !rows[#[trigger] v[k] as int].is_lead
            &&& forall|i: int|
                0 <= i < rows.len() && !rows[i].is_lead && (activity_is_busy(rows[i].activity)
                    || rows[i].spawn_pending) ==> v.contains(i as usize)
            &&& !collapsed(last_all_idle_at, now) ==> forall|i: int|
                0 <= i < rows.len() && !rows[i].is_lead ==> v.contains(i as usize)
        }),
{
    let c = collapsed(last_all_idle_at, now);
    lemma_visible_view(rows, c);
    let v = visible_view(rows, c);
    assert forall|k: int| 0 <= k < v.len() implies !rows[#[trigger] v[k] as int].is_lead by {
        assert(v.contains(v[k]));
        assert(row_shows(rows[v[k] as int], c));
    }
    assert forall|i: int|
        0 <= i < rows.len() && !rows[i].is_lead && (activity_is_busy(rows[i].activity)
            || rows[i].spawn_pending) implies v.contains(i as usize) by {
        assert(row_shows(rows[i], c));
    }
    assert forall|i: int| !c && 0 <= i < rows.len() && !rows[i].is_lead implies v.contains(
        i as usize,
    ) by {
        assert(row_shows(rows[i], c));
    }
}

/// Once the team went all idle at `t`, from `t + IDLE_COLLAPSE_AFTER` on an
/// idle or done teammate without a pending spawn no longer paints.
pub proof fn law_idle_rows_collapse(rows: Seq<RowView>, t: u64, now: u64, i: int)
    requires
        rows.len() <= usize::MAX,
        now >= t,
        now - t >= IDLE_COLLAPSE_AFTER,
        0 <= i < rows.len(),
        activity_is_idle_like(rows[i].activity),
        !rows[i].spawn_pending,
    ensures
        !visible_view(rows, collapsed(Some(t), now)).contains(i as usize),
{
    lemma_visible_view(rows, collapsed(Some(t), now));
}

/// A snapshot in which anyone is pending, working or blocked clears the idle
/// clock, so every teammate row of it paints.
pub proof fn law_busy_team_keeps_idle_rows(p: PanelView, s: SnapshotView, now: u64, later: u64, i: int)
    requires
        s.rows.len() <= usize::MAX,
        exists|j: int| 0 <= j < s.rows.len() && activity_is_busy(#[trigger] s.rows[j].activity),
        0 <= i < s.rows.len(),
        !s.rows[i].is_lead,
    ensures
        p.apply_snapshot(Some(s), now).last_all_idle_at is None,
        p.apply_snapshot(Some(s), now).visible(later).contains(i as usize),
{
    let j = choose|j: int| 0 <= j < s.rows.len() && activity_is_busy(#[trigger] s.rows[j].activity);
    assert(!activity_is_idle_like(s.rows[j].activity));
    assert(!all_idle(s.rows));
    law_which_rows_paint(s.rows, None, later);
}

/// After a snapshot the selection is a painted row, or the first row when
/// nothing paints; a selection that still paints is kept.
pub proof fn law_snapshot_selection(p: PanelView, s: SnapshotView, now: u64)
    requires
        s.rows.len() <= usize::MAX,
    ensures
        ({
            let q = p.apply_snapshot(Some(s), now);
            let v = q.visible(now);
            &&& v.len() == 0 ==> q.selected == 0
            &&& v.len() > 0 ==> v.contains(q.selected)
            &&& v.contains(p.selected) ==> q.selected == p.selected
            &&& q.rows == s.rows
            &&& q.unread_total == s.unread_total
            &&& q.in_flight == p.in_flight
        }),
{
    let q = p.apply_snapshot(Some(s), now);
    let v = q.visible(now);
    if v.len() > 0 && !v.contains(p.selected) {
        assert(v.contains(v[0]));
    }
}

/// Arrow keys keep the selection on a painted row when one paints.
pub proof fn law_arrows_stay_on_painted_rows(p: PanelView, up: bool, now: u64)
    requires
        p.rows.len() <= usize::MAX,
    ensures
        ({
            let key = KeyEvent { code: if up {
                KeyCode::Up
            } else {
                KeyCode::Down
            }, modifiers: 0 };
            let (q, out) = p.handle_key(key, now);
            &&& out == PanelKeyView::SelectChanged
            &&& p.visible(now).len() > 0 ==> p.visible(now).contains(q.selected)
            &&& p.visible(now).len() > 0 ==> !q.rows[q.selected as int].is_lead
        }),
{
    let v = p.visible(now);
    lemma_visible_view(p.rows, collapsed(p.last_all_idle_at, now));
    let key = KeyEvent { code: if up {
        KeyCode::Up
    } else {
        KeyCode::Down
    }, modifiers: 0 };
    let (q, out) = p.handle_key(key, now);
    if v.len() > 0 {
        crate::seqs::lemma_first_index(v, crate::panel::equals(p.selected));
        let d: i32 = if up {
            -1i32
        } else {
            1i32
        };
        assert(q == p.select_delta(d, now));
        let k = choose|k: int| 0 <= k < v.len() && v[k] == q.selected;
        assert(v.contains(q.selected));
        assert(row_shows(p.rows[q.selected as int], collapsed(p.last_all_idle_at, now)));
    }
}

/// Enter opens only a teammate with a session, never the lead; `x` asks to
/// interrupt only a working row; neither changes the panel.
pub proof fn law_enter_and_x(p: PanelView, now: u64)
    ensures
        ({
            let (q, out) = p.handle_key(KeyEvent { code: KeyCode::Enter, modifiers: 0 }, now);
            &&& q == p
            &&& out matches PanelKeyView::Open { session_id } ==> p.selected < p.rows.len()
                && !p.rows[p.selected as int].is_lead && p.rows[p.selected as int].session_id
                == Some(session_id)
        }),
        ({
            let (q, out) = p.handle_key(KeyEvent { code: KeyCode::Char('x'), modifiers: 0 }, now);
            &&& q == p
            &&& out matches PanelKeyView::Interrupt { session_id } ==> p.selected < p.rows.len()
                && p.rows[p.selected as int].activity == TeamActivity::Working
                && p.rows[p.selected as int].session_id == Some(session_id)
        }),
{
}

/// Ctrl+T toggles the task list, and twice restores it.
pub proof fn law_toggle_tasks_twice(p: PanelView, now: u64)
    ensures
        ({
            let key = KeyEvent { code: KeyCode::Char('t'), modifiers: MOD_CONTROL };
            let (q, out) = p.handle_key(key, now);
            &&& out == PanelKeyView::ToggleTasks
            &&& q.show_tasks == !p.show_tasks
            &&& q.handle_key(key, now).0 == p
        }),
{
}

/// A panel whose rows are all the lead's takes no space.
pub proof fn law_no_teammates_no_band(p: PanelView, max_area: u16, now: u64)
    requires
        forall|i: int| 0 <= i < p.rows.len() ==> #[trigger] p.rows[i].is_lead,
    ensures
        p.desired_height(max_area, now) == 0,
{
}

} // verus!
