//! The mouse map of the player: what a click, drag or wheel turn at a cell
//! does, given where the last frame drew its panes and controls.
use vstd::prelude::*;

use crate::app::{rect_hit, rect_hit_spec, FocusPane, MouseControl, Rect};
use crate::backend::{CoreMouseEvent, CoreMouseKind};

verus! {

/// Where the last frame drew what the mouse can reach.
pub struct MouseContext {
    /// An overlay or text input owns the screen.
    pub modal: bool,
    pub playlist: Option<Rect>,
    pub browser: Option<Rect>,
    pub progress: Option<Rect>,
    pub visualizer: Option<Rect>,
    pub volume: Option<Rect>,
    /// The control badges and where they were drawn.
    pub controls: Vec<(Rect, MouseControl)>,
}

/// What a mouse event asks of the player.
#[derive(Debug, Clone, Copy, PartialEq, Eq, Structural)]
pub enum MouseAction {
    Nothing,
    /// Move a pane's cursor by this many rows (clamped, focus unchanged).
    ScrollPane(FocusPane, i32),
    /// Change the volume by this many hundredths.
    VolumeStep(i32),
    /// Seek to `num / den` of the track.
    SeekTo(u32, u32),
    Control(MouseControl),
    /// Set the volume (in thousandths) from a click in the volume column,
    /// saving it when `true`; `None` keeps the current volume.
    SetVolume(Option<u32>, bool),
    CycleVisualizer,
    /// A click on a list, this many rows below its top.
    ClickList(FocusPane, u16),
}

/// The fraction of `rect`'s width at `col`, clamped into the rect, as
/// `(num, den)`; `(0, 1)` without a rect or width.
pub open spec fn frac_at_spec(rect: Option<Rect>, col: u16) -> (u32, u32) {
    match rect {
        Some(r) => if r.width == 0 {
            (0, 1)
        } else {
            let hi: int = r.x + r.width - 1;
            let cx: int = if col < r.x { r.x as int } else if col > hi { hi } else { col as int };
            ((cx - r.x) as u32, r.width as u32)
        },
        None => (0, 1),
    }
}

pub fn frac_at(rect: Option<Rect>, col: u16) -> (r: (u32, u32))
    ensures
        r == frac_at_spec(rect, col),
{
    match rect {
        Some(r) => if r.width == 0 {
            (0, 1)
        } else {
            let hi: u32 = r.x as u32 + r.width as u32 - 1;
            let c = col as u32;
            let cx: u32 = if c < r.x as u32 { r.x as u32 } else if c > hi { hi } else { c };
            (cx - r.x as u32, r.width as u32)
        },
        None => (0, 1),
    }
}

/// The volume (in thousandths) a click at `row` of the volume column sets:
/// full scale (1500) at the top, 0 at the bottom; `None` for a column of
/// one row.
pub open spec fn volume_at_row_spec(r: Rect, row: u16) -> Option<u32> {
    if r.height <= 1 {
        None
    } else {
        let lo: int = r.y as int;
        let hi: int = r.y + r.height - 1;
        let ry: int = if row < lo { lo } else if row > hi { hi } else { row as int };
        Some(((1500 * (hi - ry)) / (r.height - 1)) as u32)
    }
}

pub fn volume_at_row(r: Rect, row: u16) -> (v: Option<u32>)
    ensures
        v == volume_at_row_spec(r, row),
        v matches Some(x) ==> x <= 1500,
{
    if r.height <= 1 {
        return None;
    }
    let lo: u32 = r.y as u32;
    let hi: u32 = r.y as u32 + r.height as u32 - 1;
    let w = row as u32;
    let ry: u32 = if w < lo { lo } else if w > hi { hi } else { w };
    let den: u32 = r.height as u32 - 1;
    assert(hi - ry <= den);
    assert(1500 * (hi - ry) <= 1500 * den) by (nonlinear_arith)
        requires
            hi - ry <= den,
    ;
    let num: u64 = 1500 * (hi - ry) as u64;
    let x: u64 = num / den as u64;
    assert(x <= 1500) by (nonlinear_arith)
        requires
            num <= 1500 * den,
            den > 0,
            x == num / (den as u64),
    ;
    Some(x as u32)
}

/// The first control badge drawn at the cell.
pub open spec fn control_at_spec(controls: Seq<(Rect, MouseControl)>, col: u16, row: u16) -> Option<
    MouseControl,
>
    decreases controls.len(),
{
    if controls.len() == 0 {
        None
    } else if rect_hit_spec(Some(controls[0].0), col, row) {
        Some(controls[0].1)
    } else {
        control_at_spec(controls.drop_first(), col, row)
    }
}

/// Whether `r` is set and `col` falls in its columns.
pub open spec fn in_columns(r: Option<Rect>, col: u16) -> bool {
    match r {
        Some(v) => col >= v.x && col < crate::app::sat_add(v.x, v.width),
        None => false,
    }
}

/// Whether `r` is set and `row` falls in its rows (at least one).
pub open spec fn in_rows(r: Option<Rect>, row: u16) -> bool {
    match r {
        Some(v) => row >= v.y && row < crate::app::sat_add(v.y, if v.height == 0 { 1 } else { v.height }),
        None => false,
    }
}

/// What a mouse event does. Overlays ignore the mouse. The wheel scrolls the
/// list under it, or changes the volume over the visualizer. A click seeks
/// on the progress bar, presses a control badge, sets the volume in its
/// column, switches the visualizer, or selects a list row, in that order.
/// A drag sets the volume in its column or scrubs the progress bar.
pub open spec fn mouse_action_spec(
    modal: bool,
    playlist: Option<Rect>,
    browser: Option<Rect>,
    progress: Option<Rect>,
    visualizer: Option<Rect>,
    volume: Option<Rect>,
    controls: Seq<(Rect, MouseControl)>,
    ev: CoreMouseEvent,
) -> MouseAction {
    let (col, row) = (ev.col, ev.row);
    if modal {
        MouseAction::Nothing
    } else {
        match ev.kind {
            CoreMouseKind::ScrollUp | CoreMouseKind::ScrollDown => {
                let delta: i32 = if ev.kind == CoreMouseKind::ScrollUp { -3i32 } else { 3i32 };
                if rect_hit_spec(playlist, col, row) {
                    MouseAction::ScrollPane(FocusPane::Playlist, delta)
                } else if rect_hit_spec(browser, col, row) {
                    MouseAction::ScrollPane(FocusPane::Browser, delta)
                } else if rect_hit_spec(visualizer, col, row) {
                    MouseAction::VolumeStep(if delta < 0 { 5i32 } else { -5i32 })
                } else {
                    MouseAction::Nothing
                }
            },
            CoreMouseKind::Down => {
                if rect_hit_spec(progress, col, row) {
                    let f = frac_at_spec(progress, col);
                    MouseAction::SeekTo(f.0, f.1)
                } else if control_at_spec(controls, col, row) is Some {
                    MouseAction::Control(control_at_spec(controls, col, row)->0)
                } else if rect_hit_spec(volume, col, row) {
                    MouseAction::SetVolume(volume_at_row_spec(volume->0, row), true)
                } else if rect_hit_spec(visualizer, col, row) {
                    MouseAction::CycleVisualizer
                } else if rect_hit_spec(playlist, col, row) {
                    MouseAction::ClickList(FocusPane::Playlist, (row - playlist->0.y) as u16)
                } else if rect_hit_spec(browser, col, row) {
                    MouseAction::ClickList(FocusPane::Browser, (row - browser->0.y) as u16)
                } else {
                    MouseAction::Nothing
                }
            },
            CoreMouseKind::Drag => {
                if in_columns(volume, col) {
                    MouseAction::SetVolume(volume_at_row_spec(volume->0, row), false)
                } else if in_rows(progress, row) {
                    let f = frac_at_spec(progress, col);
                    MouseAction::SeekTo(f.0, f.1)
                } else {
                    MouseAction::Nothing
                }
            },
        }
    }
}

fn control_at(controls: &[(Rect, MouseControl)], col: u16, row: u16) -> (r: Option<MouseControl>)
    ensures
        r == control_at_spec(controls@, col, row),
{
    let mut i: usize = 0;
    assert(controls@.skip(0) == controls@);
    while i < controls.len()
        invariant
            i <= controls@.len(),
            control_at_spec(controls@, col, row) == control_at_spec(controls@.skip(i as int), col, row),
        decreases controls.len() - i,
    {
        let ghost rest = controls@.skip(i as int);
        assert(rest[0] == controls@[i as int]);
        assert(rest.drop_first() =~= controls@.skip(i + 1));
        if rect_hit(Some(controls[i].0), col, row) {
            return Some(controls[i].1);
        }
        i += 1;
    }
    assert(controls@.skip(i as int) =~= Seq::<(Rect, MouseControl)>::empty());
    None
}

pub fn handle_mouse(ctx: &MouseContext, ev: CoreMouseEvent) -> (r: MouseAction)
    ensures
        r == mouse_action_spec(
            ctx.modal,
            ctx.playlist,
            ctx.browser,
            ctx.progress,
            ctx.visualizer,
            ctx.volume,
            ctx.controls@,
            ev,
        ),
{
    let col = ev.col;
    let row = ev.row;
    if ctx.modal {
        return MouseAction::Nothing;
    }
    match ev.kind {
        CoreMouseKind::ScrollUp | CoreMouseKind::ScrollDown => {
            let delta: i32 = if ev.kind == CoreMouseKind::ScrollUp { -3 } else { 3 };
            if rect_hit(ctx.playlist, col, row) {
                MouseAction::ScrollPane(FocusPane::Playlist, delta)
            } else if rect_hit(ctx.browser, col, row) {
                MouseAction::ScrollPane(FocusPane::Browser, delta)
            } else if rect_hit(ctx.visualizer, col, row) {
                MouseAction::VolumeStep(if delta < 0 { 5 } else { -5 })
            } else {
                MouseAction::Nothing
            }
        },
        CoreMouseKind::Down => {
            if rect_hit(ctx.progress, col, row) {
                let f = frac_at(ctx.progress, col);
                return MouseAction::SeekTo(f.0, f.1);
            }
            if let Some(c) = control_at(ctx.controls.as_slice(), col, row) {
                return MouseAction::Control(c);
            }
            if rect_hit(ctx.volume, col, row) {
                let r = ctx.volume.unwrap();
                return MouseAction::SetVolume(volume_at_row(r, row), true);
            }
            if rect_hit(ctx.visualizer, col, row) {
                return MouseAction::CycleVisualizer;
            }
            if rect_hit(ctx.playlist, col, row) {
                let r = ctx.playlist.unwrap();
                return MouseAction::ClickList(FocusPane::Playlist, row - r.y);
            }
            if rect_hit(ctx.browser, col, row) {
                let r = ctx.browser.unwrap();
                return MouseAction::ClickList(FocusPane::Browser, row - r.y);
            }
            MouseAction::Nothing
        },
        CoreMouseKind::Drag => {
            let in_vol = match ctx.volume {
                Some(r) => col >= r.x && col < r.x.saturating_add(r.width),
                None => false,
            };
            if in_vol {
                let r = ctx.volume.unwrap();
                return MouseAction::SetVolume(volume_at_row(r, row), false);
            }
            let in_bar = match ctx.progress {
                Some(r) => row >= r.y && row < r.y.saturating_add(if r.height == 0 { 1 } else { r.height }),
                None => false,
            };
            if in_bar {
                let f = frac_at(ctx.progress, col);
                return MouseAction::SeekTo(f.0, f.1);
            }
            MouseAction::Nothing
        },
    }
}

/// Overlays and text input take no mouse input.
pub proof fn lemma_modal_ignores_mouse(
    playlist: Option<Rect>,
    browser: Option<Rect>,
    progress: Option<Rect>,
    visualizer: Option<Rect>,
    volume: Option<Rect>,
    controls: Seq<(Rect, MouseControl)>,
    ev: CoreMouseEvent,
)
    ensures
        mouse_action_spec(true, playlist, browser, progress, visualizer, volume, controls, ev)
            == MouseAction::Nothing,
{
}

/// A seek from the mouse always lands within the track: the fraction is at
/// most one.
pub proof fn lemma_seek_fraction_in_range(rect: Option<Rect>, col: u16)
    ensures
        frac_at_spec(rect, col).1 > 0,
        frac_at_spec(rect, col).0 < frac_at_spec(rect, col).1,
{
}

/// What a click on a list row does: select the entry drawn there (the
/// `offset`-th visible entry is the top row), and activate it when the same
/// entry of the same pane was clicked less than 450 ms before. `None` when
/// the click fell below the last entry.
pub open spec fn click_list_spec(
    vis: Seq<usize>,
    offset: usize,
    row_offset: u16,
    pane: FocusPane,
    last: Option<(FocusPane, usize, u64)>,
    now_ms: u64,
) -> Option<(usize, bool)> {
    let k = offset + row_offset;
    if k >= vis.len() {
        None
    } else {
        let idx = vis[k];
        Some(
            (
                idx,
                match last {
                    Some((p, i, t)) => p == pane && i == idx && now_ms >= t && now_ms - t < 450,
                    None => false,
                },
            ),
        )
    }
}

pub fn click_list(
    vis: &[usize],
    offset: usize,
    row_offset: u16,
    pane: FocusPane,
    last: Option<(FocusPane, usize, u64)>,
    now_ms: u64,
) -> (r: Option<(usize, bool)>)
    ensures
        r == click_list_spec(vis@, offset, row_offset, pane, last, now_ms),
{
    if offset >= vis.len() || (row_offset as usize) >= vis.len() - offset {
        return None;
    }
    let idx = vis[offset + row_offset as usize];
    let double = match last {
        Some((p, i, t)) => p == pane && i == idx && now_ms >= t && now_ms - t < 450,
        None => false,
    };
    Some((idx, double))
}

} // verus!
