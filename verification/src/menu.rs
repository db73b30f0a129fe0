//! The escape menu: its rows and their values for the current state, which
//! rows the cursor may rest on, and what moving, adjusting or activating the
//! highlighted row asks of the player.
use vstd::prelude::*;

use crate::app::{
    dec, decimal, EscapeMenuItem, EscapeMenuKind, FullscreenMode, RepeatMode,
};
use crate::player::{wrap_move, wrap_move_spec};
use crate::subtitles::{SubtitleSet, SubtitleTrack};
use crate::text::{concat_chars, string_from_chars, to_chars};
use crate::visualizer::VisMode;

verus! {

broadcast use vstd::string::group_string_axioms;

/// What the escape menu shows, taken from the player and its back ends.
pub struct MenuState {
    /// A video is loaded.
    pub has_video: bool,
    /// The volume in percent, rounded.
    pub volume_percent: u64,
    /// The audio tracks of the loaded media, by label.
    pub audio_tracks: Vec<String>,
    /// The audio track playing, if the back end reports one.
    pub active_audio_track: Option<usize>,
    /// The subtitle track shown, if any.
    pub active_subtitle: Option<usize>,
    /// Whether the A/V offset follows the measured latency.
    pub auto_av_offset: bool,
    /// The A/V offset in milliseconds, rounded.
    pub av_offset_ms: i64,
    pub visualizer: VisMode,
    /// The FFT window, in samples.
    pub fft_size: usize,
    pub theme_label: String,
    pub fullscreen: FullscreenMode,
    /// The video back end can open a dedicated window.
    pub window_supported: bool,
    /// The dedicated video window is on.
    pub window_on: bool,
    pub repeat: RepeatMode,
    pub shuffle: bool,
    /// The platform can open a web page.
    pub url_open_supported: bool,
}

/// A menu row as plain values: kind, enabled, label, value.
pub type MenuRow = (EscapeMenuKind, bool, Seq<char>, Seq<char>);

pub open spec fn item_row(it: EscapeMenuItem) -> MenuRow {
    (it.kind, it.enabled, it.label@, it.value@)
}

pub open spec fn rows_of(items: Seq<EscapeMenuItem>) -> Seq<MenuRow> {
    items.map_values(|it: EscapeMenuItem| item_row(it))
}

pub open spec fn dash() -> Seq<char> {
    "\u{2014}"@
}

/// `Track n` for the zero-based index `i`.
pub open spec fn track_fallback(i: nat) -> Seq<char> {
    "Track "@ + dec(i + 1)
}

/// A signed whole number with its sign always shown (`{:+}`).
pub open spec fn signed_dec(n: int) -> Seq<char> {
    if n >= 0 {
        "+"@ + dec(n as nat)
    } else {
        "-"@ + dec((-n) as nat)
    }
}

/// `s` right-aligned in `width` columns.
pub open spec fn pad_left_spec(s: Seq<char>, width: nat) -> Seq<char> {
    if s.len() >= width {
        s
    } else {
        Seq::new((width - s.len()) as nat, |i: int| ' ') + s
    }
}

pub open spec fn repeat_label(m: RepeatMode) -> Seq<char> {
    match m {
        RepeatMode::Off => "Off"@,
        RepeatMode::All => "All"@,
        RepeatMode::One => "One"@,
    }
}

pub open spec fn fullscreen_label(m: FullscreenMode) -> Seq<char> {
    match m {
        FullscreenMode::Off => "Off"@,
        FullscreenMode::Visualizer => "Visualizer"@,
        FullscreenMode::AlbumArt => "Album Art"@,
        FullscreenMode::AlbumArtVis => "Art + Visualizer"@,
    }
}

pub open spec fn on_off(b: bool) -> Seq<char> {
    if b {
        "On"@
    } else {
        "Off"@
    }
}

/// The Subtitle row's value.
pub open spec fn subtitle_value(st: MenuState, subs: Seq<SubtitleTrack>) -> Seq<char> {
    if !st.has_video {
        dash()
    } else if subs.len() == 0 {
        "None"@
    } else {
        match st.active_subtitle {
            Some(i) => if i < subs.len() {
                subs[i as int].label@
            } else {
                track_fallback(i as nat)
            },
            None => "Off"@,
        }
    }
}

/// The A/V Offset row's value.
pub open spec fn av_value(st: MenuState) -> Seq<char> {
    if !st.has_video {
        dash()
    } else if st.auto_av_offset {
        "Auto ("@ + signed_dec(st.av_offset_ms as int) + " ms)"@
    } else {
        signed_dec(st.av_offset_ms as int) + " ms"@
    }
}

/// The Audio Track row's value.
pub open spec fn audio_value(st: MenuState) -> Seq<char> {
    if !st.has_video || st.audio_tracks@.len() < 2 {
        dash()
    } else {
        let cur: usize = match st.active_audio_track {
            Some(c) => c,
            None => 0,
        };
        if cur < st.audio_tracks@.len() {
            st.audio_tracks@[cur as int]@
        } else {
            track_fallback(cur as nat)
        }
    }
}

/// The rows of the escape menu, in order. Rows whose preconditions are not
/// met are disabled; the GitHub row is there only where a web page can be
/// opened.
pub open spec fn menu_rows(st: MenuState, subs: Seq<SubtitleTrack>) -> Seq<MenuRow> {
    let head = seq![
        (EscapeMenuKind::Volume, true, "Volume"@, pad_left_spec(dec(st.volume_percent as nat), 3) + "%"@),
        (EscapeMenuKind::AudioTrack, st.has_video && st.audio_tracks@.len() > 1, "Audio Track"@, audio_value(st)),
        (EscapeMenuKind::Subtitle, st.has_video && subs.len() > 0, "Subtitle"@, subtitle_value(st, subs)),
        (EscapeMenuKind::AvOffset, st.has_video, "A/V Offset"@, av_value(st)),
        (EscapeMenuKind::Visualizer, true, "Visualizer"@, st.visualizer.label_spec()),
        (EscapeMenuKind::FftSize, true, "FFT Resolution"@, dec(st.fft_size as nat) + " samples"@),
        (EscapeMenuKind::Theme, true, "Theme"@, st.theme_label@),
        (EscapeMenuKind::Fullscreen, true, "Fullscreen"@, fullscreen_label(st.fullscreen)),
        (EscapeMenuKind::VideoWindow, st.window_supported, "Video Window"@, on_off(st.window_on)),
        (EscapeMenuKind::Repeat, true, "Repeat"@, repeat_label(st.repeat)),
        (EscapeMenuKind::Shuffle, true, "Shuffle"@, on_off(st.shuffle)),
        (EscapeMenuKind::Help, true, "Help"@, "View \u{2197}"@),
    ];
    let github: Seq<MenuRow> = if st.url_open_supported {
        seq![(EscapeMenuKind::Github, true, "GitHub"@, "Open \u{2197}"@)]
    } else {
        Seq::empty()
    };
    head + github + seq![
        (EscapeMenuKind::Separator, false, ""@, Seq::<char>::empty()),
        (EscapeMenuKind::Quit, true, "Quit"@, Seq::<char>::empty()),
    ]
}

fn owned(s: &str) -> (r: String)
    ensures
        r@ == s@,
{
    s.to_owned()
}

fn cat(a: &[char], b: &str) -> (r: Vec<char>)
    ensures
        r@ == a@ + b@,
{
    let bv = to_chars(b);
    concat_chars(a, bv.as_slice())
}

fn track_fallback_text(i: usize) -> (r: String)
    requires
        i < usize::MAX,
    ensures
        r@ == track_fallback(i as nat),
{
    let head = to_chars("Track ");
    let d = decimal(i as u64 + 1);
    let v = concat_chars(head.as_slice(), d.as_slice());
    string_from_chars(v.as_slice())
}

fn signed_text(n: i64) -> (r: Vec<char>)
    ensures
        r@ == signed_dec(n as int),
{
    if n >= 0 {
        let d = decimal(n as u64);
        concat_chars(to_chars("+").as_slice(), d.as_slice())
    } else {
        let mag: u64 = (0i64 - (n + 1)) as u64 + 1;
        let d = decimal(mag);
        concat_chars(to_chars("-").as_slice(), d.as_slice())
    }
}

fn pad_left(s: &[char], width: usize) -> (r: Vec<char>)
    ensures
        r@ == pad_left_spec(s@, width as nat),
{
    if s.len() >= width {
        let mut v: Vec<char> = Vec::new();
        let mut i: usize = 0;
        while i < s.len()
            invariant
                i <= s.len(),
                v@ == s@.take(i as int),
            decreases s.len() - i,
        {
            v.push(s[i]);
            assert(s@.take(i + 1) == s@.take(i as int).push(s@[i as int]));
            i += 1;
        }
        assert(s@.take(s.len() as int) == s@);
        return v;
    }
    let mut pad: Vec<char> = Vec::new();
    let mut k: usize = 0;
    while k < width - s.len()
        invariant
            s.len() < width,
            k <= width - s.len(),
            pad@ == Seq::new(k as nat, |i: int| ' '),
        decreases width - s.len() - k,
    {
        pad.push(' ');
        assert(pad@ =~= Seq::new((k + 1) as nat, |i: int| ' '));
        k += 1;
    }
    concat_chars(pad.as_slice(), s)
}

fn subtitle_text(st: &MenuState, subs: &SubtitleSet) -> (r: String)
    requires
        st.active_subtitle != Some(usize::MAX),
    ensures
        r@ == subtitle_value(*st, subs.tracks_spec()),
{
    if !st.has_video {
        return owned("\u{2014}");
    }
    if subs.track_count() == 0 {
        return owned("None");
    }
    match st.active_subtitle {
        Some(i) => match subs.track_label(i) {
            Some(l) => l,
            None => track_fallback_text(i),
        },
        None => owned("Off"),
    }
}

fn av_text(st: &MenuState) -> (r: String)
    ensures
        r@ == av_value(*st),
{
    if !st.has_video {
        return owned("\u{2014}");
    }
    let num = signed_text(st.av_offset_ms);
    if st.auto_av_offset {
        let a = concat_chars(to_chars("Auto (").as_slice(), num.as_slice());
        let b = cat(a.as_slice(), " ms)");
        string_from_chars(b.as_slice())
    } else {
        let b = cat(num.as_slice(), " ms");
        string_from_chars(b.as_slice())
    }
}

fn audio_text(st: &MenuState) -> (r: String)
    requires
        st.active_audio_track != Some(usize::MAX),
    ensures
        r@ == audio_value(*st),
{
    if !st.has_video || st.audio_tracks.len() < 2 {
        return owned("\u{2014}");
    }
    let cur: usize = match st.active_audio_track {
        Some(c) => c,
        None => 0,
    };
    if cur < st.audio_tracks.len() {
        st.audio_tracks[cur].clone()
    } else {
        track_fallback_text(cur)
    }
}

fn item(kind: EscapeMenuKind, enabled: bool, label: &'static str, value: String) -> (r: EscapeMenuItem)
    ensures
        item_row(r) == (kind, enabled, label@, value@),
{
    EscapeMenuItem { kind, enabled, label, value }
}

/// The escape-menu rows for the current state (see [`menu_rows`]).
#[verifier::rlimit(40)]
pub fn escape_menu_items(st: &MenuState, subs: &SubtitleSet) -> (r: Vec<EscapeMenuItem>)
    requires
        st.active_subtitle != Some(usize::MAX),
        st.active_audio_track != Some(usize::MAX),
    ensures
        rows_of(r@) == menu_rows(*st, subs.tracks_spec()),
{
    let ghost rows = menu_rows(*st, subs.tracks_spec());
    let mut items: Vec<EscapeMenuItem> = Vec::new();
    let vol = pad_left(decimal(st.volume_percent).as_slice(), 3);
    let vol = cat(vol.as_slice(), "%");
    items.push(item(EscapeMenuKind::Volume, true, "Volume", string_from_chars(vol.as_slice())));
    items.push(
        item(
            EscapeMenuKind::AudioTrack,
            st.has_video && st.audio_tracks.len() > 1,
            "Audio Track",
            audio_text(st),
        ),
    );
    items.push(
        item(
            EscapeMenuKind::Subtitle,
            st.has_video && subs.track_count() > 0,
            "Subtitle",
            subtitle_text(st, subs),
        ),
    );
    items.push(item(EscapeMenuKind::AvOffset, st.has_video, "A/V Offset", av_text(st)));
    items.push(item(EscapeMenuKind::Visualizer, true, "Visualizer", owned(st.visualizer.label())));
    let fft = cat(decimal(st.fft_size as u64).as_slice(), " samples");
    items.push(item(EscapeMenuKind::FftSize, true, "FFT Resolution", string_from_chars(fft.as_slice())));
    items.push(item(EscapeMenuKind::Theme, true, "Theme", st.theme_label.clone()));
    items.push(item(EscapeMenuKind::Fullscreen, true, "Fullscreen", owned(st.fullscreen.label())));
    items.push(
        item(
            EscapeMenuKind::VideoWindow,
            st.window_supported,
            "Video Window",
            owned(if st.window_on { "On" } else { "Off" }),
        ),
    );
    items.push(item(EscapeMenuKind::Repeat, true, "Repeat", owned(st.repeat.label())));
    items.push(
        item(EscapeMenuKind::Shuffle, true, "Shuffle", owned(if st.shuffle { "On" } else { "Off" })),
    );
    items.push(item(EscapeMenuKind::Help, true, "Help", owned("View \u{2197}")));
    assert(rows_of(items@) =~= rows.take(12));
    if st.url_open_supported {
        items.push(item(EscapeMenuKind::Github, true, "GitHub", owned("Open \u{2197}")));
    }
    items.push(item(EscapeMenuKind::Separator, false, "", String::new()));
    items.push(item(EscapeMenuKind::Quit, true, "Quit", String::new()));
    assert(rows_of(items@) =~= rows);
    items
}

/// A row the cursor may rest on: enabled, and not the separator.
pub open spec fn is_selectable(r: MenuRow) -> bool {
    r.1 && r.0 != EscapeMenuKind::Separator
}

/// The indices of the selectable rows, in order.
pub open spec fn selectable_spec(rows: Seq<MenuRow>) -> Seq<usize>
    decreases rows.len(),
{
    if rows.len() == 0 {
        Seq::empty()
    } else {
        let prev = selectable_spec(rows.drop_last());
        if is_selectable(rows.last()) {
            prev.push((rows.len() - 1) as usize)
        } else {
            prev
        }
    }
}

/// The indices of the rows the cursor may rest on.
pub fn selectable_indices(items: &[EscapeMenuItem]) -> (r: Vec<usize>)
    ensures
        r@ == selectable_spec(rows_of(items@)),
{
    let mut out: Vec<usize> = Vec::new();
    let mut i: usize = 0;
    while i < items.len()
        invariant
            i <= items@.len(),
            out@ == selectable_spec(rows_of(items@.take(i as int))),
        decreases items.len() - i,
    {
        let ghost pre = items@.take(i as int);
        let ghost next = items@.take(i + 1);
        assert(next.drop_last() == pre);
        assert(rows_of(next).drop_last() =~= rows_of(pre));
        assert(rows_of(next).last() == item_row(items@[i as int]));
        if items[i].enabled && items[i].kind != EscapeMenuKind::Separator {
            out.push(i);
        }
        i += 1;
    }
    assert(items@.take(items@.len() as int) == items@);
    out
}

/// The cursor when the menu opens: the first selectable row, or unchanged
/// when there is none.
pub open spec fn open_selection_spec(rows: Seq<MenuRow>, selected: usize) -> usize {
    let sel = selectable_spec(rows);
    if sel.len() > 0 {
        sel[0]
    } else {
        selected
    }
}

pub fn open_escape_menu(items: &[EscapeMenuItem], selected: usize) -> (r: usize)
    ensures
        r == open_selection_spec(rows_of(items@), selected),
{
    let sel = selectable_indices(items);
    if sel.len() > 0 {
        sel[0]
    } else {
        selected
    }
}

/// The cursor after moving `delta` selectable rows, wrapping around;
/// unchanged when no row is selectable.
pub open spec fn menu_move_spec(rows: Seq<MenuRow>, selected: usize, delta: i32) -> usize {
    match wrap_move_spec(selectable_spec(rows), selected, delta) {
        Some(i) => i,
        None => selected,
    }
}

pub fn escape_menu_move(items: &[EscapeMenuItem], selected: usize, delta: i32) -> (r: usize)
    ensures
        r == menu_move_spec(rows_of(items@), selected, delta),
{
    let sel = selectable_indices(items);
    match wrap_move(sel.as_slice(), selected, delta) {
        Some(i) => i,
        None => selected,
    }
}

/// What adjusting or activating an escape-menu row asks of the player.
#[derive(Debug, Clone, Copy, PartialEq, Eq, Structural)]
pub enum MenuCommand {
    /// Change the volume by this many hundredths.
    VolumeStep(i64),
    StepAudioTrack(i32),
    StepSubtitleTrack(i32),
    /// Nudge the A/V offset by this many steps.
    AdjustAvOffset(i32),
    CycleVisualizer,
    CycleVisualizerBack,
    StepFftSize(i32),
    CycleTheme,
    CycleThemeBack,
    ToggleFullscreen,
    ToggleVideoWindow,
    CycleRepeat,
    ToggleShuffle,
    /// Return the A/V offset to automatic.
    ResetAvOffset,
    Quit,
    OpenGithub,
    /// Open the help overlay at its top.
    ShowHelp,
}

/// The highlighted row, if it exists and is enabled.
pub open spec fn active_row(rows: Seq<MenuRow>, selected: usize) -> Option<MenuRow> {
    if selected < rows.len() && rows[selected as int].1 {
        Some(rows[selected as int])
    } else {
        None
    }
}

/// Left/right on the highlighted row.
pub open spec fn adjust_spec(rows: Seq<MenuRow>, selected: usize, delta: i32) -> Option<MenuCommand> {
    match active_row(rows, selected) {
        None => None,
        Some(r) => match r.0 {
            EscapeMenuKind::Volume => Some(MenuCommand::VolumeStep((5 * delta) as i64)),
            EscapeMenuKind::AudioTrack => Some(MenuCommand::StepAudioTrack(delta)),
            EscapeMenuKind::Subtitle => Some(MenuCommand::StepSubtitleTrack(delta)),
            EscapeMenuKind::AvOffset => Some(MenuCommand::AdjustAvOffset(delta)),
            EscapeMenuKind::Visualizer => Some(
                if delta > 0 {
                    MenuCommand::CycleVisualizer
                } else {
                    MenuCommand::CycleVisualizerBack
                },
            ),
            EscapeMenuKind::FftSize => Some(MenuCommand::StepFftSize(delta)),
            EscapeMenuKind::Theme => Some(
                if delta > 0 {
                    MenuCommand::CycleTheme
                } else {
                    MenuCommand::CycleThemeBack
                },
            ),
            EscapeMenuKind::Fullscreen => Some(MenuCommand::ToggleFullscreen),
            EscapeMenuKind::VideoWindow => Some(MenuCommand::ToggleVideoWindow),
            EscapeMenuKind::Repeat => Some(MenuCommand::CycleRepeat),
            EscapeMenuKind::Shuffle => Some(MenuCommand::ToggleShuffle),
            _ => None,
        },
    }
}

pub fn escape_menu_adjust(items: &[EscapeMenuItem], selected: usize, delta: i32) -> (r: Option<MenuCommand>)
    ensures
        r == adjust_spec(rows_of(items@), selected, delta),
{
    if selected >= items.len() || !items[selected].enabled {
        return None;
    }
    match items[selected].kind {
        EscapeMenuKind::Volume => Some(MenuCommand::VolumeStep(5 * delta as i64)),
        EscapeMenuKind::AudioTrack => Some(MenuCommand::StepAudioTrack(delta)),
        EscapeMenuKind::Subtitle => Some(MenuCommand::StepSubtitleTrack(delta)),
        EscapeMenuKind::AvOffset => Some(MenuCommand::AdjustAvOffset(delta)),
        EscapeMenuKind::Visualizer => Some(
            if delta > 0 {
                MenuCommand::CycleVisualizer
            } else {
                MenuCommand::CycleVisualizerBack
            },
        ),
        EscapeMenuKind::FftSize => Some(MenuCommand::StepFftSize(delta)),
        EscapeMenuKind::Theme => Some(
            if delta > 0 {
                MenuCommand::CycleTheme
            } else {
                MenuCommand::CycleThemeBack
            },
        ),
        EscapeMenuKind::Fullscreen => Some(MenuCommand::ToggleFullscreen),
        EscapeMenuKind::VideoWindow => Some(MenuCommand::ToggleVideoWindow),
        EscapeMenuKind::Repeat => Some(MenuCommand::CycleRepeat),
        EscapeMenuKind::Shuffle => Some(MenuCommand::ToggleShuffle),
        _ => None,
    }
}

/// Enter/Space on the highlighted row: the command, and whether the menu
/// closes (it does for Quit, GitHub and Help).
pub open spec fn activate_spec(rows: Seq<MenuRow>, selected: usize) -> (Option<MenuCommand>, bool) {
    match active_row(rows, selected) {
        None => (None, false),
        Some(r) => match r.0 {
            EscapeMenuKind::Quit => (Some(MenuCommand::Quit), true),
            EscapeMenuKind::Github => (Some(MenuCommand::OpenGithub), true),
            EscapeMenuKind::Help => (Some(MenuCommand::ShowHelp), true),
            EscapeMenuKind::Fullscreen => (Some(MenuCommand::ToggleFullscreen), false),
            EscapeMenuKind::VideoWindow => (Some(MenuCommand::ToggleVideoWindow), false),
            EscapeMenuKind::Repeat => (Some(MenuCommand::CycleRepeat), false),
            EscapeMenuKind::Shuffle => (Some(MenuCommand::ToggleShuffle), false),
            EscapeMenuKind::AvOffset => (Some(MenuCommand::ResetAvOffset), false),
            _ => (None, false),
        },
    }
}

pub fn escape_menu_activate(items: &[EscapeMenuItem], selected: usize) -> (r: (Option<MenuCommand>, bool))
    ensures
        r == activate_spec(rows_of(items@), selected),
{
    if selected >= items.len() || !items[selected].enabled {
        return (None, false);
    }
    match items[selected].kind {
        EscapeMenuKind::Quit => (Some(MenuCommand::Quit), true),
        EscapeMenuKind::Github => (Some(MenuCommand::OpenGithub), true),
        EscapeMenuKind::Help => (Some(MenuCommand::ShowHelp), true),
        EscapeMenuKind::Fullscreen => (Some(MenuCommand::ToggleFullscreen), false),
        EscapeMenuKind::VideoWindow => (Some(MenuCommand::ToggleVideoWindow), false),
        EscapeMenuKind::Repeat => (Some(MenuCommand::CycleRepeat), false),
        EscapeMenuKind::Shuffle => (Some(MenuCommand::ToggleShuffle), false),
        EscapeMenuKind::AvOffset => (Some(MenuCommand::ResetAvOffset), false),
        _ => (None, false),
    }
}

proof fn lemma_selectable_sound(rows: Seq<MenuRow>)
    requires
        rows.len() <= usize::MAX,
    ensures
        forall|k: int|
            0 <= k < selectable_spec(rows).len() ==> #[trigger] selectable_spec(rows)[k] < rows.len()
                && is_selectable(rows[selectable_spec(rows)[k] as int]),
    decreases rows.len(),
{
    if rows.len() > 0 {
        lemma_selectable_sound(rows.drop_last());
        let prev = selectable_spec(rows.drop_last());
        assert forall|k: int| 0 <= k < selectable_spec(rows).len() implies #[trigger] selectable_spec(
            rows,
        )[k] < rows.len() && is_selectable(rows[selectable_spec(rows)[k] as int]) by {
            if k < prev.len() {
                assert(selectable_spec(rows)[k] == prev[k]);
                assert(prev[k] < rows.drop_last().len());
                assert(rows[prev[k] as int] == rows.drop_last()[prev[k] as int]);
            } else {
                assert(is_selectable(rows.last()));
                assert(selectable_spec(rows)[k] == rows.len() - 1);
                assert(rows[rows.len() - 1] == rows.last());
            }
        }
    }
}

/// Moving the escape-menu cursor always lands on an enabled row other than
/// the separator, whenever the menu has one.
pub proof fn lemma_menu_move_selectable(rows: Seq<MenuRow>, selected: usize, delta: i32)
    requires
        rows.len() <= usize::MAX,
        selectable_spec(rows).len() > 0,
    ensures
        menu_move_spec(rows, selected, delta) < rows.len(),
        is_selectable(rows[menu_move_spec(rows, selected, delta) as int]),
{
    let sel = selectable_spec(rows);
    crate::player::lemma_wrap_move_visible(sel, selected, delta);
    lemma_selectable_sound(rows);
    let r = menu_move_spec(rows, selected, delta);
    let k = choose|k: int| 0 <= k < sel.len() && sel[k] == r;
    assert(sel[k] == r);
}

/// The menu always ends with the separator and Quit, and Quit can always
/// be chosen.
pub proof fn lemma_menu_ends_with_quit(st: MenuState, subs: Seq<SubtitleTrack>)
    ensures
        menu_rows(st, subs).len() >= 2,
        menu_rows(st, subs).last().0 == EscapeMenuKind::Quit,
        is_selectable(menu_rows(st, subs).last()),
        menu_rows(st, subs)[menu_rows(st, subs).len() - 2].0 == EscapeMenuKind::Separator,
        !is_selectable(menu_rows(st, subs)[menu_rows(st, subs).len() - 2]),
{
}

/// The label shown for subtitle track `i`: its own, or `Track n`.
pub open spec fn subtitle_label(subs: Seq<SubtitleTrack>, i: usize) -> Seq<char> {
    if i < subs.len() {
        subs[i as int].label@
    } else {
        track_fallback(i as nat)
    }
}

/// The status line after the subtitle track changed.
pub open spec fn subtitle_status_spec(subs: Seq<SubtitleTrack>, active: Option<usize>) -> Seq<char> {
    match active {
        Some(i) => "Subtitles: "@ + subtitle_label(subs, i),
        None => "Subtitles: off"@,
    }
}

pub fn subtitle_status(subs: &SubtitleSet, active: Option<usize>) -> (r: String)
    requires
        active != Some(usize::MAX),
    ensures
        r@ == subtitle_status_spec(subs.tracks_spec(), active),
{
    match active {
        Some(i) => {
            let label = match subs.track_label(i) {
                Some(l) => l,
                None => track_fallback_text(i),
            };
            let v = cat(to_chars("Subtitles: ").as_slice(), label.as_str());
            string_from_chars(v.as_slice())
        },
        None => owned("Subtitles: off"),
    }
}

/// The labels of all tracks joined with `, `.
pub open spec fn joined_labels(subs: Seq<SubtitleTrack>) -> Seq<char>
    decreases subs.len(),
{
    if subs.len() == 0 {
        Seq::empty()
    } else if subs.len() == 1 {
        subs[0].label@
    } else {
        joined_labels(subs.drop_last()) + ", "@ + subs.last().label@
    }
}

/// The announcement shown when subtitles become available: the track
/// labels and how to switch; none without tracks.
pub open spec fn announcement_spec(subs: Seq<SubtitleTrack>) -> Option<Seq<char>> {
    if subs.len() == 0 {
        None
    } else {
        Some("Subtitles available: "@ + joined_labels(subs) + " \u{2014} press 'c' to cycle"@)
    }
}

pub fn subtitle_announcement(subs: &SubtitleSet) -> (r: Option<String>)
    ensures
        match announcement_spec(subs.tracks_spec()) {
            Some(t) => r matches Some(x) && x@ == t,
            None => r is None,
        },
{
    let n = subs.track_count();
    if n == 0 {
        return None;
    }
    let ghost ts = subs.tracks_spec();
    let mut out: Vec<char> = Vec::new();
    let mut i: usize = 0;
    while i < n
        invariant
            n == ts.len(),
            ts == subs.tracks_spec(),
            i <= n,
            out@ == joined_labels(ts.take(i as int)),
        decreases n - i,
    {
        let label = subs.track_label(i).unwrap();
        let ghost t = ts.take(i + 1);
        assert(t.drop_last() == ts.take(i as int));
        assert(t.last() == ts[i as int]);
        if i > 0 {
            out = cat(out.as_slice(), ", ");
        }
        out = cat(out.as_slice(), label.as_str());
        proof {
            if i == 0 {
                assert(out@ =~= ts[0].label@);
            } else {
                assert(out@ =~= joined_labels(t.drop_last()) + ", "@ + t.last().label@);
            }
        }
        i += 1;
    }
    assert(ts.take(n as int) == ts);
    let head = to_chars("Subtitles available: ");
    let a = concat_chars(head.as_slice(), out.as_slice());
    let b = cat(a.as_slice(), " \u{2014} press 'c' to cycle");
    Some(string_from_chars(b.as_slice()))
}

} // verus!
