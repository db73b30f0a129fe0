//! The keyboard map of the player: which action a key press triggers in each
//! mode (help overlay, text input, global search, escape menu, fullscreen
//! video, and the normal two-pane view).
use vstd::prelude::*;

use crate::app::InputMode;
use crate::backend::{CoreKey, CoreKeyEvent};

verus! {

/// The part of the player's state that decides what a key does.
#[derive(Debug, Clone, Copy, PartialEq, Eq, Structural)]
pub struct KeyContext {
    /// The help overlay is open.
    pub show_help: bool,
    /// How far the help overlay is scrolled.
    pub help_scroll: u16,
    /// Whether typed text is being captured (filter or playlist name).
    pub input_mode: InputMode,
    /// The global search overlay is open.
    pub show_search: bool,
    /// The escape menu is open.
    pub show_escape_menu: bool,
    /// The fullscreen video window owns the screen.
    pub external_window: bool,
}

/// What a key press asks of the player.
#[derive(Debug, Clone, Copy, PartialEq, Eq, Structural)]
pub enum KeyAction {
    /// The key does nothing here.
    Nothing,
    Quit,
    /// Close the help overlay.
    CloseHelp,
    /// Set the help overlay's scroll offset.
    SetHelpScroll(u16),
    CancelInput,
    ConfirmInput,
    InputBackspace,
    InputPush(char),
    CloseSearch,
    /// Move the search cursor by this many rows.
    SearchMove(i32),
    SearchCycleScope,
    ActivateSearch,
    SearchBackspace,
    SearchPush(char),
    CloseEscapeMenu,
    /// Move the escape-menu cursor by this many rows.
    EscapeMenuMove(i32),
    /// Adjust the highlighted escape-menu row down (`-1`) or up (`1`).
    EscapeMenuAdjust(i32),
    EscapeMenuActivate,
    /// Leave the fullscreen video window.
    ExitFullscreenVideo,
    TogglePause,
    NextTrack,
    PrevTrack,
    /// Seek by this many seconds.
    Seek(i32),
    /// Change the volume by this many hundredths.
    VolumeStep(i32),
    CycleAudioTrack,
    CycleSubtitleTrack,
    /// Nudge the A/V offset one step later (`1`) or earlier (`-1`).
    AdjustAvOffset(i32),
    CycleRepeat,
    OpenEscapeMenu,
    CycleVisualizer,
    CycleTheme,
    CycleDisplayMode,
    ToggleShuffle,
    QueueSelectedBrowser,
    QueueBrowserDirectory,
    ClearPlaylist,
    /// Open the help overlay at its top.
    ShowHelp,
    StartFilter,
    OpenSearch,
    ToggleFavorite,
    StartSavePlaylist,
    RemoveSelectedTrack,
    FocusNext,
    /// Move the highlighted playlist track by this many rows.
    MoveSelectedTrack(i32),
    /// Move the cursor by this many rows.
    MoveSelection(i32),
    /// Move the cursor by this many pages.
    Page(i32),
    SelectFirst,
    SelectLast,
    ActivateSelection,
}

/// The help overlay: closing keys, and scrolling (saturating at the ends).
pub open spec fn help_action(code: CoreKey, scroll: u16) -> KeyAction {
    match code {
        CoreKey::Esc => KeyAction::CloseHelp,
        CoreKey::Char(c) => if c == '?' || c == 'h' || c == 'q' {
            KeyAction::CloseHelp
        } else {
            KeyAction::Nothing
        },
        CoreKey::Up => KeyAction::SetHelpScroll(if scroll >= 1 { (scroll - 1) as u16 } else { 0u16 }),
        CoreKey::Down => KeyAction::SetHelpScroll(
            if scroll + 1 <= u16::MAX { (scroll + 1) as u16 } else { u16::MAX },
        ),
        CoreKey::PageUp => KeyAction::SetHelpScroll(
            if scroll >= 10 { (scroll - 10) as u16 } else { 0u16 },
        ),
        CoreKey::PageDown => KeyAction::SetHelpScroll(
            if scroll + 10 <= u16::MAX { (scroll + 10) as u16 } else { u16::MAX },
        ),
        CoreKey::Home => KeyAction::SetHelpScroll(0),
        CoreKey::End => KeyAction::SetHelpScroll(u16::MAX),
        _ => KeyAction::Nothing,
    }
}

/// Text input (filter or playlist name).
pub open spec fn input_action(code: CoreKey) -> KeyAction {
    match code {
        CoreKey::Esc => KeyAction::CancelInput,
        CoreKey::Enter => KeyAction::ConfirmInput,
        CoreKey::Backspace => KeyAction::InputBackspace,
        CoreKey::Char(c) => KeyAction::InputPush(c),
        _ => KeyAction::Nothing,
    }
}

/// Whether the press is Ctrl+C.
pub open spec fn is_ctrl_c(ev: CoreKeyEvent) -> bool {
    ev.ctrl && ev.code == CoreKey::Char('c')
}

/// The global search overlay.
pub open spec fn search_action(ev: CoreKeyEvent) -> KeyAction {
    if is_ctrl_c(ev) {
        KeyAction::Quit
    } else {
        match ev.code {
            CoreKey::Esc => KeyAction::CloseSearch,
            CoreKey::Up => KeyAction::SearchMove(-1i32),
            CoreKey::Down => KeyAction::SearchMove(1),
            CoreKey::PageUp => KeyAction::SearchMove(-10i32),
            CoreKey::PageDown => KeyAction::SearchMove(10),
            CoreKey::Tab => KeyAction::SearchCycleScope,
            CoreKey::Enter => KeyAction::ActivateSearch,
            CoreKey::Backspace => KeyAction::SearchBackspace,
            CoreKey::Char(c) => KeyAction::SearchPush(c),
            _ => KeyAction::Nothing,
        }
    }
}

/// The escape menu.
pub open spec fn menu_action(ev: CoreKeyEvent) -> KeyAction {
    if is_ctrl_c(ev) {
        KeyAction::Quit
    } else {
        match ev.code {
            CoreKey::Esc => KeyAction::CloseEscapeMenu,
            CoreKey::Up => KeyAction::EscapeMenuMove(-1i32),
            CoreKey::Down => KeyAction::EscapeMenuMove(1),
            CoreKey::Left => KeyAction::EscapeMenuAdjust(-1i32),
            CoreKey::Right => KeyAction::EscapeMenuAdjust(1),
            CoreKey::Enter => KeyAction::EscapeMenuActivate,
            CoreKey::Char(c) => if c == ' ' {
                KeyAction::EscapeMenuActivate
            } else {
                KeyAction::Nothing
            },
            _ => KeyAction::Nothing,
        }
    }
}

/// The transport keys shared by fullscreen video and the normal view; `None`
/// for the keys that are not transport keys.
pub open spec fn transport_action(ev: CoreKeyEvent) -> Option<KeyAction> {
    match ev.code {
        CoreKey::Char(c) => if c == 'q' || is_ctrl_c(ev) {
            Some(KeyAction::Quit)
        } else if c == ' ' {
            Some(KeyAction::TogglePause)
        } else if c == 'n' {
            Some(KeyAction::NextTrack)
        } else if c == 'p' {
            Some(KeyAction::PrevTrack)
        } else if c == '-' || c == '_' {
            Some(KeyAction::VolumeStep(-5i32))
        } else if c == '+' || c == '=' {
            Some(KeyAction::VolumeStep(5))
        } else if c == 'b' {
            Some(KeyAction::CycleAudioTrack)
        } else if c == 'c' {
            Some(KeyAction::CycleSubtitleTrack)
        } else if c == '[' {
            Some(KeyAction::AdjustAvOffset(-1i32))
        } else if c == ']' {
            Some(KeyAction::AdjustAvOffset(1))
        } else if c == 'r' {
            Some(KeyAction::CycleRepeat)
        } else {
            None
        },
        CoreKey::Left => Some(KeyAction::Seek(if ev.ctrl { -30i32 } else { -10i32 })),
        CoreKey::Right => Some(KeyAction::Seek(if ev.ctrl { 30i32 } else { 10i32 })),
        _ => None,
    }
}

/// Fullscreen video: only transport keys act, and `Esc` or `f` leaves it.
pub open spec fn fullscreen_action(ev: CoreKeyEvent) -> KeyAction {
    if ev.code == CoreKey::Esc || ev.code == CoreKey::Char('f') {
        KeyAction::ExitFullscreenVideo
    } else {
        match transport_action(ev) {
            Some(a) => a,
            None => KeyAction::Nothing,
        }
    }
}

/// The normal view: transport keys, then the playlist, browser and overlay
/// keys.
pub open spec fn main_action(ev: CoreKeyEvent) -> KeyAction {
    match transport_action(ev) {
        Some(a) => a,
        None => match ev.code {
            CoreKey::Esc => KeyAction::OpenEscapeMenu,
            CoreKey::Char(c) => if c == 'v' {
                KeyAction::CycleVisualizer
            } else if c == 't' {
                KeyAction::CycleTheme
            } else if c == 'f' {
                KeyAction::CycleDisplayMode
            } else if c == 's' {
                KeyAction::ToggleShuffle
            } else if c == 'a' {
                KeyAction::QueueSelectedBrowser
            } else if c == 'A' {
                KeyAction::QueueBrowserDirectory
            } else if c == 'C' {
                KeyAction::ClearPlaylist
            } else if c == '?' || c == 'h' {
                KeyAction::ShowHelp
            } else if c == '/' {
                KeyAction::StartFilter
            } else if c == 'g' {
                KeyAction::OpenSearch
            } else if c == 'F' {
                KeyAction::ToggleFavorite
            } else if c == 'w' {
                KeyAction::StartSavePlaylist
            } else if c == 'd' {
                KeyAction::RemoveSelectedTrack
            } else {
                KeyAction::Nothing
            },
            CoreKey::Delete => KeyAction::RemoveSelectedTrack,
            CoreKey::Tab => KeyAction::FocusNext,
            CoreKey::Up => if ev.ctrl {
                KeyAction::MoveSelectedTrack(-1i32)
            } else {
                KeyAction::MoveSelection(-1i32)
            },
            CoreKey::Down => if ev.ctrl {
                KeyAction::MoveSelectedTrack(1)
            } else {
                KeyAction::MoveSelection(1)
            },
            CoreKey::PageUp => KeyAction::Page(-1i32),
            CoreKey::PageDown => KeyAction::Page(1),
            CoreKey::Home => KeyAction::SelectFirst,
            CoreKey::End => KeyAction::SelectLast,
            CoreKey::Enter => KeyAction::ActivateSelection,
            _ => KeyAction::Nothing,
        },
    }
}

/// What a key press does: the first open layer (help, text input, search,
/// escape menu, fullscreen video) takes the key; otherwise the normal view.
pub open spec fn key_action_spec(ctx: KeyContext, ev: CoreKeyEvent) -> KeyAction {
    if ctx.show_help {
        help_action(ev.code, ctx.help_scroll)
    } else if ctx.input_mode != InputMode::Normal {
        input_action(ev.code)
    } else if ctx.show_search {
        search_action(ev)
    } else if ctx.show_escape_menu {
        menu_action(ev)
    } else if ctx.external_window {
        fullscreen_action(ev)
    } else {
        main_action(ev)
    }
}

fn help_key(code: CoreKey, scroll: u16) -> (r: KeyAction)
    ensures
        r == help_action(code, scroll),
{
    match code {
        CoreKey::Esc => KeyAction::CloseHelp,
        CoreKey::Char(c) => if c == '?' || c == 'h' || c == 'q' {
            KeyAction::CloseHelp
        } else {
            KeyAction::Nothing
        },
        CoreKey::Up => KeyAction::SetHelpScroll(scroll.saturating_sub(1)),
        CoreKey::Down => KeyAction::SetHelpScroll(scroll.saturating_add(1)),
        CoreKey::PageUp => KeyAction::SetHelpScroll(scroll.saturating_sub(10)),
        CoreKey::PageDown => KeyAction::SetHelpScroll(scroll.saturating_add(10)),
        CoreKey::Home => KeyAction::SetHelpScroll(0),
        CoreKey::End => KeyAction::SetHelpScroll(u16::MAX),
        _ => KeyAction::Nothing,
    }
}

fn input_key(code: CoreKey) -> (r: KeyAction)
    ensures
        r == input_action(code),
{
    match code {
        CoreKey::Esc => KeyAction::CancelInput,
        CoreKey::Enter => KeyAction::ConfirmInput,
        CoreKey::Backspace => KeyAction::InputBackspace,
        CoreKey::Char(c) => KeyAction::InputPush(c),
        _ => KeyAction::Nothing,
    }
}

fn ctrl_c(ev: CoreKeyEvent) -> (r: bool)
    ensures
        r == is_ctrl_c(ev),
{
    ev.ctrl && match ev.code {
        CoreKey::Char(c) => c == 'c',
        _ => false,
    }
}

fn search_key(ev: CoreKeyEvent) -> (r: KeyAction)
    ensures
        r == search_action(ev),
{
    if ctrl_c(ev) {
        return KeyAction::Quit;
    }
    match ev.code {
        CoreKey::Esc => KeyAction::CloseSearch,
        CoreKey::Up => KeyAction::SearchMove(-1i32),
        CoreKey::Down => KeyAction::SearchMove(1),
        CoreKey::PageUp => KeyAction::SearchMove(-10i32),
        CoreKey::PageDown => KeyAction::SearchMove(10),
        CoreKey::Tab => KeyAction::SearchCycleScope,
        CoreKey::Enter => KeyAction::ActivateSearch,
        CoreKey::Backspace => KeyAction::SearchBackspace,
        CoreKey::Char(c) => KeyAction::SearchPush(c),
        _ => KeyAction::Nothing,
    }
}

fn menu_key(ev: CoreKeyEvent) -> (r: KeyAction)
    ensures
        r == menu_action(ev),
{
    if ctrl_c(ev) {
        return KeyAction::Quit;
    }
    match ev.code {
        CoreKey::Esc => KeyAction::CloseEscapeMenu,
        CoreKey::Up => KeyAction::EscapeMenuMove(-1i32),
        CoreKey::Down => KeyAction::EscapeMenuMove(1),
        CoreKey::Left => KeyAction::EscapeMenuAdjust(-1i32),
        CoreKey::Right => KeyAction::EscapeMenuAdjust(1),
        CoreKey::Enter => KeyAction::EscapeMenuActivate,
        CoreKey::Char(c) => if c == ' ' {
            KeyAction::EscapeMenuActivate
        } else {
            KeyAction::Nothing
        },
        _ => KeyAction::Nothing,
    }
}

fn transport_key(ev: CoreKeyEvent) -> (r: Option<KeyAction>)
    ensures
        r == transport_action(ev),
{
    let quit = ctrl_c(ev);
    match ev.code {
        CoreKey::Char(c) => if c == 'q' || quit {
            Some(KeyAction::Quit)
        } else if c == ' ' {
            Some(KeyAction::TogglePause)
        } else if c == 'n' {
            Some(KeyAction::NextTrack)
        } else if c == 'p' {
            Some(KeyAction::PrevTrack)
        } else if c == '-' || c == '_' {
            Some(KeyAction::VolumeStep(-5i32))
        } else if c == '+' || c == '=' {
            Some(KeyAction::VolumeStep(5))
        } else if c == 'b' {
            Some(KeyAction::CycleAudioTrack)
        } else if c == 'c' {
            Some(KeyAction::CycleSubtitleTrack)
        } else if c == '[' {
            Some(KeyAction::AdjustAvOffset(-1i32))
        } else if c == ']' {
            Some(KeyAction::AdjustAvOffset(1))
        } else if c == 'r' {
            Some(KeyAction::CycleRepeat)
        } else {
            None
        },
        CoreKey::Left => Some(KeyAction::Seek(if ev.ctrl { -30i32 } else { -10i32 })),
        CoreKey::Right => Some(KeyAction::Seek(if ev.ctrl { 30i32 } else { 10i32 })),
        _ => None,
    }
}

fn fullscreen_key(ev: CoreKeyEvent) -> (r: KeyAction)
    ensures
        r == fullscreen_action(ev),
{
    let leave = match ev.code {
        CoreKey::Esc => true,
        CoreKey::Char(c) => c == 'f',
        _ => false,
    };
    if leave {
        return KeyAction::ExitFullscreenVideo;
    }
    match transport_key(ev) {
        Some(a) => a,
        None => KeyAction::Nothing,
    }
}

fn main_key(ev: CoreKeyEvent) -> (r: KeyAction)
    ensures
        r == main_action(ev),
{
    if let Some(a) = transport_key(ev) {
        return a;
    }
    match ev.code {
        CoreKey::Esc => KeyAction::OpenEscapeMenu,
        CoreKey::Char(c) => if c == 'v' {
            KeyAction::CycleVisualizer
        } else if c == 't' {
            KeyAction::CycleTheme
        } else if c == 'f' {
            KeyAction::CycleDisplayMode
        } else if c == 's' {
            KeyAction::ToggleShuffle
        } else if c == 'a' {
            KeyAction::QueueSelectedBrowser
        } else if c == 'A' {
            KeyAction::QueueBrowserDirectory
        } else if c == 'C' {
            KeyAction::ClearPlaylist
        } else if c == '?' || c == 'h' {
            KeyAction::ShowHelp
        } else if c == '/' {
            KeyAction::StartFilter
        } else if c == 'g' {
            KeyAction::OpenSearch
        } else if c == 'F' {
            KeyAction::ToggleFavorite
        } else if c == 'w' {
            KeyAction::StartSavePlaylist
        } else if c == 'd' {
            KeyAction::RemoveSelectedTrack
        } else {
            KeyAction::Nothing
        },
        CoreKey::Delete => KeyAction::RemoveSelectedTrack,
        CoreKey::Tab => KeyAction::FocusNext,
        CoreKey::Up => if ev.ctrl {
            KeyAction::MoveSelectedTrack(-1i32)
        } else {
            KeyAction::MoveSelection(-1i32)
        },
        CoreKey::Down => if ev.ctrl {
            KeyAction::MoveSelectedTrack(1)
        } else {
            KeyAction::MoveSelection(1)
        },
        CoreKey::PageUp => KeyAction::Page(-1i32),
        CoreKey::PageDown => KeyAction::Page(1),
        CoreKey::Home => KeyAction::SelectFirst,
        CoreKey::End => KeyAction::SelectLast,
        CoreKey::Enter => KeyAction::ActivateSelection,
        _ => KeyAction::Nothing,
    }
}

/// The action a key press triggers in the given state.
pub fn handle_key(ctx: KeyContext, ev: CoreKeyEvent) -> (r: KeyAction)
    ensures
        r == key_action_spec(ctx, ev),
{
    if ctx.show_help {
        help_key(ev.code, ctx.help_scroll)
    } else if ctx.input_mode != InputMode::Normal {
        input_key(ev.code)
    } else if ctx.show_search {
        search_key(ev)
    } else if ctx.show_escape_menu {
        menu_key(ev)
    } else if ctx.external_window {
        fullscreen_key(ev)
    } else {
        main_key(ev)
    }
}

/// Actions that change the playlist, the browser or the cursor in them.
pub open spec fn touches_panels(a: KeyAction) -> bool {
    match a {
        KeyAction::QueueSelectedBrowser | KeyAction::QueueBrowserDirectory
        | KeyAction::ClearPlaylist | KeyAction::RemoveSelectedTrack | KeyAction::FocusNext
        | KeyAction::MoveSelectedTrack(_) | KeyAction::MoveSelection(_) | KeyAction::Page(_)
        | KeyAction::SelectFirst | KeyAction::SelectLast | KeyAction::ActivateSelection
        | KeyAction::StartFilter | KeyAction::OpenSearch | KeyAction::StartSavePlaylist => true,
        _ => false,
    }
}

/// Ctrl+C quits from every view except the help overlay and text input.
pub proof fn lemma_ctrl_c_quits(ctx: KeyContext, ev: CoreKeyEvent)
    requires
        !ctx.show_help,
        ctx.input_mode == InputMode::Normal,
        is_ctrl_c(ev),
    ensures
        key_action_spec(ctx, ev) == KeyAction::Quit,
{
}

/// While the fullscreen video window owns the screen (and no overlay is
/// open), no key reaches the hidden playlist or browser.
pub proof fn lemma_fullscreen_spares_panels(ctx: KeyContext, ev: CoreKeyEvent)
    requires
        ctx.external_window,
        !ctx.show_help,
        ctx.input_mode == InputMode::Normal,
        !ctx.show_search,
        !ctx.show_escape_menu,
    ensures
        !touches_panels(key_action_spec(ctx, ev)),
{
}

/// While text is being typed, every character goes into the input (no
/// character is a shortcut).
pub proof fn lemma_input_captures_chars(ctx: KeyContext, c: char, ctrl: bool)
    requires
        !ctx.show_help,
        ctx.input_mode != InputMode::Normal,
    ensures
        key_action_spec(ctx, CoreKeyEvent { code: CoreKey::Char(c), ctrl }) == KeyAction::InputPush(c),
{
}

/// The help overlay only closes or scrolls.
pub proof fn lemma_help_only_scrolls(ctx: KeyContext, ev: CoreKeyEvent)
    requires
        ctx.show_help,
    ensures
        match key_action_spec(ctx, ev) {
            KeyAction::CloseHelp | KeyAction::SetHelpScroll(_) | KeyAction::Nothing => true,
            _ => false,
        },
{
}

/// No overlay takes the key: the normal view or fullscreen video.
pub open spec fn plain_view(ctx: KeyContext) -> bool {
    &&& !ctx.show_help
    &&& ctx.input_mode == InputMode::Normal
    &&& !ctx.show_search
    &&& !ctx.show_escape_menu
}

/// The transport keys in the normal view and in fullscreen video: `n` plays
/// the next track and `p` the previous one, space pauses, `q` quits, `-`/`_`
/// and `+`/`=` step the volume down and up by 5, `b` and `c` cycle the audio
/// and subtitle tracks, `[` and `]` nudge the A/V offset, `r` cycles repeat,
/// and Left/Right seek 10 s (30 s with Ctrl) back and forward, with or
/// without Ctrl on the letter keys.
pub proof fn lemma_transport_keys(ctx: KeyContext, ctrl: bool)
    requires
        plain_view(ctx),
    ensures
        key_action_spec(ctx, CoreKeyEvent { code: CoreKey::Char('n'), ctrl }) == KeyAction::NextTrack,
        key_action_spec(ctx, CoreKeyEvent { code: CoreKey::Char('p'), ctrl }) == KeyAction::PrevTrack,
        key_action_spec(ctx, CoreKeyEvent { code: CoreKey::Char(' '), ctrl }) == KeyAction::TogglePause,
        key_action_spec(ctx, CoreKeyEvent { code: CoreKey::Char('q'), ctrl }) == KeyAction::Quit,
        key_action_spec(ctx, CoreKeyEvent { code: CoreKey::Char('-'), ctrl }) == KeyAction::VolumeStep(-5i32),
        key_action_spec(ctx, CoreKeyEvent { code: CoreKey::Char('_'), ctrl }) == KeyAction::VolumeStep(-5i32),
        key_action_spec(ctx, CoreKeyEvent { code: CoreKey::Char('+'), ctrl }) == KeyAction::VolumeStep(5),
        key_action_spec(ctx, CoreKeyEvent { code: CoreKey::Char('='), ctrl }) == KeyAction::VolumeStep(5),
        key_action_spec(ctx, CoreKeyEvent { code: CoreKey::Char('b'), ctrl }) == KeyAction::CycleAudioTrack,
        !ctrl ==> key_action_spec(ctx, CoreKeyEvent { code: CoreKey::Char('c'), ctrl })
            == KeyAction::CycleSubtitleTrack,
        key_action_spec(ctx, CoreKeyEvent { code: CoreKey::Char('['), ctrl }) == KeyAction::AdjustAvOffset(-1i32),
        key_action_spec(ctx, CoreKeyEvent { code: CoreKey::Char(']'), ctrl }) == KeyAction::AdjustAvOffset(1),
        key_action_spec(ctx, CoreKeyEvent { code: CoreKey::Char('r'), ctrl }) == KeyAction::CycleRepeat,
        key_action_spec(ctx, CoreKeyEvent { code: CoreKey::Left, ctrl }) == KeyAction::Seek(
            if ctrl { -30i32 } else { -10i32 },
        ),
        key_action_spec(ctx, CoreKeyEvent { code: CoreKey::Right, ctrl }) == KeyAction::Seek(
            if ctrl { 30 } else { 10 },
        ),
{
}

/// The normal two-pane view (no overlay, no fullscreen video): Esc opens the
/// menu; `v`, `t`, `f` cycle visualizer, theme and display mode; `s`
/// toggles shuffle; `a`/`A` queue the browser entry or directory; `C`
/// clears the playlist; `?`/`h` show help; `/` filters; `g` searches; `F`
/// toggles the favorite; `w` saves the playlist; `d`/Delete remove the
/// track; Tab moves focus; Up/Down move the cursor (with Ctrl, the track);
/// PageUp/PageDown page; Home/End jump; Enter activates the selection.
/// In fullscreen video, Esc and `f` leave it instead.
pub proof fn lemma_view_keys(ctx: KeyContext, ctrl: bool)
    requires
        plain_view(ctx),
    ensures
        ctx.external_window ==> key_action_spec(ctx, CoreKeyEvent { code: CoreKey::Esc, ctrl })
            == KeyAction::ExitFullscreenVideo && key_action_spec(
            ctx,
            CoreKeyEvent { code: CoreKey::Char('f'), ctrl },
        ) == KeyAction::ExitFullscreenVideo,
        !ctx.external_window ==> {
            let k = |code: CoreKey| key_action_spec(ctx, CoreKeyEvent { code, ctrl });
            &&& k(CoreKey::Esc) == KeyAction::OpenEscapeMenu
            &&& k(CoreKey::Char('v')) == KeyAction::CycleVisualizer
            &&& k(CoreKey::Char('t')) == KeyAction::CycleTheme
            &&& k(CoreKey::Char('f')) == KeyAction::CycleDisplayMode
            &&& k(CoreKey::Char('s')) == KeyAction::ToggleShuffle
            &&& k(CoreKey::Char('a')) == KeyAction::QueueSelectedBrowser
            &&& k(CoreKey::Char('A')) == KeyAction::QueueBrowserDirectory
            &&& k(CoreKey::Char('C')) == KeyAction::ClearPlaylist
            &&& k(CoreKey::Char('?')) == KeyAction::ShowHelp
            &&& k(CoreKey::Char('h')) == KeyAction::ShowHelp
            &&& k(CoreKey::Char('/')) == KeyAction::StartFilter
            &&& k(CoreKey::Char('g')) == KeyAction::OpenSearch
            &&& k(CoreKey::Char('F')) == KeyAction::ToggleFavorite
            &&& k(CoreKey::Char('w')) == KeyAction::StartSavePlaylist
            &&& k(CoreKey::Char('d')) == KeyAction::RemoveSelectedTrack
            &&& k(CoreKey::Delete) == KeyAction::RemoveSelectedTrack
            &&& k(CoreKey::Tab) == KeyAction::FocusNext
            &&& k(CoreKey::Up) == (if ctrl {
                KeyAction::MoveSelectedTrack(-1i32)
            } else {
                KeyAction::MoveSelection(-1i32)
            })
            &&& k(CoreKey::Down) == (if ctrl {
                KeyAction::MoveSelectedTrack(1i32)
            } else {
                KeyAction::MoveSelection(1i32)
            })
            &&& k(CoreKey::PageUp) == KeyAction::Page(-1i32)
            &&& k(CoreKey::PageDown) == KeyAction::Page(1i32)
            &&& k(CoreKey::Home) == KeyAction::SelectFirst
            &&& k(CoreKey::End) == KeyAction::SelectLast
            &&& k(CoreKey::Enter) == KeyAction::ActivateSelection
        },
{
}

} // verus!
