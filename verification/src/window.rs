//! The pure parts of the external video window: where a frame goes in the
//! window, how its keys reach the player, and how subtitle glyph coverage
//! is composited into the RGBA overlay.
use vstd::prelude::*;

use crate::backend::{CoreKey, CoreKeyEvent};
use crate::native::{lemma_round_ratio_le, round_ratio};

verus! {

// ---------------------------------------------------------------------------
// Frame placement
// ---------------------------------------------------------------------------

/// A destination rectangle in window pixels.
#[derive(Debug, Copy, Clone, Eq, PartialEq, Structural)]
pub struct WindowRect {
    pub x: i32,
    pub y: i32,
    pub w: u32,
    pub h: u32,
}

/// The size that fits a `src_w` x `src_h` picture into `dst_w` x `dst_h`
/// with its aspect kept: the full width when the picture is relatively
/// wider than the destination, else the full height, the other side
/// rounded and at least 1.
pub open spec fn aspect_size(src_w: nat, src_h: nat, dst_w: nat, dst_h: nat) -> (nat, nat) {
    if src_w * dst_h > dst_w * src_h {
        let h = round_ratio(dst_w * src_h, src_w);
        (dst_w, if h == 0 { 1 } else { h })
    } else {
        let w = round_ratio(dst_h * src_w, src_h);
        (if w == 0 { 1 } else { w }, dst_h)
    }
}

/// The picture centred in the destination at its fitted size; with any side
/// 0, the whole destination (each side at least 1) at the origin.
pub open spec fn aspect_fit_spec(src_w: nat, src_h: nat, dst_w: nat, dst_h: nat) -> WindowRect {
    if src_w == 0 || src_h == 0 || dst_w == 0 || dst_h == 0 {
        WindowRect {
            x: 0,
            y: 0,
            w: (if dst_w == 0 { 1 } else { dst_w }) as u32,
            h: (if dst_h == 0 { 1 } else { dst_h }) as u32,
        }
    } else {
        let (w, h) = aspect_size(src_w, src_h, dst_w, dst_h);
        WindowRect {
            x: ((dst_w - w) / 2) as i32,
            y: ((dst_h - h) / 2) as i32,
            w: w as u32,
            h: h as u32,
        }
    }
}

/// Where the external video window draws a `src_w` x `src_h` frame in a
/// `dst_w` x `dst_h` window, keeping its aspect.
pub fn aspect_fit(src_w: u32, src_h: u32, dst_w: u32, dst_h: u32) -> (r: WindowRect)
    requires
        dst_w <= i32::MAX,
        dst_h <= i32::MAX,
    ensures
        r == aspect_fit_spec(src_w as nat, src_h as nat, dst_w as nat, dst_h as nat),
        r.w <= if dst_w == 0 { 1 } else { dst_w },
        r.h <= if dst_h == 0 { 1 } else { dst_h },
{
    if src_w == 0 || src_h == 0 || dst_w == 0 || dst_h == 0 {
        return WindowRect {
            x: 0,
            y: 0,
            w: if dst_w == 0 { 1 } else { dst_w },
            h: if dst_h == 0 { 1 } else { dst_h },
        };
    }
    let sw = src_w as u128;
    let sh = src_h as u128;
    let dw = dst_w as u128;
    let dh = dst_h as u128;
    assert(sw * dh <= u32::MAX * u32::MAX) by (nonlinear_arith)
        requires sw <= u32::MAX, dh <= u32::MAX;
    assert(dw * sh <= u32::MAX * u32::MAX) by (nonlinear_arith)
        requires dw <= u32::MAX, sh <= u32::MAX;
    assert(dh * sw <= u32::MAX * u32::MAX) by (nonlinear_arith)
        requires dh <= u32::MAX, sw <= u32::MAX;
    let (w, h): (u32, u32) = if sw * dh > dw * sh {
        let q = (2 * (dw * sh) + sw) / (2 * sw);
        proof {
            lemma_round_ratio_le((dw * sh) as nat, sw as nat, dh as nat);
        }
        (dst_w, if q == 0 { 1 } else { q as u32 })
    } else {
        let q = (2 * (dh * sw) + sh) / (2 * sh);
        proof {
            assert(dh * sw <= dw * sh);
            lemma_round_ratio_le((dh * sw) as nat, sh as nat, dw as nat);
        }
        (if q == 0 { 1 } else { q as u32 }, dst_h)
    };
    WindowRect { x: ((dst_w - w) / 2) as i32, y: ((dst_h - h) / 2) as i32, w, h }
}



// ---------------------------------------------------------------------------
// Keys pressed in the window
// ---------------------------------------------------------------------------

/// A key of the window system: the named keys the player uses, and any
/// other key by its key code (letters have their lowercase ASCII code).
#[derive(Debug, Copy, Clone, Eq, PartialEq, Structural)]
pub enum WindowKey {
    Escape,
    Return,
    Return2,
    KpEnter,
    Tab,
    Backspace,
    Space,
    Left,
    Right,
    Up,
    Down,
    PageUp,
    PageDown,
    Home,
    End,
    Minus,
    KpMinus,
    Equals,
    Plus,
    KpPlus,
    LeftBracket,
    RightBracket,
    Question,
    Slash,
    Other(i32),
}

/// A window key passed on to the player, with its modifiers.
#[derive(Debug, Copy, Clone, Eq, PartialEq, Structural)]
pub struct ForwardedKey {
    pub code: CoreKey,
    pub ctrl: bool,
    pub shift: bool,
    pub alt: bool,
}

/// The ASCII lowercase letter with code `raw`, when it is one.
pub open spec fn ascii_letter(raw: i32) -> bool {
    97 <= raw <= 122
}

/// The player key for a window key: the named keys map to their
/// counterparts; `=`/`+` give `+` with Shift and `=` without; `/` gives `?`
/// with Shift; a letter is uppercased with Shift unless Ctrl is held; any
/// other key is not forwarded.
pub open spec fn window_key_code(key: WindowKey, ctrl: bool, shift: bool) -> Option<CoreKey> {
    match key {
        WindowKey::Escape => Some(CoreKey::Esc),
        WindowKey::Return | WindowKey::Return2 | WindowKey::KpEnter => Some(CoreKey::Enter),
        WindowKey::Tab => Some(CoreKey::Tab),
        WindowKey::Backspace => Some(CoreKey::Backspace),
        WindowKey::Space => Some(CoreKey::Char(' ')),
        WindowKey::Left => Some(CoreKey::Left),
        WindowKey::Right => Some(CoreKey::Right),
        WindowKey::Up => Some(CoreKey::Up),
        WindowKey::Down => Some(CoreKey::Down),
        WindowKey::PageUp => Some(CoreKey::PageUp),
        WindowKey::PageDown => Some(CoreKey::PageDown),
        WindowKey::Home => Some(CoreKey::Home),
        WindowKey::End => Some(CoreKey::End),
        WindowKey::Minus | WindowKey::KpMinus => Some(CoreKey::Char('-')),
        WindowKey::Equals | WindowKey::Plus | WindowKey::KpPlus => Some(
            CoreKey::Char(if shift { '+' } else { '=' }),
        ),
        WindowKey::LeftBracket => Some(CoreKey::Char('[')),
        WindowKey::RightBracket => Some(CoreKey::Char(']')),
        WindowKey::Question => Some(CoreKey::Char('?')),
        WindowKey::Slash => Some(CoreKey::Char(if shift { '?' } else { '/' })),
        WindowKey::Other(raw) => if ascii_letter(raw) {
            let c = if !ctrl && shift { (raw - 32) as char } else { raw as char };
            Some(CoreKey::Char(c))
        } else {
            None
        },
    }
}

/// Translates a key pressed in the video window for the player, keeping
/// the modifiers; `None` for keys the player has no use for.
pub fn translate_key(key: WindowKey, ctrl: bool, shift: bool, alt: bool) -> (r: Option<ForwardedKey>)
    ensures
        r == match window_key_code(key, ctrl, shift) {
            Some(code) => Some(ForwardedKey { code, ctrl, shift, alt }),
            None => None,
        },
{
    let code = match key {
        WindowKey::Escape => CoreKey::Esc,
        WindowKey::Return | WindowKey::Return2 | WindowKey::KpEnter => CoreKey::Enter,
        WindowKey::Tab => CoreKey::Tab,
        WindowKey::Backspace => CoreKey::Backspace,
        WindowKey::Space => CoreKey::Char(' '),
        WindowKey::Left => CoreKey::Left,
        WindowKey::Right => CoreKey::Right,
        WindowKey::Up => CoreKey::Up,
        WindowKey::Down => CoreKey::Down,
        WindowKey::PageUp => CoreKey::PageUp,
        WindowKey::PageDown => CoreKey::PageDown,
        WindowKey::Home => CoreKey::Home,
        WindowKey::End => CoreKey::End,
        WindowKey::Minus | WindowKey::KpMinus => CoreKey::Char('-'),
        WindowKey::Equals | WindowKey::Plus | WindowKey::KpPlus => CoreKey::Char(
            if shift { '+' } else { '=' },
        ),
        WindowKey::LeftBracket => CoreKey::Char('['),
        WindowKey::RightBracket => CoreKey::Char(']'),
        WindowKey::Question => CoreKey::Char('?'),
        WindowKey::Slash => CoreKey::Char(if shift { '?' } else { '/' }),
        WindowKey::Other(raw) => {
            if 97 <= raw && raw <= 122 {
                let lower = raw as u8;
                let ch = if !ctrl && shift { (lower - 32) as char } else { lower as char };
                CoreKey::Char(ch)
            } else {
                return None;
            }
        },
    };
    Some(ForwardedKey { code, ctrl, shift, alt })
}

impl ForwardedKey {
    /// The key event the player dispatches for a forwarded key: its key,
    /// with whether Ctrl was held.
    pub fn event(self) -> (r: CoreKeyEvent)
        ensures
            r.code == self.code,
            r.ctrl == self.ctrl,
    {
        CoreKeyEvent::with_ctrl(self.code, self.ctrl)
    }
}

// ---------------------------------------------------------------------------
// Subtitle overlay compositing
// ---------------------------------------------------------------------------

/// Byte offset of pixel `(x, y)` in a `w`-wide RGBA buffer.
pub open spec fn pixel_offset(w: u32, x: i32, y: i32) -> int {
    (y * w + x) * 4
}

/// Whether `(x, y)` lies in the `w` x `h` buffer.
pub open spec fn in_frame(w: u32, h: u32, x: i32, y: i32) -> bool {
    0 <= x < w && 0 <= y < h
}

/// Alpha of "source over destination": `sa + da * (255 - sa) / 255`.
pub open spec fn over_alpha(sa: nat, da: nat) -> nat {
    (sa + (da * (255 - sa)) / 255) as nat
}

/// One colour channel of "source over destination", rounded to nearest
/// and truncated to a byte.
pub open spec fn over_channel(s: nat, d: nat, sa: nat, da: nat) -> u8 {
    let oa = over_alpha(sa, da);
    let n = s * sa + d * da * (255 - sa) / 255;
    let half: nat = if oa / 2 == 0 { 1 } else { oa / 2 };
    let den: nat = if oa == 0 { 1 } else { oa };
    ((n + half) / (den as int)) as u8
}

/// The buffer after compositing colour `(r, g, b)` at alpha `sa` over pixel
/// `(x, y)`; unchanged outside the frame or when the result is transparent
/// (`sa` is 0).
pub open spec fn blended(buf: Seq<u8>, w: u32, h: u32, x: i32, y: i32, r: u8, g: u8, b: u8, sa: u8) -> Seq<u8> {
    if !in_frame(w, h, x, y) || sa == 0 {
        buf
    } else {
        let i = pixel_offset(w, x, y);
        let da = buf[i + 3] as nat;
        buf.update(i, over_channel(r as nat, buf[i] as nat, sa as nat, da)).update(
            i + 1,
            over_channel(g as nat, buf[i + 1] as nat, sa as nat, da),
        ).update(i + 2, over_channel(b as nat, buf[i + 2] as nat, sa as nat, da)).update(
            i + 3,
            over_alpha(sa as nat, da) as u8,
        )
    }
}

fn mix(s: u8, d: u8, sa: u32, da: u32, out_a: u32) -> (r: u8)
    requires
        sa <= 255,
        da <= 255,
        out_a == over_alpha(sa as nat, da as nat),
    ensures
        r == over_channel(s as nat, d as nat, sa as nat, da as nat),
{
    let inv = 255 - sa;
    assert((d as u32) * da <= 255 * 255) by (nonlinear_arith)
        requires d <= 255, da <= 255;
    assert((d as u32) * da * inv <= 255 * 255 * 255) by (nonlinear_arith)
        requires d <= 255, da <= 255, inv <= 255;
    assert((s as u32) * sa <= 255 * 255) by (nonlinear_arith)
        requires s <= 255, sa <= 255;
    let n = (s as u32) * sa + (d as u32) * da * inv / 255;
    let half = if out_a / 2 == 0 { 1 } else { out_a / 2 };
    let den = if out_a == 0 { 1 } else { out_a };
    ((n + half) / den) as u8
}

/// Composites an overlay sample of colour `(r, g, b)` and alpha `sa`
/// (glyph coverage as 0..=255) over pixel `(x, y)` of the RGBA buffer.
pub fn blend_pixel(buf: &mut Vec<u8>, w: u32, h: u32, x: i32, y: i32, r: u8, g: u8, b: u8, sa: u8)
    requires
        in_frame(w, h, x, y) ==> pixel_offset(w, x, y) + 4 <= old(buf)@.len(),
        in_frame(w, h, x, y) ==> pixel_offset(w, x, y) + 4 <= u32::MAX + 1,
    ensures
        final(buf)@ == blended(old(buf)@, w, h, x, y, r, g, b, sa),
{
    if x < 0 || y < 0 || x as u32 >= w || y as u32 >= h || sa == 0 {
        return;
    }
    assert((y as u32) * w + (x as u32) <= (u32::MAX as int + 1) / 4) by (nonlinear_arith)
        requires pixel_offset(w, x, y) + 4 <= u32::MAX + 1, pixel_offset(w, x, y) == ((y as u32) * w
            + (x as u32)) * 4;
    let idx = (((y as u32) * w + (x as u32)) * 4) as usize;
    let dst_r = buf[idx];
    let dst_g = buf[idx + 1];
    let dst_b = buf[idx + 2];
    let dst_a = buf[idx + 3];
    let s_a = sa as u32;
    let d_a = dst_a as u32;
    let inv = 255 - s_a;
    assert(d_a * inv <= 255 * 255) by (nonlinear_arith)
        requires d_a <= 255, inv <= 255;
    let out_a = s_a + (d_a * inv) / 255;
    let mr = mix(r, dst_r, s_a, d_a, out_a);
    let mg = mix(g, dst_g, s_a, d_a, out_a);
    let mb = mix(b, dst_b, s_a, d_a, out_a);
    buf.set(idx, mr);
    buf.set(idx + 1, mg);
    buf.set(idx + 2, mb);
    buf.set(idx + 3, out_a as u8);
}

} // verus!
