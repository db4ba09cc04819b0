//! The pictures in the tray.

use crate::gui::message::{Tray, TrayTheme};
use vstd::prelude::*;

verus! {

/// The drawings that there are for the tray, each as RGBA pixels.
#[derive(Debug)]
pub struct Drawings {
    pub warn_white: Vec<u8>,
    pub off_white: Vec<u8>,
    pub on_white: Vec<u8>,
    pub warn_black: Vec<u8>,
    pub off_black: Vec<u8>,
    pub on_black: Vec<u8>,
}

impl Drawings {
    /// The drawing for a state and a theme: white on a dark panel, black on a
    /// light one.
    pub open spec fn of(self, state: Tray, theme: TrayTheme) -> Seq<u8> {
        match (state, theme) {
            (Tray::NotConnected, TrayTheme::Dark) => self.warn_white@,
            (Tray::Disabled, TrayTheme::Dark) => self.off_white@,
            (Tray::Enabled, TrayTheme::Dark) => self.on_white@,
            (Tray::NotConnected, TrayTheme::Light) => self.warn_black@,
            (Tray::Disabled, TrayTheme::Light) => self.off_black@,
            (Tray::Enabled, TrayTheme::Light) => self.on_black@,
        }
    }
}

/// How many bytes a drawing of 128 by 128 pixels takes.
pub const DRAWING_LEN: usize = 65536;

impl Drawings {
    /// Whether each drawing is one of 128 by 128 pixels.
    pub open spec fn fit(self) -> bool {
        forall|state: Tray, theme: TrayTheme| #[trigger]
            self.of(state, theme).len() == DRAWING_LEN
    }
}

/// The pixels with the alpha channel moved from the back to the front. Bytes
/// that make no whole pixel stay as they are.
pub open spec fn argb(b: Seq<u8>) -> Seq<u8> {
    Seq::new(
        b.len(),
        |i: int|
            if i / 4 * 4 + 4 > b.len() {
                b[i]
            } else if i % 4 == 0 {
                b[i + 3]
            } else {
                b[i - 1]
            },
    )
}

/// Moves the alpha channel of each pixel from the back to the front.
pub fn rgba_to_argb(b: Vec<u8>) -> (r: Vec<u8>)
    ensures
        r@ == argb(b@),
{
    let mut r = b;
    let ghost before = r@;
    let n: usize = r.len();
    let mut i: usize = 0;
    while n - i >= 4
        invariant
            n == before.len(),
            r@.len() == n,
            i <= n,
            i % 4 == 0,
            forall|k: int| 0 <= k < i ==> #[trigger] r@[k] == argb(before)[k],
            forall|k: int| i <= k < n ==> #[trigger] r@[k] == before[k],
        decreases n - i,
    {
        let (c0, c1, c2, c3) = (r[i], r[i + 1], r[i + 2], r[i + 3]);
        r.set(i, c3);
        r.set(i + 1, c0);
        r.set(i + 2, c1);
        r.set(i + 3, c2);
        i += 4;
    }
    assert(r@ =~= argb(before));
    r
}

/// The drawing for a state and a theme.
pub fn tray_rgba(drawings: &Drawings, state: Tray, theme: TrayTheme) -> (r: Vec<u8>)
    ensures
        r@ == drawings.of(state, theme),
{
    let d = match (state, theme) {
        (Tray::NotConnected, TrayTheme::Dark) => &drawings.warn_white,
        (Tray::Disabled, TrayTheme::Dark) => &drawings.off_white,
        (Tray::Enabled, TrayTheme::Dark) => &drawings.on_white,
        (Tray::NotConnected, TrayTheme::Light) => &drawings.warn_black,
        (Tray::Disabled, TrayTheme::Light) => &drawings.off_black,
        (Tray::Enabled, TrayTheme::Light) => &drawings.on_black,
    };
    let r = d.clone();
    assert(r@ =~= d@);
    r
}

/// The drawing for a state and a theme, with the alpha channel in front.
pub fn tray_argb(drawings: &Drawings, state: Tray, theme: TrayTheme) -> (r: Vec<u8>)
    ensures
        r@ == argb(drawings.of(state, theme)),
        drawings.fit() ==> r@.len() == DRAWING_LEN,
{
    rgba_to_argb(tray_rgba(drawings, state, theme))
}

/// Of each whole pixel the alpha channel comes first, then red, green and blue,
/// and there are as many pixels as before.
pub proof fn alpha_comes_first(b: Seq<u8>, p: int)
    requires
        0 <= p,
        4 * p + 4 <= b.len(),
    ensures
        argb(b).len() == b.len(),
        argb(b)[4 * p] == b[4 * p + 3],
        argb(b).subrange(4 * p + 1, 4 * p + 4) == b.subrange(4 * p, 4 * p + 3),
{
    assert(argb(b).subrange(4 * p + 1, 4 * p + 4) =~= b.subrange(4 * p, 4 * p + 3));
}

/// Where drawings are of 128 by 128 pixels, so is what is shown, each pixel with
/// its alpha channel first.
pub proof fn icons_are_whole(drawings: Drawings, state: Tray, theme: TrayTheme, p: int)
    requires
        drawings.fit(),
        0 <= p < 128 * 128,
    ensures
        ({
            let drawn = drawings.of(state, theme);
            let shown = argb(drawn);
            &&& drawn.len() == 4 * 128 * 128
            &&& shown.len() == drawn.len()
            &&& shown[4 * p] == drawn[4 * p + 3]
            &&& shown.subrange(4 * p + 1, 4 * p + 4) == drawn.subrange(4 * p, 4 * p + 3)
        }),
{
    assert(drawings.of(state, theme).len() == DRAWING_LEN);
    alpha_comes_first(drawings.of(state, theme), p);
}

/// The pixels with the alpha channel moved from the front to the back.
pub open spec fn rgba(b: Seq<u8>) -> Seq<u8> {
    Seq::new(
        b.len(),
        |i: int|
            if i / 4 * 4 + 4 > b.len() {
                b[i]
            } else if i % 4 == 3 {
                b[i - 3]
            } else {
                b[i + 1]
            },
    )
}

/// Moving the alpha channel to the front loses nothing: moving it back gives
/// the pixels as they were.
pub proof fn argb_keeps_pixels(b: Seq<u8>)
    ensures
        rgba(argb(b)) == b,
{
    assert forall|i: int| 0 <= i < b.len() implies rgba(argb(b))[i] == b[i] by {
        if i / 4 * 4 + 4 <= b.len() {
            if i % 4 == 3 {
                assert((i - 3) % 4 == 0 && (i - 3) / 4 == i / 4);
            } else {
                assert((i + 1) % 4 != 0 && (i + 1) / 4 == i / 4);
            }
        }
    }
    assert(rgba(argb(b)) =~= b);
}

/// On a dark panel drawings are white, on a light one black; the warning stands for a
/// service that is not connected, and the others for redirecting that is on or off.
pub proof fn drawings_tell_state(d: Drawings)
    ensures
        d.of(Tray::NotConnected, TrayTheme::Dark) == d.warn_white@,
        d.of(Tray::NotConnected, TrayTheme::Light) == d.warn_black@,
        d.of(Tray::Enabled, TrayTheme::Dark) == d.on_white@,
        d.of(Tray::Enabled, TrayTheme::Light) == d.on_black@,
        d.of(Tray::Disabled, TrayTheme::Dark) == d.off_white@,
        d.of(Tray::Disabled, TrayTheme::Light) == d.off_black@,
{
}

} // verus!
