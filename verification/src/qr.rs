//! The terminal rendering of the mobile provisioning QR code: two
//! characters per module, dark modules as full blocks, inside a quiet zone
//! of two modules.

use vstd::prelude::*;
use crate::text::{owned, push_str};

verus! {

/// What `qrcode` makes of the data: the number of modules per side and,
/// row by row, whether each module is dark; or the text of its error.
pub uninterp spec fn qr_modules_of(data: Seq<u8>) -> Result<(usize, Seq<bool>), Seq<char>>;

/// Calls `qrcode::QrCode::new` (error correction level M) and reads the
/// code's `width` and `to_colors`, a module being dark when its colour is
/// `Color::Dark`. The claim: the outcome is `qr_modules_of` of the data,
/// and there are `width * width` modules (the crate's canvas holds that
/// many, row after row).
#[verifier::external_body]
fn qr_code_modules(data: &[u8]) -> (r: Result<(usize, Vec<bool>), String>)
    ensures
        match r {
            Ok(m) => qr_modules_of(data@) == Ok::<(usize, Seq<bool>), Seq<char>>((m.0, m.1@))
                && m.1@.len() == m.0 * m.0,
            Err(e) => qr_modules_of(data@) == Err::<(usize, Seq<bool>), Seq<char>>(e@),
        },
{
    let code = qrcode::QrCode::new(data).map_err(|e| e.to_string())?;
    let dark = code.to_colors().into_iter().map(|c| c == qrcode::Color::Dark).collect();
    Ok((code.width(), dark))
}

pub const QUIET_ZONE: usize = 2;

/// The cell at column `x`, row `y` of the rendering is a dark module.
pub open spec fn qr_cell_dark(width: int, dark: Seq<bool>, x: int, y: int) -> bool {
    2 <= x < width + 2 && 2 <= y < width + 2 && dark[(y - 2) * width + (x - 2)]
}

pub open spec fn cell_text(is_dark: bool) -> Seq<char> {
    if is_dark { seq!['\u{2588}', '\u{2588}'] } else { seq![' ', ' '] }
}

/// The first `n` cells of row `y`.
pub open spec fn qr_row(width: int, dark: Seq<bool>, y: int, n: nat) -> Seq<char>
    decreases n,
{
    if n == 0 {
        Seq::empty()
    } else {
        qr_row(width, dark, y, (n - 1) as nat) + cell_text(qr_cell_dark(width, dark, n - 1, y))
    }
}

/// The first `n` rows, each ended by a line break.
pub open spec fn qr_rows(width: int, dark: Seq<bool>, n: nat) -> Seq<char>
    decreases n,
{
    if n == 0 {
        Seq::empty()
    } else {
        qr_rows(width, dark, (n - 1) as nat) + qr_row(width, dark, n - 1, (width + 4) as nat) + seq!['\n']
    }
}

proof fn lemma_module_index(width: int, x: int, y: int)
    requires
        0 <= x < width,
        0 <= y < width,
    ensures
        0 <= y * width + x < width * width,
{
    assert(y * width + x < width * width) by (nonlinear_arith)
        requires
            0 <= x < width,
            0 <= y < width,
    ;
    assert(0 <= y * width) by (nonlinear_arith)
        requires
            0 <= y,
            0 <= width,
    ;
}

/// Renders the modules of a code of `width` modules per side.
pub fn render_qr_modules(width: usize, dark: &Vec<bool>) -> (s: String)
    requires
        dark@.len() == width * width,
        width + 4 <= usize::MAX,
    ensures
        s@ == qr_rows(width as int, dark@, (width + 4) as nat),
{
    let total = width + 4;
    let n = dark.len();
    let mut s = String::new();
    let mut y: usize = 0;
    while y < total
        invariant
            total == width + 4,
            dark@.len() == width * width,
            n == dark@.len(),
            y <= total,
            s@ == qr_rows(width as int, dark@, y as nat),
        decreases total - y,
    {
        let ghost before = s@;
        let mut x: usize = 0;
        while x < total
            invariant
                total == width + 4,
                dark@.len() == width * width,
                n == dark@.len(),
                x <= total,
                y < total,
                s@ == before + qr_row(width as int, dark@, y as int, x as nat),
            decreases total - x,
        {
            let is_dark = if x >= QUIET_ZONE && x < width + QUIET_ZONE && y >= QUIET_ZONE && y < width + QUIET_ZONE {
                proof {
                    lemma_module_index(width as int, (x - 2) as int, (y - 2) as int);
                }
                dark[(y - QUIET_ZONE) * width + (x - QUIET_ZONE)]
            } else {
                false
            };
            if is_dark {
                s.push('\u{2588}');
                s.push('\u{2588}');
            } else {
                s.push(' ');
                s.push(' ');
            }
            assert(s@ =~= before + qr_row(width as int, dark@, y as int, (x + 1) as nat));
            x = x + 1;
        }
        s.push('\n');
        assert(s@ =~= qr_rows(width as int, dark@, (y + 1) as nat));
        y = y + 1;
    }
    s
}

proof fn lemma_width_fits(w: int, n: int)
    requires
        0 <= w,
        n == w * w,
        n <= usize::MAX,
    ensures
        w + 4 <= usize::MAX,
{
    if w > 4 {
        assert(w * w >= w * 5) by (nonlinear_arith)
            requires
                w > 4,
        ;
    }
}

pub open spec fn qr_failure(e: Seq<char>) -> Seq<char> {
    "failed to generate mobile provisioning QR code: "@ + e
}

/// The QR code of a provisioning link, rendered for a terminal.
pub fn render_mobile_connect_qr(url: &str) -> (r: Result<String, String>)
    ensures
        match r {
            Ok(s) => exists|w: usize, m: Seq<bool>|
                qr_modules_of(crate::http::encode_utf8_text(url@)) == Ok::<(usize, Seq<bool>), Seq<char>>((w, m))
                && s@ == qr_rows(w as int, m, (w + 4) as nat),
            Err(e) => exists|m: Seq<char>|
                qr_modules_of(crate::http::encode_utf8_text(url@)) == Err::<(usize, Seq<bool>), Seq<char>>(m)
                && e@ == qr_failure(m),
        },
{
    let bytes = url.as_bytes();
    proof {
        assert(bytes@ == crate::http::encode_utf8_text(url@));
    }
    match qr_code_modules(bytes) {
        Ok((width, dark)) => {
            let n = dark.len();
            proof {
                lemma_width_fits(width as int, n as int);
            }
            let rendered = render_qr_modules(width, &dark);
            assert(qr_modules_of(crate::http::encode_utf8_text(url@))
                == Ok::<(usize, Seq<bool>), Seq<char>>((width, dark@)));
            assert(rendered@ == qr_rows(width as int, dark@, (width + 4) as nat));
            Ok(rendered)
        },
        Err(e) => {
            let mut m = owned("failed to generate mobile provisioning QR code: ");
            push_str(&mut m, e.as_str());
            assert(m@ == qr_failure(e@));
            Err(m)
        },
    }
}

} // verus!
