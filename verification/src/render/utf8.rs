//! UTF-8 rendering, with 2 pixels per symbol.

use crate::render::{BlankAndWhitePixel, Renderer, RendererView};
use vstd::prelude::*;
use vstd::string::StringExecFns;

verus! {

/// A pixel of a picture made of block characters, each of which shows a
/// pixel and the pixel below it.
#[derive(Copy, Clone, PartialEq, Eq, Debug, Structural)]
pub enum Unicode1x2 {
    /// A pixel that is filled.
    Dark,
    /// A pixel that is empty.
    Light,
}

impl BlankAndWhitePixel for Unicode1x2 {
    open spec fn black() -> Unicode1x2 {
        Unicode1x2::Dark
    }

    open spec fn white() -> Unicode1x2 {
        Unicode1x2::Light
    }

    open spec fn unit_size() -> int {
        1
    }

    fn black_color() -> Unicode1x2 {
        Unicode1x2::Dark
    }

    fn white_color() -> Unicode1x2 {
        Unicode1x2::Light
    }

    fn default_unit_size() -> u32 {
        1
    }
}

/// The character that shows two pixels, one above the other: a space, the
/// lower half block, the upper half block or the full block.
pub open spec fn block_of(top: Unicode1x2, bottom: Unicode1x2) -> Seq<char> {
    match (top, bottom) {
        (Unicode1x2::Light, Unicode1x2::Light) => seq![' '],
        (Unicode1x2::Light, Unicode1x2::Dark) => seq!['\u{2584}'],
        (Unicode1x2::Dark, Unicode1x2::Light) => seq!['\u{2580}'],
        (Unicode1x2::Dark, Unicode1x2::Dark) => seq!['\u{2588}'],
    }
}

impl Unicode1x2 {
    /// One for a filled pixel and zero for an empty one.
    pub open spec fn spec_value(self) -> int {
        match self {
            Unicode1x2::Dark => 1,
            Unicode1x2::Light => 0,
        }
    }

    /// Gives one for a filled pixel and zero for an empty one.
    pub fn value(&self) -> (r: u8)
        ensures
            r == self.spec_value(),
    {
        match self {
            Unicode1x2::Dark => 1,
            Unicode1x2::Light => 0,
        }
    }

    /// Gives the character of two pixels, one above the other, from their
    /// values: twice the value of the upper pixel plus that of the lower.
    pub fn parse_2_bits(sym: &u8) -> (r: &'static str)
        requires
            *sym < 4,
        ensures
            r@ == block_of(
                if *sym >= 2 {
                    Unicode1x2::Dark
                } else {
                    Unicode1x2::Light
                },
                if *sym % 2 == 1 {
                    Unicode1x2::Dark
                } else {
                    Unicode1x2::Light
                },
            ),
    {
        proof {
            reveal_strlit(" ");
            reveal_strlit("\u{2584}");
            reveal_strlit("\u{2580}");
            reveal_strlit("\u{2588}");
            assert(" "@ =~= seq![' ']);
            assert("\u{2584}"@ =~= seq!['\u{2584}']);
            assert("\u{2580}"@ =~= seq!['\u{2580}']);
            assert("\u{2588}"@ =~= seq!['\u{2588}']);
        }
        if *sym == 0 {
            " "
        } else if *sym == 1 {
            "\u{2584}"
        } else if *sym == 2 {
            "\u{2580}"
        } else {
            "\u{2588}"
        }
    }
}

/// The pixel of a picture at a place; below the last row the pixels are
/// empty.
pub open spec fn pixel_or_empty(view: RendererView<Unicode1x2>, px: int, py: int) -> Unicode1x2 {
    if py < view.real_height() {
        view.pixel(px, py)
    } else {
        Unicode1x2::Light
    }
}

/// The first `n` characters of line `line` of the text of a picture: the
/// characters of the pixels of rows `2 * line` and `2 * line + 1`.
pub open spec fn line_text(view: RendererView<Unicode1x2>, line: int, n: int) -> Seq<char>
    decreases n,
{
    if n <= 0 {
        Seq::empty()
    } else {
        line_text(view, line, n - 1) + block_of(
            pixel_or_empty(view, n - 1, 2 * line),
            pixel_or_empty(view, n - 1, 2 * line + 1),
        )
    }
}

/// The first `n` lines of the text of a picture, with a line feed between
/// two lines.
pub open spec fn picture_text(view: RendererView<Unicode1x2>, n: int) -> Seq<char>
    decreases n,
{
    if n <= 0 {
        Seq::empty()
    } else if n == 1 {
        line_text(view, 0, view.real_width())
    } else {
        picture_text(view, n - 1) + seq!['\n'] + line_text(view, n - 1, view.real_width())
    }
}

impl Renderer<Unicode1x2> {
    /// Renders the QR code into text: a character for every two rows of
    /// pixels, a line for every two rows, and a line feed between two lines.
    pub fn build(&self) -> (r: String)
        requires
            self.wf(),
            self.can_draw(),
        ensures
            r@ == picture_text(self@, (self@.real_height() + 1) / 2),
    {
        let (width, height) = match self.dimensions() {
            Some(d) => d,
            None => (0, 0),
        };
        let lines = height / 2 + height % 2;
        let mut out = String::new();
        let mut line: u32 = 0;
        while line < lines
            invariant
                line <= lines,
                lines == (height + 1) / 2,
                self.wf(),
                self.can_draw(),
                width == self@.real_width(),
                height == self@.real_height(),
                out@ == picture_text(self@, line as int),
            decreases lines - line,
        {
            if line > 0 {
                proof {
                    reveal_strlit("\n");
                    assert("\n"@ =~= seq!['\n']);
                }
                out.append("\n");
            }
            let ghost before = out@;
            let top_row = 2 * line;
            let mut x: u32 = 0;
            while x < width
                invariant
                    x <= width,
                    line < lines,
                    lines == (height + 1) / 2,
                    top_row == 2 * line,
                    top_row < height,
                    self.wf(),
                    self.can_draw(),
                    width == self@.real_width(),
                    height == self@.real_height(),
                    out@ =~= before + line_text(self@, line as int, x as int),
                decreases width - x,
            {
                let top = self.pixel_at(x, top_row).value();
                let bottom = if top_row + 1 < height {
                    self.pixel_at(x, top_row + 1).value()
                } else {
                    0
                };
                let sym = top * 2 + bottom;
                out.append(Unicode1x2::parse_2_bits(&sym));
                x += 1;
            }
            line += 1;
        }
        out
    }
}

} // verus!
