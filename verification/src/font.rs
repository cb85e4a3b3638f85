//! The fixed 8x8 bitmap font: a glyph for every printable ASCII character,
//! packed into a `u64` row-major — row 0 in the most significant byte, the
//! leftmost column in the most significant bit of its row. Non-ASCII
//! characters have no glyph and render nothing; ASCII control characters map
//! to the blank glyph.

use vstd::prelude::*;
use crate::renderer::{Renderer, Rgba};

verus! {

/// The packed glyph of a character; blank for characters without one.
pub open spec fn spec_glyph(c: char) -> u64 {
    match c {
        ' ' => 0x0000000000000000,
        '!' => 0x1818181818001800,
        '"' => 0x6c6c6c0000000000,
        '#' => 0x6c6cfe6cfe6c6c00,
        '$' => 0x187ec07c06fc1800,
        '%' => 0x00c6cc183066c600,
        '&' => 0x386c3876dccc7600,
        '\'' => 0x1818300000000000,
        '(' => 0x0c18303030180c00,
        ')' => 0x30180c0c0c183000,
        '*' => 0x00663cff3c660000,
        '+' => 0x0018187e18180000,
        ',' => 0x0000000000181830,
        '-' => 0x0000007e00000000,
        '.' => 0x0000000000181800,
        '/' => 0x060c183060c08000,
        '0' => 0x7cc6ced6e6c67c00,
        '1' => 0x1838181818187e00,
        '2' => 0x7cc6061c3066fe00,
        '3' => 0x7cc6063c06c67c00,
        '4' => 0x1c3c6cccfe0c1e00,
        '5' => 0xfec0c0fc06c67c00,
        '6' => 0x3860c0fcc6c67c00,
        '7' => 0xfec60c1830303000,
        '8' => 0x7cc6c67cc6c67c00,
        '9' => 0x7cc6c67e060c7800,
        ':' => 0x0018180000181800,
        ';' => 0x0018180000181830,
        '<' => 0x060c1830180c0600,
        '=' => 0x00007e007e000000,
        '>' => 0x6030180c18306000,
        '?' => 0x7cc60c1818001800,
        '@' => 0x7cc6dededec07800,
        'A' => 0x386cc6fec6c6c600,
        'B' => 0xfc66667c6666fc00,
        'C' => 0x3c66c0c0c0663c00,
        'D' => 0xf86c6666666cf800,
        'E' => 0xfe6268786862fe00,
        'F' => 0xfe6268786860f000,
        'G' => 0x3c66c0c0ce663e00,
        'H' => 0xc6c6c6fec6c6c600,
        'I' => 0x3c18181818183c00,
        'J' => 0x1e0c0c0ccccc7800,
        'K' => 0xe6666c786c66e600,
        'L' => 0xf06060606266fe00,
        'M' => 0xc6eefefed6c6c600,
        'N' => 0xc6e6f6decec6c600,
        'O' => 0x386cc6c6c66c3800,
        'P' => 0xfc66667c6060f000,
        'Q' => 0x7cc6c6c6d67c0e00,
        'R' => 0xfc66667c6c66e600,
        'S' => 0x7cc660380cc67c00,
        'T' => 0x7e7e5a1818183c00,
        'U' => 0xc6c6c6c6c6c67c00,
        'V' => 0xc6c6c6c66c381000,
        'W' => 0xc6c6d6fefeeec600,
        'X' => 0xc66c3838386cc600,
        'Y' => 0x6666663c18183c00,
        'Z' => 0xfec68c183266fe00,
        '[' => 0x0c18303030180c00,
        '\\' => 0xc06030180c060200,
        ']' => 0x30180c0c0c183000,
        '^' => 0x10386cc600000000,
        '_' => 0x00000000000000ff,
        '`' => 0x30180c0000000000,
        'a' => 0x0000780c7ccc7600,
        'b' => 0xe060607c6666dc00,
        'c' => 0x000078ccc0cc7800,
        'd' => 0x1c0c0c7ccccc7600,
        'e' => 0x000078ccfcc07800,
        'f' => 0x386c60f06060f000,
        'g' => 0x000076cccc7c0cf8,
        'h' => 0xe0606c766666e600,
        'i' => 0x1800381818183c00,
        'j' => 0x060006060666663c,
        'k' => 0xe060666c786ce600,
        'l' => 0x3818181818183c00,
        'm' => 0x0000ccfefed6c600,
        'n' => 0x0000f8cccccccc00,
        'o' => 0x000078cccccc7800,
        'p' => 0x0000dc66667c60f0,
        'q' => 0x000076cccc7c0c1e,
        'r' => 0x0000dc766660f000,
        's' => 0x00007cc0780cf800,
        't' => 0x10307c3030341800,
        'u' => 0x0000cccccccc7600,
        'v' => 0x0000cccccc783000,
        'w' => 0x0000c6d6fefe6c00,
        'x' => 0x0000c66c386cc600,
        'y' => 0x0000cccccc7c0cf8,
        'z' => 0x0000fc983064fc00,
        '{' => 0x1c3030e030301c00,
        '|' => 0x1818180018181800,
        '}' => 0xe030301c3030e000,
        '~' => 0x76dc000000000000,
        '\u{7f}' => 0x0010386cc6c6fe00,
        _ => 0,
    }
}

/// Whether the glyph cell at column `col`, row `row` is set.
pub open spec fn glyph_bit(g: u64, col: int, row: int) -> bool {
    ((g >> (((7 - row) * 8 + (7 - col)) as u64)) & 1) == 1
}

/// Whether a character owns a glyph: exactly the ASCII range.
pub open spec fn has_glyph(c: char) -> bool {
    (c as int) < 128
}

/// Whether rendering character `c` at `(x, y)` paints the pixel `(px, py)`.
pub open spec fn char_covers(c: char, x: int, y: int, px: int, py: int) -> bool {
    &&& has_glyph(c)
    &&& x <= px < x + 8
    &&& y <= py < y + 8
    &&& glyph_bit(spec_glyph(c), px - x, py - y)
}

/// The packed glyph of an ASCII character.
#[verifier::rlimit(40)]
fn glyph_bits(c: char) -> (g: u64)
    ensures
        g == spec_glyph(c),
{
    match c {
        ' ' => 0x0000000000000000,
        '!' => 0x1818181818001800,
        '"' => 0x6c6c6c0000000000,
        '#' => 0x6c6cfe6cfe6c6c00,
        '$' => 0x187ec07c06fc1800,
        '%' => 0x00c6cc183066c600,
        '&' => 0x386c3876dccc7600,
        '\'' => 0x1818300000000000,
        '(' => 0x0c18303030180c00,
        ')' => 0x30180c0c0c183000,
        '*' => 0x00663cff3c660000,
        '+' => 0x0018187e18180000,
        ',' => 0x0000000000181830,
        '-' => 0x0000007e00000000,
        '.' => 0x0000000000181800,
        '/' => 0x060c183060c08000,
        '0' => 0x7cc6ced6e6c67c00,
        '1' => 0x1838181818187e00,
        '2' => 0x7cc6061c3066fe00,
        '3' => 0x7cc6063c06c67c00,
        '4' => 0x1c3c6cccfe0c1e00,
        '5' => 0xfec0c0fc06c67c00,
        '6' => 0x3860c0fcc6c67c00,
        '7' => 0xfec60c1830303000,
        '8' => 0x7cc6c67cc6c67c00,
        '9' => 0x7cc6c67e060c7800,
        ':' => 0x0018180000181800,
        ';' => 0x0018180000181830,
        '<' => 0x060c1830180c0600,
        '=' => 0x00007e007e000000,
        '>' => 0x6030180c18306000,
        '?' => 0x7cc60c1818001800,
        '@' => 0x7cc6dededec07800,
        'A' => 0x386cc6fec6c6c600,
        'B' => 0xfc66667c6666fc00,
        'C' => 0x3c66c0c0c0663c00,
        'D' => 0xf86c6666666cf800,
        'E' => 0xfe6268786862fe00,
        'F' => 0xfe6268786860f000,
        'G' => 0x3c66c0c0ce663e00,
        'H' => 0xc6c6c6fec6c6c600,
        'I' => 0x3c18181818183c00,
        'J' => 0x1e0c0c0ccccc7800,
        'K' => 0xe6666c786c66e600,
        'L' => 0xf06060606266fe00,
        'M' => 0xc6eefefed6c6c600,
        'N' => 0xc6e6f6decec6c600,
        'O' => 0x386cc6c6c66c3800,
        'P' => 0xfc66667c6060f000,
        'Q' => 0x7cc6c6c6d67c0e00,
        'R' => 0xfc66667c6c66e600,
        'S' => 0x7cc660380cc67c00,
        'T' => 0x7e7e5a1818183c00,
        'U' => 0xc6c6c6c6c6c67c00,
        'V' => 0xc6c6c6c66c381000,
        'W' => 0xc6c6d6fefeeec600,
        'X' => 0xc66c3838386cc600,
        'Y' => 0x6666663c18183c00,
        'Z' => 0xfec68c183266fe00,
        '[' => 0x0c18303030180c00,
        '\\' => 0xc06030180c060200,
        ']' => 0x30180c0c0c183000,
        '^' => 0x10386cc600000000,
        '_' => 0x00000000000000ff,
        '`' => 0x30180c0000000000,
        'a' => 0x0000780c7ccc7600,
        'b' => 0xe060607c6666dc00,
        'c' => 0x000078ccc0cc7800,
        'd' => 0x1c0c0c7ccccc7600,
        'e' => 0x000078ccfcc07800,
        'f' => 0x386c60f06060f000,
        'g' => 0x000076cccc7c0cf8,
        'h' => 0xe0606c766666e600,
        'i' => 0x1800381818183c00,
        'j' => 0x060006060666663c,
        'k' => 0xe060666c786ce600,
        'l' => 0x3818181818183c00,
        'm' => 0x0000ccfefed6c600,
        'n' => 0x0000f8cccccccc00,
        'o' => 0x000078cccccc7800,
        'p' => 0x0000dc66667c60f0,
        'q' => 0x000076cccc7c0c1e,
        'r' => 0x0000dc766660f000,
        's' => 0x00007cc0780cf800,
        't' => 0x10307c3030341800,
        'u' => 0x0000cccccccc7600,
        'v' => 0x0000cccccc783000,
        'w' => 0x0000c6d6fefe6c00,
        'x' => 0x0000c66c386cc600,
        'y' => 0x0000cccccc7c0cf8,
        'z' => 0x0000fc983064fc00,
        '{' => 0x1c3030e030301c00,
        '|' => 0x1818180018181800,
        '}' => 0xe030301c3030e000,
        '~' => 0x76dc000000000000,
        '\u{7f}' => 0x0010386cc6c6fe00,
        _ => 0,
    }
}

/// The fixed bitmap font: an 8x8 cell.
pub struct Font {
    pub glyph_width: u32,
    pub glyph_height: u32,
}

impl Font {
    /// The one built-in font.
    pub fn default() -> (f: Font)
        ensures
            f.glyph_width == 8,
            f.glyph_height == 8,
    {
        Font { glyph_width: 8, glyph_height: 8 }
    }

    /// The packed glyph for `c`: one for every ASCII character, none beyond.
    pub fn get_glyph(&self, c: char) -> (g: Option<u64>)
        ensures
            g == if has_glyph(c) {
                Some(spec_glyph(c))
            } else {
                None::<u64>
            },
    {
        if (c as u32) < 128 {
            Some(glyph_bits(c))
        } else {
            None
        }
    }

    /// Paint one glyph: every set cell of the glyph becomes a pixel of the
    /// given color, clipped to the frame; unset cells and non-ASCII
    /// characters leave the frame untouched.
    pub fn render_char(&self, renderer: &mut Renderer, x: i32, y: i32, c: char, color: Rgba)
        requires
            old(renderer).wf(),
        ensures
            final(renderer).wf(),
            final(renderer).spec_width() == old(renderer).spec_width(),
            final(renderer).spec_height() == old(renderer).spec_height(),
            forall|px: int, py: int|
                final(renderer).valid_pixel(px, py) ==> final(renderer).pixel(px, py) == (
                if char_covers(c, x as int, y as int, px, py) {
                    color
                } else {
                    old(renderer).pixel(px, py)
                }),
    {
        let glyph = self.get_glyph(c);
        match glyph {
            None => {},
            Some(g) => {
                let mut row: u32 = 0;
                while row < 8
                    invariant
                        old(renderer).wf(),
                        renderer.wf(),
                        renderer.width == old(renderer).width,
                        renderer.height == old(renderer).height,
                        row <= 8,
                        has_glyph(c),
                        g == spec_glyph(c),
                        forall|px: int, py: int|
                            renderer.valid_pixel(px, py) ==> renderer.pixel(px, py) == (
                            if x <= px < x + 8 && y <= py < y + row && glyph_bit(
                                g,
                                px - x,
                                py - y,
                            ) {
                                color
                            } else {
                                old(renderer).pixel(px, py)
                            }),
                    decreases 8 - row,
                {
                    let mut col: u32 = 0;
                    while col < 8
                        invariant
                            old(renderer).wf(),
                            renderer.wf(),
                            renderer.width == old(renderer).width,
                            renderer.height == old(renderer).height,
                            row < 8,
                            col <= 8,
                            has_glyph(c),
                            g == spec_glyph(c),
                            forall|px: int, py: int|
                                renderer.valid_pixel(px, py) ==> renderer.pixel(px, py) == (
                                if (x <= px < x + 8 && y <= py < y + row && glyph_bit(
                                    g,
                                    px - x,
                                    py - y,
                                )) || (py == y + row && x <= px < x + col && glyph_bit(
                                    g,
                                    px - x,
                                    py - y,
                                )) {
                                    color
                                } else {
                                    old(renderer).pixel(px, py)
                                }),
                        decreases 8 - col,
                    {
                        let shift: u64 = (((7 - row) * 8 + (7 - col)) as u64);
                        if (g >> shift) & 1 == 1 {
                            proof {
                                assert(glyph_bit(g, col as int, row as int));
                            }
                            let px = (x as i64) + (col as i64);
                            let py = (y as i64) + (row as i64);
                            if px >= 0 && px < (renderer.width as i64) && py >= 0 && py < (
                            renderer.height as i64) {
                                renderer.draw_pixel(px as i32, py as i32, color);
                            }
                        } else {
                            proof {
                                assert(!glyph_bit(g, col as int, row as int));
                            }
                        }
                        col = col + 1;
                    }
                    row = row + 1;
                }
            },
        }
    }
}

} // verus!
