//! Text measurement over monospace font metrics: what the size pass
//! of text-bearing widgets reports.
use vstd::prelude::*;

use crate::geometry::{Size, sat_add_u32, add_sat};
use crate::layout::u32_clamp;
use crate::style::FontMetrics;

verus! {

/// The width of one line of `n` characters: every character is
/// `character_width` wide, with `character_spacing` between
/// neighbours; the result clamps at the representable range.
pub open spec fn spec_line_width(n: nat, m: FontMetrics) -> u32 {
    if n == 0 {
        0u32
    } else {
        u32_clamp(n * m.character_width + (n - 1) * m.character_spacing)
    }
}

/// The width of one line of `n` characters.
pub fn line_width(n: usize, m: FontMetrics) -> (r: u32)
    ensures
        r == spec_line_width(n as nat, m),
{
    if n == 0 {
        return 0;
    }
    proof {
        let nn: int = n as int;
        let cw: int = m.character_width as int;
        let sp: int = m.character_spacing as int;
        assert(nn * cw <= 0x1_0000_0000_0000_0000 * 0x1_0000_0000 && nn * cw >= 0 && (nn - 1) * sp
            <= 0x1_0000_0000_0000_0000 * 0x1_0000_0000 && (nn - 1) * sp >= 0) by (nonlinear_arith)
            requires
                0 < nn < 0x1_0000_0000_0000_0000,
                0 <= cw < 0x1_0000_0000,
                0 <= sp < 0x1_0000_0000,
        ;
    }
    let wide: u128 = n as u128 * m.character_width as u128 + (n - 1) as u128
        * m.character_spacing as u128;
    if wide > u32::MAX as u128 {
        u32::MAX
    } else {
        wide as u32
    }
}

/// The footprint a button reports: its single-line text, padded on
/// every side.
pub open spec fn spec_button_size(n: nat, m: FontMetrics, padding: u32) -> Size {
    Size {
        width: sat_add_u32(spec_line_width(n, m), sat_add_u32(padding, padding)),
        height: sat_add_u32(m.character_height, sat_add_u32(padding, padding)),
    }
}

/// The footprint a button with this text reports.
pub fn button_size(text: &str, m: FontMetrics, padding: u32) -> (r: Size)
    ensures
        r == spec_button_size(text@.len(), m, padding),
{
    let n = text.unicode_len();
    Size {
        width: add_sat(line_width(n, m), add_sat(padding, padding)),
        height: add_sat(m.character_height, add_sat(padding, padding)),
    }
}

/// The widest line of a text, by character count.
pub open spec fn spec_max_line_width(lines: Seq<Seq<char>>, m: FontMetrics) -> u32
    decreases lines.len(),
{
    if lines.len() == 0 {
        0u32
    } else {
        let rest = spec_max_line_width(lines.drop_last(), m);
        let last = spec_line_width(lines.last().len(), m);
        if rest >= last {
            rest
        } else {
            last
        }
    }
}

/// The footprint a text label reports.  A single line is one character
/// row tall; a run of lines is as wide as its widest line and counts a
/// full row and the line spacing for every line but the last.
pub open spec fn spec_label_size(lines: Seq<Seq<char>>, m: FontMetrics, line_height: u32) -> Size {
    if lines.len() == 0 {
        Size { width: 0, height: 0 }
    } else if lines.len() == 1 {
        Size { width: spec_line_width(lines[0].len(), m), height: m.character_height }
    } else {
        Size {
            width: spec_max_line_width(lines, m),
            height: u32_clamp(
                (lines.len() - 1) * (m.character_height + line_height),
            ),
        }
    }
}

/// The footprint a text label with these lines reports.
pub fn label_size(lines: &Vec<String>, m: FontMetrics, line_height: u32) -> (r: Size)
    ensures
        r == spec_label_size(lines.deep_view(), m, line_height),
{
    let count = lines.len();
    if count == 0 {
        return Size { width: 0, height: 0 };
    }
    if count == 1 {
        let n = lines[0].as_str().unicode_len();
        proof {
            assert(lines.deep_view()[0] == lines@[0]@);
        }
        return Size { width: line_width(n, m), height: m.character_height };
    }
    let mut widest: u32 = 0;
    proof {
        assert(lines.deep_view().take(0int) =~= Seq::<Seq<char>>::empty());
    }
    for i in 0..count
        invariant
            count == lines@.len(),
            count == lines.deep_view().len(),
            widest == spec_max_line_width(lines.deep_view().take(i as int), m),
    {
        let n = lines[i].as_str().unicode_len();
        let w = line_width(n, m);
        if w > widest {
            widest = w;
        }
        proof {
            assert(lines.deep_view().take(i + 1).drop_last() =~= lines.deep_view().take(i as int));
            assert(lines.deep_view().take(i + 1).last() == lines.deep_view()[i as int]);
            assert(lines.deep_view()[i as int] == lines@[i as int]@);
        }
    }
    proof {
        assert(lines.deep_view().take(count as int) =~= lines.deep_view());
        let c: int = count as int;
        let row: int = m.character_height as int + line_height as int;
        assert((c - 1) * row >= 0 && (c - 1) * row < 0x1_0000_0000_0000_0000 * 0x2_0000_0000)
            by (nonlinear_arith)
            requires
                1 <= c < 0x1_0000_0000_0000_0000,
                0 <= row < 0x2_0000_0000,
        ;
    }
    let row: u64 = m.character_height as u64 + line_height as u64;
    let wide: u128 = (count - 1) as u128 * row as u128;
    let height: u32 = if wide > u32::MAX as u128 {
        u32::MAX
    } else {
        wide as u32
    };
    Size { width: widest, height }
}

} // verus!
