//! 24-bit terminal colours and the standard 16/256-colour palettes.
use vstd::prelude::*;

verus! {

/// 24-bit color.
#[derive(Debug, Clone, Copy, PartialEq, Eq, Structural, Default)]
pub struct Color {
    pub r: u8,
    pub g: u8,
    pub b: u8,
}

/// The color with the given components.
pub open spec fn spec_rgb(r: u8, g: u8, b: u8) -> Color {
    Color { r, g, b }
}

/// Default foreground: white.
pub open spec fn spec_default_fg() -> Color {
    spec_rgb(255, 255, 255)
}

/// Default background: black.
pub open spec fn spec_default_bg() -> Color {
    spec_rgb(0, 0, 0)
}

/// The eight normal ANSI colors (SGR 30-37 / 40-47); any other index is white.
pub open spec fn spec_basic_color(idx: u16) -> Color {
    if idx == 0 {
        spec_rgb(0, 0, 0)
    } else if idx == 1 {
        spec_rgb(128, 0, 0)
    } else if idx == 2 {
        spec_rgb(0, 128, 0)
    } else if idx == 3 {
        spec_rgb(128, 128, 0)
    } else if idx == 4 {
        spec_rgb(0, 0, 128)
    } else if idx == 5 {
        spec_rgb(128, 0, 128)
    } else if idx == 6 {
        spec_rgb(0, 128, 128)
    } else if idx == 7 {
        spec_rgb(192, 192, 192)
    } else {
        spec_default_fg()
    }
}

/// The eight bright ANSI colors (SGR 90-97 / 100-107); any other index is white.
pub open spec fn spec_bright_color(idx: u16) -> Color {
    if idx == 0 {
        spec_rgb(128, 128, 128)
    } else if idx == 1 {
        spec_rgb(255, 0, 0)
    } else if idx == 2 {
        spec_rgb(0, 255, 0)
    } else if idx == 3 {
        spec_rgb(255, 255, 0)
    } else if idx == 4 {
        spec_rgb(0, 0, 255)
    } else if idx == 5 {
        spec_rgb(255, 0, 255)
    } else if idx == 6 {
        spec_rgb(0, 255, 255)
    } else if idx == 7 {
        spec_rgb(255, 255, 255)
    } else {
        spec_default_fg()
    }
}

/// Intensity of one axis of the 6x6x6 color cube: 0, 95, 135, 175, 215, 255.
pub open spec fn cube_level(c: int) -> int {
    if c == 0 {
        0
    } else {
        55 + 40 * c
    }
}

/// Which of the six cube levels a component value is (inverse of `cube_level`).
pub open spec fn cube_index(v: u8) -> int {
    if v == 0 {
        0
    } else {
        (v - 55) / 40
    }
}

/// The xterm 256-color palette: the 16 ANSI colors, the 216-color cube
/// (indices 16-231) and a 24-step grayscale ramp (indices 232-255).
pub open spec fn spec_from_256(idx: u8) -> Color {
    if idx < 8 {
        spec_basic_color(idx as u16)
    } else if idx < 16 {
        spec_bright_color((idx - 8) as u16)
    } else if idx <= 231 {
        let i = idx - 16;
        Color {
            r: cube_level(i / 36) as u8,
            g: cube_level((i / 6) % 6) as u8,
            b: cube_level(i % 6) as u8,
        }
    } else {
        let v = (8 + 10 * (idx - 232)) as u8;
        spec_rgb(v, v, v)
    }
}

impl Color {
    pub fn rgb(r: u8, g: u8, b: u8) -> (c: Self)
        ensures
            c == spec_rgb(r, g, b),
    {
        Color { r, g, b }
    }

    /// Default foreground (white).
    pub fn default_fg() -> (c: Self)
        ensures
            c == spec_default_fg(),
    {
        Color { r: 255, g: 255, b: 255 }
    }

    /// Default background (black).
    pub fn default_bg() -> (c: Self)
        ensures
            c == spec_default_bg(),
    {
        Color { r: 0, g: 0, b: 0 }
    }

    /// Convert from 256-color index.
    pub fn from_256(idx: u8) -> (c: Self)
        ensures
            c == spec_from_256(idx),
    {
        if idx < 8 {
            ansi_basic_color(idx as u16)
        } else if idx < 16 {
            ansi_bright_color((idx - 8) as u16)
        } else if idx <= 231 {
            let i = idx - 16;
            let r = cube_component(i / 36);
            let g = cube_component((i / 6) % 6);
            let b = cube_component(i % 6);
            Color::rgb(r, g, b)
        } else {
            let v = 8 + 10 * (idx - 232);
            Color::rgb(v, v, v)
        }
    }
}

fn cube_component(c: u8) -> (v: u8)
    requires
        c < 6,
    ensures
        v == cube_level(c as int),
{
    if c == 0 {
        0
    } else {
        55 + 40 * c
    }
}

/// Map ANSI basic color index (0-7) to RGB.
pub fn ansi_basic_color(idx: u16) -> (c: Color)
    ensures
        c == spec_basic_color(idx),
{
    match idx {
        0 => Color::rgb(0, 0, 0),
        1 => Color::rgb(128, 0, 0),
        2 => Color::rgb(0, 128, 0),
        3 => Color::rgb(128, 128, 0),
        4 => Color::rgb(0, 0, 128),
        5 => Color::rgb(128, 0, 128),
        6 => Color::rgb(0, 128, 128),
        7 => Color::rgb(192, 192, 192),
        _ => Color::default_fg(),
    }
}

/// Map ANSI bright color index (0-7) to RGB.
pub fn ansi_bright_color(idx: u16) -> (c: Color)
    ensures
        c == spec_bright_color(idx),
{
    match idx {
        0 => Color::rgb(128, 128, 128),
        1 => Color::rgb(255, 0, 0),
        2 => Color::rgb(0, 255, 0),
        3 => Color::rgb(255, 255, 0),
        4 => Color::rgb(0, 0, 255),
        5 => Color::rgb(255, 0, 255),
        6 => Color::rgb(0, 255, 255),
        7 => Color::rgb(255, 255, 255),
        _ => Color::default_fg(),
    }
}

/// The first sixteen entries of the 256-color palette are the eight normal
/// ANSI colors followed by the eight bright ones.
pub proof fn lemma_palette_starts_with_ansi_colors(idx: u8)
    requires
        idx < 16,
    ensures
        idx < 8 ==> spec_from_256(idx) == spec_basic_color(idx as u16),
        8 <= idx ==> spec_from_256(idx) == spec_bright_color((idx - 8) as u16),
{
}

/// Every cube entry has each component among the six cube levels and the
/// three levels spell out the entry's place in the cube; the grayscale ramp
/// has equal components rising by 10 from 8 to 238.
pub proof fn lemma_palette_cube_and_ramp(idx: u8)
    requires
        16 <= idx,
    ensures
        idx <= 231 ==> {
            let c = spec_from_256(idx);
            let levels = set![0int, 95, 135, 175, 215, 255];
            &&& levels.contains(c.r as int)
            &&& levels.contains(c.g as int)
            &&& levels.contains(c.b as int)
            &&& (idx - 16) as int == 36 * cube_index(c.r) + 6 * cube_index(c.g) + cube_index(c.b)
        },
        232 <= idx ==> {
            let c = spec_from_256(idx);
            &&& c.r == c.g && c.g == c.b
            &&& c.r as int == 8 + 10 * (idx as int - 232)
            &&& 8 <= c.r <= 238
        },
{
    if idx <= 231 {
        let i = (idx - 16) as int;
        assert(i == 36 * (i / 36) + 6 * ((i / 6) % 6) + i % 6);
    }
}

} // verus!
