//! Colour themes: Tokyo Night (dark) and Tokyo Day (light).
use vstd::prelude::*;

verus! {

/// Light or dark.
#[derive(Clone, Copy, PartialEq, Eq, Debug, Structural)]
pub enum ThemeMode {
    Light,
    Dark,
}

/// An opaque colour by its red, green and blue components.
#[derive(Clone, Copy, PartialEq, Eq, Debug, Structural)]
pub struct Rgb {
    pub r: u8,
    pub g: u8,
    pub b: u8,
}

/// The colours of a theme, by role.
#[derive(Clone, Copy, PartialEq, Eq, Debug, Structural)]
pub struct Palette {
    pub mode: ThemeMode,
    pub bg: Rgb,
    pub bg_alt: Rgb,
    pub panel: Rgb,
    pub text: Rgb,
    pub heading: Rgb,
    pub muted: Rgb,
    pub accent: Rgb,
    pub accent_soft: Rgb,
    pub accent_cyan: Rgb,
    pub accent_purple: Rgb,
    pub accent_green: Rgb,
    pub accent_orange: Rgb,
    pub code_inline_bg: Rgb,
    pub code_inline_fg: Rgb,
    pub code_block_bg: Rgb,
    pub code_block_fg: Rgb,
    pub code_block_border: Rgb,
    pub quote_bg: Rgb,
    pub stroke: Rgb,
}

pub open spec fn rgb(r: u8, g: u8, b: u8) -> Rgb {
    Rgb { r, g, b }
}

/// The dark theme.
pub open spec fn night() -> Palette {
    Palette {
        mode: ThemeMode::Dark,
        bg: rgb(0x1A, 0x1B, 0x26),
        bg_alt: rgb(0x16, 0x16, 0x1E),
        panel: rgb(0x1F, 0x23, 0x35),
        text: rgb(0xC0, 0xCA, 0xF5),
        heading: rgb(0x7A, 0xA2, 0xF7),
        muted: rgb(0x56, 0x5F, 0x89),
        accent: rgb(0x7A, 0xA2, 0xF7),
        accent_soft: rgb(0xBB, 0x9A, 0xF7),
        accent_cyan: rgb(0x7D, 0xCF, 0xFF),
        accent_purple: rgb(0x9D, 0x7C, 0xD8),
        accent_green: rgb(0x9E, 0xCE, 0x6A),
        accent_orange: rgb(0xFF, 0x9E, 0x64),
        code_inline_bg: rgb(0x29, 0x2E, 0x42),
        code_inline_fg: rgb(0x7D, 0xCF, 0xFF),
        code_block_bg: rgb(0x16, 0x16, 0x1E),
        code_block_fg: rgb(0xC0, 0xCA, 0xF5),
        code_block_border: rgb(0x29, 0x2E, 0x42),
        quote_bg: rgb(0x1F, 0x23, 0x35),
        stroke: rgb(0x29, 0x2E, 0x42),
    }
}

/// The light theme.
pub open spec fn day() -> Palette {
    Palette {
        mode: ThemeMode::Light,
        bg: rgb(0xE1, 0xE2, 0xE7),
        bg_alt: rgb(0xD5, 0xD6, 0xDB),
        panel: rgb(0xD0, 0xD5, 0xE3),
        text: rgb(0x3D, 0x42, 0x6B),
        heading: rgb(0x2E, 0x7D, 0xE9),
        muted: rgb(0x84, 0x8C, 0xB5),
        accent: rgb(0x2E, 0x7D, 0xE9),
        accent_soft: rgb(0x9E, 0x54, 0xF1),
        accent_cyan: rgb(0x00, 0x7C, 0xB5),
        accent_purple: rgb(0x59, 0x32, 0xA3),
        accent_green: rgb(0x58, 0x7A, 0x05),
        accent_orange: rgb(0xB1, 0x5C, 0x00),
        code_inline_bg: rgb(0xCB, 0xCC, 0xD9),
        code_inline_fg: rgb(0x07, 0x87, 0x9D),
        code_block_bg: rgb(0xD5, 0xD6, 0xDB),
        code_block_fg: rgb(0x3D, 0x42, 0x6B),
        code_block_border: rgb(0xC4, 0xC8, 0xDA),
        quote_bg: rgb(0xD5, 0xDA, 0xEB),
        stroke: rgb(0xC4, 0xC8, 0xDA),
    }
}

/// Colour of a heading of the given level.
pub open spec fn heading_color_of(p: Palette, level: u8) -> Rgb {
    match level {
        1 => p.accent,
        2 => p.accent_soft,
        3 => p.accent_cyan,
        4 => p.accent_purple,
        _ => p.text,
    }
}

/// The theme of the other mode.
pub open spec fn toggled(p: Palette) -> Palette {
    match p.mode {
        ThemeMode::Dark => day(),
        ThemeMode::Light => night(),
    }
}

impl Palette {
    /// Tokyo Night, the dark theme.
    pub fn tokyo_night() -> (p: Palette)
        ensures
            p == night(),
    {
        Palette {
            mode: ThemeMode::Dark,
            bg: Rgb { r: 0x1A, g: 0x1B, b: 0x26 },
            bg_alt: Rgb { r: 0x16, g: 0x16, b: 0x1E },
            panel: Rgb { r: 0x1F, g: 0x23, b: 0x35 },
            text: Rgb { r: 0xC0, g: 0xCA, b: 0xF5 },
            heading: Rgb { r: 0x7A, g: 0xA2, b: 0xF7 },
            muted: Rgb { r: 0x56, g: 0x5F, b: 0x89 },
            accent: Rgb { r: 0x7A, g: 0xA2, b: 0xF7 },
            accent_soft: Rgb { r: 0xBB, g: 0x9A, b: 0xF7 },
            accent_cyan: Rgb { r: 0x7D, g: 0xCF, b: 0xFF },
            accent_purple: Rgb { r: 0x9D, g: 0x7C, b: 0xD8 },
            accent_green: Rgb { r: 0x9E, g: 0xCE, b: 0x6A },
            accent_orange: Rgb { r: 0xFF, g: 0x9E, b: 0x64 },
            code_inline_bg: Rgb { r: 0x29, g: 0x2E, b: 0x42 },
            code_inline_fg: Rgb { r: 0x7D, g: 0xCF, b: 0xFF },
            code_block_bg: Rgb { r: 0x16, g: 0x16, b: 0x1E },
            code_block_fg: Rgb { r: 0xC0, g: 0xCA, b: 0xF5 },
            code_block_border: Rgb { r: 0x29, g: 0x2E, b: 0x42 },
            quote_bg: Rgb { r: 0x1F, g: 0x23, b: 0x35 },
            stroke: Rgb { r: 0x29, g: 0x2E, b: 0x42 },
        }
    }

    /// Tokyo Day, the light theme.
    pub fn tokyo_day() -> (p: Palette)
        ensures
            p == day(),
    {
        Palette {
            mode: ThemeMode::Light,
            bg: Rgb { r: 0xE1, g: 0xE2, b: 0xE7 },
            bg_alt: Rgb { r: 0xD5, g: 0xD6, b: 0xDB },
            panel: Rgb { r: 0xD0, g: 0xD5, b: 0xE3 },
            text: Rgb { r: 0x3D, g: 0x42, b: 0x6B },
            heading: Rgb { r: 0x2E, g: 0x7D, b: 0xE9 },
            muted: Rgb { r: 0x84, g: 0x8C, b: 0xB5 },
            accent: Rgb { r: 0x2E, g: 0x7D, b: 0xE9 },
            accent_soft: Rgb { r: 0x9E, g: 0x54, b: 0xF1 },
            accent_cyan: Rgb { r: 0x00, g: 0x7C, b: 0xB5 },
            accent_purple: Rgb { r: 0x59, g: 0x32, b: 0xA3 },
            accent_green: Rgb { r: 0x58, g: 0x7A, b: 0x05 },
            accent_orange: Rgb { r: 0xB1, g: 0x5C, b: 0x00 },
            code_inline_bg: Rgb { r: 0xCB, g: 0xCC, b: 0xD9 },
            code_inline_fg: Rgb { r: 0x07, g: 0x87, b: 0x9D },
            code_block_bg: Rgb { r: 0xD5, g: 0xD6, b: 0xDB },
            code_block_fg: Rgb { r: 0x3D, g: 0x42, b: 0x6B },
            code_block_border: Rgb { r: 0xC4, g: 0xC8, b: 0xDA },
            quote_bg: Rgb { r: 0xD5, g: 0xDA, b: 0xEB },
            stroke: Rgb { r: 0xC4, g: 0xC8, b: 0xDA },
        }
    }

    /// Headings of levels one to four take the accent colours; deeper ones the text colour.
    pub fn heading_color(&self, level: u8) -> (c: Rgb)
        ensures
            c == heading_color_of(*self, level),
    {
        match level {
            1 => self.accent,
            2 => self.accent_soft,
            3 => self.accent_cyan,
            4 => self.accent_purple,
            _ => self.text,
        }
    }

    /// The theme of the other mode: Tokyo Day after a dark theme, Tokyo Night after a light one.
    pub fn toggled(&self) -> (p: Palette)
        ensures
            p == toggled(*self),
    {
        match self.mode {
            ThemeMode::Dark => Palette::tokyo_day(),
            ThemeMode::Light => Palette::tokyo_night(),
        }
    }
}

/// Toggling the theme twice gives back the theme one started from, for
/// both of the built-in themes; each toggle changes the mode.
pub proof fn law_toggle_twice(p: Palette)
    requires
        p == night() || p == day(),
    ensures
        toggled(toggled(p)) == p,
        toggled(p).mode != p.mode,
{
}

} // verus!
