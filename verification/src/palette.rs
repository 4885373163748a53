//! The two color themes.
use vstd::prelude::*;

verus! {

/// A 24-bit color.
#[derive(Clone, Copy, PartialEq, Eq, Structural, Debug)]
pub struct Rgb {
    pub r: u8,
    pub g: u8,
    pub b: u8,
}

/// The colors the dashboard draws with.
#[derive(Clone, Copy, PartialEq, Eq, Structural, Debug)]
pub struct Palette {
    pub fg: Rgb,
    pub gray: Rgb,
    pub dim: Rgb,
    pub red: Rgb,
    pub green: Rgb,
    pub yellow: Rgb,
    pub blue: Rgb,
    pub purple: Rgb,
    pub aqua: Rgb,
    pub orange: Rgb,
}

impl Palette {
    /// The dark theme.
    pub open spec fn dark_spec() -> Palette {
        Palette {
            fg: Rgb { r: 0xeb, g: 0xdb, b: 0xb2 },
            gray: Rgb { r: 0x92, g: 0x83, b: 0x74 },
            dim: Rgb { r: 0x66, g: 0x5c, b: 0x54 },
            red: Rgb { r: 0xfb, g: 0x49, b: 0x34 },
            green: Rgb { r: 0xb8, g: 0xbb, b: 0x26 },
            yellow: Rgb { r: 0xfa, g: 0xbd, b: 0x2f },
            blue: Rgb { r: 0x83, g: 0xa5, b: 0x98 },
            purple: Rgb { r: 0xd3, g: 0x86, b: 0x9b },
            aqua: Rgb { r: 0x8e, g: 0xc0, b: 0x7c },
            orange: Rgb { r: 0xfe, g: 0x80, b: 0x19 },
        }
    }

    /// The light theme.
    pub open spec fn light_spec() -> Palette {
        Palette {
            fg: Rgb { r: 0x3c, g: 0x37, b: 0x35 },
            gray: Rgb { r: 0x92, g: 0x83, b: 0x73 },
            dim: Rgb { r: 0x7c, g: 0x6f, b: 0x64 },
            red: Rgb { r: 0xcc, g: 0x23, b: 0x1c },
            green: Rgb { r: 0x98, g: 0x97, b: 0x19 },
            yellow: Rgb { r: 0xd7, g: 0x99, b: 0x20 },
            blue: Rgb { r: 0x45, g: 0x85, b: 0x88 },
            purple: Rgb { r: 0xb1, g: 0x62, b: 0x86 },
            aqua: Rgb { r: 0x68, g: 0x9d, b: 0x69 },
            orange: Rgb { r: 0xd6, g: 0x5d, b: 0x0e },
        }
    }

    /// Colors for a dark background.
    pub fn dark() -> (p: Palette)
        ensures
            p == Palette::dark_spec(),
    {
        Palette {
            fg: Rgb { r: 0xeb, g: 0xdb, b: 0xb2 },
            gray: Rgb { r: 0x92, g: 0x83, b: 0x74 },
            dim: Rgb { r: 0x66, g: 0x5c, b: 0x54 },
            red: Rgb { r: 0xfb, g: 0x49, b: 0x34 },
            green: Rgb { r: 0xb8, g: 0xbb, b: 0x26 },
            yellow: Rgb { r: 0xfa, g: 0xbd, b: 0x2f },
            blue: Rgb { r: 0x83, g: 0xa5, b: 0x98 },
            purple: Rgb { r: 0xd3, g: 0x86, b: 0x9b },
            aqua: Rgb { r: 0x8e, g: 0xc0, b: 0x7c },
            orange: Rgb { r: 0xfe, g: 0x80, b: 0x19 },
        }
    }

    /// Colors for a light background.
    pub fn light() -> (p: Palette)
        ensures
            p == Palette::light_spec(),
    {
        Palette {
            fg: Rgb { r: 0x3c, g: 0x37, b: 0x35 },
            gray: Rgb { r: 0x92, g: 0x83, b: 0x73 },
            dim: Rgb { r: 0x7c, g: 0x6f, b: 0x64 },
            red: Rgb { r: 0xcc, g: 0x23, b: 0x1c },
            green: Rgb { r: 0x98, g: 0x97, b: 0x19 },
            yellow: Rgb { r: 0xd7, g: 0x99, b: 0x20 },
            blue: Rgb { r: 0x45, g: 0x85, b: 0x88 },
            purple: Rgb { r: 0xb1, g: 0x62, b: 0x86 },
            aqua: Rgb { r: 0x68, g: 0x9d, b: 0x69 },
            orange: Rgb { r: 0xd6, g: 0x5d, b: 0x0e },
        }
    }
}

} // verus!
