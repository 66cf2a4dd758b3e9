//! The twenty colours of Piet and the cyclic differences between them.

use vstd::prelude::*;

verus! {

/// The name of one of the twenty colours a codel may have.
#[derive(Debug, Clone, Copy, PartialEq, Eq, Structural)]
pub enum ColorName {
    Black,
    White,
    Red,
    Yellow,
    Green,
    Cyan,
    Blue,
    Magenta,
    DarkRed,
    DarkYellow,
    DarkGreen,
    DarkCyan,
    DarkBlue,
    DarkMagenta,
    LightRed,
    LightYellow,
    LightGreen,
    LightCyan,
    LightBlue,
    LightMagenta,
}

impl ColorName {
    /// Neither black nor white.
    pub open spec fn is_chromatic(self) -> bool {
        self != ColorName::Black && self != ColorName::White
    }

    /// Place in the hue cycle red, yellow, green, cyan, blue, magenta.
    /// Black and white are outside the cycle and carry 0.
    pub open spec fn hue_index(self) -> int {
        match self {
            ColorName::Black | ColorName::White => 0,
            ColorName::Red | ColorName::DarkRed | ColorName::LightRed => 0,
            ColorName::Yellow | ColorName::DarkYellow | ColorName::LightYellow => 1,
            ColorName::Green | ColorName::DarkGreen | ColorName::LightGreen => 2,
            ColorName::Cyan | ColorName::DarkCyan | ColorName::LightCyan => 3,
            ColorName::Blue | ColorName::DarkBlue | ColorName::LightBlue => 4,
            ColorName::Magenta | ColorName::DarkMagenta | ColorName::LightMagenta => 5,
        }
    }

    /// Place in the lightness cycle: 0 light, 1 normal, 2 dark.
    /// Black and white are outside the cycle and carry 0.
    pub open spec fn lightness_index(self) -> int {
        match self {
            ColorName::Black | ColorName::White => 0,
            ColorName::LightRed
            | ColorName::LightYellow
            | ColorName::LightGreen
            | ColorName::LightCyan
            | ColorName::LightBlue
            | ColorName::LightMagenta => 0,
            ColorName::Red
            | ColorName::Yellow
            | ColorName::Green
            | ColorName::Cyan
            | ColorName::Blue
            | ColorName::Magenta => 1,
            ColorName::DarkRed
            | ColorName::DarkYellow
            | ColorName::DarkGreen
            | ColorName::DarkCyan
            | ColorName::DarkBlue
            | ColorName::DarkMagenta => 2,
        }
    }

    /// The red, green and blue channel of the colour.
    pub open spec fn rgb(self) -> (u8, u8, u8) {
        match self {
            ColorName::Black => (0, 0, 0),
            ColorName::White => (255, 255, 255),
            ColorName::Red => (255, 0, 0),
            ColorName::Yellow => (255, 255, 0),
            ColorName::Green => (0, 255, 0),
            ColorName::Cyan => (0, 255, 255),
            ColorName::Blue => (0, 0, 255),
            ColorName::Magenta => (255, 0, 255),
            ColorName::DarkRed => (192, 0, 0),
            ColorName::DarkYellow => (192, 192, 0),
            ColorName::DarkGreen => (0, 192, 0),
            ColorName::DarkCyan => (0, 192, 192),
            ColorName::DarkBlue => (0, 0, 192),
            ColorName::DarkMagenta => (192, 0, 192),
            ColorName::LightRed => (255, 192, 192),
            ColorName::LightYellow => (255, 255, 192),
            ColorName::LightGreen => (192, 255, 192),
            ColorName::LightCyan => (192, 255, 255),
            ColorName::LightBlue => (192, 192, 255),
            ColorName::LightMagenta => (255, 192, 255),
        }
    }
}

/// Whether some colour has exactly these channels.
pub open spec fn is_piet_rgb(r: u8, g: u8, b: u8) -> bool {
    exists|n: ColorName| #[trigger] n.rgb() == (r, g, b)
}

/// A classified colour: its name with its place in the two cycles.
#[derive(Debug, Clone, Copy, PartialEq, Eq, Structural)]
pub struct PietColor {
    pub name: ColorName,
    pub lightness: i8,
    pub hue: i8,
}

impl PietColor {
    /// The two indices are those of the name.
    pub open spec fn well_formed(self) -> bool {
        &&& self.hue == self.name.hue_index()
        &&& self.lightness == self.name.lightness_index()
    }

    /// The hue index lies inside the hue cycle.
    pub open spec fn hue_in_cycle(self) -> bool {
        0 <= self.hue < 6
    }

    /// The lightness index lies inside the lightness cycle.
    pub open spec fn lightness_in_cycle(self) -> bool {
        0 <= self.lightness < 3
    }

    /// Steps along the hue cycle that lead from `self` to `other`.
    pub open spec fn spec_hue_difference(self, other: PietColor) -> int {
        (other.hue - self.hue + 6) % 6
    }

    /// Steps along the lightness cycle that lead from `self` to `other`.
    pub open spec fn spec_lightness_difference(self, other: PietColor) -> int {
        (other.lightness - self.lightness + 3) % 3
    }

    pub fn new(name: ColorName, lightness: i8, hue: i8) -> (c: Self)
        ensures
            c.name == name,
            c.lightness == lightness,
            c.hue == hue,
    {
        PietColor { name, lightness, hue }
    }

    /// The colour with the given name and the indices that belong to it.
    pub fn of_name(name: ColorName) -> (c: Self)
        ensures
            c.name == name,
            c.well_formed(),
    {
        let hue: i8 = match name {
            ColorName::Black | ColorName::White => 0,
            ColorName::Red | ColorName::DarkRed | ColorName::LightRed => 0,
            ColorName::Yellow | ColorName::DarkYellow | ColorName::LightYellow => 1,
            ColorName::Green | ColorName::DarkGreen | ColorName::LightGreen => 2,
            ColorName::Cyan | ColorName::DarkCyan | ColorName::LightCyan => 3,
            ColorName::Blue | ColorName::DarkBlue | ColorName::LightBlue => 4,
            ColorName::Magenta | ColorName::DarkMagenta | ColorName::LightMagenta => 5,
        };
        let lightness: i8 = match name {
            ColorName::Black | ColorName::White => 0,
            ColorName::LightRed
            | ColorName::LightYellow
            | ColorName::LightGreen
            | ColorName::LightCyan
            | ColorName::LightBlue
            | ColorName::LightMagenta => 0,
            ColorName::Red
            | ColorName::Yellow
            | ColorName::Green
            | ColorName::Cyan
            | ColorName::Blue
            | ColorName::Magenta => 1,
            _ => 2,
        };
        PietColor { name, lightness, hue }
    }

    pub fn hue_difference(&self, other: &PietColor) -> (d: i8)
        requires
            self.hue_in_cycle(),
            other.hue_in_cycle(),
        ensures
            d == self.spec_hue_difference(*other),
            0 <= d < 6,
    {
        (other.hue - self.hue + 6) % 6
    }

    pub fn lightness_difference(&self, other: &PietColor) -> (d: i8)
        requires
            self.lightness_in_cycle(),
            other.lightness_in_cycle(),
        ensures
            d == self.spec_lightness_difference(*other),
            0 <= d < 3,
    {
        (other.lightness - self.lightness + 3) % 3
    }

    /// Classifies a pixel. A pixel that is none of the twenty colours is
    /// handed back as the error.
    pub fn from_rgb(rgb: &[u8; 3]) -> (res: Result<Self, &[u8; 3]>)
        ensures
            res is Ok <==> is_piet_rgb(rgb[0], rgb[1], rgb[2]),
            res matches Ok(c) ==> c.well_formed() && c.name.rgb() == (rgb[0], rgb[1], rgb[2]),
            res matches Err(e) ==> e == rgb,
    {
        let r: u8 = rgb[0];
        let g: u8 = rgb[1];
        let b: u8 = rgb[2];
        let name = if r == 0 && g == 0 && b == 0 {
            ColorName::Black
        } else if r == 255 && g == 255 && b == 255 {
            ColorName::White
        } else if r == 255 && g == 0 && b == 0 {
            ColorName::Red
        } else if r == 255 && g == 255 && b == 0 {
            ColorName::Yellow
        } else if r == 0 && g == 255 && b == 0 {
            ColorName::Green
        } else if r == 0 && g == 255 && b == 255 {
            ColorName::Cyan
        } else if r == 0 && g == 0 && b == 255 {
            ColorName::Blue
        } else if r == 255 && g == 0 && b == 255 {
            ColorName::Magenta
        } else if r == 192 && g == 0 && b == 0 {
            ColorName::DarkRed
        } else if r == 192 && g == 192 && b == 0 {
            ColorName::DarkYellow
        } else if r == 0 && g == 192 && b == 0 {
            ColorName::DarkGreen
        } else if r == 0 && g == 192 && b == 192 {
            ColorName::DarkCyan
        } else if r == 0 && g == 0 && b == 192 {
            ColorName::DarkBlue
        } else if r == 192 && g == 0 && b == 192 {
            ColorName::DarkMagenta
        } else if r == 255 && g == 192 && b == 192 {
            ColorName::LightRed
        } else if r == 255 && g == 255 && b == 192 {
            ColorName::LightYellow
        } else if r == 192 && g == 255 && b == 192 {
            ColorName::LightGreen
        } else if r == 192 && g == 255 && b == 255 {
            ColorName::LightCyan
        } else if r == 192 && g == 192 && b == 255 {
            ColorName::LightBlue
        } else if r == 255 && g == 192 && b == 255 {
            ColorName::LightMagenta
        } else {
            proof {
                assert forall|n: ColorName| #[trigger] n.rgb() != (r, g, b) by {}
            }
            return Err(rgb);
        };
        assert(name.rgb() == (r, g, b));
        Ok(PietColor::of_name(name))
    }
}

impl Default for PietColor {
    /// White.
    fn default() -> (c: Self)
        ensures
            c.name == ColorName::White,
            c.well_formed(),
    {
        PietColor { name: ColorName::White, lightness: 0, hue: 0 }
    }
}

/// Two colours have the same channels only if they are the same colour.
pub proof fn lemma_rgb_injective(a: ColorName, b: ColorName)
    requires
        a.rgb() == b.rgb(),
    ensures
        a == b,
{
}

/// A well-formed colour is determined by its name, and lies inside both cycles.
pub proof fn lemma_well_formed_by_name(a: PietColor, b: PietColor)
    requires
        a.well_formed(),
        b.well_formed(),
    ensures
        a.hue_in_cycle(),
        a.lightness_in_cycle(),
        a.name == b.name <==> a == b,
{
}

/// Between two different colours of the hue and lightness cycles at least
/// one of the two differences is not zero.
pub proof fn lemma_change_between_colors(a: PietColor, b: PietColor)
    requires
        a.well_formed(),
        b.well_formed(),
        a.name.is_chromatic(),
        b.name.is_chromatic(),
        a.name != b.name,
    ensures
        a.spec_lightness_difference(b) != 0 || a.spec_hue_difference(b) != 0,
        0 <= a.spec_lightness_difference(b) < 3,
        0 <= a.spec_hue_difference(b) < 6,
{
}

} // verus!
