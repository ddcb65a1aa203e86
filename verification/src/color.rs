//! The sixteen colors of the curses palette.

use vstd::prelude::*;

verus! {

/// A curses color: the low three bits pick the hue, the fourth the brightness.
#[derive(Clone, Copy, Debug, PartialEq, Eq, Structural)]
pub enum CursesColor {
    Black,
    Blue,
    Green,
    Aqua,
    Red,
    Purple,
    Yellow,
    White,
    Gray,
    LightBlue,
    LightGreen,
    LightAqua,
    LightRed,
    LightPurple,
    LightYellow,
    BrightWhite,
}

impl CursesColor {
    /// The color code, 0 to 15.
    pub open spec fn code(self) -> int {
        match self {
            CursesColor::Black => 0,
            CursesColor::Blue => 1,
            CursesColor::Green => 2,
            CursesColor::Aqua => 3,
            CursesColor::Red => 4,
            CursesColor::Purple => 5,
            CursesColor::Yellow => 6,
            CursesColor::White => 7,
            CursesColor::Gray => 8,
            CursesColor::LightBlue => 9,
            CursesColor::LightGreen => 10,
            CursesColor::LightAqua => 11,
            CursesColor::LightRed => 12,
            CursesColor::LightPurple => 13,
            CursesColor::LightYellow => 14,
            CursesColor::BrightWhite => 15,
        }
    }

    /// The color with a given code, 0 to 15.
    pub open spec fn from_code(code: i32) -> CursesColor
        recommends
            0 <= code < 16,
    {
        match code {
            0i32 => CursesColor::Black,
            1i32 => CursesColor::Blue,
            2i32 => CursesColor::Green,
            3i32 => CursesColor::Aqua,
            4i32 => CursesColor::Red,
            5i32 => CursesColor::Purple,
            6i32 => CursesColor::Yellow,
            7i32 => CursesColor::White,
            8i32 => CursesColor::Gray,
            9i32 => CursesColor::LightBlue,
            10i32 => CursesColor::LightGreen,
            11i32 => CursesColor::LightAqua,
            12i32 => CursesColor::LightRed,
            13i32 => CursesColor::LightPurple,
            14i32 => CursesColor::LightYellow,
            15i32 => CursesColor::BrightWhite,
            _ => CursesColor::BrightWhite,
        }
    }

    /// The color that an integer names: its low four bits.
    pub open spec fn spec_from_i32(value: i32) -> CursesColor {
        CursesColor::from_code(value & 0xf)
    }

    /// Converts an integer to the color of its low four bits.
    pub fn from_i32(value: i32) -> (c: CursesColor)
        ensures
            c == CursesColor::spec_from_i32(value),
    {
        let code = value & 0xf;
        assert(0 <= code <= 15) by (bit_vector)
            requires
                code == value & 0xf,
        ;
        match code {
            0i32 => CursesColor::Black,
            1i32 => CursesColor::Blue,
            2i32 => CursesColor::Green,
            3i32 => CursesColor::Aqua,
            4i32 => CursesColor::Red,
            5i32 => CursesColor::Purple,
            6i32 => CursesColor::Yellow,
            7i32 => CursesColor::White,
            8i32 => CursesColor::Gray,
            9i32 => CursesColor::LightBlue,
            10i32 => CursesColor::LightGreen,
            11i32 => CursesColor::LightAqua,
            12i32 => CursesColor::LightRed,
            13i32 => CursesColor::LightPurple,
            14i32 => CursesColor::LightYellow,
            15i32 => CursesColor::BrightWhite,
            _ => CursesColor::BrightWhite,
        }
    }

    /// The code as an index into a 16-entry palette.
    pub fn index(self) -> (i: usize)
        ensures
            i == self.code(),
    {
        match self {
            CursesColor::Black => 0usize,
            CursesColor::Blue => 1usize,
            CursesColor::Green => 2usize,
            CursesColor::Aqua => 3usize,
            CursesColor::Red => 4usize,
            CursesColor::Purple => 5usize,
            CursesColor::Yellow => 6usize,
            CursesColor::White => 7usize,
            CursesColor::Gray => 8usize,
            CursesColor::LightBlue => 9usize,
            CursesColor::LightGreen => 10usize,
            CursesColor::LightAqua => 11usize,
            CursesColor::LightRed => 12usize,
            CursesColor::LightPurple => 13usize,
            CursesColor::LightYellow => 14usize,
            CursesColor::BrightWhite => 15usize,
        }
    }

    /// The bright variant of the same hue.
    pub open spec fn spec_light(self) -> CursesColor {
        match self {
            CursesColor::Black => CursesColor::Gray,
            CursesColor::Blue => CursesColor::LightBlue,
            CursesColor::Green => CursesColor::LightGreen,
            CursesColor::Aqua => CursesColor::LightAqua,
            CursesColor::Red => CursesColor::LightRed,
            CursesColor::Purple => CursesColor::LightPurple,
            CursesColor::Yellow => CursesColor::LightYellow,
            CursesColor::White => CursesColor::BrightWhite,
            CursesColor::Gray => CursesColor::Gray,
            CursesColor::LightBlue => CursesColor::LightBlue,
            CursesColor::LightGreen => CursesColor::LightGreen,
            CursesColor::LightAqua => CursesColor::LightAqua,
            CursesColor::LightRed => CursesColor::LightRed,
            CursesColor::LightPurple => CursesColor::LightPurple,
            CursesColor::LightYellow => CursesColor::LightYellow,
            CursesColor::BrightWhite => CursesColor::BrightWhite,
        }
    }

    /// The dark variant of the same hue.
    pub open spec fn spec_dark(self) -> CursesColor {
        match self {
            CursesColor::Black => CursesColor::Black,
            CursesColor::Blue => CursesColor::Blue,
            CursesColor::Green => CursesColor::Green,
            CursesColor::Aqua => CursesColor::Aqua,
            CursesColor::Red => CursesColor::Red,
            CursesColor::Purple => CursesColor::Purple,
            CursesColor::Yellow => CursesColor::Yellow,
            CursesColor::White => CursesColor::White,
            CursesColor::Gray => CursesColor::Black,
            CursesColor::LightBlue => CursesColor::Blue,
            CursesColor::LightGreen => CursesColor::Green,
            CursesColor::LightAqua => CursesColor::Aqua,
            CursesColor::LightRed => CursesColor::Red,
            CursesColor::LightPurple => CursesColor::Purple,
            CursesColor::LightYellow => CursesColor::Yellow,
            CursesColor::BrightWhite => CursesColor::White,
        }
    }

    pub open spec fn spec_with_bright(self, bright: bool) -> CursesColor {
        if bright {
            self.spec_light()
        } else {
            self.spec_dark()
        }
    }

    /// The bright variant of the same hue.
    pub fn light(self) -> (c: CursesColor)
        ensures
            c == self.spec_light(),
    {
        match self {
            CursesColor::Black => CursesColor::Gray,
            CursesColor::Blue => CursesColor::LightBlue,
            CursesColor::Green => CursesColor::LightGreen,
            CursesColor::Aqua => CursesColor::LightAqua,
            CursesColor::Red => CursesColor::LightRed,
            CursesColor::Purple => CursesColor::LightPurple,
            CursesColor::Yellow => CursesColor::LightYellow,
            CursesColor::White => CursesColor::BrightWhite,
            CursesColor::Gray => CursesColor::Gray,
            CursesColor::LightBlue => CursesColor::LightBlue,
            CursesColor::LightGreen => CursesColor::LightGreen,
            CursesColor::LightAqua => CursesColor::LightAqua,
            CursesColor::LightRed => CursesColor::LightRed,
            CursesColor::LightPurple => CursesColor::LightPurple,
            CursesColor::LightYellow => CursesColor::LightYellow,
            CursesColor::BrightWhite => CursesColor::BrightWhite,
        }
    }

    /// The dark variant of the same hue.
    pub fn dark(self) -> (c: CursesColor)
        ensures
            c == self.spec_dark(),
    {
        match self {
            CursesColor::Black => CursesColor::Black,
            CursesColor::Blue => CursesColor::Blue,
            CursesColor::Green => CursesColor::Green,
            CursesColor::Aqua => CursesColor::Aqua,
            CursesColor::Red => CursesColor::Red,
            CursesColor::Purple => CursesColor::Purple,
            CursesColor::Yellow => CursesColor::Yellow,
            CursesColor::White => CursesColor::White,
            CursesColor::Gray => CursesColor::Black,
            CursesColor::LightBlue => CursesColor::Blue,
            CursesColor::LightGreen => CursesColor::Green,
            CursesColor::LightAqua => CursesColor::Aqua,
            CursesColor::LightRed => CursesColor::Red,
            CursesColor::LightPurple => CursesColor::Purple,
            CursesColor::LightYellow => CursesColor::Yellow,
            CursesColor::BrightWhite => CursesColor::White,
        }
    }

    /// The bright variant if `bright`, else the dark one.
    pub fn with_bright(self, bright: bool) -> (c: CursesColor)
        ensures
            c == self.spec_with_bright(bright),
    {
        if bright {
            self.light()
        } else {
            self.dark()
        }
    }
}

impl From<i32> for CursesColor {
    fn from(value: i32) -> (c: CursesColor) {
        CursesColor::from_i32(value)
    }
}

impl vstd::std_specs::convert::FromSpecImpl<i32> for CursesColor {
    open spec fn obeys_from_spec() -> bool {
        true
    }

    open spec fn from_spec(v: i32) -> CursesColor {
        CursesColor::spec_from_i32(v)
    }
}

/// Brightening keeps the hue and sets the fourth bit; darkening keeps the hue
/// and clears it; each undoes the other.
pub proof fn lemma_light_dark(c: CursesColor)
    ensures
        c.spec_light().code() == c.code() % 8 + 8,
        c.spec_dark().code() == c.code() % 8,
        c.spec_dark().spec_light() == c.spec_light(),
        c.spec_light().spec_dark() == c.spec_dark(),
        0 <= c.code() < 16,
        CursesColor::from_code(c.code() as i32) == c,
{
}

} // verus!
