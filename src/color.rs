use vstd::prelude::*;

verus! {

/// The sixteen colors of the text-mode palette.
#[derive(Debug, Clone, Copy, PartialEq, Eq, Structural)]
pub enum Color {
    Black,
    Blue,
    Green,
    Cyan,
    Red,
    Magenta,
    Brown,
    LightGray,
    DarkGray,
    LightBlue,
    LightGreen,
    LightCyan,
    LightRed,
    Pink,
    Yellow,
    White,
}

impl Color {
    /// The palette index of the color.
    pub open spec fn spec_index(self) -> u8 {
        match self {
            Color::Black => 0,
            Color::Blue => 1,
            Color::Green => 2,
            Color::Cyan => 3,
            Color::Red => 4,
            Color::Magenta => 5,
            Color::Brown => 6,
            Color::LightGray => 7,
            Color::DarkGray => 8,
            Color::LightBlue => 9,
            Color::LightGreen => 10,
            Color::LightCyan => 11,
            Color::LightRed => 12,
            Color::Pink => 13,
            Color::Yellow => 14,
            Color::White => 15,
        }
    }

    /// The color with palette index `i`, for `i < 16`.
    pub open spec fn spec_from_index(i: u8) -> Color {
        if i == 0 {
            Color::Black
        } else if i == 1 {
            Color::Blue
        } else if i == 2 {
            Color::Green
        } else if i == 3 {
            Color::Cyan
        } else if i == 4 {
            Color::Red
        } else if i == 5 {
            Color::Magenta
        } else if i == 6 {
            Color::Brown
        } else if i == 7 {
            Color::LightGray
        } else if i == 8 {
            Color::DarkGray
        } else if i == 9 {
            Color::LightBlue
        } else if i == 10 {
            Color::LightGreen
        } else if i == 11 {
            Color::LightCyan
        } else if i == 12 {
            Color::LightRed
        } else if i == 13 {
            Color::Pink
        } else if i == 14 {
            Color::Yellow
        } else {
            Color::White
        }
    }

    pub fn index(self) -> (r: u8)
        ensures
            r == self.spec_index(),
            r < 16,
    {
        match self {
            Color::Black => 0,
            Color::Blue => 1,
            Color::Green => 2,
            Color::Cyan => 3,
            Color::Red => 4,
            Color::Magenta => 5,
            Color::Brown => 6,
            Color::LightGray => 7,
            Color::DarkGray => 8,
            Color::LightBlue => 9,
            Color::LightGreen => 10,
            Color::LightCyan => 11,
            Color::LightRed => 12,
            Color::Pink => 13,
            Color::Yellow => 14,
            Color::White => 15,
        }
    }

    pub fn from_index(i: u8) -> (r: Color)
        requires
            i < 16,
        ensures
            r == Color::spec_from_index(i),
            r.spec_index() == i,
    {
        if i == 0 {
            Color::Black
        } else if i == 1 {
            Color::Blue
        } else if i == 2 {
            Color::Green
        } else if i == 3 {
            Color::Cyan
        } else if i == 4 {
            Color::Red
        } else if i == 5 {
            Color::Magenta
        } else if i == 6 {
            Color::Brown
        } else if i == 7 {
            Color::LightGray
        } else if i == 8 {
            Color::DarkGray
        } else if i == 9 {
            Color::LightBlue
        } else if i == 10 {
            Color::LightGreen
        } else if i == 11 {
            Color::LightCyan
        } else if i == 12 {
            Color::LightRed
        } else if i == 13 {
            Color::Pink
        } else if i == 14 {
            Color::Yellow
        } else {
            Color::White
        }
    }
}

/// A palette index names exactly one color.
pub proof fn lemma_index_round_trip(c: Color)
    ensures
        c.spec_index() < 16,
        Color::spec_from_index(c.spec_index()) == c,
{
}

/// An attribute byte: background in the high nibble, foreground in the low one.
#[derive(Debug, Clone, Copy, PartialEq, Eq, Structural)]
pub struct ColorCode(pub u8);

impl ColorCode {
    /// The byte `(background << 4) | foreground`.
    pub open spec fn spec_new(foreground: Color, background: Color) -> ColorCode {
        ColorCode(((background.spec_index() << 4u8) | foreground.spec_index()) as u8)
    }

    /// The foreground index, read from the low nibble.
    pub open spec fn spec_foreground(self) -> Color {
        Color::spec_from_index(self.0 & 0x0f)
    }

    /// The background index, read from the high nibble.
    pub open spec fn spec_background(self) -> Color {
        Color::spec_from_index(self.0 >> 4u8)
    }

    pub fn new(foreground: Color, background: Color) -> (r: ColorCode)
        ensures
            r == ColorCode::spec_new(foreground, background),
            r.0 == background.spec_index() * 16 + foreground.spec_index(),
    {
        let fg = foreground.index();
        let bg = background.index();
        assert(((bg << 4u8) | fg) == bg * 16 + fg) by (bit_vector)
            requires
                fg < 16,
                bg < 16,
        ;
        ColorCode((bg << 4u8) | fg)
    }

    pub fn foreground(self) -> (r: Color)
        ensures
            r == self.spec_foreground(),
            r.spec_index() == self.0 % 16,
    {
        let v = self.0;
        assert(v & 0x0f < 16 && v & 0x0f == v % 16) by (bit_vector);
        Color::from_index(self.0 & 0x0f)
    }

    pub fn background(self) -> (r: Color)
        ensures
            r == self.spec_background(),
            r.spec_index() == self.0 / 16,
    {
        let v = self.0;
        assert(v >> 4u8 < 16 && v >> 4u8 == v / 16) by (bit_vector);
        Color::from_index(self.0 >> 4u8)
    }
}

/// Decoding an attribute byte gives back the two colors it was built from,
/// for every one of the 16 x 16 pairs: the foreground in the low nibble and
/// the background in the high nibble.
pub proof fn lemma_color_code_round_trip(foreground: Color, background: Color)
    ensures
        ColorCode::spec_new(foreground, background).0 & 0x0f == foreground.spec_index(),
        ColorCode::spec_new(foreground, background).0 >> 4u8 == background.spec_index(),
        ColorCode::spec_new(foreground, background).spec_foreground() == foreground,
        ColorCode::spec_new(foreground, background).spec_background() == background,
{
    let fg = foreground.spec_index();
    let bg = background.spec_index();
    assert((((bg << 4u8) | fg) as u8) & 0x0f == fg && (((bg << 4u8) | fg) as u8) >> 4u8 == bg)
        by (bit_vector)
        requires
            fg < 16,
            bg < 16,
    ;
    lemma_index_round_trip(foreground);
    lemma_index_round_trip(background);
}

/// One display cell: a character byte followed by its attribute byte.
#[derive(Debug, Clone, Copy, PartialEq, Eq, Structural)]
pub struct ScreenChar {
    pub ascii_character: u8,
    pub color_code: ColorCode,
}

impl ScreenChar {
    pub fn new(ascii_character: u8, color_code: ColorCode) -> (r: ScreenChar)
        ensures
            r == (ScreenChar { ascii_character, color_code }),
    {
        ScreenChar { ascii_character, color_code }
    }
}

} // verus!
