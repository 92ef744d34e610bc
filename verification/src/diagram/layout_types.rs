//! Validated measures and colors used by the layout.

use vstd::prelude::*;

verus! {

/// Why a layout value was refused.
#[derive(Debug, Clone, Copy, PartialEq, Eq, Structural)]
pub enum LayoutValueError {
    /// The value must be greater than zero.
    NotPositive,
    /// The text is not a `#rrggbb` color.
    InvalidHexColor,
}

/// A width in pixels.
#[derive(Debug, Clone, Copy, PartialEq, Eq, Structural, PartialOrd, Ord)]
pub struct Width(u32);

/// A height in pixels.
#[derive(Debug, Clone, Copy, PartialEq, Eq, Structural, PartialOrd, Ord)]
pub struct Height(u32);

/// A horizontal coordinate in pixels.
#[derive(Debug, Clone, Copy, PartialEq, Eq, Structural, PartialOrd, Ord)]
pub struct XCoordinate(u32);

/// A vertical coordinate in pixels.
#[derive(Debug, Clone, Copy, PartialEq, Eq, Structural, PartialOrd, Ord)]
pub struct YCoordinate(u32);

/// A font size in points; never zero.
#[derive(Debug, Clone, Copy, PartialEq, Eq, Structural, PartialOrd, Ord)]
pub struct FontSize(u32);

impl Width {
    /// The value.
    pub closed spec fn value(self) -> u32 {
        self.0
    }

    /// Every width is accepted.
    pub fn try_new(value: u32) -> (r: Result<Self, LayoutValueError>)
        ensures
            r matches Ok(w) && w.value() == value,
    {
        Ok(Width(value))
    }

    /// The wrapped value.
    pub fn into_inner(self) -> (r: u32)
        ensures
            r == self.value(),
    {
        self.0
    }
}

impl Height {
    /// The value.
    pub closed spec fn value(self) -> u32 {
        self.0
    }

    /// Every height is accepted.
    pub fn try_new(value: u32) -> (r: Result<Self, LayoutValueError>)
        ensures
            r matches Ok(h) && h.value() == value,
    {
        Ok(Height(value))
    }

    /// The wrapped value.
    pub fn into_inner(self) -> (r: u32)
        ensures
            r == self.value(),
    {
        self.0
    }
}

impl XCoordinate {
    /// The value.
    pub closed spec fn value(self) -> u32 {
        self.0
    }

    /// Every coordinate is accepted.
    pub fn try_new(value: u32) -> (r: Result<Self, LayoutValueError>)
        ensures
            r matches Ok(c) && c.value() == value,
    {
        Ok(XCoordinate(value))
    }

    /// The wrapped value.
    pub fn into_inner(self) -> (r: u32)
        ensures
            r == self.value(),
    {
        self.0
    }
}

impl YCoordinate {
    /// The value.
    pub closed spec fn value(self) -> u32 {
        self.0
    }

    /// Every coordinate is accepted.
    pub fn try_new(value: u32) -> (r: Result<Self, LayoutValueError>)
        ensures
            r matches Ok(c) && c.value() == value,
    {
        Ok(YCoordinate(value))
    }

    /// The wrapped value.
    pub fn into_inner(self) -> (r: u32)
        ensures
            r == self.value(),
    {
        self.0
    }
}

impl FontSize {
    /// The value.
    pub closed spec fn value(self) -> u32 {
        self.0
    }

    /// Accepts any size but zero.
    pub fn try_new(value: u32) -> (r: Result<Self, LayoutValueError>)
        ensures
            value > 0 <==> r is Ok,
            r matches Ok(f) ==> f.value() == value,
            r matches Err(e) ==> e == LayoutValueError::NotPositive,
    {
        if value > 0 {
            Ok(FontSize(value))
        } else {
            Err(LayoutValueError::NotPositive)
        }
    }

    /// The wrapped value.
    pub fn into_inner(self) -> (r: u32)
        ensures
            r == self.value(),
    {
        self.0
    }
}

/// A hexadecimal digit.
pub open spec fn is_hex_digit(c: char) -> bool {
    ('0' <= c && c <= '9') || ('a' <= c && c <= 'f') || ('A' <= c && c <= 'F')
}

/// `s` is `#` followed by six hexadecimal digits.
pub open spec fn is_hex_color(s: Seq<char>) -> bool {
    &&& s.len() == 7
    &&& s[0] == '#'
    &&& forall|i: int| 1 <= i < 7 ==> #[trigger] is_hex_digit(s[i])
}

/// A color written `#rrggbb`.
#[derive(Debug, PartialEq, Eq)]
pub struct HexColor(String);

impl View for HexColor {
    type V = Seq<char>;

    closed spec fn view(&self) -> Seq<char> {
        self.0@
    }
}

impl HexColor {
    /// Accepts `s` exactly when it is `#` followed by six hexadecimal
    /// digits.
    pub fn try_new(s: String) -> (r: Result<Self, LayoutValueError>)
        ensures
            is_hex_color(s@) <==> r is Ok,
            r matches Ok(c) ==> c@ == s@,
            r matches Err(e) ==> e == LayoutValueError::InvalidHexColor,
    {
        let n = s.as_str().unicode_len();
        if n != 7 || s.as_str().get_char(0) != '#' {
            return Err(LayoutValueError::InvalidHexColor);
        }
        let mut i: usize = 1;
        while i < 7
            invariant
                1 <= i <= 7,
                n == s@.len(),
                n == 7,
                forall|k: int| 1 <= k < i ==> #[trigger] is_hex_digit(s@[k]),
            decreases 7 - i,
        {
            let c = s.as_str().get_char(i);
            if !(('0' <= c && c <= '9') || ('a' <= c && c <= 'f') || ('A' <= c && c <= 'F')) {
                assert(!is_hex_digit(s@[i as int]));
                return Err(LayoutValueError::InvalidHexColor);
            }
            i += 1;
        }
        Ok(HexColor(s))
    }

    /// The color's text.
    pub fn as_str(&self) -> (r: &str)
        ensures
            r@ == self@,
    {
        self.0.as_str()
    }
}

/// Sizes used when laying out a diagram.
pub struct LayoutConstants {
    /// Smallest canvas width.
    pub min_canvas_width: Width,
    /// Smallest canvas height.
    pub min_canvas_height: Height,
    /// Width of the swimlane labels.
    pub swimlane_label_width: Width,
    /// Smallest swimlane height.
    pub min_swimlane_height: Height,
    /// Height of the title area.
    pub header_height: Height,
    /// Height of the slice headers.
    pub slice_header_height: Height,
    /// Smallest slice width.
    pub min_slice_width: Width,
    /// Font size of slice headers.
    pub slice_header_font_size: FontSize,
    /// Regular font size.
    pub regular_font_size: FontSize,
    /// Font size of swimlane labels.
    pub swimlane_font_size: FontSize,
}

impl Default for LayoutConstants {
    fn default() -> (r: Self)
        ensures
            r.min_canvas_width.value() == 800,
            r.min_canvas_height.value() == 600,
            r.swimlane_label_width.value() == 80,
            r.min_swimlane_height.value() == 200,
            r.header_height.value() == 50,
            r.slice_header_height.value() == 30,
            r.min_slice_width.value() == 300,
            r.slice_header_font_size.value() == 11,
            r.regular_font_size.value() == 12,
            r.swimlane_font_size.value() == 10,
    {
        LayoutConstants {
            min_canvas_width: Width(800),
            min_canvas_height: Height(600),
            swimlane_label_width: Width(80),
            min_swimlane_height: Height(200),
            header_height: Height(50),
            slice_header_height: Height(30),
            min_slice_width: Width(300),
            slice_header_font_size: FontSize(11),
            regular_font_size: FontSize(12),
            swimlane_font_size: FontSize(10),
        }
    }
}

/// Colors of the diagram.
pub struct ColorScheme {
    /// Background of the canvas.
    pub canvas_background: HexColor,
    /// Color of text.
    pub text_color: HexColor,
    /// Color of swimlane borders.
    pub swimlane_border: HexColor,
}

impl Default for ColorScheme {
    fn default() -> (r: Self)
        ensures
            r.canvas_background@ == "#f8f8f8"@,
            r.text_color@ == "#333333"@,
            r.swimlane_border@ == "#cccccc"@,
    {
        ColorScheme {
            canvas_background: HexColor("#f8f8f8".to_owned()),
            text_color: HexColor("#333333".to_owned()),
            swimlane_border: HexColor("#cccccc".to_owned()),
        }
    }
}

} // verus!
