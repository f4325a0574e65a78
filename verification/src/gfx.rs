//! Drawing on a framebuffer, in whatever orientation the panel needs.
//!
//! This exists because of one hardware fact: the Steam Deck's LCD is a
//! portrait panel mounted sideways. The firmware reports it honestly, 800
//! across and 1280 down, and lays its text console out in those
//! coordinates, so everything the console prints arrives on the glass
//! rotated a quarter turn. So every pixel is put through a rotation on the
//! way out.
//!
//! * [`Framebuffer`] knows about pixel formats and rotation, nothing else.
//! * [`crate::console::Console`] knows about cells, cursors and dirty
//!   regions.
//! * [`crate::ui`] knows about menus.
//!
//! A framebuffer here is a copy in memory. The application owns the
//! firmware's and carries the copy over.

use vstd::arithmetic::div_mod::{lemma_fundamental_div_mod, lemma_fundamental_div_mod_converse};
use vstd::prelude::*;
use vstd::std_specs::bits::{axiom_u32_trailing_zeros, u32_trailing_zeros};

verus! {

/// A colour, before it is packed into whatever the framebuffer wants.
#[derive(Clone, Copy, PartialEq, Eq, Structural, Debug)]
pub struct Rgb(pub u8, pub u8, pub u8);

/// The sixteen colours of a text console.
#[derive(Clone, Copy, PartialEq, Eq, Structural, Debug)]
pub enum Color {
    Black,
    Blue,
    Green,
    Cyan,
    Red,
    Magenta,
    Brown,
    LightGray,
    DarkGray,
    LightBlue,
    LightGreen,
    LightCyan,
    LightRed,
    LightMagenta,
    Yellow,
    White,
}

/// The sixteen console colours, as they are drawn.
pub open spec fn rgb_of(color: Color) -> Rgb {
    match color {
        Color::Black => Rgb(0x10, 0x12, 0x16),
        Color::Blue => Rgb(0x34, 0x65, 0xa4),
        Color::Green => Rgb(0x4e, 0x9a, 0x06),
        Color::Cyan => Rgb(0x06, 0x98, 0x9a),
        Color::Red => Rgb(0xcc, 0x00, 0x00),
        Color::Magenta => Rgb(0x75, 0x50, 0x7b),
        Color::Brown => Rgb(0xc4, 0xa0, 0x00),
        Color::LightGray => Rgb(0xd3, 0xd7, 0xcf),
        Color::DarkGray => Rgb(0x8a, 0x90, 0x99),
        Color::LightBlue => Rgb(0x72, 0x9f, 0xcf),
        Color::LightGreen => Rgb(0x8a, 0xe2, 0x34),
        Color::LightCyan => Rgb(0x34, 0xe2, 0xe2),
        Color::LightRed => Rgb(0xef, 0x6b, 0x6b),
        Color::LightMagenta => Rgb(0xe0, 0x8f, 0xe8),
        Color::Yellow => Rgb(0xfc, 0xe9, 0x4f),
        Color::White => Rgb(0xff, 0xff, 0xff),
    }
}

/// The sixteen console colours, as they are drawn.
///
/// Close to the Tango palette, which was designed for exactly this: solid
/// colours that stay distinguishable without being garish. Three
/// departures, all for the panel this runs on: `DarkGray` is lifted well
/// above Tango's, because it carries `Style::Dim` and Tango's is barely
/// visible on a bright handheld screen; `LightRed` is softened, because a
/// saturated red on black fringes badly at this pixel density; and
/// `LightMagenta` is brightened a long way past Tango's plum, because it is
/// the one colour that names a button in the key hints.
pub fn rgb(color: Color) -> (r: Rgb)
    ensures
        r == rgb_of(color),
{
    match color {
        Color::Black => Rgb(0x10, 0x12, 0x16),
        Color::Blue => Rgb(0x34, 0x65, 0xa4),
        Color::Green => Rgb(0x4e, 0x9a, 0x06),
        Color::Cyan => Rgb(0x06, 0x98, 0x9a),
        Color::Red => Rgb(0xcc, 0x00, 0x00),
        Color::Magenta => Rgb(0x75, 0x50, 0x7b),
        Color::Brown => Rgb(0xc4, 0xa0, 0x00),
        Color::LightGray => Rgb(0xd3, 0xd7, 0xcf),
        Color::DarkGray => Rgb(0x8a, 0x90, 0x99),
        Color::LightBlue => Rgb(0x72, 0x9f, 0xcf),
        Color::LightGreen => Rgb(0x8a, 0xe2, 0x34),
        Color::LightCyan => Rgb(0x34, 0xe2, 0xe2),
        Color::LightRed => Rgb(0xef, 0x6b, 0x6b),
        Color::LightMagenta => Rgb(0xe0, 0x8f, 0xe8),
        Color::Yellow => Rgb(0xfc, 0xe9, 0x4f),
        Color::White => Rgb(0xff, 0xff, 0xff),
    }
}

// ----------------------------------------------------------------- rotation

/// How far the logical image is turned clockwise on its way to the panel.
///
/// [`Rotation::Cw90`] is the Steam Deck's case. The other variants cost
/// nothing to support and mean an operator facing an unexpected panel can
/// turn the picture until it reads, rather than being stuck with whatever
/// was guessed for them.
#[derive(Clone, Copy, PartialEq, Eq, Structural, Debug, Default)]
pub enum Rotation {
    #[default]
    AsIs,
    Cw90,
    Half,
    Ccw90,
}

impl Rotation {
    /// A quarter turn further.
    pub open spec fn turned(self) -> Rotation {
        match self {
            Rotation::AsIs => Rotation::Cw90,
            Rotation::Cw90 => Rotation::Half,
            Rotation::Half => Rotation::Ccw90,
            Rotation::Ccw90 => Rotation::AsIs,
        }
    }

    /// Width and height trade places.
    pub open spec fn sideways(self) -> bool {
        self == Rotation::Cw90 || self == Rotation::Ccw90
    }

    /// What the operator is told.
    pub open spec fn label(self) -> Seq<char> {
        match self {
            Rotation::AsIs => "as the firmware has it"@,
            Rotation::Cw90 => "quarter turn clockwise"@,
            Rotation::Half => "upside down"@,
            Rotation::Ccw90 => "quarter turn anticlockwise"@,
        }
    }

    /// The next orientation.
    pub fn next(self) -> (r: Self)
        ensures
            r == self.turned(),
    {
        match self {
            Rotation::AsIs => Rotation::Cw90,
            Rotation::Cw90 => Rotation::Half,
            Rotation::Half => Rotation::Ccw90,
            Rotation::Ccw90 => Rotation::AsIs,
        }
    }

    /// The orientation before this one.
    pub fn previous(self) -> (r: Self)
        ensures
            r.turned() == self,
            r == self.turned().turned().turned(),
    {
        self.next().next().next()
    }

    /// Whether width and height trade places.
    pub fn swaps_axes(self) -> (r: bool)
        ensures
            r == self.sideways(),
    {
        matches!(self, Rotation::Cw90 | Rotation::Ccw90)
    }

    /// A physical extent as it looks from this way round.
    pub open spec fn seen(self, width: int, height: int) -> (int, int) {
        if self.sideways() {
            (height, width)
        } else {
            (width, height)
        }
    }

    /// A physical extent as it looks from this way round.
    pub fn logical(self, width: usize, height: usize) -> (r: (usize, usize))
        ensures
            (r.0 as int, r.1 as int) == self.seen(width as int, height as int),
    {
        if self.swaps_axes() {
            (height, width)
        } else {
            (width, height)
        }
    }

    pub fn name(self) -> (r: &'static str)
        ensures
            r@ == self.label(),
    {
        match self {
            Rotation::AsIs => "as the firmware has it",
            Rotation::Cw90 => "quarter turn clockwise",
            Rotation::Half => "upside down",
            Rotation::Ccw90 => "quarter turn anticlockwise",
        }
    }
}

/// Four turns bring the picture back, and one back undoes one forward.
pub proof fn four_turns_are_none(r: Rotation)
    ensures
        r.turned().turned().turned().turned() == r,
        r.turned() != r,
        r.turned().sideways() != r.sideways(),
{
}

// ----------------------------------------------------------------- channels

/// How many bits of `n` are set.
pub open spec fn ones(n: u32) -> nat
    decreases n,
{
    if n == 0 {
        0
    } else {
        (n % 2) as nat + ones(n / 2)
    }
}

proof fn ones_at_most(n: u32)
    ensures
        ones(n) <= n,
    decreases n,
{
    if n > 0 {
        ones_at_most(n / 2);
    }
}

fn count_ones(n: u32) -> (r: u32)
    ensures
        r == ones(n),
{
    let mut left: u32 = n;
    let mut found: u32 = 0;
    while left > 0
        invariant
            found + ones(left) == ones(n),
        decreases left,
    {
        proof {
            ones_at_most(n);
        }
        found = found + left % 2;
        left = left / 2;
    }
    found
}

/// Where a colour channel sits in a framebuffer word.
///
/// Kept as shift-and-width so that the bitmask formats, which are rare but
/// which some real firmware does report, go through exactly the same
/// arithmetic as the common ones.
#[derive(Clone, Copy, PartialEq, Eq, Structural, Debug)]
pub struct Channel {
    pub shift: u32,
    pub bits: u32,
}

impl Channel {
    /// The channel fits a word.
    pub open spec fn wf(self) -> bool {
        self.bits <= 8 && (self.bits > 0 ==> self.shift < 32)
    }

    /// A whole byte, `shift` bits up.
    pub fn fixed(shift: u32) -> (r: Self)
        requires
            shift < 32,
        ensures
            r == (Channel { shift, bits: 8 }),
            r.wf(),
    {
        Channel { shift, bits: 8 }
    }

    /// The channel a bitmask describes.
    pub open spec fn of_mask(mask: u32) -> Channel {
        Channel {
            shift: u32_trailing_zeros(mask),
            bits: if ones(mask) <= 8 {
                ones(mask) as u32
            } else {
                8
            },
        }
    }

    /// A channel described by a bitmask, which firmware is free to make any
    /// width it likes: 5 bits of red in a 16-bit word is legal, and so is a
    /// channel the hardware simply does not have.
    pub fn from_mask(mask: u32) -> (r: Self)
        ensures
            r == Channel::of_mask(mask),
            r.wf(),
    {
        proof {
            axiom_u32_trailing_zeros(mask);
        }
        let bits: u32 = count_ones(mask);
        Channel {
            shift: mask.trailing_zeros(),
            bits: if bits <= 8 {
                bits
            } else {
                8
            },
        }
    }

    /// One 8-bit component in its place, narrowed if the channel is smaller.
    pub open spec fn placed(self, value: u8) -> u32 {
        if self.bits == 0 {
            0
        } else {
            ((value >> ((8 - self.bits) as u32)) as u32) << self.shift
        }
    }

    /// Place one 8-bit component, narrowing it if the channel is smaller.
    pub fn pack(self, value: u8) -> (r: u32)
        requires
            self.wf(),
        ensures
            r == self.placed(value),
    {
        if self.bits == 0 {
            return 0;
        }
        ((value >> (8 - self.bits)) as u32) << self.shift
    }
}

// ------------------------------------------------------------------- fonts

/// One glyph, trimmed to the pixels it actually lights.
///
/// `x`/`y` put the box back where it belongs inside the cell. A blank glyph
/// (space, and anything the face had no outline for) has zero width.
#[derive(Clone, Copy, PartialEq, Eq, Structural, Debug)]
pub struct Glyph {
    pub x: u8,
    pub y: u8,
    pub w: u8,
    pub h: u8,
    /// Where this glyph's rows start in the font's coverage pool.
    pub off: u32,
}

impl Glyph {
    /// It lights nothing.
    pub open spec fn blank(self) -> bool {
        self.w == 0 || self.h == 0
    }

    pub fn is_blank(&self) -> (r: bool)
        ensures
            r == self.blank(),
    {
        self.w == 0 || self.h == 0
    }

    /// The glyph of nothing.
    pub open spec fn nothing() -> Glyph {
        Glyph { x: 0, y: 0, w: 0, h: 0, off: 0 }
    }
}

/// A fixed-cell font: 8-bit coverage, one contiguous pool of trimmed boxes.
pub struct Font {
    pub cell_w: usize,
    pub cell_h: usize,
    /// Code point of `glyphs[0]`.
    pub first: u8,
    pub glyphs: Vec<Glyph>,
    pub coverage: Vec<u8>,
}

/// Marks a menu's selected row.
///
/// DEL (0x7F) is the one ASCII code point never emitted as text, so the
/// baked fonts carry an arrow in that slot.
pub const ARROW: u8 = 0x7f;

impl Font {
    /// The glyph of a code point, if the font has one.
    pub open spec fn found(self, code: u32) -> Option<Glyph> {
        if code <= 0xFF && self.first <= code && code - self.first < self.glyphs@.len() {
            Some(self.glyphs@[code - self.first])
        } else {
            None
        }
    }

    /// What is drawn for a character: its own glyph, the one of a question
    /// mark, or nothing.
    pub open spec fn drawn_as(self, ch: char) -> Glyph {
        match self.found(ch as u32) {
            Some(g) => g,
            None => match self.found(0x3F) {
                Some(g) => g,
                None => Glyph::nothing(),
            },
        }
    }

    fn lookup(&self, code: u32) -> (r: Option<Glyph>)
        ensures
            r == self.found(code),
    {
        if code <= 0xFF && self.first as u32 <= code {
            let at: u32 = code - self.first as u32;
            if (at as usize) < self.glyphs.len() {
                return Some(self.glyphs[at as usize]);
            }
        }
        None
    }

    pub fn glyph(&self, ch: char) -> (r: Glyph)
        ensures
            r == self.drawn_as(ch),
    {
        match self.lookup(ch as u32) {
            Some(g) => g,
            None => match self.lookup(0x3F) {
                Some(g) => g,
                None => Glyph { x: 0, y: 0, w: 0, h: 0, off: 0 },
            },
        }
    }

    /// One row of a glyph's coverage box, left to right: empty where the
    /// pool ends before it.
    pub open spec fn covered(self, glyph: Glyph, row: int) -> Seq<u8> {
        let start = glyph.off + row * glyph.w;
        if start + glyph.w <= self.coverage@.len() {
            self.coverage@.subrange(start, start + glyph.w)
        } else {
            Seq::empty()
        }
    }

    /// One row of a glyph's coverage box, left to right.
    pub fn row(&self, glyph: &Glyph, row: usize) -> (r: &[u8])
        ensures
            r@ == self.covered(*glyph, row as int),
    {
        assert(0 <= row * glyph.w <= 0xFF * 0xFFFF_FFFF_FFFF_FFFF) by (nonlinear_arith)
            requires
                0 <= row <= 0xFFFF_FFFF_FFFF_FFFF,
                0 <= glyph.w <= 0xFF,
        ;
        let start: u128 = glyph.off as u128 + row as u128 * glyph.w as u128;
        let end: u128 = start + glyph.w as u128;
        let all = self.coverage.as_slice();
        if end <= all.len() as u128 {
            &all[start as usize..end as usize]
        } else {
            &all[0..0]
        }
    }
}

// -------------------------------------------------------------- framebuffer

/// How a graphics mode stores its pixels.
#[derive(Clone, Copy, PartialEq, Eq, Debug)]
pub enum PixelFormat {
    Rgb,
    Bgr,
    /// The masks of red, green, blue and the reserved bits, where the
    /// firmware gives them.
    Bitmask(Option<(u32, u32, u32, u32)>),
    /// No framebuffer the processor can reach.
    BltOnly,
}

/// A framebuffer, plus the rotation applied on every write.
pub struct Framebuffer {
    pub pixels: Vec<u32>,
    /// Pixels per scan line, which is not always the width.
    pub stride: usize,
    /// Physical extent, in the firmware's own coordinates.
    pub width: usize,
    pub height: usize,
    pub red: Channel,
    pub green: Channel,
    pub blue: Channel,
    pub rotation: Rotation,
}

/// The channels of a pixel format that can be drawn in: 32-bit words only.
///
/// The masks of a bitmask mode also settle how wide a pixel is, and such a
/// mode is free to be 16 bits.
pub open spec fn channels_of(format: PixelFormat) -> Option<(Channel, Channel, Channel)> {
    match format {
        PixelFormat::Rgb => Some(
            (
                Channel { shift: 0, bits: 8 },
                Channel { shift: 8, bits: 8 },
                Channel { shift: 16, bits: 8 },
            ),
        ),
        PixelFormat::Bgr => Some(
            (
                Channel { shift: 16, bits: 8 },
                Channel { shift: 8, bits: 8 },
                Channel { shift: 0, bits: 8 },
            ),
        ),
        PixelFormat::Bitmask(None) => None,
        PixelFormat::Bitmask(Some((red, green, blue, reserved))) => if red | green | blue | reserved
            < 0x100_0000 {
            None
        } else {
            Some((Channel::of_mask(red), Channel::of_mask(green), Channel::of_mask(blue)))
        },
        PixelFormat::BltOnly => None,
    }
}

fn channels(format: PixelFormat) -> (r: Option<(Channel, Channel, Channel)>)
    ensures
        r == channels_of(format),
        r matches Some((red, green, blue)) ==> red.wf() && green.wf() && blue.wf(),
{
    match format {
        PixelFormat::Rgb => Some((Channel::fixed(0), Channel::fixed(8), Channel::fixed(16))),
        PixelFormat::Bgr => Some((Channel::fixed(16), Channel::fixed(8), Channel::fixed(0))),
        PixelFormat::Bitmask(None) => None,
        PixelFormat::Bitmask(Some((red, green, blue, reserved))) => {
            if red | green | blue | reserved < 0x100_0000 {
                None
            } else {
                Some(
                    (
                        Channel::from_mask(red),
                        Channel::from_mask(green),
                        Channel::from_mask(blue),
                    ),
                )
            }
        },
        PixelFormat::BltOnly => None,
    }
}

/// A mode of this shape can be drawn in: its extent is not empty, its scan
/// lines hold it, and the firmware's buffer, of `size` bytes, holds every
/// scan line.
pub open spec fn drawable(width: usize, height: usize, stride: usize, size: usize) -> bool {
    width > 0 && height > 0 && stride >= width && stride * height * 4 <= usize::MAX && stride
        * height * 4 <= size
}

/// Blend one component at 8-bit coverage, rounding to nearest.
pub open spec fn mixed(fg: u8, bg: u8, coverage: u8) -> u8 {
    let v = bg * (255 - coverage) + fg * coverage + 128;
    ((v + v / 256) / 256) as u8
}

fn mix(fg: u8, bg: u8, coverage: u8) -> (r: u8)
    ensures
        r == mixed(fg, bg, coverage),
{
    let a: u32 = coverage as u32;
    assert(0 <= bg * (255 - coverage) + fg * coverage <= 255 * 255) by (nonlinear_arith)
        requires
            0 <= bg <= 255,
            0 <= fg <= 255,
            0 <= coverage <= 255,
    ;
    assert(0 <= bg * (255 - coverage) && 0 <= fg * coverage) by (nonlinear_arith)
        requires
            0 <= bg <= 255,
            0 <= fg <= 255,
            0 <= coverage <= 255,
    ;
    // The 128 and the extra term are the usual rounding trick; without them
    // light coverage rounds to nothing and thin strokes fade.
    let v: u32 = bg as u32 * (255 - a) + fg as u32 * a + 128;
    ((v + v / 256) / 256) as u8
}

/// Full coverage is the foreground, none is the background.
pub proof fn blending_ends_at_its_colours(fg: u8, bg: u8)
    ensures
        mixed(fg, bg, 255) == fg,
        mixed(fg, bg, 0) == bg,
{
    let (all, none): (u8, u8) = (255, 0);
    assert(bg * (255 - all) == 0 && fg * all == 255 * fg) by (nonlinear_arith)
        requires
            all == 255,
    ;
    assert(bg * (255 - none) == 255 * bg && fg * none == 0) by (nonlinear_arith)
        requires
            none == 0,
    ;
    assert(mixed(fg, bg, all) == fg);
    assert(mixed(fg, bg, none) == bg);
}

impl Framebuffer {
    /// The buffer holds every scan line, and the channels fit a word.
    pub open spec fn wf(self) -> bool {
        &&& self.width > 0
        &&& self.height > 0
        &&& self.stride >= self.width
        &&& self.pixels@.len() == self.stride * self.height
        &&& self.red.wf()
        &&& self.green.wf()
        &&& self.blue.wf()
    }

    /// The same buffer but for the pixels.
    pub open spec fn same_shape(self, other: Framebuffer) -> bool {
        &&& self.stride == other.stride
        &&& self.width == other.width
        &&& self.height == other.height
        &&& self.red == other.red
        &&& self.green == other.green
        &&& self.blue == other.blue
        &&& self.rotation == other.rotation
    }

    /// A framebuffer for a graphics mode, or `None` if it is not one that
    /// can be drawn in.
    ///
    /// Returning `None` is a normal outcome, not a failure: plenty of
    /// firmware offers only a text console, and the caller falls back to
    /// it.
    pub fn open(
        format: PixelFormat,
        width: usize,
        height: usize,
        stride: usize,
        size: usize,
    ) -> (r: Option<Self>)
        ensures
            r is Some == (channels_of(format) is Some && drawable(width, height, stride, size)),
            r matches Some(fb) ==> {
                &&& fb.wf()
                &&& fb.width == width
                &&& fb.height == height
                &&& fb.stride == stride
                &&& Some((fb.red, fb.green, fb.blue)) == channels_of(format)
                &&& fb.rotation == Rotation::AsIs
                &&& forall|i: int| 0 <= i < fb.pixels@.len() ==> fb.pixels@[i] == 0
            },
    {
        let (red, green, blue): (Channel, Channel, Channel) = match channels(format) {
            Some(found) => found,
            None => return None,
        };
        if width == 0 || height == 0 || stride < width {
            return None;
        }
        let words: usize = match stride.checked_mul(height) {
            Some(words) => words,
            None => {
                assert(stride * height * 4 > usize::MAX);
                return None;
            },
        };
        let needed: usize = match words.checked_mul(4) {
            Some(needed) => needed,
            None => return None,
        };
        if size < needed {
            return None;
        }
        let mut pixels: Vec<u32> = Vec::new();
        let mut i: usize = 0;
        while i < words
            invariant
                i <= words,
                pixels@.len() == i,
                forall|j: int| 0 <= j < i ==> pixels@[j] == 0,
            decreases words - i,
        {
            pixels.push(0);
            i += 1;
        }
        Some(
            Framebuffer {
                pixels,
                stride,
                width,
                height,
                red,
                green,
                blue,
                rotation: Rotation::AsIs,
            },
        )
    }

    /// The orientation to start in.
    ///
    /// A framebuffer taller than it is wide is a panel mounted sideways: no
    /// desktop display is portrait by default, and no firmware chooses a
    /// portrait mode for a landscape screen. That is the Steam Deck, and
    /// the correction is a quarter turn clockwise. Anything else is taken
    /// at face value.
    pub fn guess_rotation(&self) -> (r: Rotation)
        ensures
            r == if self.height > self.width {
                Rotation::Cw90
            } else {
                Rotation::AsIs
            },
    {
        if self.height > self.width {
            Rotation::Cw90
        } else {
            Rotation::AsIs
        }
    }

    pub fn rotation(&self) -> (r: Rotation)
        ensures
            r == self.rotation,
    {
        self.rotation
    }

    pub fn set_rotation(&mut self, rotation: Rotation)
        ensures
            *final(self) == (Framebuffer { rotation, ..*old(self) }),
    {
        self.rotation = rotation;
    }

    /// The drawable area in logical coordinates.
    pub open spec fn extent(self) -> (int, int) {
        self.rotation.seen(self.width as int, self.height as int)
    }

    /// The drawable area in logical coordinates, which is the physical one
    /// with its axes swapped for the quarter turns.
    pub fn logical_size(&self) -> (r: (usize, usize))
        ensures
            (r.0 as int, r.1 as int) == self.extent(),
    {
        self.rotation.logical(self.width, self.height)
    }

    /// A colour as a framebuffer word.
    pub open spec fn packed(self, c: Rgb) -> u32 {
        self.red.placed(c.0) | self.green.placed(c.1) | self.blue.placed(c.2)
    }

    pub fn pack(&self, c: Rgb) -> (r: u32)
        requires
            self.wf(),
        ensures
            r == self.packed(c),
    {
        self.red.pack(c.0) | self.green.pack(c.1) | self.blue.pack(c.2)
    }

    /// `fg` over `bg` at 8-bit coverage, packed.
    pub open spec fn blended(self, fg: Rgb, bg: Rgb, coverage: u8) -> u32 {
        self.packed(
            Rgb(
                mixed(fg.0, bg.0, coverage),
                mixed(fg.1, bg.1, coverage),
                mixed(fg.2, bg.2, coverage),
            ),
        )
    }

    /// Blend `fg` over `bg` at 8-bit coverage, already packed.
    pub fn blend(&self, fg: Rgb, bg: Rgb, coverage: u8) -> (r: u32)
        requires
            self.wf(),
        ensures
            r == self.blended(fg, bg, coverage),
    {
        self.pack(
            Rgb(mix(fg.0, bg.0, coverage), mix(fg.1, bg.1, coverage), mix(fg.2, bg.2, coverage)),
        )
    }

    /// Logical to physical.
    pub open spec fn mapped(self, x: int, y: int) -> (int, int) {
        match self.rotation {
            Rotation::AsIs => (x, y),
            Rotation::Cw90 => (self.width - 1 - y, x),
            Rotation::Half => (self.width - 1 - x, self.height - 1 - y),
            Rotation::Ccw90 => (y, self.height - 1 - x),
        }
    }

    /// Physical to logical.
    pub open spec fn unmapped(self, px: int, py: int) -> (int, int) {
        match self.rotation {
            Rotation::AsIs => (px, py),
            Rotation::Cw90 => (py, self.width - 1 - px),
            Rotation::Half => (self.width - 1 - px, self.height - 1 - py),
            Rotation::Ccw90 => (self.height - 1 - py, px),
        }
    }

    /// The position lies on the picture.
    pub open spec fn visible(self, x: int, y: int) -> bool {
        0 <= x < self.extent().0 && 0 <= y < self.extent().1
    }

    /// Where a logical position is stored.
    pub open spec fn index_of(self, x: int, y: int) -> int {
        self.mapped(x, y).1 * self.stride + self.mapped(x, y).0
    }

    /// What the word at `i` shows, if it is not behind the end of its scan
    /// line.
    pub open spec fn shows(self, i: int) -> Option<(int, int)> {
        if i % self.stride as int >= self.width {
            None
        } else {
            Some(self.unmapped(i % self.stride as int, i / self.stride as int))
        }
    }

    fn map(&self, x: usize, y: usize) -> (r: (usize, usize))
        requires
            self.wf(),
            self.visible(x as int, y as int),
        ensures
            (r.0 as int, r.1 as int) == self.mapped(x as int, y as int),
            r.0 < self.width,
            r.1 < self.height,
    {
        match self.rotation {
            Rotation::AsIs => (x, y),
            Rotation::Cw90 => (self.width - 1 - y, x),
            Rotation::Half => (self.width - 1 - x, self.height - 1 - y),
            Rotation::Ccw90 => (y, self.height - 1 - x),
        }
    }

    /// A word inside the buffer, where `px` and `py` are inside the extent.
    proof fn index_is_inside(self, px: int, py: int)
        requires
            self.wf(),
            0 <= px < self.width,
            0 <= py < self.height,
        ensures
            0 <= py * self.stride + px < self.pixels@.len(),
            (py * self.stride + px) % self.stride as int == px,
            (py * self.stride + px) / self.stride as int == py,
    {
        let i = py * self.stride + px;
        assert(0 <= i < self.stride * self.height) by (nonlinear_arith)
            requires
                i == py * self.stride + px,
                0 <= px < self.width,
                0 <= py < self.height,
                self.stride >= self.width,
        ;
        lemma_fundamental_div_mod_converse(i, self.stride as int, py, px);
    }

    /// A position on the picture is stored in one word, and that word shows
    /// it.
    pub proof fn a_position_has_its_word(self, x: int, y: int)
        requires
            self.wf(),
            self.visible(x, y),
        ensures
            0 <= self.index_of(x, y) < self.pixels@.len(),
            self.shows(self.index_of(x, y)) == Some((x, y)),
    {
        self.index_is_inside(self.mapped(x, y).0, self.mapped(x, y).1);
    }

    /// A word that shows something shows a position on the picture, and is
    /// the one that position is stored in.
    pub proof fn a_word_shows_its_position(self, i: int)
        requires
            self.wf(),
            0 <= i < self.pixels@.len(),
            self.shows(i) is Some,
        ensures
            self.shows(i) matches Some((x, y)) ==> self.visible(x, y) && self.index_of(x, y) == i,
    {
        let (px, py) = (i % self.stride as int, i / self.stride as int);
        lemma_fundamental_div_mod(i, self.stride as int);
        assert(self.stride * py == py * self.stride) by (nonlinear_arith);
        assert(0 <= py < self.height) by (nonlinear_arith)
            requires
                i == py * self.stride + px,
                0 <= px < self.stride,
                0 <= i < self.stride * self.height,
        ;
    }

    /// The pixels with one position changed.
    pub open spec fn with(self, px: Seq<u32>, x: int, y: int, packed: u32) -> Seq<u32> {
        Seq::new(
            px.len(),
            |i: int|
                if self.shows(i) == Some((x, y)) {
                    packed
                } else {
                    px[i]
                },
        )
    }

    /// Write one already-packed pixel at a logical position.
    ///
    /// Out-of-range coordinates are dropped rather than clamped: a clamp
    /// would smear a stray glyph along an edge, where a drop is invisible.
    pub fn put(&mut self, x: usize, y: usize, packed: u32)
        requires
            old(self).wf(),
        ensures
            final(self).wf(),
            final(self).same_shape(*old(self)),
            final(self).pixels@ == old(self).with(old(self).pixels@, x as int, y as int, packed),
    {
        let ghost before = *self;
        let (w, h) = self.logical_size();
        if x >= w || y >= h {
            assert forall|i: int| 0 <= i < before.pixels@.len() implies before.shows(i) != Some(
                (x as int, y as int),
            ) by {
                if before.shows(i) is Some {
                    before.a_word_shows_its_position(i);
                }
            }
            assert(self.pixels@ =~= before.with(before.pixels@, x as int, y as int, packed));
            return;
        }
        let (px, py) = self.map(x, y);
        proof {
            self.index_is_inside(px as int, py as int);
            self.a_position_has_its_word(x as int, y as int);
        }
        assert(self.pixels.len() == self.pixels@.len());
        assert(0 <= py * self.stride) by (nonlinear_arith);
        let at: usize = py * self.stride + px;
        self.pixels.set(at, packed);
        assert forall|i: int| 0 <= i < before.pixels@.len() implies self.pixels@[i] == before.with(before.pixels@, 
            x as int,
            y as int,
            packed,
        )[i] by {
            if before.shows(i) == Some((x as int, y as int)) {
                before.a_word_shows_its_position(i);
            }
        }
        assert(self.pixels@ =~= before.with(before.pixels@, x as int, y as int, packed));
    }

    /// Every pixel of the picture this colour.
    pub open spec fn filled(self, px: Seq<u32>, color: Rgb) -> Seq<u32> {
        Seq::new(
            px.len(),
            |i: int|
                if self.shows(i) is Some {
                    self.packed(color)
                } else {
                    px[i]
                },
        )
    }

    /// Paint the whole physical framebuffer one colour.
    ///
    /// Deliberately ignores rotation and works in scan lines: the result is
    /// identical whichever way round the picture is.
    pub fn fill(&mut self, color: Rgb)
        requires
            old(self).wf(),
        ensures
            final(self).wf(),
            final(self).same_shape(*old(self)),
            final(self).pixels@ == old(self).filled(old(self).pixels@, color),
    {
        let packed: u32 = self.pack(color);
        let ghost before = *self;
        let mut i: usize = 0;
        let mut col: usize = 0;
        while i < self.pixels.len()
            invariant
                before.wf(),
                self.wf(),
                self.same_shape(before),
                packed == before.packed(color),
                i <= self.pixels@.len(),
                self.pixels@.len() == before.pixels@.len(),
                col < self.stride,
                col == i as int % self.stride as int,
                forall|j: int| 0 <= j < i ==> self.pixels@[j] == before.filled(before.pixels@, color)[j],
                forall|j: int| i <= j < self.pixels@.len() ==> self.pixels@[j] == before.pixels@[j],
            decreases self.pixels@.len() - i,
        {
            if col < self.width {
                self.pixels.set(i, packed);
            }
            proof {
                lemma_fundamental_div_mod(i as int, self.stride as int);
                let q = i as int / self.stride as int;
                if col + 1 == self.stride {
                    assert((q + 1) * self.stride == q * self.stride + self.stride)
                        by (nonlinear_arith);
                    assert(self.stride * q == q * self.stride) by (nonlinear_arith);
                    lemma_fundamental_div_mod_converse(i + 1, self.stride as int, q + 1, 0);
                } else {
                    assert(self.stride * q == q * self.stride) by (nonlinear_arith);
                    lemma_fundamental_div_mod_converse(i + 1, self.stride as int, q, col + 1);
                }
            }
            i += 1;
            if col + 1 == self.stride {
                col = 0;
            } else {
                col += 1;
            }
        }
        assert(self.pixels@ =~= before.filled(before.pixels@, color));
    }

    /// A logical rectangle in one colour.
    pub open spec fn boxed(self, px: Seq<u32>, x: int, y: int, w: int, h: int, packed: u32) -> Seq<u32> {
        Seq::new(
            px.len(),
            |i: int|
                match self.shows(i) {
                    Some((lx, ly)) => if x <= lx < x + w && y <= ly < y + h {
                        packed
                    } else {
                        px[i]
                    },
                    None => px[i],
                },
        )
    }

    /// Fill a logical rectangle.
    pub fn fill_rect(&mut self, x: usize, y: usize, w: usize, h: usize, color: Rgb)
        requires
            old(self).wf(),
            x + w <= usize::MAX,
            y + h <= usize::MAX,
        ensures
            final(self).wf(),
            final(self).same_shape(*old(self)),
            final(self).pixels@ == old(self).boxed(old(self).pixels@, 
                x as int,
                y as int,
                w as int,
                h as int,
                old(self).packed(color),
            ),
    {
        let packed: u32 = self.pack(color);
        let ghost before = *self;
        let mut dy: usize = 0;
        assert(self.pixels@ =~= before.boxed(before.pixels@, x as int, y as int, w as int, 0, packed));
        while dy < h
            invariant
                before.wf(),
                self.wf(),
                self.same_shape(before),
                x + w <= usize::MAX,
                y + h <= usize::MAX,
                dy <= h,
                self.pixels@ == before.boxed(before.pixels@, x as int, y as int, w as int, dy as int, packed),
            decreases h - dy,
        {
            let ghost row = *self;
            let mut dx: usize = 0;
            assert(self.pixels@ =~= row.boxed(row.pixels@, x as int, y + dy, 0, 1, packed));
            while dx < w
                invariant
                    row.wf(),
                    self.wf(),
                    self.same_shape(row),
                    x + w <= usize::MAX,
                    y + h <= usize::MAX,
                    dx <= w,
                    dy < h,
                    self.pixels@ == row.boxed(row.pixels@, x as int, y + dy, dx as int, 1, packed),
                decreases w - dx,
            {
                let ghost was = *self;
                self.put(x + dx, y + dy, packed);
                dx += 1;
                assert(self.pixels@ =~= row.boxed(row.pixels@, x as int, y + dy, dx as int, 1, packed));
            }
            dy += 1;
            assert(self.pixels@ =~= before.boxed(before.pixels@, x as int, y as int, w as int, dy as int, packed));
        }
    }

    /// How far a glyph's box covers a position, drawn in a cell at `x`, `y`.
    pub open spec fn coverage_at(font: Font, g: Glyph, x: int, y: int, lx: int, ly: int) -> u8 {
        let col = lx - x - g.x;
        let row = ly - y - g.y;
        if 0 <= row < g.h && 0 <= col < font.covered(g, row).len() {
            font.covered(g, row)[col]
        } else {
            0
        }
    }

    /// A colour at this coverage over the cell's background.
    pub open spec fn shade(self, fg: Rgb, bg: Rgb, coverage: u8) -> u32 {
        if coverage == 0xFF {
            self.packed(fg)
        } else {
            self.blended(fg, bg, coverage)
        }
    }

    /// One glyph over whatever is there, its first `rows` rows.
    pub open spec fn inked(
        self, px: Seq<u32>,
        font: Font,
        g: Glyph,
        x: int,
        y: int,
        fg: Rgb,
        bg: Rgb,
        rows: int,
    ) -> Seq<u32> {
        Seq::new(
            px.len(),
            |i: int|
                match self.shows(i) {
                    Some((lx, ly)) => {
                        let c = Framebuffer::coverage_at(font, g, x, y, lx, ly);
                        if c != 0 && ly - y - g.y < rows {
                            self.shade(fg, bg, c)
                        } else {
                            px[i]
                        }
                    },
                    None => px[i],
                },
        )
    }

    /// One glyph over a filled cell.
    pub open spec fn celled(
        self, px: Seq<u32>,
        font: Font,
        ch: char,
        x: int,
        y: int,
        fg: Rgb,
        bg: Rgb,
    ) -> Seq<u32> {
        let g = font.drawn_as(ch);
        Seq::new(
            px.len(),
            |i: int|
                match self.shows(i) {
                    Some((lx, ly)) => {
                        let c = Framebuffer::coverage_at(font, g, x, y, lx, ly);
                        if c != 0 {
                            self.shade(fg, bg, c)
                        } else if x <= lx < x + font.cell_w && y <= ly < y + font.cell_h {
                            self.packed(bg)
                        } else {
                            px[i]
                        }
                    },
                    None => px[i],
                },
        )
    }

    /// One row of a glyph over whatever is there, its first `cols` columns.
    spec fn inked_row(
        self, px: Seq<u32>,
        font: Font,
        g: Glyph,
        x: int,
        y: int,
        fg: Rgb,
        bg: Rgb,
        row: int,
        cols: int,
    ) -> Seq<u32> {
        Seq::new(
            px.len(),
            |i: int|
                match self.shows(i) {
                    Some((lx, ly)) => {
                        let c = Framebuffer::coverage_at(font, g, x, y, lx, ly);
                        if c != 0 && ly - y - g.y == row && lx - x - g.x < cols {
                            self.shade(fg, bg, c)
                        } else {
                            px[i]
                        }
                    },
                    None => px[i],
                },
        )
    }

    fn ink_row(
        &mut self,
        font: &Font,
        glyph: &Glyph,
        x: usize,
        y: usize,
        fg: Rgb,
        bg: Rgb,
        row: usize,
    )
        requires
            old(self).wf(),
            row < glyph.h,
            x + 0x1FE <= usize::MAX,
            y + 0x1FE <= usize::MAX,
        ensures
            final(self).wf(),
            final(self).same_shape(*old(self)),
            final(self).pixels@ == old(self).inked_row(old(self).pixels@, 
                *font,
                *glyph,
                x as int,
                y as int,
                fg,
                bg,
                row as int,
                0x100,
            ),
    {
        let ghost before = *self;
        let covered = font.row(glyph, row);
        let mut col: usize = 0;
        assert(self.pixels@ =~= before.inked_row(before.pixels@, 
            *font,
            *glyph,
            x as int,
            y as int,
            fg,
            bg,
            row as int,
            0,
        ));
        while col < covered.len()
            invariant
                before.wf(),
                self.wf(),
                self.same_shape(before),
                row < glyph.h,
                x + 0x1FE <= usize::MAX,
                y + 0x1FE <= usize::MAX,
                covered@ == font.covered(*glyph, row as int),
                covered@.len() <= 0xFF,
                col <= covered@.len(),
                self.pixels@ == before.inked_row(before.pixels@, 
                    *font,
                    *glyph,
                    x as int,
                    y as int,
                    fg,
                    bg,
                    row as int,
                    col as int,
                ),
            decreases covered@.len() - col,
        {
            let coverage: u8 = covered[col];
            if coverage != 0 {
                let packed: u32 = if coverage == 0xFF {
                    self.pack(fg)
                } else {
                    self.blend(fg, bg, coverage)
                };
                self.put(x + glyph.x as usize + col, y + glyph.y as usize + row, packed);
            }
            col += 1;
            assert(self.pixels@ =~= before.inked_row(before.pixels@, 
                *font,
                *glyph,
                x as int,
                y as int,
                fg,
                bg,
                row as int,
                col as int,
            ));
        }
        assert(self.pixels@ =~= before.inked_row(before.pixels@, 
            *font,
            *glyph,
            x as int,
            y as int,
            fg,
            bg,
            row as int,
            0x100,
        ));
    }

    /// Draw one glyph over a filled cell.
    ///
    /// The cell is painted whole every time rather than only where the
    /// glyph changed, because that is what makes a repaint idempotent: the
    /// caller can redraw any cell at any moment without knowing what used
    /// to be there.
    pub fn draw_cell(&mut self, font: &Font, ch: char, x: usize, y: usize, fg: Rgb, bg: Rgb)
        requires
            old(self).wf(),
            x + font.cell_w <= usize::MAX,
            y + font.cell_h <= usize::MAX,
            x + 0x1FE <= usize::MAX,
            y + 0x1FE <= usize::MAX,
        ensures
            final(self).wf(),
            final(self).same_shape(*old(self)),
            final(self).pixels@ == old(self).celled(old(self).pixels@, *font, ch, x as int, y as int, fg, bg),
    {
        let ghost start = *self;
        self.fill_rect(x, y, font.cell_w, font.cell_h, bg);
        let ghost before = *self;
        let glyph = font.glyph(ch);
        if glyph.is_blank() {
            assert(self.pixels@ =~= start.celled(start.pixels@, *font, ch, x as int, y as int, fg, bg));
            return;
        }
        let mut row: usize = 0;
        assert(self.pixels@ =~= before.inked(before.pixels@, *font, glyph, x as int, y as int, fg, bg, 0));
        while row < glyph.h as usize
            invariant
                before.wf(),
                self.wf(),
                self.same_shape(before),
                x + 0x1FE <= usize::MAX,
                y + 0x1FE <= usize::MAX,
                row <= glyph.h,
                self.pixels@ == before.inked(before.pixels@, 
                    *font,
                    glyph,
                    x as int,
                    y as int,
                    fg,
                    bg,
                    row as int,
                ),
            decreases glyph.h - row,
        {
            self.ink_row(font, &glyph, x, y, fg, bg, row);
            row += 1;
            assert(self.pixels@ =~= before.inked(before.pixels@, 
                *font,
                glyph,
                x as int,
                y as int,
                fg,
                bg,
                row as int,
            ));
        }
        assert(self.pixels@ =~= start.celled(start.pixels@, *font, ch, x as int, y as int, fg, bg));
    }
}

/// Two framebuffers of one shape draw a cell alike.
pub proof fn a_cell_depends_on_the_shape(
    a: Framebuffer,
    b: Framebuffer,
    px: Seq<u32>,
    font: Font,
    ch: char,
    x: int,
    y: int,
    fg: Rgb,
    bg: Rgb,
)
    requires
        a.same_shape(b),
    ensures
        a.celled(px, font, ch, x, y, fg, bg) == b.celled(px, font, ch, x, y, fg, bg),
{
    assert(a.celled(px, font, ch, x, y, fg, bg) =~= b.celled(px, font, ch, x, y, fg, bg));
}

/// Drawing a cell again changes nothing.
pub proof fn repainting_changes_nothing(
    fb: Framebuffer,
    px: Seq<u32>,
    font: Font,
    ch: char,
    x: int,
    y: int,
    fg: Rgb,
    bg: Rgb,
)
    ensures
        fb.celled(fb.celled(px, font, ch, x, y, fg, bg), font, ch, x, y, fg, bg) == fb.celled(
            px,
            font,
            ch,
            x,
            y,
            fg,
            bg,
        ),
{
    assert(fb.celled(fb.celled(px, font, ch, x, y, fg, bg), font, ch, x, y, fg, bg) =~= fb.celled(
        px,
        font,
        ch,
        x,
        y,
        fg,
        bg,
    ));
}

} // verus!
