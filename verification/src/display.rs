//! Display-side value types: windows, mouse state, window events and colours
//! with their packed pixel encodings.
use vstd::prelude::*;

verus! {

/// Geometry of the linear framebuffer and its back buffer.
pub struct DisplayServer {
    pub width: u64,
    pub pitch: u64,
    pub height: u64,
    pub depth: usize,
    pub framebuffer: u64,
    pub double_buffer: u64,
}

/// A window as the compositor tracks it.
#[derive(Debug, Clone, Copy, PartialEq, Eq)]
pub struct Window {
    pub id: usize,
    pub size_i: (u64, u64),
    pub size_f: (u64, u64),
    pub mouse_handler: usize,
    pub draw_handler: usize,
    pub z_index: usize,
}

/// Pointer position, buttons and cursor shape.
pub struct Mouse {
    pub x: u16,
    pub y: u16,
    pub left: bool,
    pub center: bool,
    pub right: bool,
    pub state: State,
}

/// Cursor shape.
pub enum State {
    Point,
    Write,
    Click,
}

/// What happened to a window.
pub enum EventType {
    Close,
    Resize,
    Minimize,
    Refresh,
    Clicked { buttons: [bool; 3], x: u64, y: u64 },
}

/// An event record as it is handed to user space.
#[derive(Debug, Copy, Clone)]
pub struct Event {
    pub id: usize,
    pub addr: usize,
    pub args: [usize; 4],
}

/// An RGBA colour with 8 bits per channel.
#[derive(Clone, Copy, Debug, PartialEq, Eq, Structural)]
pub struct Color {
    r: u8,
    g: u8,
    b: u8,
    a: u8,
}

/// The value of an RGB565 pixel built from 8-bit channels: the top five bits
/// of red, the top six of green and the top five of blue.
pub open spec fn rgb565(r: u8, g: u8, b: u8) -> int {
    (r / 8) as int * 2048 + (g / 4) as int * 32 + (b / 8) as int
}

/// Widens a 5-bit channel to 8 bits by repeating its top bits below it.
pub open spec fn widen5(v: int) -> int {
    v * 8 + v / 4
}

/// Widens a 6-bit channel to 8 bits by repeating its top bits below it.
pub open spec fn widen6(v: int) -> int {
    v * 4 + v / 16
}

impl View for Color {
    type V = (u8, u8, u8, u8);

    /// The channels as (red, green, blue, alpha).
    closed spec fn view(&self) -> (u8, u8, u8, u8) {
        (self.r, self.g, self.b, self.a)
    }
}

impl Color {
    /// Fully transparent black.
    pub fn new() -> (c: Color)
        ensures
            c@ == (0u8, 0u8, 0u8, 0u8),
    {
        Color { r: 0, g: 0, b: 0, a: 0 }
    }

    /// An opaque colour.
    pub fn rgb(r: u8, g: u8, b: u8) -> (c: Color)
        ensures
            c@ == (r, g, b, 255u8),
    {
        Color { r, g, b, a: 255 }
    }

    /// A colour with the given alpha.
    pub fn rgba(r: u8, g: u8, b: u8, a: u8) -> (c: Color)
        ensures
            c@ == (r, g, b, a),
    {
        Color { r, g, b, a }
    }

    /// Packs the colour as RGB565, dropping alpha and the low channel bits.
    pub fn to_u16(&self) -> (p: u16)
        ensures
            p == rgb565(self@.0, self@.1, self@.2),
    {
        let rr: u8 = self.r;
        let gg: u8 = self.g;
        let bb: u8 = self.b;
        let r: u16 = (rr >> 3u8) as u16;
        let g: u16 = (gg >> 2u8) as u16;
        let b: u16 = (bb >> 3u8) as u16;
        let p: u16 = (r << 11u16) | (g << 5u16) | b;
        assert(p == (rr / 8) as int * 2048 + (gg / 4) as int * 32 + (bb / 8) as int) by (bit_vector)
            requires
                r == (rr >> 3u8) as u16,
                g == (gg >> 2u8) as u16,
                b == (bb >> 3u8) as u16,
                p == (r << 11u16) | (g << 5u16) | b,
        ;
        p
    }

    /// Packs the colour as 0xAARRGGBB.
    pub fn to_u32(&self) -> (p: u32)
        ensures
            p == self@.3 as int * 0x1000000 + self@.0 as int * 0x10000 + self@.1 as int * 0x100
                + self@.2 as int,
    {
        let a: u32 = self.a as u32;
        let r: u32 = self.r as u32;
        let g: u32 = self.g as u32;
        let b: u32 = self.b as u32;
        let p: u32 = (a << 24u32) | (r << 16u32) | (g << 8u32) | b;
        assert(p == a * 0x1000000 + r * 0x10000 + g * 0x100 + b) by (bit_vector)
            requires
                a < 256,
                r < 256,
                g < 256,
                b < 256,
                p == (a << 24u32) | (r << 16u32) | (g << 8u32) | b,
        ;
        p
    }

    /// The colour as three bytes in blue, green, red order.
    pub fn to_u24(&self) -> (p: [u8; 3])
        ensures
            p@ == seq![self@.2, self@.1, self@.0],
    {
        [self.b, self.g, self.r]
    }

    /// Unpacks an RGB565 pixel into an opaque colour, widening each channel
    /// to 8 bits.
    pub fn from_u16(rgb: u16) -> (c: Color)
        ensures
            c@.0 == widen5((rgb / 2048) as int),
            c@.1 == widen6(((rgb / 32) % 64) as int),
            c@.2 == widen5((rgb % 32) as int),
            c@.3 == 255,
    {
        let r5: u8 = ((rgb >> 11u16) & 0x1Fu16) as u8;
        let g6: u8 = ((rgb >> 5u16) & 0x3Fu16) as u8;
        let b5: u8 = (rgb & 0x1Fu16) as u8;
        let r: u8 = (r5 << 3u8) | (r5 >> 2u8);
        let g: u8 = (g6 << 2u8) | (g6 >> 4u8);
        let b: u8 = (b5 << 3u8) | (b5 >> 2u8);
        assert(r == (rgb / 2048) * 8 + (rgb / 2048) / 4) by (bit_vector)
            requires
                r5 == ((rgb >> 11u16) & 0x1Fu16) as u8,
                r == (r5 << 3u8) | (r5 >> 2u8),
        ;
        assert(g == ((rgb / 32) % 64) * 4 + ((rgb / 32) % 64) / 16) by (bit_vector)
            requires
                g6 == ((rgb >> 5u16) & 0x3Fu16) as u8,
                g == (g6 << 2u8) | (g6 >> 4u8),
        ;
        assert(b == (rgb % 32) * 8 + (rgb % 32) / 4) by (bit_vector)
            requires
                b5 == (rgb & 0x1Fu16) as u8,
                b == (b5 << 3u8) | (b5 >> 2u8),
        ;
        Color { r, g, b, a: 0xFF }
    }

    /// Unpacks 0xRRGGBBAA.
    pub fn from_u32(rgba: u32) -> (c: Color)
        ensures
            c@.0 == rgba / 0x1000000,
            c@.1 == (rgba / 0x10000) % 0x100,
            c@.2 == (rgba / 0x100) % 0x100,
            c@.3 == rgba % 0x100,
    {
        let r: u8 = ((rgba >> 24u32) & 0xFFu32) as u8;
        let g: u8 = ((rgba >> 16u32) & 0xFFu32) as u8;
        let b: u8 = ((rgba >> 8u32) & 0xFFu32) as u8;
        let a: u8 = (rgba & 0xFFu32) as u8;
        assert(r == rgba / 0x1000000 && g == (rgba / 0x10000) % 0x100 && b == (rgba / 0x100)
            % 0x100 && a == rgba % 0x100) by (bit_vector)
            requires
                r == ((rgba >> 24u32) & 0xFFu32) as u8,
                g == ((rgba >> 16u32) & 0xFFu32) as u8,
                b == ((rgba >> 8u32) & 0xFFu32) as u8,
                a == (rgba & 0xFFu32) as u8,
        ;
        Color { r, g, b, a }
    }

    /// Unpacks 0x??RRGGBB into an opaque colour; the top byte is ignored.
    pub fn from_u24(rgb24: u32) -> (c: Color)
        ensures
            c@.0 == (rgb24 / 0x10000) % 0x100,
            c@.1 == (rgb24 / 0x100) % 0x100,
            c@.2 == rgb24 % 0x100,
            c@.3 == 255,
    {
        let r: u8 = ((rgb24 >> 16u32) & 0xFFu32) as u8;
        let g: u8 = ((rgb24 >> 8u32) & 0xFFu32) as u8;
        let b: u8 = (rgb24 & 0xFFu32) as u8;
        assert(r == (rgb24 / 0x10000) % 0x100 && g == (rgb24 / 0x100) % 0x100 && b == rgb24
            % 0x100) by (bit_vector)
            requires
                r == ((rgb24 >> 16u32) & 0xFFu32) as u8,
                g == ((rgb24 >> 8u32) & 0xFFu32) as u8,
                b == (rgb24 & 0xFFu32) as u8,
        ;
        Color { r, g, b, a: 0xFF }
    }
}

/// Unpacking an RGB565 pixel and packing it again gives the same pixel: the
/// widened channels keep their top bits.
pub proof fn lemma_rgb565_round_trip(p: u16)
    ensures
        ({
            let r = widen5((p / 2048) as int);
            let g = widen6(((p / 32) % 64) as int);
            let b = widen5((p % 32) as int);
            0 <= r < 256 && 0 <= g < 256 && 0 <= b < 256 && rgb565(r as u8, g as u8, b as u8)
                == p
        }),
{
    let r5 = p / 2048;
    let g6 = (p / 32) % 64;
    let b5 = p % 32;
    assert(r5 < 32);
    assert(g6 < 64);
    assert(b5 < 32);
    let r = widen5(r5 as int);
    let g = widen6(g6 as int);
    let b = widen5(b5 as int);
    assert((r as u8) / 8 == r5);
    assert((g as u8) / 4 == g6);
    assert((b as u8) / 8 == b5);
    assert(r5 * 2048 + g6 * 32 + b5 == p) by (nonlinear_arith)
        requires
            r5 == p / 2048,
            g6 == (p / 32) % 64,
            b5 == p % 32,
            p < 65536,
    ;
}

} // verus!
