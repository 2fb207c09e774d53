//! PS/2 input: scancode set 1 decoding with modifier state, the global
//! shortcut rules of the window system, and mouse packet assembly.
use vstd::prelude::*;

verus! {

/// Cursor left.
pub const KEY_LEFT: u32 = 0x110001;
/// Cursor right.
pub const KEY_RIGHT: u32 = 0x110002;
/// Cursor up.
pub const KEY_UP: u32 = 0x110003;
/// Cursor down.
pub const KEY_DOWN: u32 = 0x110004;
/// Backspace.
pub const KEY_BACKSPACE: u32 = 0x08;
/// Enter.
pub const KEY_ENTER: u32 = 0x0D;
/// Control.
pub const KEY_CTRL: u32 = 0x110005;
/// Alt.
pub const KEY_ALT: u32 = 0x110006;
/// Shift.
pub const KEY_SHIFT: u32 = 0x110007;
/// Super (the Windows key). The decoder reports it through the Super flag
/// rather than as a key; shortcuts compare against this code.
pub const KEY_SUPER: u32 = 0x110008;

/// The lowercase layer of the keyboard layout, by scancode (0 for no character).
pub open spec fn lowercase_layer() -> Seq<u32> {
    seq![0u32, 27u32, 49u32, 50u32, 51u32, 52u32, 53u32, 54u32, 55u32, 56u32, 57u32, 48u32, 39u32, 236u32, 8u32, 9u32, 113u32, 119u32, 101u32, 114u32, 116u32, 121u32, 117u32, 105u32, 111u32, 112u32, 232u32, 43u32, 10u32, 0u32, 97u32, 115u32, 100u32, 102u32, 103u32, 104u32, 106u32, 107u32, 108u32, 242u32, 224u32, 92u32, 0u32, 249u32, 122u32, 120u32, 99u32, 118u32, 98u32, 110u32, 109u32, 44u32, 46u32, 45u32, 0u32, 0u32, 0u32, 32u32, 0u32, 0u32, 0u32, 0u32, 0u32, 0u32, 0u32, 0u32, 0u32, 0u32, 0u32, 0u32, 0u32, 0u32, 0u32, 0u32, 0u32, 0u32, 0u32, 0u32, 0u32, 0u32, 0u32, 0u32, 0u32, 0u32, 0u32, 0u32, 60u32, 0u32, 0u32, 0u32, 0u32, 0u32, 0u32, 0u32, 0u32, 0u32, 0u32, 0u32, 0u32, 0u32, 0u32, 0u32, 0u32, 0u32, 0u32, 0u32, 0u32, 0u32, 0u32, 0u32, 0u32, 0u32, 0u32, 0u32, 0u32, 0u32, 0u32, 0u32, 0u32, 0u32, 0u32, 0u32, 0u32, 0u32, 0u32, 0u32, 0u32, 0u32]
}

fn lowercase_char(code: u8) -> (c: u32)
    requires
        code < 128,
    ensures
        c == lowercase_layer()[code as int],
{
    let t: [u32; 128] = [0u32, 27u32, 49u32, 50u32, 51u32, 52u32, 53u32, 54u32, 55u32, 56u32, 57u32, 48u32, 39u32, 236u32, 8u32, 9u32, 113u32, 119u32, 101u32, 114u32, 116u32, 121u32, 117u32, 105u32, 111u32, 112u32, 232u32, 43u32, 10u32, 0u32, 97u32, 115u32, 100u32, 102u32, 103u32, 104u32, 106u32, 107u32, 108u32, 242u32, 224u32, 92u32, 0u32, 249u32, 122u32, 120u32, 99u32, 118u32, 98u32, 110u32, 109u32, 44u32, 46u32, 45u32, 0u32, 0u32, 0u32, 32u32, 0u32, 0u32, 0u32, 0u32, 0u32, 0u32, 0u32, 0u32, 0u32, 0u32, 0u32, 0u32, 0u32, 0u32, 0u32, 0u32, 0u32, 0u32, 0u32, 0u32, 0u32, 0u32, 0u32, 0u32, 0u32, 0u32, 0u32, 0u32, 60u32, 0u32, 0u32, 0u32, 0u32, 0u32, 0u32, 0u32, 0u32, 0u32, 0u32, 0u32, 0u32, 0u32, 0u32, 0u32, 0u32, 0u32, 0u32, 0u32, 0u32, 0u32, 0u32, 0u32, 0u32, 0u32, 0u32, 0u32, 0u32, 0u32, 0u32, 0u32, 0u32, 0u32, 0u32, 0u32, 0u32, 0u32, 0u32, 0u32, 0u32, 0u32];
    assert(t@ =~= lowercase_layer());
    t[code as usize]
}

/// The uppercase layer of the keyboard layout, by scancode (0 for no character).
pub open spec fn uppercase_layer() -> Seq<u32> {
    seq![0u32, 27u32, 33u32, 34u32, 163u32, 36u32, 37u32, 38u32, 47u32, 40u32, 41u32, 61u32, 63u32, 94u32, 8u32, 9u32, 81u32, 87u32, 69u32, 82u32, 84u32, 89u32, 85u32, 73u32, 79u32, 80u32, 233u32, 42u32, 10u32, 0u32, 65u32, 83u32, 68u32, 70u32, 71u32, 72u32, 74u32, 75u32, 76u32, 231u32, 176u32, 124u32, 0u32, 167u32, 90u32, 88u32, 67u32, 86u32, 66u32, 78u32, 77u32, 59u32, 58u32, 95u32, 0u32, 0u32, 0u32, 32u32, 0u32, 0u32, 0u32, 0u32, 0u32, 0u32, 0u32, 0u32, 0u32, 0u32, 0u32, 0u32, 0u32, 0u32, 0u32, 0u32, 0u32, 0u32, 0u32, 0u32, 0u32, 0u32, 0u32, 0u32, 0u32, 0u32, 0u32, 0u32, 62u32, 0u32, 0u32, 0u32, 0u32, 0u32, 0u32, 0u32, 0u32, 0u32, 0u32, 0u32, 0u32, 0u32, 0u32, 0u32, 0u32, 0u32, 0u32, 0u32, 0u32, 0u32, 0u32, 0u32, 0u32, 0u32, 0u32, 0u32, 0u32, 0u32, 0u32, 0u32, 0u32, 0u32, 0u32, 0u32, 0u32, 0u32, 0u32, 0u32, 0u32, 0u32]
}

fn uppercase_char(code: u8) -> (c: u32)
    requires
        code < 128,
    ensures
        c == uppercase_layer()[code as int],
{
    let t: [u32; 128] = [0u32, 27u32, 33u32, 34u32, 163u32, 36u32, 37u32, 38u32, 47u32, 40u32, 41u32, 61u32, 63u32, 94u32, 8u32, 9u32, 81u32, 87u32, 69u32, 82u32, 84u32, 89u32, 85u32, 73u32, 79u32, 80u32, 233u32, 42u32, 10u32, 0u32, 65u32, 83u32, 68u32, 70u32, 71u32, 72u32, 74u32, 75u32, 76u32, 231u32, 176u32, 124u32, 0u32, 167u32, 90u32, 88u32, 67u32, 86u32, 66u32, 78u32, 77u32, 59u32, 58u32, 95u32, 0u32, 0u32, 0u32, 32u32, 0u32, 0u32, 0u32, 0u32, 0u32, 0u32, 0u32, 0u32, 0u32, 0u32, 0u32, 0u32, 0u32, 0u32, 0u32, 0u32, 0u32, 0u32, 0u32, 0u32, 0u32, 0u32, 0u32, 0u32, 0u32, 0u32, 0u32, 0u32, 62u32, 0u32, 0u32, 0u32, 0u32, 0u32, 0u32, 0u32, 0u32, 0u32, 0u32, 0u32, 0u32, 0u32, 0u32, 0u32, 0u32, 0u32, 0u32, 0u32, 0u32, 0u32, 0u32, 0u32, 0u32, 0u32, 0u32, 0u32, 0u32, 0u32, 0u32, 0u32, 0u32, 0u32, 0u32, 0u32, 0u32, 0u32, 0u32, 0u32, 0u32, 0u32];
    assert(t@ =~= uppercase_layer());
    t[code as usize]
}

/// The alt layer of the keyboard layout, by scancode (0 for no character).
pub open spec fn alt_layer() -> Seq<u32> {
    seq![0u32, 0u32, 0u32, 0u32, 0u32, 0u32, 0u32, 0u32, 123u32, 91u32, 93u32, 125u32, 0u32, 0u32, 0u32, 0u32, 64u32, 0u32, 8364u32, 0u32, 0u32, 0u32, 0u32, 0u32, 0u32, 0u32, 91u32, 93u32, 0u32, 0u32, 0u32, 0u32, 0u32, 0u32, 0u32, 0u32, 0u32, 0u32, 0u32, 64u32, 35u32, 0u32, 0u32, 0u32, 0u32, 0u32, 0u32, 0u32, 0u32, 0u32, 0u32, 0u32, 0u32, 0u32, 0u32, 0u32, 0u32, 0u32, 0u32, 0u32, 0u32, 0u32, 0u32, 0u32, 0u32, 0u32, 0u32, 0u32, 0u32, 0u32, 0u32, 0u32, 0u32, 0u32, 0u32, 0u32, 0u32, 0u32, 0u32, 0u32, 0u32, 0u32, 0u32, 0u32, 0u32, 0u32, 0u32, 0u32, 0u32, 0u32, 0u32, 0u32, 0u32, 0u32, 0u32, 0u32, 0u32, 0u32, 0u32, 0u32, 0u32, 0u32, 0u32, 0u32, 0u32, 0u32, 0u32, 0u32, 0u32, 0u32, 0u32, 0u32, 0u32, 0u32, 0u32, 0u32, 0u32, 0u32, 0u32, 0u32, 0u32, 0u32, 0u32, 0u32, 0u32, 0u32, 0u32, 0u32]
}

fn alt_char(code: u8) -> (c: u32)
    requires
        code < 128,
    ensures
        c == alt_layer()[code as int],
{
    let t: [u32; 128] = [0u32, 0u32, 0u32, 0u32, 0u32, 0u32, 0u32, 0u32, 123u32, 91u32, 93u32, 125u32, 0u32, 0u32, 0u32, 0u32, 64u32, 0u32, 8364u32, 0u32, 0u32, 0u32, 0u32, 0u32, 0u32, 0u32, 91u32, 93u32, 0u32, 0u32, 0u32, 0u32, 0u32, 0u32, 0u32, 0u32, 0u32, 0u32, 0u32, 64u32, 35u32, 0u32, 0u32, 0u32, 0u32, 0u32, 0u32, 0u32, 0u32, 0u32, 0u32, 0u32, 0u32, 0u32, 0u32, 0u32, 0u32, 0u32, 0u32, 0u32, 0u32, 0u32, 0u32, 0u32, 0u32, 0u32, 0u32, 0u32, 0u32, 0u32, 0u32, 0u32, 0u32, 0u32, 0u32, 0u32, 0u32, 0u32, 0u32, 0u32, 0u32, 0u32, 0u32, 0u32, 0u32, 0u32, 0u32, 0u32, 0u32, 0u32, 0u32, 0u32, 0u32, 0u32, 0u32, 0u32, 0u32, 0u32, 0u32, 0u32, 0u32, 0u32, 0u32, 0u32, 0u32, 0u32, 0u32, 0u32, 0u32, 0u32, 0u32, 0u32, 0u32, 0u32, 0u32, 0u32, 0u32, 0u32, 0u32, 0u32, 0u32, 0u32, 0u32, 0u32, 0u32, 0u32, 0u32, 0u32];
    assert(t@ =~= alt_layer());
    t[code as usize]
}

/// The modifier state the decoder keeps between scancodes.
#[derive(Debug, Copy, Clone, PartialEq, Eq, Structural)]
pub struct KeyboardState {
    pub shift: bool,
    pub e0: bool,
    pub super_key: bool,
    pub alt: bool,
}

/// Whether a scancode (without its release bit) is in one of the rows of
/// character keys.
pub open spec fn is_char_key(v: u8) -> bool {
    (0x02 <= v <= 0x0D) || (0x10 <= v <= 0x1B) || (0x1E <= v <= 0x28) || (0x2B <= v <= 0x35) || v == 0x3A
}

/// The character of a character key under the current modifiers (Alt
/// layer first, then Shift).
pub open spec fn layer_char(st: KeyboardState, v: u8) -> u32 {
    if st.alt { alt_layer()[v as int] } else if st.shift { uppercase_layer()[v as int] } else { lowercase_layer()[v as int] }
}

/// One scancode: the new modifier state and the key event it produces, if
/// any. `0xE0` only announces an extended code; bit 7 marks a release.
pub open spec fn decode(st: KeyboardState, scancode: u8) -> (KeyboardState, Option<(u32, bool)>) {
    if scancode == 0xE0 {
        (KeyboardState { e0: true, ..st }, None)
    } else {
        let e0 = st.e0;
        let s = KeyboardState { e0: false, ..st };
        let release = scancode & 0x80u8 != 0;
        let v = if release { scancode & 0x7Fu8 } else { scancode };
        let p = !release;
        if (v == 0x5B || v == 0x5C) && e0 {
            (KeyboardState { super_key: p, ..s }, None)
        } else if v == 0x38 {
            (KeyboardState { alt: p, ..s }, Some((KEY_ALT, p)))
        } else if v == 0x2A || v == 0x36 {
            (KeyboardState { shift: p, ..s }, Some((KEY_SHIFT, p)))
        } else if v == 0x1D {
            (s, Some((KEY_CTRL, p)))
        } else if v == 0x0E {
            (s, Some((KEY_BACKSPACE, p)))
        } else if v == 0x1C {
            (s, Some((KEY_ENTER, p)))
        } else if v == 0x39 {
            (s, Some((32u32, p)))
        } else if v == 0x01 {
            (s, Some((27u32, p)))
        } else if v == 0x0F {
            (s, Some((9u32, p)))
        } else if v == 0x4B && e0 {
            (s, Some((KEY_LEFT, p)))
        } else if v == 0x4D && e0 {
            (s, Some((KEY_RIGHT, p)))
        } else if v == 0x48 && e0 {
            (s, Some((KEY_UP, p)))
        } else if v == 0x50 && e0 {
            (s, Some((KEY_DOWN, p)))
        } else if v == 0x56 {
            (s, Some((if s.shift { 62u32 } else { 60u32 }, p)))
        } else if is_char_key(v) && v < 128 {
            let c = layer_char(s, v);
            (s, if c != 0 { Some((c, p)) } else { None })
        } else {
            (s, None)
        }
    }
}

/// The letter a letter key carries on a QWERTY keyboard, by its scancode:
/// `q` to `p` from 0x10, `a` to `l` from 0x1E, `z` to `m` from 0x2C; 0 for
/// any other key.
pub open spec fn qwerty_letter(v: u8) -> u32 {
    if 0x10 <= v <= 0x19 {
        "qwertyuiop"@[v - 0x10] as u32
    } else if 0x1E <= v <= 0x26 {
        "asdfghjkl"@[v - 0x1E] as u32
    } else if 0x2C <= v <= 0x32 {
        "zxcvbnm"@[v - 0x2C] as u32
    } else {
        0
    }
}

/// The letter keys give their QWERTY letter in lower case, and with Shift
/// the same letter in upper case (32 below it in ASCII).
pub proof fn lemma_letter_keys(v: u8)
    requires
        qwerty_letter(v) != 0,
    ensures
        lowercase_layer()[v as int] == qwerty_letter(v),
        uppercase_layer()[v as int] + 32 == qwerty_letter(v),
{
    reveal_strlit("qwertyuiop");
    reveal_strlit("asdfghjkl");
    reveal_strlit("zxcvbnm");
    let lo = lowercase_layer();
    let up = uppercase_layer();
    assert(lo[0x10] == 113 && lo[0x11] == 119 && lo[0x12] == 101 && lo[0x13] == 114 && lo[0x14] == 116);
    assert(lo[0x15] == 121 && lo[0x16] == 117 && lo[0x17] == 105 && lo[0x18] == 111 && lo[0x19] == 112);
    assert(lo[0x1E] == 97 && lo[0x1F] == 115 && lo[0x20] == 100 && lo[0x21] == 102 && lo[0x22] == 103);
    assert(lo[0x23] == 104 && lo[0x24] == 106 && lo[0x25] == 107 && lo[0x26] == 108);
    assert(lo[0x2C] == 122 && lo[0x2D] == 120 && lo[0x2E] == 99 && lo[0x2F] == 118 && lo[0x30] == 98);
    assert(lo[0x31] == 110 && lo[0x32] == 109);
    assert(up[0x10] == 81 && up[0x11] == 87 && up[0x12] == 69 && up[0x13] == 82 && up[0x14] == 84);
    assert(up[0x15] == 89 && up[0x16] == 85 && up[0x17] == 73 && up[0x18] == 79 && up[0x19] == 80);
    assert(up[0x1E] == 65 && up[0x1F] == 83 && up[0x20] == 68 && up[0x21] == 70 && up[0x22] == 71);
    assert(up[0x23] == 72 && up[0x24] == 74 && up[0x25] == 75 && up[0x26] == 76);
    assert(up[0x2C] == 90 && up[0x2D] == 88 && up[0x2E] == 67 && up[0x2F] == 86 && up[0x30] == 66);
    assert(up[0x31] == 78 && up[0x32] == 77);
}

/// What a scancode does to the modifier state, in terms of its key number
/// (the low seven bits) and whether it is a press (the top bit clear):
/// `0xE0` only announces an extended key; Shift (0x2A, 0x36) and Alt (0x38)
/// are held exactly while pressed, and reported as keys; Super (0x5B, 0x5C
/// after `0xE0`) is held while pressed and not reported; no other scancode
/// changes a modifier.
pub open spec fn modifiers_follow(st: KeyboardState, scancode: u8, after: KeyboardState, out: Option<(u32, bool)>) -> bool {
    let key = scancode % 128;
    let pressed = scancode < 128;
    let is_shift = scancode != 0xE0 && (key == 0x2A || key == 0x36);
    let is_super = scancode != 0xE0 && st.e0 && (key == 0x5B || key == 0x5C);
    let is_alt = scancode != 0xE0 && !is_super && key == 0x38;
    &&& after.e0 == (scancode == 0xE0)
    &&& scancode == 0xE0 ==> out is None
    &&& after.shift == (if is_shift && !is_super { pressed } else { st.shift })
    &&& is_shift && !is_super && !is_alt ==> out == Some((KEY_SHIFT, pressed))
    &&& after.alt == (if is_alt { pressed } else { st.alt })
    &&& is_alt ==> out == Some((KEY_ALT, pressed))
    &&& after.super_key == (if is_super { pressed } else { st.super_key })
    &&& is_super ==> out is None
}

/// Every scancode moves the modifiers as `modifiers_follow` says: a Shift
/// press and its release leave Shift off again, and so on.
pub proof fn lemma_modifiers_follow(st: KeyboardState, scancode: u8)
    ensures
        modifiers_follow(st, scancode, decode(st, scancode).0, decode(st, scancode).1),
{
    lemma_scancode_bits(scancode);
}

/// The release bit and the key number of a scancode, as arithmetic.
proof fn lemma_scancode_bits(scancode: u8)
    ensures
        (scancode & 0x80u8 != 0) == (scancode >= 128),
        (scancode & 0x7Fu8) == scancode % 128,
{
    assert((scancode & 0x80u8 != 0) == (scancode >= 128) && (scancode & 0x7Fu8) == scancode % 128) by (bit_vector);
}

/// Without Alt, pressing or releasing a letter key reports its letter:
/// lower case, or upper case while Shift is held.
pub proof fn lemma_letter_events(st: KeyboardState, scancode: u8)
    requires
        scancode != 0xE0,
        qwerty_letter(scancode % 128) != 0,
        !st.alt,
    ensures
        decode(st, scancode).1 == Some((
            if st.shift { (qwerty_letter(scancode % 128) - 32) as u32 } else { qwerty_letter(scancode % 128) },
            scancode < 128,
        )),
{
    lemma_scancode_bits(scancode);
    lemma_letter_keys(scancode % 128);
    reveal_strlit("qwertyuiop");
    reveal_strlit("asdfghjkl");
    reveal_strlit("zxcvbnm");
}

impl KeyboardState {
    /// No modifiers held.
    pub fn new() -> (st: KeyboardState)
        ensures
            !st.shift && !st.e0 && !st.super_key && !st.alt,
    {
        KeyboardState { shift: false, e0: false, super_key: false, alt: false }
    }

    /// Whether the Super (Windows) key is held.
    pub fn is_super_active(&self) -> (b: bool)
        ensures
            b == self.super_key,
    {
        self.super_key
    }

    /// Decodes one scancode; see `decode`.
    pub fn handle_scancode(&mut self, scancode: u8) -> (r: Option<(u32, bool)>)
        ensures
            (*final(self), r) == decode(*old(self), scancode),
            modifiers_follow(*old(self), scancode, *final(self), r),
    {
        proof {
            lemma_modifiers_follow(*self, scancode);
        }
        if scancode == 0xE0 {
            self.e0 = true;
            return None;
        }
        let is_e0 = self.e0;
        self.e0 = false;
        let is_release = (scancode & 0x80u8) != 0;
        let v: u8 = if is_release { scancode & 0x7Fu8 } else { scancode };
        let pressed = !is_release;
        if (v == 0x5B || v == 0x5C) && is_e0 {
            self.super_key = pressed;
            None
        } else if v == 0x38 {
            self.alt = pressed;
            Some((KEY_ALT, pressed))
        } else if v == 0x2A || v == 0x36 {
            self.shift = pressed;
            Some((KEY_SHIFT, pressed))
        } else if v == 0x1D {
            Some((KEY_CTRL, pressed))
        } else if v == 0x0E {
            Some((KEY_BACKSPACE, pressed))
        } else if v == 0x1C {
            Some((KEY_ENTER, pressed))
        } else if v == 0x39 {
            Some((32u32, pressed))
        } else if v == 0x01 {
            Some((27u32, pressed))
        } else if v == 0x0F {
            Some((9u32, pressed))
        } else if v == 0x4B && is_e0 {
            Some((KEY_LEFT, pressed))
        } else if v == 0x4D && is_e0 {
            Some((KEY_RIGHT, pressed))
        } else if v == 0x48 && is_e0 {
            Some((KEY_UP, pressed))
        } else if v == 0x50 && is_e0 {
            Some((KEY_DOWN, pressed))
        } else if v == 0x56 {
            if self.shift {
                Some((62u32, pressed))
            } else {
                Some((60u32, pressed))
            }
        } else if ((0x02u8 <= v && v <= 0x0Du8) || (0x10u8 <= v && v <= 0x1Bu8) || (0x1Eu8 <= v && v <= 0x28u8) || (0x2Bu8 <= v && v <= 0x35u8) || v == 0x3Au8) && v < 128 {
            let c = if self.alt {
                alt_char(v)
            } else if self.shift {
                uppercase_char(v)
            } else {
                lowercase_char(v)
            };
            if c != 0 {
                Some((c, pressed))
            } else {
                None
            }
        } else {
            None
        }
    }
}

/// What the window system does with a key event.
#[derive(Debug, Copy, Clone, PartialEq, Eq, Structural)]
pub enum KeyAction {
    /// Super+P: dump the memory map.
    DumpMemoryMap,
    /// Super+X or Super+W: close the focused window.
    CloseWindow,
    /// Super+Z or Super+F: maximise or restore the focused window.
    ToggleMaximize,
    /// Super+T or Super+Enter: start a terminal.
    SpawnTerminal,
    /// Super+1 to Super+5: switch to that workspace (0 to 4).
    SwitchWorkspace(u32),
    /// Taken by the shortcut layer; the application does not see it.
    Swallowed,
    /// Goes to the focused window; `to_stdin` when it is also a key press
    /// for the process's standard input.
    Deliver { to_stdin: bool },
}

/// The shortcut layer's memory: the last ordinary key held, and the last
/// key that fired a shortcut (so that auto-repeat fires it once).
#[derive(Debug, Copy, Clone, PartialEq, Eq, Structural)]
pub struct ShortcutState {
    pub last_key_global: u32,
    pub last_normal_key: u32,
}

/// One key event through the shortcut layer: the new state and the action.
/// `key_super` is the key code of the Super key itself.
pub open spec fn shortcut_step(st: ShortcutState, key: u32, pressed: bool, is_super: bool, key_super: u32) -> (ShortcutState, KeyAction) {
    let lnk = if !is_super && key != key_super {
        if pressed { key } else if st.last_normal_key == key { 0 } else { st.last_normal_key }
    } else {
        st.last_normal_key
    };
    let lkg0 = if !is_super { 0 } else { st.last_key_global };
    if is_super && !pressed {
        (ShortcutState { last_key_global: if lkg0 == key { 0 } else { lkg0 }, last_normal_key: lnk }, KeyAction::Swallowed)
    } else if is_super && pressed {
        let eval = if key == key_super && lnk != 0 { lnk } else { key };
        if lkg0 == eval {
            (ShortcutState { last_key_global: lkg0, last_normal_key: lnk }, KeyAction::Swallowed)
        } else {
            let fired = ShortcutState { last_key_global: eval, last_normal_key: lnk };
            let kept = ShortcutState { last_key_global: lkg0, last_normal_key: lnk };
            if eval == 112 {
                (fired, KeyAction::DumpMemoryMap)
            } else if eval == 120 || eval == 119 {
                (fired, KeyAction::CloseWindow)
            } else if eval == 122 || eval == 102 {
                (fired, KeyAction::ToggleMaximize)
            } else if eval == 116 || eval == 0x0D {
                (fired, KeyAction::SpawnTerminal)
            } else if 49 <= eval <= 53 {
                (fired, KeyAction::SwitchWorkspace((eval - 49) as u32))
            } else if key == key_super {
                (kept, KeyAction::Swallowed)
            } else {
                (kept, KeyAction::Deliver { to_stdin: false })
            }
        }
    } else {
        (ShortcutState { last_key_global: lkg0, last_normal_key: lnk }, KeyAction::Deliver { to_stdin: pressed })
    }
}

impl ShortcutState {
    /// Nothing held, nothing fired.
    pub fn new() -> (st: ShortcutState)
        ensures
            st.last_key_global == 0 && st.last_normal_key == 0,
    {
        ShortcutState { last_key_global: 0, last_normal_key: 0 }
    }

    /// Routes one key event; see `shortcut_step`.
    pub fn keyboard_event(&mut self, key: u32, pressed: bool, is_super: bool, key_super: u32) -> (a: KeyAction)
        ensures
            (*final(self), a) == shortcut_step(*old(self), key, pressed, is_super, key_super),
    {
        if !is_super && key != key_super {
            if pressed {
                self.last_normal_key = key;
            } else if self.last_normal_key == key {
                self.last_normal_key = 0;
            }
        }
        if !is_super {
            self.last_key_global = 0;
        }
        if is_super && !pressed {
            if self.last_key_global == key {
                self.last_key_global = 0;
            }
            return KeyAction::Swallowed;
        }
        if is_super && pressed {
            let mut eval_key = key;
            if key == key_super {
                let lnk = self.last_normal_key;
                if lnk != 0 {
                    eval_key = lnk;
                }
            }
            let is_new_press = self.last_key_global != eval_key;
            if is_new_press {
                if eval_key == 112 {
                    self.last_key_global = eval_key;
                    return KeyAction::DumpMemoryMap;
                } else if eval_key == 120 || eval_key == 119 {
                    self.last_key_global = eval_key;
                    return KeyAction::CloseWindow;
                } else if eval_key == 122 || eval_key == 102 {
                    self.last_key_global = eval_key;
                    return KeyAction::ToggleMaximize;
                } else if eval_key == 116 || eval_key == 0x0D {
                    self.last_key_global = eval_key;
                    return KeyAction::SpawnTerminal;
                } else if eval_key >= 49 && eval_key <= 53 {
                    self.last_key_global = eval_key;
                    return KeyAction::SwitchWorkspace(eval_key - 49);
                } else if key == key_super {
                    return KeyAction::Swallowed;
                }
                return KeyAction::Deliver { to_stdin: false };
            } else {
                return KeyAction::Swallowed;
            }
        }
        KeyAction::Deliver { to_stdin: pressed }
    }
}

/// A shortcut fires once per press: while Super stays held, repeating the
/// same press is swallowed.
pub proof fn lemma_shortcut_fires_once(st: ShortcutState, key: u32, key_super: u32)
    requires
        key != key_super,
    ensures
        ({
            let (st1, a1) = shortcut_step(st, key, true, true, key_super);
            let (st2, a2) = shortcut_step(st1, key, true, true, key_super);
            (a1 != KeyAction::Swallowed && !(a1 is Deliver)) ==> a2 == KeyAction::Swallowed
        }),
{
}

/// Assembles PS/2 mouse packets byte by byte.
pub struct MouseDecoder {
    pub packet: [u8; 4],
    pub idx: usize,
    /// 3 for a standard mouse, 4 with a scroll wheel.
    pub packet_size: usize,
}

/// What one mouse byte did.
#[derive(Debug, Copy, Clone, PartialEq, Eq, Structural)]
pub enum MouseByte {
    /// Dropped: the first byte of a packet must have bit 3 set and not be 0xFF.
    Dropped,
    /// Stored; the packet is not complete yet.
    Stored,
    /// The packet is complete and is in `packet`.
    Complete,
}

impl MouseDecoder {
    /// The decoder's invariant.
    pub open spec fn wf(&self) -> bool {
        &&& self.idx <= 4
        &&& (self.packet_size == 3 || self.packet_size == 4)
    }

    /// An empty decoder for a mouse that sends `packet_size` bytes.
    pub fn new(packet_size: usize) -> (d: MouseDecoder)
        requires
            packet_size == 3 || packet_size == 4,
        ensures
            d.wf(),
            d.idx == 0,
            d.packet_size == packet_size,
    {
        MouseDecoder { packet: [0u8; 4], idx: 0, packet_size }
    }

    /// Takes one byte from the mouse.
    pub fn push_byte(&mut self, data: u8) -> (r: MouseByte)
        requires
            old(self).wf(),
        ensures
            final(self).wf(),
            final(self).packet_size == old(self).packet_size,
            old(self).idx == 0 && ((data & 0x08u8) == 0 || data == 0xFF) ==> r == MouseByte::Dropped && *final(self) == *old(self),
            !(old(self).idx == 0 && ((data & 0x08u8) == 0 || data == 0xFF)) ==> {
                if old(self).idx < 4 {
                    let p = old(self).packet@.update(old(self).idx as int, data);
                    if old(self).idx + 1 >= old(self).packet_size {
                        &&& r == MouseByte::Complete
                        &&& final(self).idx == 0
                        &&& final(self).packet@ == (if old(self).packet_size == 3 { p.update(3, 0u8) } else { p })
                    } else {
                        &&& r == MouseByte::Stored
                        &&& final(self).idx == old(self).idx + 1
                        &&& final(self).packet@ == p
                    }
                } else {
                    r == MouseByte::Stored && final(self).idx == 0 && final(self).packet == old(self).packet
                }
            },
    {
        if self.idx == 0 && ((data & 0x08u8) == 0 || data == 0xFF) {
            return MouseByte::Dropped;
        }
        if self.idx < 4 {
            let i = self.idx;
            self.packet[i] = data;
            self.idx = self.idx + 1;
        } else {
            self.idx = 0;
        }
        if self.idx >= self.packet_size {
            if self.packet_size == 3 {
                self.packet[3] = 0;
            }
            self.idx = 0;
            return MouseByte::Complete;
        }
        MouseByte::Stored
    }
}

/// Where a window is and how large, with the place and size it had before
/// it was maximised.
#[derive(Debug, Copy, Clone, PartialEq, Eq, Structural)]
pub struct WindowFrame {
    pub x: u64,
    pub y: u64,
    pub width: u64,
    pub height: u64,
    pub prev_x: u64,
    pub prev_y: u64,
    pub prev_width: u64,
    pub prev_height: u64,
    pub is_maximized: bool,
}

/// The place and size a maximise toggle asks the window's owner for, and
/// whether the window is then drawn as transparent.
#[derive(Debug, Copy, Clone, PartialEq, Eq, Structural)]
pub struct ResizeTarget {
    pub x: u64,
    pub y: u64,
    pub width: u64,
    pub height: u64,
    pub transparent: bool,
}

/// Super+Z on a resizable window: a maximised one goes back to where it
/// was, at least 100 by 100, drawn transparent; any other remembers its
/// place and size and fills the `screen_w` by `screen_h` screen, opaque.
pub open spec fn toggled(w: WindowFrame, screen_w: u64, screen_h: u64) -> (WindowFrame, ResizeTarget) {
    if w.is_maximized {
        (
            WindowFrame { is_maximized: false, ..w },
            ResizeTarget {
                x: w.prev_x,
                y: w.prev_y,
                width: if w.prev_width > 100 { w.prev_width } else { 100 },
                height: if w.prev_height > 100 { w.prev_height } else { 100 },
                transparent: true,
            },
        )
    } else {
        (
            WindowFrame { is_maximized: true, prev_x: w.x, prev_y: w.y, prev_width: w.width, prev_height: w.height, ..w },
            ResizeTarget { x: 0, y: 0, width: screen_w, height: screen_h, transparent: false },
        )
    }
}

/// Performs `toggled` on `w` and returns the resize it asks for.
pub fn toggle_maximize(w: &mut WindowFrame, screen_w: u64, screen_h: u64) -> (t: ResizeTarget)
    ensures
        (*final(w), t) == toggled(*old(w), screen_w, screen_h),
{
    if w.is_maximized {
        w.is_maximized = false;
        ResizeTarget {
            x: w.prev_x,
            y: w.prev_y,
            width: if w.prev_width > 100 { w.prev_width } else { 100 },
            height: if w.prev_height > 100 { w.prev_height } else { 100 },
            transparent: true,
        }
    } else {
        w.is_maximized = true;
        w.prev_width = w.width;
        w.prev_height = w.height;
        w.prev_x = w.x;
        w.prev_y = w.y;
        ResizeTarget { x: 0, y: 0, width: screen_w, height: screen_h, transparent: false }
    }
}

/// Maximising a window and then toggling again asks for the window's old
/// place and size back (a side below 100 grows to 100), and leaves it
/// unmaximised with that place remembered.
pub proof fn lemma_maximize_then_restore(w: WindowFrame, screen_w: u64, screen_h: u64, sw2: u64, sh2: u64)
    requires
        !w.is_maximized,
    ensures
        ({
            let (w1, _) = toggled(w, screen_w, screen_h);
            let (w2, t2) = toggled(w1, sw2, sh2);
            &&& t2 == (ResizeTarget {
                x: w.x,
                y: w.y,
                width: if w.width > 100 { w.width } else { 100 },
                height: if w.height > 100 { w.height } else { 100 },
                transparent: true,
            })
            &&& !w2.is_maximized
            &&& w2.x == w.x && w2.y == w.y && w2.width == w.width && w2.height == w.height
        }),
{
}

} // verus!
