//! USB device descriptions and the input-device interface that HID drivers
//! implement.
use vstd::prelude::*;

pub mod hid;
pub mod mass_storage;
pub mod ring;
pub mod xhci;

verus! {

/// Link speed of a USB device.
#[derive(Debug, Copy, Clone, PartialEq, Eq, Structural)]
pub enum UsbSpeed {
    Low,
    Full,
    High,
    Super,
    SuperPlus,
}

/// Interface class of a USB device.
#[derive(Debug, Copy, Clone, PartialEq, Eq, Structural)]
pub enum UsbClass {
    Hid,
    MassStorage,
    Hub,
    Other(u8),
}

impl UsbClass {
    /// The class for a class code: HID (0x03), mass storage (0x08), hub
    /// (0x09), anything else kept as is.
    pub fn from_code(code: u8) -> (c: UsbClass)
        ensures
            c == (if code == 0x03 {
                UsbClass::Hid
            } else if code == 0x08 {
                UsbClass::MassStorage
            } else if code == 0x09 {
                UsbClass::Hub
            } else {
                UsbClass::Other(code)
            }),
    {
        match code {
            0x03 => UsbClass::Hid,
            0x08 => UsbClass::MassStorage,
            0x09 => UsbClass::Hub,
            c => UsbClass::Other(c),
        }
    }
}

/// An enumerated USB device slot.
#[derive(Debug, Copy, Clone)]
pub struct UsbDevice {
    pub slot_id: u8,
    pub speed: UsbSpeed,
    pub class: UsbClass,
    pub subclass: u8,
    pub protocol: u8,
    pub vendor_id: u16,
    pub product_id: u16,
}

/// What an input device reports.
#[derive(Debug, Copy, Clone, PartialEq, Eq, Structural)]
pub enum InputKind {
    Keyboard,
    Mouse,
    Tablet,
}

/// One input report.
#[derive(Debug, Copy, Clone)]
pub enum InputEvent {
    Key { scancode: u8, pressed: bool },
    MouseRel { dx: i16, dy: i16, dz: i16, buttons: u8 },
    TabletAbs { x: u16, y: u16, pressure: u16, buttons: u8 },
}

/// An input device: its kind, and a poll that fills the front of `out`
/// with pending reports and says how many.
pub trait InputDevice {
    fn kind(&self) -> InputKind;

    fn poll(&mut self, out: &mut [InputEvent]) -> (n: usize)
        ensures
            n <= old(out)@.len(),
            final(out)@.len() == old(out)@.len(),
    ;
}

} // verus!
