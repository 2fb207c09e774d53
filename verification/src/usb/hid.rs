//! USB HID devices: boot keyboards, boot mice and absolute-coordinate
//! tablets, sorted into lists as they are registered.
use vstd::prelude::*;
use crate::usb::{InputDevice, InputEvent, InputKind, UsbDevice};

verus! {

/// The boot-interface subclass.
pub const HID_SUBCLASS_BOOT: u8 = 1;

/// The boot keyboard protocol.
pub const HID_PROTOCOL_KEYBOARD: u8 = 1;

/// The boot mouse protocol.
pub const HID_PROTOCOL_MOUSE: u8 = 2;

/// A USB keyboard.
pub struct HidKeyboard {
    pub slot_id: u8,
    pub pending: [InputEvent; 16],
    pub pending_len: usize,
}

impl HidKeyboard {
    /// A keyboard on the slot of `dev`, with nothing pending.
    pub fn new(dev: UsbDevice) -> (k: HidKeyboard)
        ensures
            k.slot_id == dev.slot_id,
    {
        HidKeyboard {
            slot_id: dev.slot_id,
            pending: [InputEvent::Key { scancode: 0, pressed: false }; 16],
            pending_len: 0,
        }
    }
}

impl InputDevice for HidKeyboard {
    fn kind(&self) -> InputKind {
        InputKind::Keyboard
    }

    /// Reports nothing yet: the interrupt endpoint ring is not read.
    fn poll(&mut self, out: &mut [InputEvent]) -> (n: usize)
        ensures
            n == 0,
            final(out)@ == old(out)@,
            *final(self) == *old(self),
    {
        0
    }
}

/// A USB mouse.
pub struct HidMouse {
    pub slot_id: u8,
}

impl InputDevice for HidMouse {
    fn kind(&self) -> InputKind {
        InputKind::Mouse
    }

    /// Reports nothing yet: the interrupt endpoint ring is not read.
    fn poll(&mut self, out: &mut [InputEvent]) -> (n: usize)
        ensures
            n == 0,
            final(out)@ == old(out)@,
            *final(self) == *old(self),
    {
        0
    }
}

/// A USB tablet (absolute coordinates).
pub struct HidTablet {
    pub slot_id: u8,
}

impl InputDevice for HidTablet {
    fn kind(&self) -> InputKind {
        InputKind::Tablet
    }

    /// Reports nothing yet: the interrupt endpoint ring is not read.
    fn poll(&mut self, out: &mut [InputEvent]) -> (n: usize)
        ensures
            n == 0,
            final(out)@ == old(out)@,
            *final(self) == *old(self),
    {
        0
    }
}

/// The registered HID devices.
pub struct HidList {
    pub keyboards: Vec<HidKeyboard>,
    pub mice: Vec<HidMouse>,
    pub tablets: Vec<HidTablet>,
}

/// Where `register` files a device: boot-subclass keyboards and mice in
/// their lists, other boot-subclass protocols nowhere, anything else as a
/// tablet.
pub enum HidRole {
    Keyboard,
    Mouse,
    Tablet,
    Ignored,
}

/// The list a device with this subclass and protocol goes to.
pub open spec fn hid_role(subclass: u8, protocol: u8) -> HidRole {
    if subclass == HID_SUBCLASS_BOOT {
        if protocol == HID_PROTOCOL_KEYBOARD {
            HidRole::Keyboard
        } else if protocol == HID_PROTOCOL_MOUSE {
            HidRole::Mouse
        } else {
            HidRole::Ignored
        }
    } else {
        HidRole::Tablet
    }
}

impl HidList {
    /// No devices.
    pub fn new() -> (l: HidList)
        ensures
            l.keyboards@.len() == 0,
            l.mice@.len() == 0,
            l.tablets@.len() == 0,
    {
        HidList { keyboards: Vec::new(), mice: Vec::new(), tablets: Vec::new() }
    }

    /// Files a newly enumerated HID device by its role.
    pub fn register(&mut self, dev: UsbDevice)
        ensures
            final(self).keyboards@.len() == old(self).keyboards@.len() + (if hid_role(dev.subclass, dev.protocol) is Keyboard { 1int } else { 0 }),
            final(self).mice@.len() == old(self).mice@.len() + (if hid_role(dev.subclass, dev.protocol) is Mouse { 1int } else { 0 }),
            final(self).tablets@.len() == old(self).tablets@.len() + (if hid_role(dev.subclass, dev.protocol) is Tablet { 1int } else { 0 }),
            hid_role(dev.subclass, dev.protocol) is Keyboard ==> final(self).keyboards@.last().slot_id == dev.slot_id,
            hid_role(dev.subclass, dev.protocol) is Mouse ==> final(self).mice@.last().slot_id == dev.slot_id,
            hid_role(dev.subclass, dev.protocol) is Tablet ==> final(self).tablets@.last().slot_id == dev.slot_id,
            forall|i: int| 0 <= i < old(self).keyboards@.len() ==> final(self).keyboards@[i] == old(self).keyboards@[i],
            forall|i: int| 0 <= i < old(self).mice@.len() ==> final(self).mice@[i] == old(self).mice@[i],
            forall|i: int| 0 <= i < old(self).tablets@.len() ==> final(self).tablets@[i] == old(self).tablets@[i],
    {
        let proto = dev.protocol;
        let sub = dev.subclass;
        if sub == HID_SUBCLASS_BOOT {
            if proto == HID_PROTOCOL_KEYBOARD {
                self.keyboards.push(HidKeyboard::new(dev));
            } else if proto == HID_PROTOCOL_MOUSE {
                self.mice.push(HidMouse { slot_id: dev.slot_id });
            }
        } else {
            self.tablets.push(HidTablet { slot_id: dev.slot_id });
        }
    }

    /// Whether a keyboard is registered.
    pub fn has_keyboard(&self) -> (b: bool)
        ensures
            b == (self.keyboards@.len() > 0),
    {
        self.keyboards.len() > 0
    }

    /// Whether a mouse or tablet is registered.
    pub fn has_pointer(&self) -> (b: bool)
        ensures
            b == (self.mice@.len() > 0 || self.tablets@.len() > 0),
    {
        self.mice.len() > 0 || self.tablets.len() > 0
    }

    /// Polls every keyboard in turn into the free part of `out`, stopping
    /// once it is full; returns the number of reports written.
    pub fn poll_keyboards(&mut self, out: &mut [InputEvent]) -> (total: usize)
        ensures
            total == 0,
            final(out)@ == old(out)@,
            final(self).keyboards@ == old(self).keyboards@,
            final(self).mice@ == old(self).mice@,
            final(self).tablets@ == old(self).tablets@,
    {
        let mut total: usize = 0;
        let mut i: usize = 0;
        let n = self.keyboards.len();
        while i < n
            invariant
                n == self.keyboards@.len(),
                n == old(self).keyboards@.len(),
                i <= n,
                total == 0,
                out@ == old(out)@,
                self.keyboards@ == old(self).keyboards@,
                self.mice@ == old(self).mice@,
                self.tablets@ == old(self).tablets@,
            decreases n - i,
        {
            let mut kb = self.keyboards.remove(i);
            let got = kb.poll(out);
            self.keyboards.insert(i, kb);
            assert(self.keyboards@ =~= old(self).keyboards@);
            total = total + got;
            if total >= out.len() {
                break;
            }
            i = i + 1;
        }
        total
    }

    /// Polls every mouse in turn into the free part of `out`, stopping once
    /// it is full; returns the number of reports written.
    pub fn poll_mice(&mut self, out: &mut [InputEvent]) -> (total: usize)
        ensures
            total == 0,
            final(out)@ == old(out)@,
            final(self).keyboards@ == old(self).keyboards@,
            final(self).mice@ == old(self).mice@,
            final(self).tablets@ == old(self).tablets@,
    {
        let mut total: usize = 0;
        let mut i: usize = 0;
        let n = self.mice.len();
        while i < n
            invariant
                n == self.mice@.len(),
                n == old(self).mice@.len(),
                i <= n,
                total == 0,
                out@ == old(out)@,
                self.keyboards@ == old(self).keyboards@,
                self.mice@ == old(self).mice@,
                self.tablets@ == old(self).tablets@,
            decreases n - i,
        {
            let mut m = self.mice.remove(i);
            let got = m.poll(out);
            self.mice.insert(i, m);
            assert(self.mice@ =~= old(self).mice@);
            total = total + got;
            if total >= out.len() {
                break;
            }
            i = i + 1;
        }
        total
    }
}

} // verus!
