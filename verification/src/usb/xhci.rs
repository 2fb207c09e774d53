//! The xHCI controller's decisions: its layout from the capability
//! registers, the state of a root port, the input context and commands
//! that address a device, the blocks of a control transfer, the events
//! that answer them, and the device descriptor read back.
use vstd::prelude::*;
use crate::ext2::bytes::{le16, read_le16};
use crate::usb::ring::Trb;
use crate::usb::{UsbClass, UsbDevice, UsbSpeed};

verus! {

pub const TRB_TYPE_SETUP_STAGE: u32 = 2;
pub const TRB_TYPE_DATA_STAGE: u32 = 3;
pub const TRB_TYPE_STATUS_STAGE: u32 = 4;
pub const TRB_TYPE_ENABLE_SLOT: u32 = 9;
pub const TRB_TYPE_ADDRESS_DEVICE: u32 = 11;
pub const TRB_TYPE_TRANSFER_EVENT: u32 = 32;
/// Completion codes: success, and a short packet.
pub const CC_SUCCESS: u8 = 1;
pub const CC_SHORT_PACKET: u8 = 13;
/// A port's reset bit.
pub const PORT_PR: u32 = 0x10;
/// The standard request that reads a descriptor, and the device descriptor's type.
pub const USB_REQ_GET_DESCRIPTOR: u8 = 0x06;
pub const USB_DT_DEVICE: u8 = 0x01;

/// Where the controller's register blocks lie and what it offers.
#[derive(Debug, Clone, Copy, PartialEq, Eq, Structural)]
pub struct ControllerLayout {
    /// Offsets of the operational, runtime and doorbell registers from the
    /// capability registers.
    pub op_offset: u32,
    pub rt_offset: u32,
    pub db_offset: u32,
    pub max_slots: u8,
    pub max_ports: u8,
    /// Scratchpad buffers the controller asks for.
    pub scratchpads: u32,
}

/// The controller's layout from its capability registers: the length of
/// the capability block (low byte of the first register), the structural
/// parameters, and the runtime and doorbell offsets (aligned to 32 and 4
/// bytes).
pub fn controller_layout(cap0: u32, hcs1: u32, hcs2: u32, rtsoff: u32, dboff: u32) -> (l: ControllerLayout)
    ensures
        l.op_offset == cap0 % 256,
        l.max_slots == hcs1 % 256,
        l.max_ports == hcs1 / 0x100_0000,
        l.rt_offset == rtsoff - rtsoff % 32,
        l.db_offset == dboff - dboff % 4,
        l.scratchpads == hcs2 / 0x800_0000,
{
    ControllerLayout {
        op_offset: cap0 % 256,
        rt_offset: rtsoff - rtsoff % 32,
        db_offset: dboff - dboff % 4,
        max_slots: (hcs1 % 256) as u8,
        max_ports: (hcs1 / 0x100_0000) as u8,
        scratchpads: hcs2 / 0x800_0000,
    }
}

/// How many scratchpad buffers are set up: at most 512.
pub fn scratchpad_count(requested: u32) -> (n: usize)
    ensures
        n == if requested < 512 { requested as int } else { 512 },
{
    if requested < 512 {
        requested as usize
    } else {
        512
    }
}

/// Whether a device is connected to a port (bit 0 of its status).
pub fn port_connected(portsc: u32) -> (b: bool)
    ensures
        b == (portsc % 2 == 1),
{
    portsc % 2 == 1
}

/// Whether a port is enabled (bit 1 of its status).
pub fn port_enabled(portsc: u32) -> (b: bool)
    ensures
        b == ((portsc / 2) % 2 == 1),
{
    (portsc / 2) % 2 == 1
}

/// Whether a port is still resetting (bit 4 of its status).
pub fn port_resetting(portsc: u32) -> (b: bool)
    ensures
        b == ((portsc / 16) % 2 == 1),
{
    (portsc / 16) % 2 == 1
}

/// The status value that starts a port's reset.
pub fn port_reset_value(portsc: u32) -> (v: u32)
    ensures
        v == portsc | PORT_PR,
{
    portsc | PORT_PR
}

/// A port's speed field (bits 10 to 13 of its status).
pub fn port_speed(portsc: u32) -> (s: u32)
    ensures
        s == (portsc / 1024) % 16,
{
    (portsc / 1024) % 16
}

/// What a command completion event says, if the event at the dequeue place
/// is new (its cycle bit is `cycle`): the slot and the completion code.
pub fn command_completion(event: Trb, cycle: bool) -> (r: Option<(u8, u8)>)
    ensures
        (event.ctrl % 2 == 1) != cycle ==> r is None,
        (event.ctrl % 2 == 1) == cycle ==> r == Some(((event.ctrl / 0x100_0000) as u8, (event.status / 0x100_0000) as u8)),
{
    if (event.ctrl % 2 == 1) != cycle {
        return None;
    }
    Some(((event.ctrl / 0x100_0000) as u8, (event.status / 0x100_0000) as u8))
}

/// The slot an Enable Slot command gave: the slot when the command
/// succeeded with a slot other than 0.
pub fn enabled_slot(slot_id: u8, code: u8) -> (r: Option<u8>)
    ensures
        r == (if code == CC_SUCCESS && slot_id > 0 { Some(slot_id) } else { None::<u8> }),
{
    if code == CC_SUCCESS && slot_id > 0 {
        Some(slot_id)
    } else {
        None
    }
}

/// The Enable Slot command (type 9 in bits 10 to 15).
pub fn enable_slot_trb() -> (t: Trb)
    ensures
        t == (Trb { param: 0, status: 0, ctrl: 0x2400u32 }),
{
    Trb { param: 0, status: 0, ctrl: 0x2400u32 }
}

/// The Address Device command for slot `slot_id` with its input context
/// at `ctx_phys`.
pub fn address_device_trb(ctx_phys: u64, slot_id: u8) -> (t: Trb)
    ensures
        t == (Trb { param: ctx_phys, status: 0, ctrl: (TRB_TYPE_ADDRESS_DEVICE * 1024 + slot_id * 0x100_0000) as u32 }),
{
    Trb { param: ctx_phys, status: 0, ctrl: TRB_TYPE_ADDRESS_DEVICE * 1024 + slot_id as u32 * 0x100_0000 }
}

/// The words of the input context that addresses a device on root port
/// `port` (counted from 0) whose status is `portsc`, with its control
/// endpoint's ring at `ring_phys`: each a word index and its value (the
/// rest of the page is zero). The slot and endpoint 0 are added; the slot
/// has one context entry, the port's speed and the port's number; endpoint
/// 0 is a control endpoint of 8-byte packets whose ring starts with cycle
/// bit 1.
pub fn input_context_words(port: u8, portsc: u32, ring_phys: u64) -> (w: Vec<(usize, u32)>)
    requires
        ring_phys % 2 == 0,
    ensures
        w@ == seq![
            (1usize, 3u32),
            (8usize, (0x800_0000 + ((portsc / 1024) % 16) * 0x10_0000) as u32),
            (9usize, ((port + 1) * 0x1_0000) as u32),
            (17usize, 0xC_0018u32),
            (18usize, (ring_phys % 0x1_0000_0000 + 1) as u32),
            (19usize, (ring_phys / 0x1_0000_0000) as u32),
            (20usize, 8u32),
        ],
{
    let speed = port_speed(portsc);
    let lo: u32 = (ring_phys % 0x1_0000_0000) as u32;
    let mut w: Vec<(usize, u32)> = Vec::new();
    w.push((1, 3));
    w.push((8, 0x800_0000 + speed * 0x10_0000));
    w.push((9, (port as u32 + 1) * 0x1_0000));
    w.push((17, 0xC_0018));
    w.push((18, lo + 1));
    w.push((19, (ring_phys / 0x1_0000_0000) as u32));
    w.push((20, 8));
    w
}

/// The setup packet of a control request: request type, request, value,
/// index and length, packed low to high.
pub fn setup_packet(bm_request_type: u8, request: u8, value: u16, index: u16, length: u16) -> (p: u64)
    ensures
        p == bm_request_type + request * 0x100 + value * 0x1_0000 + index * 0x1_0000_0000 + length * 0x1_0000_0000_0000,
{
    bm_request_type as u64 + request as u64 * 0x100 + value as u64 * 0x1_0000 + index as u64 * 0x1_0000_0000 + length as u64
        * 0x1_0000_0000_0000
}

/// The blocks of a control transfer of `length` bytes into the buffer at
/// `buf_phys`: the setup stage (its data immediate, an IN data stage
/// announced when there is data), the data stage when there is data, and
/// the status stage, in the other direction, interrupting on completion:
/// types 2, 3 and 4 in bits 10 to 15, the transfer type in bits 16 and 17,
/// immediate data and interrupt-on-completion in bit 5, the direction in
/// bit 16. The ring sets their cycle bits.
pub fn control_transfer_trbs(setup: u64, length: u16, buf_phys: u64) -> (t: Vec<Trb>)
    ensures
        length > 0 ==> t@ == seq![
            Trb { param: setup, status: 8, ctrl: 0x3_0820u32 },
            Trb { param: buf_phys, status: length as u32, ctrl: 0x1_0C00u32 },
            Trb { param: 0, status: 0, ctrl: 0x1020u32 },
        ],
        length == 0 ==> t@ == seq![
            Trb { param: setup, status: 8, ctrl: 0x0820u32 },
            Trb { param: 0, status: 0, ctrl: 0x1_1020u32 },
        ],
{
    let mut t: Vec<Trb> = Vec::new();
    if length > 0 {
        t.push(Trb { param: setup, status: 8, ctrl: 0x3_0820u32 });
        t.push(Trb { param: buf_phys, status: length as u32, ctrl: 0x1_0C00u32 });
        t.push(Trb { param: 0, status: 0, ctrl: 0x1020u32 });
    } else {
        t.push(Trb { param: setup, status: 8, ctrl: 0x0820u32 });
        t.push(Trb { param: 0, status: 0, ctrl: 0x1_1020u32 });
    }
    t
}

/// What a transfer event at the dequeue place says, if it is a new one (its
/// cycle bit is `cycle`) of type Transfer Event: whether the transfer
/// succeeded (success or a short packet).
pub fn transfer_result(event: Trb, cycle: bool) -> (r: Option<bool>)
    ensures
        ((event.ctrl % 2 == 1) == cycle && (event.ctrl / 1024) % 64 == TRB_TYPE_TRANSFER_EVENT) ==> r == Some(
            event.status / 0x100_0000 == CC_SUCCESS || event.status / 0x100_0000 == CC_SHORT_PACKET,
        ),
        !((event.ctrl % 2 == 1) == cycle && (event.ctrl / 1024) % 64 == TRB_TYPE_TRANSFER_EVENT) ==> r is None,
{
    if (event.ctrl % 2 == 1) == cycle && (event.ctrl / 1024) % 64 == TRB_TYPE_TRANSFER_EVENT {
        let code = event.status / 0x100_0000;
        Some(code == CC_SUCCESS as u32 || code == CC_SHORT_PACKET as u32)
    } else {
        None
    }
}

/// The device a device descriptor describes, in slot `slot_id`: its class,
/// subclass and protocol (bytes 4 to 6) and its vendor and product (bytes
/// 8 and 10). The speed is taken as high.
pub fn device_from_descriptor(slot_id: u8, desc: &[u8]) -> (d: UsbDevice)
    requires
        desc@.len() >= 18,
    ensures
        d.slot_id == slot_id,
        d.speed == UsbSpeed::High,
        d.class == (if desc@[4] == 0x03 {
            UsbClass::Hid
        } else if desc@[4] == 0x08 {
            UsbClass::MassStorage
        } else if desc@[4] == 0x09 {
            UsbClass::Hub
        } else {
            UsbClass::Other(desc@[4])
        }),
        d.subclass == desc@[5],
        d.protocol == desc@[6],
        d.vendor_id == le16(desc@, 8),
        d.product_id == le16(desc@, 10),
{
    UsbDevice {
        slot_id,
        speed: UsbSpeed::High,
        class: UsbClass::from_code(desc[4]),
        subclass: desc[5],
        protocol: desc[6],
        vendor_id: read_le16(desc, 8),
        product_id: read_le16(desc, 10),
    }
}

} // verus!
