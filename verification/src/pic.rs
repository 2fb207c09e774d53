//! The pair of cascaded 8259 interrupt controllers: which vectors each one
//! serves, and the port writes that program, mask and acknowledge them.
use vstd::prelude::*;

verus! {

/// The "end of interrupt" command.
pub const PIC_EOI: u8 = 0x20;

/// One 8259 controller: its first vector and its command and data ports.
pub struct Pic {
    offset: u8,
    port: u8,
    data: u8,
}

/// The master and slave controllers.
pub struct Pics {
    pub master: Pic,
    pub slave: Pic,
}

impl Pic {
    /// The first vector the controller raises.
    pub closed spec fn offset_spec(&self) -> u8 {
        self.offset
    }

    /// The command port.
    pub closed spec fn port_spec(&self) -> u8 {
        self.port
    }

    /// The data (mask) port.
    pub closed spec fn data_spec(&self) -> u8 {
        self.data
    }

    /// Whether the controller raises vector `interrupt`: one of the eight
    /// vectors from its offset (the upper bound wraps at 256).
    pub open spec fn serves(&self, interrupt: u8) -> bool {
        self.offset_spec() <= interrupt && (interrupt as int) < (self.offset_spec() + 8) % 256
    }

    /// The port to read the interrupt mask from.
    pub fn read_data(&self) -> (port: u16)
        ensures
            port == self.data_spec(),
    {
        self.data as u16
    }

    /// The port write that sets the interrupt mask to `data`.
    pub fn write_data(&self, data: u8) -> (w: (u16, u8))
        ensures
            w == (self.data_spec() as u16, data),
    {
        (self.data as u16, data)
    }

    /// The port write that sends `command`.
    pub fn send_command(&self, command: u8) -> (w: (u16, u8))
        ensures
            w == (self.port_spec() as u16, command),
    {
        (self.port as u16, command)
    }

    /// The port write that acknowledges the interrupt being served.
    pub fn end_interrupt(&self) -> (w: (u16, u8))
        ensures
            w == (self.port_spec() as u16, PIC_EOI),
    {
        (self.port as u16, PIC_EOI)
    }

    /// Whether the controller raises vector `interrupt`.
    pub fn handles_interrupt(&self, interrupt: u8) -> (b: bool)
        ensures
            b == self.serves(interrupt),
    {
        self.offset <= interrupt && interrupt < self.offset.wrapping_add(8)
    }

    /// The mask write that enables line `irq`, given the mask read now.
    pub fn unmask_irq(&self, mask: u8, irq: u8) -> (w: (u16, u8))
        requires
            irq < 8,
        ensures
            w.0 == self.data_spec(),
            w.1 == mask & !(1u8 << irq),
    {
        self.write_data(mask & !(1u8 << irq))
    }

    /// The mask write that disables line `irq`, given the mask read now.
    pub fn mask_irq(&self, mask: u8, irq: u8) -> (w: (u16, u8))
        requires
            irq < 8,
        ensures
            w.0 == self.data_spec(),
            w.1 == mask | (1u8 << irq),
    {
        self.write_data(mask | (1u8 << irq))
    }
}

/// The port write that gives the bus time to settle between commands.
pub open spec fn io_wait() -> (u16, u8) {
    (0x80u16, 0u8)
}

impl Pics {
    /// The PC layout: the master on ports 0x20/0x21 from vector 32, the slave
    /// on 0xA0/0xA1 from vector 40.
    pub fn new() -> (p: Pics)
        ensures
            p.master.offset_spec() == 32 && p.master.port_spec() == 0x20 && p.master.data_spec()
                == 0x21,
            p.slave.offset_spec() == 40 && p.slave.port_spec() == 0xa0 && p.slave.data_spec()
                == 0xa1,
    {
        Pics {
            master: Pic { offset: 32, port: 0x20, data: 0x21 },
            slave: Pic { offset: 40, port: 0xa0, data: 0xa1 },
        }
    }

    /// The initialisation writes, in order: ICW1 to both, their vector
    /// offsets, the cascade wiring, 8086 mode, each followed by an I/O wait,
    /// and then every line masked. The lines that are enabled afterwards
    /// (master 0, 1, 2 and slave 4) go through `unmask_irq`.
    pub fn init(&self) -> (w: Vec<(u16, u8)>)
        ensures
            w@ == seq![
                (self.master.port_spec() as u16, 0x11u8),
                io_wait(),
                (self.slave.port_spec() as u16, 0x11u8),
                io_wait(),
                (self.master.data_spec() as u16, self.master.offset_spec()),
                io_wait(),
                (self.slave.data_spec() as u16, self.slave.offset_spec()),
                io_wait(),
                (self.master.data_spec() as u16, 4u8),
                io_wait(),
                (self.slave.data_spec() as u16, 2u8),
                io_wait(),
                (self.master.data_spec() as u16, 1u8),
                io_wait(),
                (self.slave.data_spec() as u16, 1u8),
                io_wait(),
                (self.master.data_spec() as u16, 0xFFu8),
                (self.slave.data_spec() as u16, 0xFFu8),
            ],
    {
        let mut w: Vec<(u16, u8)> = Vec::new();
        w.push(self.master.send_command(0x11));
        w.push((0x80u16, 0u8));
        w.push(self.slave.send_command(0x11));
        w.push((0x80u16, 0u8));
        w.push(self.master.write_data(self.master.offset));
        w.push((0x80u16, 0u8));
        w.push(self.slave.write_data(self.slave.offset));
        w.push((0x80u16, 0u8));
        w.push(self.master.write_data(4));
        w.push((0x80u16, 0u8));
        w.push(self.slave.write_data(2));
        w.push((0x80u16, 0u8));
        w.push(self.master.write_data(0x01));
        w.push((0x80u16, 0u8));
        w.push(self.slave.write_data(0x01));
        w.push((0x80u16, 0u8));
        w.push(self.master.write_data(0xFF));
        w.push(self.slave.write_data(0xFF));
        w
    }

    /// Whether either controller raises vector `interrupt`.
    pub fn handles_interrupt(&self, interrupt: u8) -> (b: bool)
        ensures
            b == (self.master.serves(interrupt) || self.slave.serves(interrupt)),
    {
        self.master.handles_interrupt(interrupt) || self.slave.handles_interrupt(interrupt)
    }

    /// The acknowledgements for vector `interrupt`: none if neither
    /// controller raises it; the slave's and then the master's if the slave
    /// raised it; otherwise the master's alone.
    pub fn end_interrupt(&self, interrupt: u8) -> (w: Vec<(u16, u8)>)
        ensures
            w@ == (if !(self.master.serves(interrupt) || self.slave.serves(interrupt)) {
                Seq::<(u16, u8)>::empty()
            } else if self.slave.serves(interrupt) {
                seq![
                    (self.slave.port_spec() as u16, PIC_EOI),
                    (self.master.port_spec() as u16, PIC_EOI),
                ]
            } else {
                seq![(self.master.port_spec() as u16, PIC_EOI)]
            }),
    {
        let mut w: Vec<(u16, u8)> = Vec::new();
        if self.handles_interrupt(interrupt) {
            if self.slave.handles_interrupt(interrupt) {
                w.push(self.slave.end_interrupt());
            }
            w.push(self.master.end_interrupt());
        }
        proof {
            if !(self.master.serves(interrupt) || self.slave.serves(interrupt)) {
                assert(w@ =~= Seq::<(u16, u8)>::empty());
            } else if self.slave.serves(interrupt) {
                assert(w@ =~= seq![(self.slave.port_spec() as u16, PIC_EOI), (self.master.port_spec() as u16, PIC_EOI)]);
            } else {
                assert(w@ =~= seq![(self.master.port_spec() as u16, PIC_EOI)]);
            }
        }
        w
    }
}

/// Each line is served by at most one of the two PC controllers.
pub proof fn lemma_pics_disjoint(p: Pics, interrupt: u8)
    requires
        p.master.offset_spec() == 32,
        p.slave.offset_spec() == 40,
    ensures
        !(p.master.serves(interrupt) && p.slave.serves(interrupt)),
        p.master.serves(interrupt) || p.slave.serves(interrupt) <==> 32 <= interrupt < 48,
{
}

} // verus!
