use krakeos::acpi::{AcpiHeader, HpetTable, Madt, fixed_ipi_command, icr_destination, lapic_id_of, parse_madt, redirection_registers, rsdt_entry_count, get_madt};
use krakeos::blk::{transfer_chunks, sector_bytes};
use krakeos::display::Color;
use krakeos::gpu::{create_2d, VIRTIO_GPU_CMD_RESOURCE_CREATE_2D};
use krakeos::mm::{plan_brk, plan_mmap, round_up_page, BrkPlan};
use krakeos::pic::{Pics, PIC_EOI};
use krakeos::pipe::PipeBuffer;
use krakeos::trap::{classify_trap, enable_fpu, next_tick, step_over_ecall, FpuFrame, TrapAction, TrapFrame};
use krakeos::smp::{ap_ready, ap_stack_top, gdt_limit, ist_stack_top, startup_ipi, temp_gdt_descriptor, temp_gdt_entries, AP_GDT_ENTRIES, TRAMPOLINE_ADDR};
use krakeos::timer::{hpet_period_fs, hpet_ticks_10ms, lapic_ticks_10ms, make_tss_descriptor, periodic_timer_lvt, waited_enough};
use krakeos::usb::ring::{advance_dequeue, event_dequeue_pointer, Trb, TrbRing, RING_SIZE};
use krakeos::pipe::{Termios, ICANON};
use krakeos::debug::{Dmesg, DMESG_SIZE};

#[test]
fn rgb565_round_trip_on_samples() {
    for p in [0u16, 0x1234, 0xF800, 0x07E0, 0x001F, 0xFFFF, 0xA5A5] {
        assert_eq!(Color::from_u16(p).to_u16(), p);
    }
}

#[test]
fn rgb565_packing_of_pure_red() {
    assert_eq!(Color::rgb(255, 0, 0).to_u16(), 0xF800);
    assert_eq!(Color::rgb(0, 255, 0).to_u16(), 0x07E0);
}

#[test]
fn rgb565_widening_to_argb() {
    assert_eq!(Color::from_u16(0xF800).to_u32(), 0xFFFF_0000);
    assert_eq!(Color::from_u16(0x0000).to_u32(), 0xFF00_0000);
}

#[test]
fn colour_byte_orders() {
    assert_eq!(Color::rgb(1, 2, 3).to_u24(), [3, 2, 1]);
    assert_eq!(Color::from_u32(0x1122_3344).to_u32(), 0x4411_2233);
    assert_eq!(Color::from_u24(0xAB10_2030).to_u32(), 0xFF10_2030);
    assert_eq!(Color::new().to_u32(), 0);
}

#[test]
fn pipe_gives_bytes_back_in_order() {
    let mut p = PipeBuffer::new();
    assert_eq!(p.write(b"hello"), 5);
    assert_eq!(p.available(), 5);
    let mut a = [0u8; 3];
    assert_eq!(p.read(&mut a), 3);
    assert_eq!(&a, b"hel");
    let mut b = [0u8; 8];
    assert_eq!(p.read(&mut b), 2);
    assert_eq!(&b[..2], b"lo");
    assert_eq!(p.available(), 0);
}

#[test]
fn pipe_write_stops_when_full_and_after_close() {
    let mut p = PipeBuffer::new();
    let big = vec![7u8; 5000];
    assert_eq!(p.write(&big), 4096);
    assert_eq!(p.write(b"x"), 0);
    let mut q = PipeBuffer::new();
    q.close();
    assert_eq!(q.write(b"abc"), 0);
}

#[test]
fn pic_acknowledgements() {
    let pics = Pics::new();
    assert!(pics.handles_interrupt(32));
    assert!(pics.handles_interrupt(47));
    assert!(!pics.handles_interrupt(48));
    assert!(!pics.handles_interrupt(31));
    assert_eq!(pics.end_interrupt(33), vec![(0x20u16, PIC_EOI)]);
    assert_eq!(pics.end_interrupt(44), vec![(0xA0u16, PIC_EOI), (0x20u16, PIC_EOI)]);
    assert_eq!(pics.end_interrupt(50), vec![]);
}

#[test]
fn pic_initialisation_sequence() {
    let w = Pics::new().init();
    assert_eq!(w.len(), 18);
    assert_eq!(w[0], (0x20, 0x11));
    assert_eq!(w[4], (0x21, 32));
    assert_eq!(w[6], (0xA1, 40));
    assert_eq!(w[16], (0x21, 0xFF));
    assert_eq!(w[17], (0xA1, 0xFF));
}

#[test]
fn trap_classification() {
    let timer = 0x8000_0000_0000_0005u64;
    assert_eq!(classify_trap(timer, 0), TrapAction::TimerTick);
    assert_eq!(classify_trap(0x8000_0000_0000_0009, 0), TrapAction::UnhandledInterrupt(9));
    assert_eq!(classify_trap(8, 0), TrapAction::Syscall);
    assert_eq!(classify_trap(2, 0), TrapAction::FpuFault);
    assert_eq!(classify_trap(2, 0x2000), TrapAction::Fatal);
    assert_eq!(classify_trap(13, 0), TrapAction::Fatal);
}

#[test]
fn trap_register_updates() {
    assert_eq!(enable_fpu(0x100), 0x2100);
    assert_eq!(next_tick(5), 10_005);
    assert_eq!(step_over_ecall(0x1000), 0x1004);
    assert_eq!(step_over_ecall(u64::MAX), 3);
}

#[test]
fn acpi_register_values() {
    assert_eq!(rsdt_entry_count(36 + 4 * 5), 5);
    assert_eq!(redirection_registers(3), (0x16, 0x17));
    assert_eq!(fixed_ipi_command(0x40), 0x4040);
    assert_eq!(icr_destination(2), 0x0200_0000);
    assert_eq!(lapic_id_of(0x0300_0000), 3);
}

#[test]
fn acpi_finds_the_madt_by_signature() {
    let tables = [(0x1000u64, *b"FACP"), (0x2000u64, *b"APIC"), (0x3000u64, *b"APIC")];
    assert_eq!(get_madt(0x500, &tables, 0xFFFF_8000_0000_0000), Some(0xFFFF_8000_0000_2000));
    assert_eq!(get_madt(0, &tables, 0), None);
    assert_eq!(get_madt(0x500, &tables[..1], 0), None);
}

fn madt_with(entries: &[&[u8]]) -> Vec<u8> {
    let mut t = vec![0u8; 44];
    for e in entries {
        t.extend_from_slice(e);
    }
    let len = t.len() as u32;
    t[4..8].copy_from_slice(&len.to_le_bytes());
    t[36..40].copy_from_slice(&0xFEE0_0000u32.to_le_bytes());
    t
}

#[test]
fn madt_walk_collects_processors_and_io_apic() {
    let cpu0: &[u8] = &[0, 8, 0, 0, 1, 0, 0, 0];
    let cpu1: &[u8] = &[0, 8, 1, 1, 1, 0, 0, 0];
    let cpu2_off: &[u8] = &[0, 8, 2, 2, 0, 0, 0, 0];
    let ioapic: &[u8] = &[1, 12, 0, 0, 0x00, 0x00, 0xC0, 0xFE, 0, 0, 0, 0];
    let cpu3: &[u8] = &[0, 8, 3, 3, 1, 0, 0, 0];
    let t = madt_with(&[cpu0, cpu1, cpu2_off, ioapic, cpu3]);
    let info = parse_madt(&t);
    assert_eq!(info.lapic_addr, 0xFEE0_0000);
    assert_eq!(info.ioapic_addr, Some(0xFEC0_0000));
    assert_eq!(info.ap_ids, vec![1, 3]);
}

#[test]
fn madt_walk_stops_at_a_zero_length_entry() {
    let cpu1: &[u8] = &[0, 8, 1, 1, 1, 0, 0, 0];
    let broken: &[u8] = &[0, 0, 2, 2, 1, 0, 0, 0];
    let cpu3: &[u8] = &[0, 8, 3, 3, 1, 0, 0, 0];
    let info = parse_madt(&madt_with(&[cpu1, broken, cpu3]));
    assert_eq!(info.ap_ids, vec![1]);
    assert_eq!(info.ioapic_addr, None);
}

#[test]
fn gpu_create_command_layout() {
    let c = create_2d(1, 1024, 576);
    assert_eq!(c, vec![VIRTIO_GPU_CMD_RESOURCE_CREATE_2D, 0, 0, 0, 0, 0, 1, 1, 1024, 576]);
}

#[test]
fn block_transfer_chunks() {
    let c = transfer_chunks(100, 262144 * 2 + 1024);
    assert_eq!(c, vec![(100, 0, 262144), (100 + 512, 262144, 262144), (100 + 1024, 524288, 1024)]);
    assert_eq!(transfer_chunks(7, 0), vec![]);
    assert_eq!(sector_bytes(3), 1536);
}

#[test]
fn page_rounding() {
    assert_eq!(round_up_page(0), 0);
    assert_eq!(round_up_page(1), 4096);
    assert_eq!(round_up_page(4096), 4096);
    assert_eq!(round_up_page(4097), 8192);
}

#[test]
fn brk_plans() {
    assert_eq!(plan_brk(0, 0x5000, 0x4000, 0x10000), BrkPlan::Query(0x5000));
    assert_eq!(plan_brk(0x3000, 0x5000, 0x4000, 0x10000), BrkPlan::Refuse);
    assert_eq!(plan_brk(0x20000, 0x5000, 0x4000, 0x10000), BrkPlan::Refuse);
    assert_eq!(
        plan_brk(0x7001, 0x5000, 0x4000, 0x10000),
        BrkPlan::Grow { from: 0x5000, pages: 3, new_brk: 0x7001, old_brk: 0x5000 }
    );
    assert_eq!(
        plan_brk(0x4800, 0x5000, 0x4000, 0x10000),
        BrkPlan::Grow { from: 0x5000, pages: 0, new_brk: 0x4800, old_brk: 0x5000 }
    );
}

#[test]
fn anonymous_mapping_from_the_heap() {
    assert!(plan_mmap(0, 0, 0x5000, 0x10000, 0, 0x100000).is_none());
    let p = plan_mmap(0, 0x1800, 0x5800, 0x10000, 0, 0x100000).unwrap();
    assert_eq!(p.target, 0x5800);
    assert_eq!(p.new_heap_end, Some(0x7000));
    assert_eq!(p.start_page, 0x5000);
    assert_eq!(p.pages, 2);
    assert!(plan_mmap(0, 0x20000, 0x5000, 0x10000, 0, 0x100000).is_none());
}

#[test]
fn transfer_ring_wraps_through_its_link_block() {
    let mut r = TrbRing::new(0x9000);
    assert_eq!(r.trbs.len(), RING_SIZE + 1);
    assert_eq!(r.trbs[RING_SIZE].trb_type(), 6);
    assert_eq!(r.trbs[RING_SIZE].param, 0x9000);
    assert!(r.trbs[RING_SIZE].cycle());
    r.enqueue_trb(Trb::new(5, 0, 1, false, 0));
    assert_eq!(r.enqueue, 1);
    assert!(r.trbs[0].cycle());
    assert_eq!(r.trbs[0].trb_type(), 1);
    for _ in 1..RING_SIZE {
        r.enqueue_trb(Trb::new(6, 0, 1, true, 0));
    }
    assert_eq!(r.enqueue, 0);
    assert!(!r.cycle);
    r.enqueue_trb(Trb::new(7, 0, 1, true, 0));
    assert!(!r.trbs[0].cycle());
    assert_eq!(r.trbs[0].param, 7);
}

#[test]
fn event_ring_consumer() {
    assert_eq!(advance_dequeue(3, true), (4, true));
    assert_eq!(advance_dequeue(255, true), (0, false));
    assert_eq!(event_dequeue_pointer(0x10000, 2), 0x10028);
}

#[test]
fn timer_arithmetic() {
    assert_eq!(hpet_period_fs(0x0098_9680_0000_0000), 10_000_000);
    assert_eq!(hpet_ticks_10ms(10_000_000), 1_000_000);
    assert!(waited_enough(5, u64::MAX - 4, 10));
    assert!(!waited_enough(5, u64::MAX - 3, 10));
    assert_eq!(lapic_ticks_10ms(Some(0xFFFF_0000)), 0xFFFF);
    assert_eq!(lapic_ticks_10ms(None), 1_000_000);
    assert_eq!(periodic_timer_lvt(32), 0x2_0020);
    assert_eq!(make_tss_descriptor(0x1122_3344_5566_7788, 0x67), (0x5500_8966_7788_0067, 0x1122_3344));
}

#[test]
fn application_processor_start_up() {
    assert_eq!(ap_stack_top(0x20_0000, 0xFFFF_8000_0000_0000), 0xFFFF_8000_0021_0000);
    assert_eq!(ist_stack_top(0x30_0000, 0xFFFF_8000_0000_0000), 0xFFFF_8000_0030_1000);
    assert_eq!(startup_ipi(TRAMPOLINE_ADDR), 0x608);
    assert_eq!(gdt_limit(AP_GDT_ENTRIES), 55);
    assert!(!ap_ready(0, 1));
    assert!(ap_ready(1, 1));
    assert!(!ap_ready(1, 2));
    assert_eq!(temp_gdt_entries(), [0, 0x00CF_9A00_0000_FFFF, 0x00CF_9200_0000_FFFF, 0x0020_9A00_0000_0000]);
    assert_eq!(temp_gdt_descriptor(TRAMPOLINE_ADDR), (31, 0x8100));
}

#[test]
fn acpi_table_records() {
    let mut t = vec![0u8; 56];
    t[0..4].copy_from_slice(b"HPET");
    t[4..8].copy_from_slice(&56u32.to_le_bytes());
    t[8] = 1;
    t[10..16].copy_from_slice(b"KRAKEN");
    t[36..40].copy_from_slice(&0x8086_A201u32.to_le_bytes());
    t[40] = 0;
    t[41] = 64;
    t[44..52].copy_from_slice(&0xFED0_0000u64.to_le_bytes());
    t[52] = 0;
    t[53..55].copy_from_slice(&0x80u16.to_le_bytes());
    let h = HpetTable::parse(&t);
    assert_eq!(&h.header.signature, b"HPET");
    assert_eq!({ h.header.length }, 56);
    assert_eq!(&h.header.oem_id, b"KRAKEN");
    assert_eq!({ h.event_timer_block_id }, 0x8086_A201);
    assert_eq!({ h.base_address.address }, 0xFED0_0000);
    assert_eq!({ h.base_address.register_bit_width }, 64);
    assert_eq!({ h.main_counter_minimum_clock_tick_in_periodic_mode }, 0x80);
    let mut m = vec![0u8; 44];
    m[0..4].copy_from_slice(b"APIC");
    m[36..40].copy_from_slice(&0xFEE0_0000u32.to_le_bytes());
    m[40] = 1;
    let madt = Madt::parse(&m);
    assert_eq!(madt.lapic_addr, 0xFEE0_0000);
    assert_eq!(madt.flags, 1);
    assert_eq!(&AcpiHeader::parse(&m).signature, b"APIC");
}

#[test]
fn trap_frame_updates() {
    let mut f = TrapFrame { regs: [0; 32], sepc: 0x8000_0000, sstatus: 0 };
    f.finish_trap(TrapAction::Syscall);
    assert_eq!(f.sepc, 0x8000_0004);
    f.finish_trap(TrapAction::FpuFault);
    assert_eq!(f.sstatus, 0x2000);
    f.finish_trap(TrapAction::TimerTick);
    assert_eq!((f.sepc, f.sstatus), (0x8000_0004, 0x2000));
    let z = FpuFrame::new();
    assert!(z.regs.iter().all(|&r| r == 0) && z.fcsr == 0);
}

#[test]
fn canonical_pipe_reads_whole_lines() {
    let mut p = PipeBuffer::new();
    let mut t = Termios::new();
    t.c_lflag = ICANON;
    p.set_termios(t);
    assert_eq!(p.write(b"ab\ncd"), 5);
    let mut buf = [0u8; 8];
    assert_eq!(p.read(&mut buf), 3);
    assert_eq!(&buf[..3], b"ab\n");
    assert_eq!(p.read(&mut buf), 0);
    assert_eq!(p.available(), 2);
}

#[test]
fn dmesg_keeps_the_latest_bytes() {
    let mut d = Dmesg::new();
    let total = DMESG_SIZE + 5;
    for i in 0..total {
        d.write_byte((i % 251) as u8);
    }
    let mut buf = [0u8; 8];
    assert_eq!(d.read(&mut buf), 8);
    for (k, b) in buf.iter().enumerate() {
        assert_eq!(*b, ((5 + k) % 251) as u8);
    }
    let mut all = vec![0u8; DMESG_SIZE + 10];
    assert_eq!(d.read(&mut all), DMESG_SIZE);
    assert_eq!(all[DMESG_SIZE - 1], ((total - 1) % 251) as u8);
}
