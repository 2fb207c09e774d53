use krakeos::gpu::{
    display_info_request, flip_commands, flush_region, start_gpu_commands, transfer_and_flush_commands,
    VIRTIO_GPU_CMD_GET_DISPLAY_INFO, VIRTIO_GPU_CMD_RESOURCE_ATTACH_BACKING, VIRTIO_GPU_CMD_RESOURCE_CREATE_2D,
    VIRTIO_GPU_CMD_RESOURCE_FLUSH, VIRTIO_GPU_CMD_SET_SCANOUT, VIRTIO_GPU_CMD_TRANSFER_TO_HOST_2D,
};
use krakeos::acpi::{send_ipi_to, set_irq};
use krakeos::gpu::move_cursor;
use krakeos::input::{toggle_maximize, ResizeTarget, WindowFrame};
use krakeos::virtio_input::{drain_events, VirtioInputEvent};
use krakeos::pci::{PciCapability, PciDevice, CONFIG_DWORDS};
use krakeos::usb::ring::Trb;
use krakeos::usb::xhci::{
    address_device_trb, command_completion, control_transfer_trbs, controller_layout, device_from_descriptor,
    enable_slot_trb, enabled_slot, input_context_words, port_connected, port_enabled, port_reset_value,
    port_resetting, port_speed, scratchpad_count, setup_packet, transfer_result,
};
use krakeos::usb::{UsbClass, UsbSpeed};
use krakeos::virtq::{
    display_size, features_accepted, negotiate_high_features, parse_virtio_caps, DisplayMode, VirtioPciCap,
    VIRTIO_GPU_RESP_OK_DISPLAY_INFO,
};
use krakeos::registry::{DeviceCategory, DeviceTable, DriverKind};
use krakeos::virtq::{needs_bar_remap, negotiate_low_features, notify_multiplier};

fn pci_dev() -> PciDevice {
    PciDevice { class: 3, subclass: 0, vendor_id: 0x1AF4, device_id: 0x1050, bus: 0, device: 2, function: 0 }
}

#[test]
fn gpu_start_sequence() {
    let cmds = start_gpu_commands(1024, 768, 0x1000_0000, 0x2_0000_0000);
    assert_eq!(cmds.len(), 5);
    assert_eq!(cmds[0], vec![VIRTIO_GPU_CMD_RESOURCE_CREATE_2D, 0, 0, 0, 0, 0, 1, 2, 1024, 768]);
    assert_eq!(cmds[1], vec![VIRTIO_GPU_CMD_RESOURCE_ATTACH_BACKING, 0, 0, 0, 0, 0, 1, 1, 0x1000_0000, 0, 1024 * 768 * 4, 0]);
    assert_eq!(cmds[2], vec![VIRTIO_GPU_CMD_RESOURCE_CREATE_2D, 0, 0, 0, 0, 0, 2, 2, 1024, 768]);
    assert_eq!(cmds[3], vec![VIRTIO_GPU_CMD_RESOURCE_ATTACH_BACKING, 0, 0, 0, 0, 0, 2, 1, 0, 2, 1024 * 768 * 4, 0]);
    assert_eq!(cmds[4], vec![VIRTIO_GPU_CMD_SET_SCANOUT, 1, 1, 0, 0, 0, 0, 0, 1024, 768, 0, 1]);
}

#[test]
fn gpu_region_flush_starts_at_the_first_pixel() {
    let cmds = flush_region(10, 2, 30, 40, 1024, 1);
    assert_eq!(cmds.len(), 2);
    let offset = (2 * 1024 + 10) * 4;
    assert_eq!(cmds[0], vec![VIRTIO_GPU_CMD_TRANSFER_TO_HOST_2D, 0, 0, 0, 0, 0, 10, 2, 30, 40, offset, 0, 1, 0]);
    assert_eq!(cmds[1], vec![VIRTIO_GPU_CMD_RESOURCE_FLUSH, 0, 0, 0, 0, 0, 10, 2, 30, 40, 1, 0]);
}

#[test]
fn gpu_whole_screen_present() {
    let cmds = transfer_and_flush_commands(2, 800, 600);
    assert_eq!(cmds[0], vec![VIRTIO_GPU_CMD_TRANSFER_TO_HOST_2D, 0, 0, 0, 0, 0, 0, 0, 800, 600, 0, 0, 2, 0]);
    assert_eq!(cmds[1], vec![VIRTIO_GPU_CMD_RESOURCE_FLUSH, 0, 0, 0, 0, 0, 0, 0, 800, 600, 2, 0]);
    assert_eq!(display_info_request(), vec![VIRTIO_GPU_CMD_GET_DISPLAY_INFO, 0, 0, 0, 0, 0]);
}

#[test]
fn gpu_flip_fences_the_copy() {
    let cmds = flip_commands(0, 1, 8, 8, 640, 480, 2, 0x1_0000_0005);
    assert_eq!(cmds.len(), 3);
    assert_eq!(cmds[0], vec![VIRTIO_GPU_CMD_TRANSFER_TO_HOST_2D, 1, 5, 1, 0, 0, 0, 1, 8, 8, 640 * 4, 0, 2, 0]);
    assert_eq!(cmds[1], vec![VIRTIO_GPU_CMD_SET_SCANOUT, 0, 0, 0, 0, 0, 0, 0, 640, 480, 0, 2]);
    assert_eq!(cmds[2], vec![VIRTIO_GPU_CMD_RESOURCE_FLUSH, 0, 0, 0, 0, 0, 0, 1, 8, 8, 2, 0]);
}

#[test]
fn gpu_display_size_falls_back_to_an_enabled_mode() {
    let mut modes = vec![DisplayMode { enabled: 0, width: 0, height: 0 }; 16];
    assert_eq!(display_size(VIRTIO_GPU_RESP_OK_DISPLAY_INFO, &modes), None);
    modes[3] = DisplayMode { enabled: 1, width: 1280, height: 720 };
    assert_eq!(display_size(VIRTIO_GPU_RESP_OK_DISPLAY_INFO, &modes), Some((1280, 720)));
    assert_eq!(display_size(0x1200, &modes), None);
    modes[0] = DisplayMode { enabled: 0, width: 800, height: 600 };
    assert_eq!(display_size(VIRTIO_GPU_RESP_OK_DISPLAY_INFO, &modes), Some((800, 600)));
}

#[test]
fn virtio_capabilities_are_read_from_config_space() {
    let mut cfg = vec![0u32; CONFIG_DWORDS];
    // A vendor capability at 0x40: type 1 (common), BAR 4, offset 0x1000, length 0x38.
    cfg[0x40 / 4] = 0x0100_5009;
    cfg[0x44 / 4] = 0x0000_0004;
    cfg[0x48 / 4] = 0x1000;
    cfg[0x4C / 4] = 0x38;
    // An MSI-X capability at 0x50 is skipped.
    cfg[0x50 / 4] = 0x0000_0011;
    let caps = vec![
        PciCapability { id: 0x09, offset: 0x40, next: 0x50 },
        PciCapability { id: 0x11, offset: 0x50, next: 0 },
    ];
    let found = parse_virtio_caps(&pci_dev(), &cfg, &caps);
    assert_eq!(found, vec![VirtioPciCap { cfg_type: 1, bar: 4, offset: 0x1000, length: 0x38, cap_offset: 0x40 }]);
}

#[test]
fn virtio_feature_negotiation() {
    assert_eq!(negotiate_high_features(0xFFFF_FFFF), 1);
    assert_eq!(negotiate_high_features(0xFFFF_FFFE), 0);
    assert!(features_accepted(0x0B));
    assert!(!features_accepted(0x03));
}

#[test]
fn xhci_layout_from_capability_registers() {
    let l = controller_layout(0x0100_0020, 0x0800_0040, 0x2400_0000, 0x3020, 0x2003);
    assert_eq!(l.op_offset, 0x20);
    assert_eq!(l.max_slots, 0x40);
    assert_eq!(l.max_ports, 8);
    assert_eq!(l.rt_offset, 0x3020);
    assert_eq!(l.db_offset, 0x2000);
    assert_eq!(l.scratchpads, 4);
    assert_eq!(scratchpad_count(4), 4);
    assert_eq!(scratchpad_count(1000), 512);
}

#[test]
fn xhci_port_status_bits() {
    let sc = 0x0000_1203u32;
    assert!(port_connected(sc));
    assert!(port_enabled(sc));
    assert!(!port_resetting(sc));
    assert_eq!(port_speed(sc), 4);
    assert_eq!(port_reset_value(sc), 0x1213);
    assert!(port_resetting(0x10));
}

#[test]
fn xhci_command_events() {
    let ev = Trb { param: 0, status: 0x0100_0000, ctrl: 0x0500_8401 };
    assert_eq!(command_completion(ev, true), Some((5, 1)));
    assert_eq!(command_completion(ev, false), None);
    assert_eq!(enabled_slot(5, 1), Some(5));
    assert_eq!(enabled_slot(0, 1), None);
    assert_eq!(enabled_slot(5, 4), None);
    assert_eq!(enable_slot_trb(), Trb { param: 0, status: 0, ctrl: 0x2400 });
    assert_eq!(address_device_trb(0x8000, 3), Trb { param: 0x8000, status: 0, ctrl: 0x0300_2C00 });
}

#[test]
fn xhci_input_context_for_a_port() {
    let w = input_context_words(2, 0x0000_1201, 0x1_2345_6000);
    assert_eq!(
        w,
        vec![(1, 3), (8, 0x0840_0000), (9, 0x0003_0000), (17, 0xC_0018), (18, 0x2345_6001), (19, 1), (20, 8)]
    );
}

#[test]
fn xhci_control_transfer_blocks() {
    let setup = setup_packet(0x80, 6, 0x0100, 0, 18);
    assert_eq!(setup, 0x0012_0000_0100_0680);
    let t = control_transfer_trbs(setup, 18, 0x9000);
    assert_eq!(t.len(), 3);
    assert_eq!(t[0], Trb { param: setup, status: 8, ctrl: 0x3_0820 });
    assert_eq!(t[1], Trb { param: 0x9000, status: 18, ctrl: 0x1_0C00 });
    assert_eq!(t[2], Trb { param: 0, status: 0, ctrl: 0x1020 });
    let n = control_transfer_trbs(setup, 0, 0x9000);
    assert_eq!(n.len(), 2);
    assert_eq!(n[1], Trb { param: 0, status: 0, ctrl: 0x1_1020 });
}

#[test]
fn xhci_transfer_events() {
    let ok = Trb { param: 0, status: 0x0100_0000, ctrl: 0x8001 };
    assert_eq!(transfer_result(ok, true), Some(true));
    assert_eq!(transfer_result(ok, false), None);
    let short = Trb { param: 0, status: 0x0D00_0000, ctrl: 0x8001 };
    assert_eq!(transfer_result(short, true), Some(true));
    let stall = Trb { param: 0, status: 0x0600_0000, ctrl: 0x8001 };
    assert_eq!(transfer_result(stall, true), Some(false));
    let other = Trb { param: 0, status: 0x0100_0000, ctrl: 0x8401 };
    assert_eq!(transfer_result(other, true), None);
}

#[test]
fn xhci_device_descriptor() {
    let mut d = vec![0u8; 18];
    d[4] = 0x03;
    d[5] = 1;
    d[6] = 2;
    d[8] = 0x6D;
    d[9] = 0x04;
    d[10] = 0x1C;
    d[11] = 0xC5;
    let dev = device_from_descriptor(7, &d);
    assert_eq!(dev.slot_id, 7);
    assert_eq!(dev.speed, UsbSpeed::High);
    assert_eq!(dev.class, UsbClass::Hid);
    assert_eq!(dev.subclass, 1);
    assert_eq!(dev.protocol, 2);
    assert_eq!(dev.vendor_id, 0x046D);
    assert_eq!(dev.product_id, 0xC51C);
}

#[test]
fn cursor_moves_and_interrupt_routing() {
    assert_eq!(move_cursor(10, 20), vec![0x0301, 0, 0, 0, 0, 0, 0, 10, 20, 0, 0, 0, 0, 0]);
    assert_eq!(set_irq(11, 0x2B), [(0x26, 0x2B), (0x27, 0)]);
    assert_eq!(send_ipi_to(3, 0xF0), (0x0300_0000, 0x40F0));
}

#[test]
fn input_events_are_drained_and_requeued() {
    let ev = |c: u16| VirtioInputEvent { type_: 1, code: c, value: 1 };
    let events: Vec<VirtioInputEvent> = (0..16).map(ev).collect();
    let mut used = vec![(0u32, 0u32); 16];
    used[15] = (3, 8);
    used[0] = (9, 8);
    used[1] = (4, 6);
    let mut ring = vec![0u16; 16];
    let (got, last, avail) = drain_events(0xFFFF, 2, &used, &events, 0xFFFE, &mut ring);
    assert_eq!(got, vec![ev(3), ev(9)]);
    assert_eq!((last, avail), (2, 1));
    assert_eq!((ring[14], ring[15], ring[0]), (3, 9, 4));
    let (none, last2, avail2) = drain_events(2, 2, &used, &events, 1, &mut ring);
    assert!(none.is_empty());
    assert_eq!((last2, avail2), (2, 1));
}

#[test]
fn maximise_then_restore() {
    let mut w = WindowFrame {
        x: 40, y: 30, width: 320, height: 60, prev_x: 0, prev_y: 0, prev_width: 0, prev_height: 0, is_maximized: false,
    };
    let t = toggle_maximize(&mut w, 1024, 768);
    assert_eq!(t, ResizeTarget { x: 0, y: 0, width: 1024, height: 768, transparent: false });
    assert!(w.is_maximized);
    let back = toggle_maximize(&mut w, 1024, 768);
    assert_eq!(back, ResizeTarget { x: 40, y: 30, width: 320, height: 100, transparent: true });
    assert!(!w.is_maximized);
}

#[test]
fn mass_storage_registers_block_device() {
    let mut table = DeviceTable::new();
    assert!(table.get_detected(DeviceCategory::BlockStorage).is_none());
    let dev = krakeos::usb::UsbDevice {
        slot_id: 1,
        speed: UsbSpeed::High,
        class: UsbClass::MassStorage,
        subclass: 6,
        protocol: 0x50,
        vendor_id: 0x0781,
        product_id: 0x5567,
    };
    krakeos::usb::mass_storage::register(&mut table, dev);
    assert_eq!(table.as_slice().len(), 1);
    let e = table.get_detected(DeviceCategory::BlockStorage).unwrap();
    assert_eq!(e.driver, DriverKind::Unknown);
    assert_eq!(e.name, "USB Mass Storage");
    assert!(e.active);
    assert!(table.get_active(DeviceCategory::BlockStorage).is_some());
}

#[test]
fn gpu_feature_and_bar_choices() {
    assert_eq!(negotiate_low_features(0xFFFF_FFFF), 2);
    assert_eq!(negotiate_low_features(0x1), 0);
    assert_eq!(negotiate_low_features(0x2), 2);
    assert!(needs_bar_remap(None));
    assert!(needs_bar_remap(Some(0xFEBF_0000 - 0x4000_0000)));
    assert!(!needs_bar_remap(Some(0xC000_0000)));
    assert!(!needs_bar_remap(Some(0xFE00_0000)));
    assert_eq!(notify_multiplier(0), 4);
    assert_eq!(notify_multiplier(2), 2);
}
