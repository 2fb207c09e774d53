//! VirtIO GPU requests: the control commands that set up the framebuffer,
//! push rectangles of it to the screen, and show and move the hardware
//! cursor, laid out as the device reads them, in 32-bit little-endian
//! words (a 64-bit field takes two, low word first).
use vstd::prelude::*;

verus! {

pub const VIRTIO_GPU_CMD_RESOURCE_CREATE_2D: u32 = 0x0101;
pub const VIRTIO_GPU_CMD_SET_SCANOUT: u32 = 0x0103;
pub const VIRTIO_GPU_CMD_RESOURCE_FLUSH: u32 = 0x0104;
pub const VIRTIO_GPU_CMD_TRANSFER_TO_HOST_2D: u32 = 0x0105;
pub const VIRTIO_GPU_CMD_RESOURCE_ATTACH_BACKING: u32 = 0x0106;
pub const VIRTIO_GPU_CMD_UPDATE_CURSOR: u32 = 0x0300;
pub const VIRTIO_GPU_CMD_MOVE_CURSOR: u32 = 0x0301;
pub const VIRTIO_GPU_FORMAT_B8G8R8A8_UNORM: u32 = 1;
/// The framebuffer: 1024 by 576 pixels of 4 bytes, resource 1.
pub const FB_WIDTH: u32 = 1024;
pub const FB_HEIGHT: u32 = 576;
pub const FB_RESOURCE_ID: u32 = 1;
/// The cursor image: 64 by 64 pixels, resource 2.
pub const CURSOR_SIZE: u32 = 64;
pub const CURSOR_RESOURCE_ID: u32 = 2;
/// Descriptors in a virtqueue.
pub const QUEUE_SIZE: u16 = 16;
/// The header flag that asks the device to signal the command's fence.
pub const VIRTIO_GPU_FLAG_FENCE: u32 = 1;
/// The pixel format of the double-buffered display's resources.
pub const VIRTIO_GPU_FORMAT_A8R8G8B8_UNORM: u32 = 2;
/// The command that asks for the displays' modes.
pub const VIRTIO_GPU_CMD_GET_DISPLAY_INFO: u32 = 0x0100;

/// The low word of a 64-bit field.
pub open spec fn lo(v: u64) -> u32 {
    (v % 0x1_0000_0000) as u32
}

/// The high word of a 64-bit field.
pub open spec fn hi(v: u64) -> u32 {
    (v / 0x1_0000_0000) as u32
}

/// The control header of a command of type `t`: type, flags, fence id (two
/// words), context id, padding.
pub open spec fn header(t: u32) -> Seq<u32> {
    seq![t, 0u32, 0u32, 0u32, 0u32, 0u32]
}

fn push_header(v: &mut Vec<u32>, t: u32)
    ensures
        final(v)@ == old(v)@ + header(t),
{
    v.push(t);
    v.push(0);
    v.push(0);
    v.push(0);
    v.push(0);
    v.push(0);
    assert(v@ =~= old(v)@ + header(t));
}

fn split64(x: u64) -> (r: (u32, u32))
    ensures
        r.0 == lo(x) && r.1 == hi(x),
{
    ((x % 0x1_0000_0000) as u32, (x / 0x1_0000_0000) as u32)
}

/// Creates a 2D resource of `width` by `height` pixels of 4 bytes.
pub fn create_2d(resource_id: u32, width: u32, height: u32) -> (c: Vec<u32>)
    ensures
        c@ == header(VIRTIO_GPU_CMD_RESOURCE_CREATE_2D) + seq![resource_id, VIRTIO_GPU_FORMAT_B8G8R8A8_UNORM, width, height],
{
    let mut c: Vec<u32> = Vec::new();
    push_header(&mut c, VIRTIO_GPU_CMD_RESOURCE_CREATE_2D);
    c.push(resource_id);
    c.push(VIRTIO_GPU_FORMAT_B8G8R8A8_UNORM);
    c.push(width);
    c.push(height);
    assert(c@ =~= header(VIRTIO_GPU_CMD_RESOURCE_CREATE_2D) + seq![resource_id, VIRTIO_GPU_FORMAT_B8G8R8A8_UNORM, width, height]);
    c
}

/// Backs a resource with one memory entry of `length` bytes at `addr`.
pub fn attach_backing(resource_id: u32, addr: u64, length: u32) -> (c: Vec<u32>)
    ensures
        c@ == header(VIRTIO_GPU_CMD_RESOURCE_ATTACH_BACKING) + seq![resource_id, 1u32, lo(addr), hi(addr), length, 0u32],
{
    let (a0, a1) = split64(addr);
    let mut c: Vec<u32> = Vec::new();
    push_header(&mut c, VIRTIO_GPU_CMD_RESOURCE_ATTACH_BACKING);
    c.push(resource_id);
    c.push(1);
    c.push(a0);
    c.push(a1);
    c.push(length);
    c.push(0);
    assert(c@ =~= header(VIRTIO_GPU_CMD_RESOURCE_ATTACH_BACKING) + seq![resource_id, 1u32, lo(addr), hi(addr), length, 0u32]);
    c
}

/// Shows resource `resource_id` on scanout 0 in the rectangle given.
pub fn set_scanout(resource_id: u32, x: u32, y: u32, width: u32, height: u32) -> (c: Vec<u32>)
    ensures
        c@ == header(VIRTIO_GPU_CMD_SET_SCANOUT) + seq![x, y, width, height, 0u32, resource_id],
{
    let mut c: Vec<u32> = Vec::new();
    push_header(&mut c, VIRTIO_GPU_CMD_SET_SCANOUT);
    c.push(x);
    c.push(y);
    c.push(width);
    c.push(height);
    c.push(0);
    c.push(resource_id);
    assert(c@ =~= header(VIRTIO_GPU_CMD_SET_SCANOUT) + seq![x, y, width, height, 0u32, resource_id]);
    c
}

/// Copies a rectangle of a resource, starting `offset` bytes into its
/// backing, to the host.
pub fn transfer_to_host(resource_id: u32, x: u32, y: u32, width: u32, height: u32, offset: u64) -> (c: Vec<u32>)
    ensures
        c@ == header(VIRTIO_GPU_CMD_TRANSFER_TO_HOST_2D) + seq![x, y, width, height, lo(offset), hi(offset), resource_id, 0u32],
{
    let (o0, o1) = split64(offset);
    let mut c: Vec<u32> = Vec::new();
    push_header(&mut c, VIRTIO_GPU_CMD_TRANSFER_TO_HOST_2D);
    c.push(x);
    c.push(y);
    c.push(width);
    c.push(height);
    c.push(o0);
    c.push(o1);
    c.push(resource_id);
    c.push(0);
    assert(c@ =~= header(VIRTIO_GPU_CMD_TRANSFER_TO_HOST_2D) + seq![x, y, width, height, lo(offset), hi(offset), resource_id, 0u32]);
    c
}

/// Flushes a rectangle of a resource to the screen.
pub fn resource_flush(resource_id: u32, x: u32, y: u32, width: u32, height: u32) -> (c: Vec<u32>)
    ensures
        c@ == header(VIRTIO_GPU_CMD_RESOURCE_FLUSH) + seq![x, y, width, height, resource_id, 0u32],
{
    let mut c: Vec<u32> = Vec::new();
    push_header(&mut c, VIRTIO_GPU_CMD_RESOURCE_FLUSH);
    c.push(x);
    c.push(y);
    c.push(width);
    c.push(height);
    c.push(resource_id);
    c.push(0);
    assert(c@ =~= header(VIRTIO_GPU_CMD_RESOURCE_FLUSH) + seq![x, y, width, height, resource_id, 0u32]);
    c
}

/// A cursor command of type `t` (update or move) at `(x, y)` on scanout 0,
/// showing resource `resource_id` with its hot spot at the corner.
pub fn cursor_command(t: u32, x: u32, y: u32, resource_id: u32) -> (c: Vec<u32>)
    ensures
        c@ == header(t) + seq![0u32, x, y, 0u32, resource_id, 0u32, 0u32, 0u32],
{
    let mut c: Vec<u32> = Vec::new();
    push_header(&mut c, t);
    c.push(0);
    c.push(x);
    c.push(y);
    c.push(0);
    c.push(resource_id);
    c.push(0);
    c.push(0);
    c.push(0);
    assert(c@ =~= header(t) + seq![0u32, x, y, 0u32, resource_id, 0u32, 0u32, 0u32]);
    c
}

/// The command, for the cursor queue, that moves the cursor to `(x, y)`.
pub fn move_cursor(x: u32, y: u32) -> (c: Vec<u32>)
    ensures
        c@ == header(VIRTIO_GPU_CMD_MOVE_CURSOR) + seq![0u32, x, y, 0u32, 0u32, 0u32, 0u32, 0u32],
{
    cursor_command(VIRTIO_GPU_CMD_MOVE_CURSOR, x, y, 0)
}

/// The commands that set up the framebuffer at `fb_addr`: create resource
/// 1 of the framebuffer's size, back it with the framebuffer, and show it
/// on scanout 0.
pub fn setup_fb(fb_addr: u64) -> (cmds: Vec<Vec<u32>>)
    ensures
        cmds@.len() == 3,
        cmds@[0]@ == header(VIRTIO_GPU_CMD_RESOURCE_CREATE_2D) + seq![FB_RESOURCE_ID, VIRTIO_GPU_FORMAT_B8G8R8A8_UNORM, FB_WIDTH, FB_HEIGHT],
        cmds@[1]@ == header(VIRTIO_GPU_CMD_RESOURCE_ATTACH_BACKING) + seq![FB_RESOURCE_ID, 1u32, lo(fb_addr), hi(fb_addr), 2359296u32, 0u32],
        cmds@[2]@ == header(VIRTIO_GPU_CMD_SET_SCANOUT) + seq![0u32, 0u32, FB_WIDTH, FB_HEIGHT, 0u32, FB_RESOURCE_ID],
{
    let mut cmds: Vec<Vec<u32>> = Vec::new();
    cmds.push(create_2d(FB_RESOURCE_ID, FB_WIDTH, FB_HEIGHT));
    cmds.push(attach_backing(FB_RESOURCE_ID, fb_addr, FB_WIDTH * FB_HEIGHT * 4));
    cmds.push(set_scanout(FB_RESOURCE_ID, 0, 0, FB_WIDTH, FB_HEIGHT));
    cmds
}

/// The byte offset of pixel `(x, y)` in the framebuffer.
pub open spec fn fb_offset(x: u32, y: u32) -> int {
    (y * FB_WIDTH + x) * 4
}

/// The commands that push the rectangle at `(x, y)` of `w` by `h` pixels of
/// the framebuffer to the screen: copy it to the host from its first
/// pixel's offset, then flush it.
pub fn flush_rect(x: u32, y: u32, w: u32, h: u32) -> (cmds: Vec<Vec<u32>>)
    requires
        fb_offset(x, y) <= u32::MAX,
    ensures
        cmds@.len() == 2,
        cmds@[0]@ == header(VIRTIO_GPU_CMD_TRANSFER_TO_HOST_2D) + seq![x, y, w, h, lo(fb_offset(x, y) as u64), hi(fb_offset(x, y) as u64), FB_RESOURCE_ID, 0u32],
        cmds@[1]@ == header(VIRTIO_GPU_CMD_RESOURCE_FLUSH) + seq![x, y, w, h, FB_RESOURCE_ID, 0u32],
{
    let offset = ((y * FB_WIDTH + x) * 4) as u64;
    let mut cmds: Vec<Vec<u32>> = Vec::new();
    cmds.push(transfer_to_host(FB_RESOURCE_ID, x, y, w, h, offset));
    cmds.push(resource_flush(FB_RESOURCE_ID, x, y, w, h));
    cmds
}

/// How many bytes of a cursor image are taken: at most the 64 by 64 pixels
/// of 4 bytes.
pub fn cursor_image_len(len: usize) -> (n: usize)
    ensures
        n == if len < 16384 { len as int } else { 16384 },
{
    if len < 16384 { len } else { 16384 }
}

/// The commands that show a new cursor image held at `cursor_addr`: the
/// first time, create resource 2 of the cursor's size and back it with the
/// image; then copy the image to the host. The update itself goes on the
/// cursor queue: see `cursor_command`.
pub fn cursor_image_commands(cursor_addr: u64, resource_ready: bool) -> (cmds: Vec<Vec<u32>>)
    ensures
        !resource_ready ==> cmds@.len() == 3
            && cmds@[0]@ == header(VIRTIO_GPU_CMD_RESOURCE_CREATE_2D) + seq![CURSOR_RESOURCE_ID, VIRTIO_GPU_FORMAT_B8G8R8A8_UNORM, CURSOR_SIZE, CURSOR_SIZE]
            && cmds@[1]@ == header(VIRTIO_GPU_CMD_RESOURCE_ATTACH_BACKING) + seq![CURSOR_RESOURCE_ID, 1u32, lo(cursor_addr), hi(cursor_addr), 16384u32, 0u32]
            && cmds@[2]@ == header(VIRTIO_GPU_CMD_TRANSFER_TO_HOST_2D) + seq![0u32, 0u32, CURSOR_SIZE, CURSOR_SIZE, 0u32, 0u32, CURSOR_RESOURCE_ID, 0u32],
        resource_ready ==> cmds@.len() == 1
            && cmds@[0]@ == header(VIRTIO_GPU_CMD_TRANSFER_TO_HOST_2D) + seq![0u32, 0u32, CURSOR_SIZE, CURSOR_SIZE, 0u32, 0u32, CURSOR_RESOURCE_ID, 0u32],
{
    let mut cmds: Vec<Vec<u32>> = Vec::new();
    if !resource_ready {
        cmds.push(create_2d(CURSOR_RESOURCE_ID, CURSOR_SIZE, CURSOR_SIZE));
        cmds.push(attach_backing(CURSOR_RESOURCE_ID, cursor_addr, CURSOR_SIZE * CURSOR_SIZE * 4));
    }
    let t = transfer_to_host(CURSOR_RESOURCE_ID, 0, 0, CURSOR_SIZE, CURSOR_SIZE, 0);
    assert(lo(0u64) == 0 && hi(0u64) == 0);
    cmds.push(t);
    cmds
}

/// The commands that set up a cursor resource `resource_id` of `width` by
/// `height` pixels backed at `addr`, copy it to the host, and show it at
/// `(x, y)`; the last goes on the cursor queue.
pub fn setup_cursor(addr: u64, width: u32, height: u32, x: u32, y: u32, resource_id: u32) -> (cmds: Vec<Vec<u32>>)
    requires
        width * height * 4 <= u32::MAX,
    ensures
        cmds@.len() == 4,
        cmds@[0]@ == header(VIRTIO_GPU_CMD_RESOURCE_CREATE_2D) + seq![resource_id, VIRTIO_GPU_FORMAT_B8G8R8A8_UNORM, width, height],
        cmds@[1]@ == header(VIRTIO_GPU_CMD_RESOURCE_ATTACH_BACKING) + seq![resource_id, 1u32, lo(addr), hi(addr), (width * height * 4) as u32, 0u32],
        cmds@[2]@ == header(VIRTIO_GPU_CMD_TRANSFER_TO_HOST_2D) + seq![0u32, 0u32, width, height, 0u32, 0u32, resource_id, 0u32],
        cmds@[3]@ == header(VIRTIO_GPU_CMD_UPDATE_CURSOR) + seq![0u32, x, y, 0u32, resource_id, 0u32, 0u32, 0u32],
{
    proof {
        assert(width * height <= u32::MAX) by (nonlinear_arith)
            requires
                width * height * 4 <= u32::MAX,
        ;
    }
    let mut cmds: Vec<Vec<u32>> = Vec::new();
    cmds.push(create_2d(resource_id, width, height));
    cmds.push(attach_backing(resource_id, addr, width * height * 4));
    let t = transfer_to_host(resource_id, 0, 0, width, height, 0);
    assert(lo(0u64) == 0 && hi(0u64) == 0);
    cmds.push(t);
    cmds.push(cursor_command(VIRTIO_GPU_CMD_UPDATE_CURSOR, x, y, resource_id));
    cmds
}

/// The slot of the available ring that entry number `idx` goes in.
pub fn avail_slot(idx: u16) -> (s: usize)
    ensures
        s == idx % QUEUE_SIZE,
        s < 16,
{
    (idx % QUEUE_SIZE) as usize
}

/// The page frame number of a queue placed at `addr`, as the legacy
/// interface takes it (32-bit address over 4096).
pub fn queue_pfn(addr: u64) -> (pfn: u32)
    ensures
        pfn == (addr % 0x1_0000_0000) / 4096,
{
    ((addr % 0x1_0000_0000) as u32) / 4096
}

/// `addr` rounded up to a page, where a queue is placed.
pub fn align_page(addr: usize) -> (a: usize)
    requires
        addr + 4095 <= usize::MAX,
    ensures
        a % 4096 == 0,
        addr <= a < addr + 4096,
{
    let t = addr + 4095;
    t - t % 4096
}

/// The control header of a fenced command of type `t` with fence `fence`.
pub open spec fn fenced_header(t: u32, fence: u64) -> Seq<u32> {
    seq![t, VIRTIO_GPU_FLAG_FENCE, lo(fence), hi(fence), 0u32, 0u32]
}

/// The request for the displays' modes.
pub fn display_info_request() -> (c: Vec<u32>)
    ensures
        c@ == header(VIRTIO_GPU_CMD_GET_DISPLAY_INFO),
{
    let mut c: Vec<u32> = Vec::new();
    push_header(&mut c, VIRTIO_GPU_CMD_GET_DISPLAY_INFO);
    c
}

/// Creates a 2D resource of `width` by `height` pixels in `format`.
pub fn create_resource(resource_id: u32, format: u32, width: u32, height: u32) -> (c: Vec<u32>)
    ensures
        c@ == header(VIRTIO_GPU_CMD_RESOURCE_CREATE_2D) + seq![resource_id, format, width, height],
{
    let mut c: Vec<u32> = Vec::new();
    push_header(&mut c, VIRTIO_GPU_CMD_RESOURCE_CREATE_2D);
    c.push(resource_id);
    c.push(format);
    c.push(width);
    c.push(height);
    assert(c@ =~= header(VIRTIO_GPU_CMD_RESOURCE_CREATE_2D) + seq![resource_id, format, width, height]);
    c
}

/// The commands that start a double-buffered display of `width` by
/// `height`: for resources 1 and 2, create it and back it with its buffer
/// (`phys1`, `phys2`); then show resource 1 on scanout 0, fenced with
/// fence 1.
pub fn start_gpu_commands(width: u32, height: u32, phys1: u64, phys2: u64) -> (cmds: Vec<Vec<u32>>)
    requires
        width * height * 4 <= u32::MAX,
    ensures
        cmds@.len() == 5,
        cmds@[0]@ == header(VIRTIO_GPU_CMD_RESOURCE_CREATE_2D) + seq![1u32, VIRTIO_GPU_FORMAT_A8R8G8B8_UNORM, width, height],
        cmds@[1]@ == header(VIRTIO_GPU_CMD_RESOURCE_ATTACH_BACKING) + seq![1u32, 1u32, lo(phys1), hi(phys1), (width * height * 4) as u32, 0u32],
        cmds@[2]@ == header(VIRTIO_GPU_CMD_RESOURCE_CREATE_2D) + seq![2u32, VIRTIO_GPU_FORMAT_A8R8G8B8_UNORM, width, height],
        cmds@[3]@ == header(VIRTIO_GPU_CMD_RESOURCE_ATTACH_BACKING) + seq![2u32, 1u32, lo(phys2), hi(phys2), (width * height * 4) as u32, 0u32],
        cmds@[4]@ == fenced_header(VIRTIO_GPU_CMD_SET_SCANOUT, 1) + seq![0u32, 0u32, width, height, 0u32, 1u32],
{
    proof {
        assert(width * height <= u32::MAX) by (nonlinear_arith)
            requires
                width * height * 4 <= u32::MAX,
        ;
    }
    let bytes = width * height * 4;
    let mut cmds: Vec<Vec<u32>> = Vec::new();
    cmds.push(create_resource(1, VIRTIO_GPU_FORMAT_A8R8G8B8_UNORM, width, height));
    cmds.push(attach_backing(1, phys1, bytes));
    cmds.push(create_resource(2, VIRTIO_GPU_FORMAT_A8R8G8B8_UNORM, width, height));
    cmds.push(attach_backing(2, phys2, bytes));
    let mut scan: Vec<u32> = Vec::new();
    scan.push(VIRTIO_GPU_CMD_SET_SCANOUT);
    scan.push(VIRTIO_GPU_FLAG_FENCE);
    scan.push(1);
    scan.push(0);
    scan.push(0);
    scan.push(0);
    scan.push(0);
    scan.push(0);
    scan.push(width);
    scan.push(height);
    scan.push(0);
    scan.push(1);
    assert(lo(1u64) == 1 && hi(1u64) == 0);
    assert(scan@ =~= fenced_header(VIRTIO_GPU_CMD_SET_SCANOUT, 1) + seq![0u32, 0u32, width, height, 0u32, 1u32]);
    cmds.push(scan);
    cmds
}

/// The byte offset of pixel `(x, y)` on a screen `screen_w` pixels wide.
pub open spec fn pixel_offset(x: u32, y: u32, screen_w: u32) -> int {
    (y * screen_w + x) * 4
}

/// The commands that push the rectangle at `(x, y)` of `w` by `h` pixels of
/// resource `resource_id`, on a screen `screen_w` pixels wide, to the
/// screen: copy it to the host from its first pixel's offset, then flush.
pub fn flush_region(x: u32, y: u32, w: u32, h: u32, screen_w: u32, resource_id: u32) -> (cmds: Vec<Vec<u32>>)
    requires
        pixel_offset(x, y, screen_w) <= u32::MAX,
    ensures
        cmds@.len() == 2,
        cmds@[0]@ == header(VIRTIO_GPU_CMD_TRANSFER_TO_HOST_2D) + seq![x, y, w, h, lo(pixel_offset(x, y, screen_w) as u64), hi(pixel_offset(x, y, screen_w) as u64), resource_id, 0u32],
        cmds@[1]@ == header(VIRTIO_GPU_CMD_RESOURCE_FLUSH) + seq![x, y, w, h, resource_id, 0u32],
{
    proof {
        assert(y * screen_w <= u32::MAX) by (nonlinear_arith)
            requires
                (y * screen_w + x) * 4 <= u32::MAX,
        ;
    }
    let offset = ((y * screen_w + x) * 4) as u64;
    let mut cmds: Vec<Vec<u32>> = Vec::new();
    cmds.push(transfer_to_host(resource_id, x, y, w, h, offset));
    cmds.push(resource_flush(resource_id, x, y, w, h));
    cmds
}

/// The commands that present a whole resource of `width` by `height`:
/// copy it to the host, then flush it.
pub fn transfer_and_flush_commands(resource_id: u32, width: u32, height: u32) -> (cmds: Vec<Vec<u32>>)
    ensures
        cmds@.len() == 2,
        cmds@[0]@ == header(VIRTIO_GPU_CMD_TRANSFER_TO_HOST_2D) + seq![0u32, 0u32, width, height, 0u32, 0u32, resource_id, 0u32],
        cmds@[1]@ == header(VIRTIO_GPU_CMD_RESOURCE_FLUSH) + seq![0u32, 0u32, width, height, resource_id, 0u32],
{
    let mut cmds: Vec<Vec<u32>> = Vec::new();
    let t = transfer_to_host(resource_id, 0, 0, width, height, 0);
    assert(lo(0u64) == 0 && hi(0u64) == 0);
    cmds.push(t);
    cmds.push(resource_flush(resource_id, 0, 0, width, height));
    cmds
}

/// The commands of a double-buffer flip to `back_id`: copy the rectangle
/// to the host fenced with `fence_id` (so the copy is done before the
/// flip), show `back_id` on the whole screen, and flush the rectangle.
pub fn flip_commands(x: u32, y: u32, w: u32, h: u32, screen_w: u32, screen_h: u32, back_id: u32, fence_id: u64) -> (cmds: Vec<Vec<u32>>)
    requires
        pixel_offset(x, y, screen_w) <= u32::MAX,
    ensures
        cmds@.len() == 3,
        cmds@[0]@ == fenced_header(VIRTIO_GPU_CMD_TRANSFER_TO_HOST_2D, fence_id) + seq![x, y, w, h, lo(pixel_offset(x, y, screen_w) as u64), hi(pixel_offset(x, y, screen_w) as u64), back_id, 0u32],
        cmds@[1]@ == header(VIRTIO_GPU_CMD_SET_SCANOUT) + seq![0u32, 0u32, screen_w, screen_h, 0u32, back_id],
        cmds@[2]@ == header(VIRTIO_GPU_CMD_RESOURCE_FLUSH) + seq![x, y, w, h, back_id, 0u32],
{
    proof {
        assert(y * screen_w <= u32::MAX) by (nonlinear_arith)
            requires
                (y * screen_w + x) * 4 <= u32::MAX,
        ;
    }
    let offset = ((y * screen_w + x) * 4) as u64;
    let (f0, f1) = split64(fence_id);
    let (o0, o1) = split64(offset);
    let mut t: Vec<u32> = Vec::new();
    t.push(VIRTIO_GPU_CMD_TRANSFER_TO_HOST_2D);
    t.push(VIRTIO_GPU_FLAG_FENCE);
    t.push(f0);
    t.push(f1);
    t.push(0);
    t.push(0);
    t.push(x);
    t.push(y);
    t.push(w);
    t.push(h);
    t.push(o0);
    t.push(o1);
    t.push(back_id);
    t.push(0);
    assert(t@ =~= fenced_header(VIRTIO_GPU_CMD_TRANSFER_TO_HOST_2D, fence_id) + seq![x, y, w, h, lo(offset), hi(offset), back_id, 0u32]);
    let mut cmds: Vec<Vec<u32>> = Vec::new();
    cmds.push(t);
    cmds.push(set_scanout(back_id, 0, 0, screen_w, screen_h));
    cmds.push(resource_flush(back_id, x, y, w, h));
    cmds
}

} // verus!
