//! The kernel log ring (`dmesg`), the byte rules of the serial debug console
//! and a bounded text writer.
use vstd::prelude::*;
use vstd::string::StringSliceAdditionalSpecFns;
use vstd::utf8::valid_utf8;

verus! {

/// The I/O port of the first serial line.
pub const COM1: u16 = 0x3F8;

/// Capacity of the kernel log in bytes.
pub const DMESG_SIZE: usize = 131072;

/// The kernel log: a ring that keeps the most recent `DMESG_SIZE` bytes.
pub struct Dmesg {
    pub buffer: Vec<u8>,
    pub head: usize,
    pub count: usize,
}

impl View for Dmesg {
    type V = Seq<u8>;

    /// The retained bytes, oldest first.
    open spec fn view(&self) -> Seq<u8> {
        Seq::new(
            self.count as nat,
            |i: int|
                self.buffer@[(self.head + DMESG_SIZE - self.count + i) % (DMESG_SIZE as int)],
        )
    }
}

/// The log after appending `b` to a log that retains `s`: once full, the
/// oldest byte is dropped.
pub open spec fn dmesg_after(s: Seq<u8>, b: u8) -> Seq<u8> {
    if s.len() < DMESG_SIZE {
        s.push(b)
    } else {
        s.drop_first().push(b)
    }
}

/// The log after the bytes `ws` were appended, in order, to an empty log.
pub open spec fn log_of(ws: Seq<u8>) -> Seq<u8>
    decreases ws.len(),
{
    if ws.len() == 0 {
        Seq::empty()
    } else {
        dmesg_after(log_of(ws.drop_last()), ws.last())
    }
}

/// The last `n` bytes of `ws` (all of them when there are fewer).
pub open spec fn latest(ws: Seq<u8>, n: int) -> Seq<u8> {
    if ws.len() <= n {
        ws
    } else {
        ws.skip(ws.len() - n)
    }
}

/// However many bytes are written, the log keeps exactly the most recent
/// `DMESG_SIZE` of them, oldest first.
pub proof fn lemma_dmesg_keeps_latest(ws: Seq<u8>)
    ensures
        log_of(ws) == latest(ws, DMESG_SIZE as int),
    decreases ws.len(),
{
    if ws.len() > 0 {
        let p = ws.drop_last();
        lemma_dmesg_keeps_latest(p);
        if p.len() < DMESG_SIZE {
            assert(p.push(ws.last()) =~= ws);
        } else {
            let l = p.skip(p.len() - DMESG_SIZE);
            assert(l.drop_first().push(ws.last()) =~= ws.skip(ws.len() - DMESG_SIZE));
        }
    }
}

impl Dmesg {
    /// The ring's layout invariant.
    pub open spec fn wf(&self) -> bool {
        &&& self.buffer.len() == DMESG_SIZE
        &&& self.head < DMESG_SIZE
        &&& self.count <= DMESG_SIZE
    }

    /// An empty log.
    pub fn new() -> (d: Dmesg)
        ensures
            d.wf(),
            d@ == Seq::<u8>::empty(),
    {
        Dmesg { buffer: vec![0u8; DMESG_SIZE], head: 0, count: 0 }
    }

    /// Appends one byte, overwriting the oldest once the ring is full.
    pub fn write_byte(&mut self, b: u8)
        requires
            old(self).wf(),
        ensures
            final(self).wf(),
            final(self)@ == dmesg_after(old(self)@, b),
    {
        let ghost s0 = self@;
        let h = self.head;
        self.buffer.set(h, b);
        self.head = (self.head + 1) % DMESG_SIZE;
        if self.count < DMESG_SIZE {
            self.count = self.count + 1;
            assert forall|i: int| 0 <= i < s0.len() implies #[trigger] self@[i] == s0[i] by {
                assert((self.head + DMESG_SIZE - self.count + i) % (DMESG_SIZE as int) == (h
                    + DMESG_SIZE - s0.len() + i) % (DMESG_SIZE as int));
                assert((h + DMESG_SIZE - s0.len() + i) % (DMESG_SIZE as int) != h as int);
            }
            assert(self@[s0.len() as int] == b) by {
                assert((self.head + DMESG_SIZE - self.count + s0.len()) % (DMESG_SIZE as int)
                    == h as int);
            }
            assert(self@ =~= s0.push(b));
        } else {
            assert forall|i: int| 0 <= i < s0.len() - 1 implies #[trigger] self@[i] == s0[i + 1] by {
                assert((self.head + DMESG_SIZE - self.count + i) % (DMESG_SIZE as int) == (h
                    + DMESG_SIZE - s0.len() + i + 1) % (DMESG_SIZE as int));
                assert((h + DMESG_SIZE - s0.len() + i + 1) % (DMESG_SIZE as int) != h as int);
            }
            assert(self@[s0.len() - 1] == b) by {
                assert((self.head + DMESG_SIZE - self.count + s0.len() - 1) % (DMESG_SIZE as int)
                    == h as int);
            }
            assert(self@ =~= s0.drop_first().push(b));
        }
    }

    /// Copies the oldest retained bytes into the front of `user_buf`, as many
    /// as fit, and returns how many.
    pub fn read(&self, user_buf: &mut [u8]) -> (n: usize)
        requires
            self.wf(),
        ensures
            n == (if old(user_buf)@.len() < self@.len() {
                old(user_buf)@.len()
            } else {
                self@.len()
            }),
            final(user_buf)@.len() == old(user_buf)@.len(),
            final(user_buf)@.take(n as int) == self@.take(n as int),
            final(user_buf)@.skip(n as int) == old(user_buf)@.skip(n as int),
    {
        let to_read: usize = if user_buf.len() < self.count {
            user_buf.len()
        } else {
            self.count
        };
        let start: usize = (self.head + DMESG_SIZE - self.count) % DMESG_SIZE;
        let ghost b0 = user_buf@;
        let mut i: usize = 0;
        while i < to_read
            invariant
                self.wf(),
                to_read <= user_buf@.len(),
                to_read <= self.count,
                start == (self.head + DMESG_SIZE - self.count) % (DMESG_SIZE as int),
                user_buf@.len() == b0.len(),
                i <= to_read,
                forall|j: int| 0 <= j < i ==> #[trigger] user_buf@[j] == self@[j],
                forall|j: int| i <= j < b0.len() ==> #[trigger] user_buf@[j] == b0[j],
            decreases to_read - i,
        {
            let idx = (start + i) % DMESG_SIZE;
            assert(idx == (self.head + DMESG_SIZE - self.count + i) % (DMESG_SIZE as int));
            user_buf[i] = self.buffer[idx];
            i = i + 1;
        }
        assert(user_buf@.take(to_read as int) =~= self@.take(to_read as int));
        assert(user_buf@.skip(to_read as int) =~= b0.skip(to_read as int));
        to_read
    }
}

/// What the console makes of one byte of text: printable ASCII and `\n`
/// pass, `\r` is dropped and anything else becomes the marker byte `0xfe`.
pub open spec fn console_byte(b: u8) -> Seq<u8> {
    if (0x20 <= b && b <= 0x7e) || b == 10 {
        seq![b]
    } else if b == 13 {
        Seq::empty()
    } else {
        seq![0xfeu8]
    }
}

/// The bytes that `text` hands to the console, one `console_byte` each.
pub open spec fn console_text(text: Seq<u8>) -> Seq<u8>
    decreases text.len(),
{
    if text.len() == 0 {
        Seq::empty()
    } else {
        console_text(text.drop_last()) + console_byte(text.last())
    }
}

/// What goes on the wire for one console byte: a line feed is preceded by a
/// carriage return.
pub open spec fn wire_bytes(b: u8) -> Seq<u8> {
    if b == 10 {
        seq![13u8, 10u8]
    } else {
        seq![b]
    }
}

/// The serial debug console on a given port.
pub struct SerialDebug {
    port: u16,
}

impl SerialDebug {
    /// The console's port.
    pub closed spec fn port_spec(&self) -> u16 {
        self.port
    }

    /// The console on COM1.
    pub fn new() -> (s: SerialDebug)
        ensures
            s.port_spec() == COM1,
    {
        SerialDebug { port: COM1 }
    }

    /// The port that the bytes go out on.
    pub fn port(&self) -> (p: u16)
        ensures
            p == self.port_spec(),
    {
        self.port
    }

    /// The bytes to put on the wire, in order, for one byte written to the
    /// console (the byte itself is what goes into the kernel log).
    pub fn write_byte(&self, byte: u8) -> (out: Vec<u8>)
        ensures
            out@ == wire_bytes(byte),
    {
        let mut out: Vec<u8> = Vec::new();
        if byte == 10u8 {
            out.push(13u8);
            out.push(10u8);
        } else {
            out.push(byte);
        }
        assert(out@ =~= wire_bytes(byte));
        out
    }

    /// The bytes that `s` hands to `write_byte`, in order.
    pub fn write_string(&self, s: &str) -> (out: Vec<u8>)
        ensures
            out@ == console_text(s.spec_bytes()),
    {
        console_filter(s.as_bytes())
    }

    /// The same rule as `write_string`, for keyboard echo.
    pub fn write_kb(&self, s: &str) -> (out: Vec<u8>)
        ensures
            out@ == console_text(s.spec_bytes()),
    {
        console_filter(s.as_bytes())
    }
}

/// Applies `console_byte` to each byte of `bytes`.
pub fn console_filter(bytes: &[u8]) -> (out: Vec<u8>)
    ensures
        out@ == console_text(bytes@),
{
    let mut out: Vec<u8> = Vec::new();
    let mut i: usize = 0;
    while i < bytes.len()
        invariant
            i <= bytes@.len(),
            out@ == console_text(bytes@.take(i as int)),
        decreases bytes@.len() - i,
    {
        let b = bytes[i];
        if (0x20u8 <= b && b <= 0x7eu8) || b == 10u8 {
            out.push(b);
        } else if b == 13u8 {
        } else {
            out.push(0xfeu8);
        }
        assert(bytes@.take(i + 1).drop_last() =~= bytes@.take(i as int));
        i = i + 1;
        assert(out@ =~= console_text(bytes@.take(i as int)));
    }
    assert(bytes@.take(i as int) =~= bytes@);
    out
}

/// The text that `serial_print_str` sends to the console.
pub fn serial_print_str(s: &str) -> (out: Vec<u8>)
    ensures
        out@ == console_text(s.spec_bytes()),
{
    SerialDebug::new().write_string(s)
}

/// A writer that fills a fixed-size byte buffer and refuses any piece of
/// text that does not fit whole.
pub struct ArrayWriter {
    buf: Vec<u8>,
    pos: usize,
}

impl ArrayWriter {
    /// The text written so far.
    pub closed spec fn written(&self) -> Seq<u8> {
        self.buf@.take(self.pos as int)
    }

    /// The buffer's size.
    pub closed spec fn capacity(&self) -> nat {
        self.buf@.len()
    }

    /// The writer's invariant.
    pub closed spec fn wf(&self) -> bool {
        self.pos <= self.buf.len()
    }

    /// A writer over `buf`, initially empty.
    pub fn new(buf: Vec<u8>) -> (w: ArrayWriter)
        ensures
            w.wf(),
            w.written() == Seq::<u8>::empty(),
            w.capacity() == buf@.len(),
    {
        ArrayWriter { buf, pos: 0 }
    }

    /// Appends `s` if it fits; otherwise writes nothing and fails.
    pub fn write_str(&mut self, s: &str) -> (ok: bool)
        requires
            old(self).wf(),
        ensures
            final(self).wf(),
            final(self).capacity() == old(self).capacity(),
            ok == (old(self).written().len() + s.spec_bytes().len() <= old(self).capacity()),
            ok ==> final(self).written() == old(self).written() + s.spec_bytes(),
            !ok ==> final(self).written() == old(self).written(),
    {
        let bytes = s.as_bytes();
        let len = bytes.len();
        if len > self.buf.len() - self.pos {
            return false;
        }
        let ghost w0 = self.written();
        let mut i: usize = 0;
        while i < len
            invariant
                self.pos + len <= self.buf.len(),
                self.buf@.len() == old(self).buf@.len(),
                self.pos == old(self).pos,
                len == bytes@.len(),
                i <= len,
                self.buf@.take(self.pos as int) == w0,
                forall|j: int| 0 <= j < i ==> #[trigger] self.buf@[self.pos + j] == bytes@[j],
            decreases len - i,
        {
            let p = self.pos + i;
            self.buf.set(p, bytes[i]);
            i = i + 1;
            assert(self.buf@.take(self.pos as int) =~= w0);
        }
        let ghost old_pos = self.pos;
        self.pos = self.pos + len;
        assert forall|j: int| 0 <= j < self.pos implies #[trigger] self.written()[j] == (w0
            + bytes@)[j] by {
            if j < old_pos {
                assert(w0[j] == self.buf@.take(old_pos as int)[j]);
            } else {
                assert(self.buf@[old_pos + (j - old_pos)] == bytes@[j - old_pos]);
            }
        }
        assert(self.written() =~= w0 + bytes@);
        true
    }

    /// The text written so far; empty when it is not valid UTF-8.
    pub fn as_str(&self) -> (t: &str)
        requires
            self.wf(),
        ensures
            valid_utf8(self.written()) ==> t.spec_bytes() == self.written(),
            !valid_utf8(self.written()) ==> t.spec_bytes().len() == 0,
    {
        match str_from_utf8(self.as_bytes()) {
            Some(t) => t,
            None => {
                proof {
                    reveal_strlit("");
                }
                ""
            },
        }
    }

    /// The bytes written so far.
    pub fn as_bytes(&self) -> (b: &[u8])
        requires
            self.wf(),
        ensures
            b@ == self.written(),
    {
        slice_prefix(self.buf.as_slice(), self.pos)
    }
}

/// `core::str::from_utf8`: the text `v` encodes, when it is valid UTF-8
/// (its bytes are then `v` itself), and none otherwise.
#[verifier::external_body]
pub(crate) fn str_from_utf8(v: &[u8]) -> (r: Option<&str>)
    ensures
        r is Some <==> valid_utf8(v@),
        r matches Some(t) ==> t.spec_bytes() == v@,
{
    core::str::from_utf8(v).ok()
}

/// The first `n` elements of a slice.
pub fn slice_prefix(s: &[u8], n: usize) -> (p: &[u8])
    requires
        n <= s@.len(),
    ensures
        p@ == s@.take(n as int),
{
    let (a, _b) = s.split_at(n);
    a
}

} // verus!
