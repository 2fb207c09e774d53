//! The byte ring behind a pipe, with the canonical-mode line discipline that
//! a reader sees through its terminal settings.
use vstd::prelude::*;

verus! {

/// Capacity of a pipe in bytes.
pub const PIPE_SIZE: usize = 4096;

/// The `ICANON` bit of `c_lflag`.
pub const ICANON: u32 = 2;

/// Terminal settings attached to a pipe.
#[derive(Debug, Copy, Clone)]
pub struct Termios {
    pub c_iflag: u32,
    pub c_oflag: u32,
    pub c_cflag: u32,
    pub c_lflag: u32,
    pub c_line: u8,
    pub c_cc: [u8; 32],
    pub c_ispeed: u32,
    pub c_ospeed: u32,
}

impl Termios {
    /// All flags clear: raw mode, no echo.
    pub fn new() -> (t: Termios)
        ensures
            t.c_iflag == 0,
            t.c_oflag == 0,
            t.c_cflag == 0,
            t.c_lflag == 0,
            t.c_line == 0,
            forall|i: int| 0 <= i < 32 ==> t.c_cc@[i] == 0,
            t.c_ispeed == 0,
            t.c_ospeed == 0,
    {
        Termios {
            c_iflag: 0,
            c_oflag: 0,
            c_cflag: 0,
            c_lflag: 0,
            c_line: 0,
            c_cc: [0u8; 32],
            c_ispeed: 0,
            c_ospeed: 0,
        }
    }
}

/// Whether a byte ends a line for a canonical-mode reader (`\n` or `\r`).
pub open spec fn is_line_end(b: u8) -> bool {
    b == 10 || b == 13
}

/// The number of bytes before the first line end of `s`, or its length when
/// it holds none.
pub open spec fn line_len(s: Seq<u8>) -> nat
    decreases s.len(),
{
    if s.len() == 0 {
        0
    } else if is_line_end(s[0]) {
        0
    } else {
        1 + line_len(s.drop_first())
    }
}

/// How many bytes a read with room for `cap` bytes takes from a pipe that
/// holds `s`: in raw mode as many as fit; in canonical mode nothing until a
/// whole line is there, then at most up to and including the line end.
pub open spec fn pipe_read_len(s: Seq<u8>, cap: nat, icanon: bool) -> nat {
    if !icanon {
        if cap < s.len() { cap } else { s.len() }
    } else if line_len(s) == s.len() {
        0
    } else if cap < line_len(s) + 1 {
        cap
    } else {
        line_len(s) + 1
    }
}

/// `line_len` is the first index of a line end, or the length.
pub proof fn lemma_line_len(s: Seq<u8>)
    ensures
        line_len(s) <= s.len(),
        forall|j: int| 0 <= j < line_len(s) ==> !is_line_end(#[trigger] s[j]),
        line_len(s) < s.len() ==> is_line_end(s[line_len(s) as int]),
    decreases s.len(),
{
    if s.len() > 0 && !is_line_end(s[0]) {
        lemma_line_len(s.drop_first());
        assert forall|j: int| 0 <= j < line_len(s) implies !is_line_end(#[trigger] s[j]) by {
            if j > 0 {
                assert(s[j] == s.drop_first()[j - 1]);
            }
        }
    }
}

/// A bounded byte ring. Its view is the queued bytes, oldest first.
pub struct PipeBuffer {
    buffer: Vec<u8>,
    head: usize,
    tail: usize,
    count: usize,
    closed: bool,
    pub termios: Termios,
}

impl View for PipeBuffer {
    type V = Seq<u8>;

    closed spec fn view(&self) -> Seq<u8> {
        Seq::new(self.count as nat, |i: int| self.buffer@[(self.tail + i) % (PIPE_SIZE as int)])
    }
}

impl PipeBuffer {
    /// The ring's layout invariant.
    pub closed spec fn wf(&self) -> bool {
        &&& self.buffer.len() == PIPE_SIZE
        &&& self.head < PIPE_SIZE
        &&& self.tail < PIPE_SIZE
        &&& self.count <= PIPE_SIZE
        &&& self.head == (self.tail + self.count) % (PIPE_SIZE as int)
    }

    /// The terminal settings a reader goes by.
    pub closed spec fn settings(&self) -> Termios {
        self.termios
    }

    /// Whether the writing side has been closed.
    pub closed spec fn is_closed(&self) -> bool {
        self.closed
    }

    /// An empty, open pipe in raw mode.
    pub fn new() -> (p: PipeBuffer)
        ensures
            p.wf(),
            p@ == Seq::<u8>::empty(),
            !p.is_closed(),
            p.settings().c_lflag == 0,
    {
        PipeBuffer {
            buffer: vec![0u8; PIPE_SIZE],
            head: 0,
            tail: 0,
            count: 0,
            closed: false,
            termios: Termios::new(),
        }
    }

    /// Appends as many bytes of `data` as fit, in order; a closed pipe takes
    /// none. Returns how many were taken.
    pub fn write(&mut self, data: &[u8]) -> (written: usize)
        requires
            old(self).wf(),
        ensures
            final(self).wf(),
            final(self).is_closed() == old(self).is_closed(),
            final(self).settings() == old(self).settings(),
            written == (if old(self).is_closed() {
                0
            } else if data@.len() < PIPE_SIZE - old(self)@.len() {
                data@.len() as int
            } else {
                PIPE_SIZE - old(self)@.len()
            }),
            final(self)@ == old(self)@ + data@.take(written as int),
    {
        if self.closed {
            assert(data@.take(0) =~= Seq::<u8>::empty());
            assert(self@ =~= old(self)@ + data@.take(0));
            return 0;
        }
        let mut written: usize = 0;
        let ghost s0 = self@;
        while written < data.len()
            invariant
                self.wf(),
                !self.closed,
                self.termios == old(self).termios,
                written <= data@.len(),
                self.count == s0.len() + written,
                s0.len() == old(self)@.len(),
                self@ =~= s0 + data@.take(written as int),
            ensures
                self.wf(),
                !self.closed,
                self.termios == old(self).termios,
                written <= data@.len(),
                self.count == s0.len() + written,
                self@ =~= s0 + data@.take(written as int),
                written == data@.len() || self.count == PIPE_SIZE,
            decreases data@.len() - written,
        {
            if self.count == PIPE_SIZE {
                break;
            }
            let ghost before = self@;
            let byte = data[written];
            let h = self.head;
            self.buffer.set(h, byte);
            self.head = (self.head + 1) % PIPE_SIZE;
            self.count = self.count + 1;
            written = written + 1;
            assert forall|i: int| 0 <= i < before.len() implies #[trigger] ((self.tail + i) % (
            PIPE_SIZE as int)) != h by {}
            assert(self@ =~= before.push(byte));
            assert(data@.take(written as int) =~= data@.take(written - 1).push(byte));
        }
        written
    }

    /// Moves queued bytes into the front of `data` and returns how many: see
    /// `pipe_read_len` for how many that is in raw and canonical mode.
    pub fn read(&mut self, data: &mut [u8]) -> (read: usize)
        requires
            old(self).wf(),
        ensures
            final(self).wf(),
            final(self).is_closed() == old(self).is_closed(),
            final(self).settings() == old(self).settings(),
            read == pipe_read_len(
                old(self)@,
                old(data)@.len(),
                old(self).settings().c_lflag & ICANON != 0,
            ),
            final(self)@ == old(self)@.skip(read as int),
            final(data)@.len() == old(data)@.len(),
            final(data)@.take(read as int) == old(self)@.take(read as int),
            final(data)@.skip(read as int) == old(data)@.skip(read as int),
    {
        let icanon = (self.termios.c_lflag & ICANON) != 0;
        let ghost s0 = self@;
        proof {
            lemma_line_len(s0);
        }
        if icanon {
            let mut has_newline = false;
            let mut temp_tail = self.tail;
            let mut k: usize = 0;
            while k < self.count
                invariant_except_break
                    !has_newline,
                invariant
                    self.wf(),
                    self@ == s0,
                    k <= self.count,
                    temp_tail == (self.tail + k) % (PIPE_SIZE as int),
                    forall|j: int| 0 <= j < k ==> !is_line_end(#[trigger] s0[j]),
                ensures
                    has_newline ==> line_len(s0) < s0.len(),
                    !has_newline ==> forall|j: int| 0 <= j < s0.len() ==> !is_line_end(#[trigger] s0[j]),
                decreases self.count - k,
            {
                let b = self.buffer[temp_tail];
                assert(b == s0[k as int]);
                if b == 10u8 || b == 13u8 {
                    proof {
                        lemma_line_len(s0);
                    }
                    has_newline = true;
                    break;
                }
                temp_tail = (temp_tail + 1) % PIPE_SIZE;
                k = k + 1;
            }
            if !has_newline {
                assert(line_len(s0) == s0.len()) by {
                    if line_len(s0) < s0.len() {
                        assert(is_line_end(s0[line_len(s0) as int]));
                    }
                }
                assert(s0.skip(0) =~= s0);
                assert(data@.skip(0) =~= data@);
                return 0;
            }
        }
        let ghost d0 = data@;
        let mut read: usize = 0;
        let mut stop = false;
        while read < data.len()
            invariant
                self.wf(),
                self.termios == old(self).termios,
                self.closed == old(self).closed,
                icanon == (old(self).termios.c_lflag & ICANON != 0),
                icanon ==> line_len(s0) < s0.len(),
                read <= d0.len(),
                data@.len() == d0.len(),
                read <= s0.len(),
                self.count == s0.len() - read,
                self@ =~= s0.skip(read as int),
                data@.take(read as int) =~= s0.take(read as int),
                data@.skip(read as int) =~= d0.skip(read as int),
                icanon ==> read <= line_len(s0) + 1,
                icanon && !stop ==> read <= line_len(s0),
                stop ==> icanon && read == line_len(s0) + 1,
            ensures
                self.wf(),
                self.termios == old(self).termios,
                self.closed == old(self).closed,
                read <= d0.len(),
                data@.len() == d0.len(),
                self@ =~= s0.skip(read as int),
                data@.take(read as int) =~= s0.take(read as int),
                data@.skip(read as int) =~= d0.skip(read as int),
                read == pipe_read_len(s0, d0.len(), icanon),
            decreases d0.len() - read,
        {
            if self.count == 0 || stop {
                break;
            }
            let t = self.tail;
            let byte = self.buffer[t];
            assert(self@[0] == s0[read as int]);
            assert(byte == s0[read as int]);
            let ghost before = self@;
            let ghost dprev = data@;
            proof {
                lemma_line_len(s0);
            }
            data[read] = byte;
            self.tail = (self.tail + 1) % PIPE_SIZE;
            self.count = self.count - 1;
            read = read + 1;
            assert forall|i: int| 0 <= i < self.count implies #[trigger] ((self.tail + i) % (
            PIPE_SIZE as int)) == (t + (i + 1)) % (PIPE_SIZE as int) by {}
            assert(self@ =~= before.drop_first());
            assert(data@.skip(read as int) =~= d0.skip(read as int)) by {
                assert forall|i: int| 0 <= i < d0.len() - read implies data@.skip(read as int)[i]
                    == d0.skip(read as int)[i] by {
                    assert(data@[read + i] == dprev[read + i]);
                    assert(dprev.skip(read - 1)[i + 1] == d0.skip(read - 1)[i + 1]);
                }
            }
            assert(data@.take(read as int) =~= s0.take(read as int)) by {
                assert(data@.take(read as int) =~= data@.take(read - 1).push(byte));
                assert(s0.take(read as int) =~= s0.take(read - 1).push(byte));
            }
            if icanon && (byte == 10u8 || byte == 13u8) {
                stop = true;
            }
        }
        read
    }

    /// Replaces the terminal settings; the queued bytes and the closed flag
    /// stay as they are.
    pub fn set_termios(&mut self, termios: Termios)
        requires
            old(self).wf(),
        ensures
            final(self).wf(),
            final(self)@ == old(self)@,
            final(self).is_closed() == old(self).is_closed(),
            final(self).settings() == termios,
    {
        self.termios = termios;
    }

    /// Closes the writing side; later writes take nothing.
    pub fn close(&mut self)
        requires
            old(self).wf(),
        ensures
            final(self).wf(),
            final(self).is_closed(),
            final(self)@ == old(self)@,
            final(self).settings() == old(self).settings(),
    {
        self.closed = true;
    }

    /// The number of queued bytes.
    pub fn available(&self) -> (n: usize)
        requires
            self.wf(),
        ensures
            n == self@.len(),
    {
        self.count
    }
}

/// Bytes come out of a pipe in the order they went in: writing into an empty
/// open raw-mode pipe and then reading with enough room gives back exactly
/// what was written, as long as it fits.
pub proof fn lemma_pipe_fifo(written: Seq<u8>, cap: nat)
    requires
        written.len() <= PIPE_SIZE,
        written.len() <= cap,
    ensures
        pipe_read_len(Seq::<u8>::empty() + written, cap, false) == written.len(),
        (Seq::<u8>::empty() + written).take(written.len() as int) == written,
{
    assert(Seq::<u8>::empty() + written =~= written);
    assert(written.take(written.len() as int) =~= written);
}

} // verus!
