//! The pipe: a bounded byte queue between a read end and a write end.
//! Reads and writes are decisions — a full pipe takes only part of a
//! write, an empty pipe with a live writer asks the reader to block — so
//! the surrounding loop can sleep and retry.

use vstd::prelude::*;

verus! {

/// Bytes one pipe can buffer.
pub const PIPE_SIZE: usize = 512;

/// What one attempt to read from a pipe found.
pub enum PipeRead {
    /// The pipe is empty but the write end is open: block and retry.
    Blocked,
    /// The pipe is empty and the write end is closed: end of data.
    Eof,
    /// The oldest buffered bytes, in order.
    Bytes(Vec<u8>),
}

/// A bounded first-in first-out byte queue.
pub struct Pipe {
    /// The buffered bytes, oldest first.
    pub buffer: Vec<u8>,
    /// Whether the read end is open.
    pub read_open: bool,
    /// Whether the write end is open.
    pub write_open: bool,
}

impl Pipe {
    /// The buffer never exceeds the pipe's capacity.
    pub open spec fn wf(self) -> bool {
        self.buffer@.len() <= PIPE_SIZE
    }

    /// An empty pipe with both ends open.
    pub fn new() -> (r: Self)
        ensures
            r.wf(),
            r.buffer@.len() == 0,
            r.read_open,
            r.write_open,
    {
        Pipe { buffer: Vec::new(), read_open: true, write_open: true }
    }

    /// Closes the read end.
    pub fn close_read(&mut self)
        ensures
            *final(self) == (Pipe { read_open: false, ..*old(self) }),
    {
        self.read_open = false;
    }

    /// Closes the write end.
    pub fn close_write(&mut self)
        ensures
            *final(self) == (Pipe { write_open: false, ..*old(self) }),
    {
        self.write_open = false;
    }

    /// Appends as much of `data` as fits and hands back how many bytes
    /// went in; the writer blocks and retries for the rest.  Fails exactly
    /// when the read end is closed, writing nothing.
    pub fn write(&mut self, data: &Vec<u8>) -> (r: Result<usize, ()>)
        requires
            old(self).wf(),
        ensures
            final(self).wf(),
            final(self).read_open == old(self).read_open,
            final(self).write_open == old(self).write_open,
            r is Err <==> !old(self).read_open,
            r is Err ==> final(self).buffer@ == old(self).buffer@,
            r matches Ok(n) ==> {
                &&& n == (if data@.len() <= PIPE_SIZE - old(self).buffer@.len() {
                    data@.len() as int
                } else {
                    PIPE_SIZE - old(self).buffer@.len()
                })
                &&& final(self).buffer@ == old(self).buffer@ + data@.take(n as int)
            },
    {
        if !self.read_open {
            return Err(());
        }
        let free: usize = PIPE_SIZE - self.buffer.len();
        let n: usize = if data.len() <= free {
            data.len()
        } else {
            free
        };
        let mut i: usize = 0;
        while i < n
            invariant
                i <= n,
                n <= data@.len(),
                old(self).buffer@.len() + n <= PIPE_SIZE,
                self.buffer@ == old(self).buffer@ + data@.take(i as int),
                self.read_open == old(self).read_open,
                self.write_open == old(self).write_open,
            decreases n - i,
        {
            self.buffer.push(data[i]);
            proof {
                assert(self.buffer@ =~= old(self).buffer@ + data@.take(i + 1));
            }
            i = i + 1;
        }
        Ok(n)
    }

    /// Takes up to `n` of the oldest bytes out.  An empty pipe asks the
    /// reader to block while the write end is open, and reports the end of
    /// the data once it is closed.
    pub fn read(&mut self, n: usize) -> (r: PipeRead)
        requires
            old(self).wf(),
        ensures
            final(self).wf(),
            final(self).read_open == old(self).read_open,
            final(self).write_open == old(self).write_open,
            r is Blocked <==> old(self).buffer@.len() == 0 && old(self).write_open,
            r is Eof <==> old(self).buffer@.len() == 0 && !old(self).write_open,
            r is Blocked || r is Eof ==> final(self).buffer@ == old(self).buffer@,
            r matches PipeRead::Bytes(v) ==> {
                &&& v@.len() == (if n <= old(self).buffer@.len() {
                    n as int
                } else {
                    old(self).buffer@.len() as int
                })
                &&& v@ == old(self).buffer@.take(v@.len() as int)
                &&& final(self).buffer@ == old(self).buffer@.skip(v@.len() as int)
            },
    {
        if self.buffer.len() == 0 {
            if self.write_open {
                return PipeRead::Blocked;
            } else {
                return PipeRead::Eof;
            }
        }
        let take: usize = if n <= self.buffer.len() {
            n
        } else {
            self.buffer.len()
        };
        let mut v: Vec<u8> = Vec::new();
        let mut i: usize = 0;
        while i < take
            invariant
                i <= take,
                take <= old(self).buffer@.len(),
                v@ == old(self).buffer@.take(i as int),
                self.buffer@ == old(self).buffer@.skip(i as int),
                self.read_open == old(self).read_open,
                self.write_open == old(self).write_open,
            decreases take - i,
        {
            let b = self.buffer.remove(0);
            v.push(b);
            proof {
                assert(v@ =~= old(self).buffer@.take(i + 1));
                assert(self.buffer@ =~= old(self).buffer@.skip(i + 1));
            }
            i = i + 1;
        }
        PipeRead::Bytes(v)
    }
}

} // verus!
