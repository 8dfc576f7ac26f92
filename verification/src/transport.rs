//! Framing a stream of bytes into lines.

use vstd::prelude::*;

verus! {

/// Most bytes in a line handed out, its line feed counted.
pub const MAX_LINE_LEN: usize = 80;

/// Most bytes that wait for the end of their line.
pub const BUFFER_LEN: usize = 256;

/// The byte that ends a line.
pub const LINE_FEED: u8 = 10;

/// Why bytes received could not be framed.
#[derive(Clone, Copy, Debug, PartialEq, Eq, Structural)]
pub enum FramingError {
    /// The bytes received do not fit behind those that wait.
    BufferFull,
    /// The first line that waits is longer than `MAX_LINE_LEN`.
    LineTooLong,
}

/// `at` is the place of the first line feed in `bytes`.
pub open spec fn first_line_feed(bytes: Seq<u8>, at: int) -> bool {
    &&& 0 <= at < bytes.len()
    &&& bytes[at] == LINE_FEED
    &&& forall|i: int| 0 <= i < at ==> bytes[i] != LINE_FEED
}

/// `bytes` holds no line feed.
pub open spec fn no_line_feed(bytes: Seq<u8>) -> bool {
    forall|i: int| 0 <= i < bytes.len() ==> bytes[i] != LINE_FEED
}

/// The bytes received that have not been handed out as a line yet.
#[derive(Debug)]
pub struct LineBuffer {
    buf: Vec<u8>,
}

impl View for LineBuffer {
    type V = Seq<u8>;

    closed spec fn view(&self) -> Seq<u8> {
        self.buf@
    }
}

impl LineBuffer {
    /// No more bytes wait than the buffer has room for.
    pub open spec fn wf(&self) -> bool {
        self@.len() <= BUFFER_LEN
    }

    /// A buffer in which nothing waits.
    pub fn new() -> (buffer: Self)
        ensures
            buffer.wf(),
            buffer@ == Seq::<u8>::empty(),
    {
        LineBuffer { buf: Vec::new() }
    }

    /// Number of bytes that wait.
    pub fn len(&self) -> (n: usize)
        ensures
            n == self@.len(),
    {
        self.buf.len()
    }

    /// Takes the bytes `input` that were received and hands out the first
    /// line that waits, if there is one.
    ///
    /// `input` goes behind the bytes that wait, unless the buffer has no
    /// room for all of it: then nothing changes. The first line is what
    /// waits up to its first line feed, which ends the line and belongs to
    /// it; it leaves the buffer as it is handed out. Without a line feed
    /// everything goes on waiting. A first line longer than `MAX_LINE_LEN`
    /// is not handed out and goes on waiting too.
    pub fn next_line(&mut self, input: &[u8]) -> (result: Result<Option<Vec<u8>>, FramingError>)
        requires
            old(self).wf(),
        ensures
            final(self).wf(),
            match result {
                Err(FramingError::BufferFull) => {
                    &&& old(self)@.len() + input@.len() > BUFFER_LEN
                    &&& final(self)@ == old(self)@
                },
                Err(FramingError::LineTooLong) => {
                    &&& old(self)@.len() + input@.len() <= BUFFER_LEN
                    &&& final(self)@ == old(self)@ + input@
                    &&& exists|at: int|
                        #![trigger first_line_feed(final(self)@, at)]
                        first_line_feed(final(self)@, at) && at + 1 > MAX_LINE_LEN
                },
                Ok(None) => {
                    &&& old(self)@.len() + input@.len() <= BUFFER_LEN
                    &&& final(self)@ == old(self)@ + input@
                    &&& no_line_feed(final(self)@)
                },
                Ok(Some(line)) => {
                    &&& old(self)@.len() + input@.len() <= BUFFER_LEN
                    &&& line@.len() <= MAX_LINE_LEN
                    &&& first_line_feed(old(self)@ + input@, line@.len() - 1)
                    &&& line@ + final(self)@ == old(self)@ + input@
                },
            },
    {
        if input.len() > BUFFER_LEN - self.buf.len() {
            return Err(FramingError::BufferFull);
        }
        let ghost joined = old(self)@ + input@;
        let mut copied: usize = 0;
        while copied < input.len()
            invariant
                copied <= input@.len(),
                old(self)@.len() + input@.len() <= BUFFER_LEN,
                self.buf@ == old(self)@ + input@.take(copied as int),
            decreases input@.len() - copied,
        {
            self.buf.push(input[copied]);
            assert(self.buf@ =~= old(self)@ + input@.take(copied + 1));
            copied += 1;
        }
        assert(input@.take(input@.len() as int) =~= input@);

        let total: usize = self.buf.len();
        let mut loc: usize = 0;
        while loc < total && self.buf[loc] != LINE_FEED
            invariant
                loc <= total,
                total == self.buf@.len(),
                self.buf@ == joined,
                forall|i: int| 0 <= i < loc ==> joined[i] != LINE_FEED,
            decreases total - loc,
        {
            loc += 1;
        }
        if loc == total {
            return Ok(None);
        }
        assert(first_line_feed(joined, loc as int));
        if loc + 1 > MAX_LINE_LEN {
            assert(self@ == joined);
            assert(first_line_feed(self@, loc as int) && loc + 1 > MAX_LINE_LEN);
            return Err(FramingError::LineTooLong);
        }
        let mut output: Vec<u8> = Vec::new();
        let mut tmp: Vec<u8> = Vec::new();
        let mut i: usize = 0;
        while i < total
            invariant
                i <= total,
                loc < total,
                total == joined.len(),
                self.buf@ == joined,
                output@ == joined.take(if i <= loc {
                    i as int
                } else {
                    loc + 1
                }),
                tmp@ == joined.subrange(loc + 1, if i <= loc {
                    loc + 1
                } else {
                    i as int
                }),
            decreases total - i,
        {
            if i <= loc {
                output.push(self.buf[i]);
                assert(output@ =~= joined.take(i + 1));
            } else {
                tmp.push(self.buf[i]);
                assert(tmp@ =~= joined.subrange(loc + 1, i + 1));
            }
            i += 1;
        }
        self.buf = tmp;
        assert(output@ + self.buf@ =~= joined);
        Ok(Some(output))
    }
}

} // verus!
