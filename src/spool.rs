//! Serving reads of any size from a stream that arrives in chunks, such as
//! the chunks a worker thread sends over a channel.

use vstd::prelude::*;

use crate::iotools::{ByteSource, IoError};

verus! {

/// The largest chunk asked of the chunk stream at once.
pub const CHUNK: usize = 65536;

/// Reads of any size over a stream of chunks: the unread rest of the last
/// chunk is kept for the next read, and the end, once met, is remembered so
/// the chunk stream is not asked again.
pub struct Spool<C> {
    current: Option<(Vec<u8>, usize)>,
    ended: bool,
    chunks: C,
}

/// The unread rest of a kept chunk.
pub open spec fn pending(current: Option<(Vec<u8>, usize)>) -> Seq<u8> {
    match current {
        Some((b, s)) => if s <= b@.len() {
            b@.subrange(s as int, b@.len() as int)
        } else {
            Seq::empty()
        },
        None => Seq::empty(),
    }
}

impl<C: ByteSource> Spool<C> {
    /// The chunk stream.
    pub closed spec fn source(&self) -> C {
        self.chunks
    }

    /// Whether the end of the chunk stream has been met.
    pub closed spec fn at_end(&self) -> bool {
        self.ended
    }

    /// The unread rest of the chunk kept from the last read.
    pub closed spec fn kept(&self) -> Seq<u8> {
        pending(self.current)
    }

    /// A spool over `chunks`, holding nothing yet.
    pub fn new(chunks: C) -> (r: Spool<C>)
        ensures
            r.source() == chunks,
            r.remaining() == chunks.remaining(),
            r.reliable() == chunks.reliable(),
    {
        let r = Spool { current: None, ended: false, chunks };
        assert(pending(r.current) + chunks.remaining() =~= chunks.remaining());
        r
    }

    fn pop(&mut self) -> (r: Result<(Vec<u8>, usize), IoError>)
        requires
            !old(self).ended,
        ensures
            !final(self).ended,
            final(self).current is None,
            final(self).chunks.reliable() == old(self).chunks.reliable(),
            old(self).chunks.reliable() ==> r is Ok,
            pending(old(self).current).len() > 0 ==> r is Ok && final(self).chunks == old(self).chunks,
            match r {
                Ok((b, s)) => s <= b@.len() && b@.subrange(s as int, b@.len() as int)
                    + final(self).chunks.remaining() == pending(old(self).current) + old(
                    self,
                ).chunks.remaining() && (s == b@.len() ==> pending(old(self).current).len() == 0
                    && final(self).chunks.remaining().len() == 0),
                Err(_) => pending(old(self).current).len() == 0 && old(
                    self,
                ).chunks.remaining().len() >= final(self).chunks.remaining().len()
                    && final(self).chunks.remaining() == old(self).chunks.remaining().subrange(
                    old(self).chunks.remaining().len() - final(self).chunks.remaining().len(),
                    old(self).chunks.remaining().len() as int,
                ),
            },
    {
        match self.current.take() {
            Some((b, s)) => {
                if s < b.len() {
                    return Ok((b, s));
                }
                assert(pending(old(self).current).len() == 0);
            },
            None => {},
        }
        let chunk = self.chunks.read(CHUNK)?;
        assert(chunk@.subrange(0, chunk@.len() as int) == chunk@);
        Ok((chunk, 0))
    }
}

impl<C: ByteSource> ByteSource for Spool<C> {
    closed spec fn remaining(&self) -> Seq<u8> {
        if self.ended {
            Seq::empty()
        } else {
            pending(self.current) + self.source().remaining()
        }
    }

    open spec fn reliable(&self) -> bool {
        self.source().reliable()
    }

    /// Fills the read up to `max` bytes, across chunks, unless the end
    /// comes first.
    fn read(&mut self, max: usize) -> (r: Result<Vec<u8>, IoError>)
        ensures
            r matches Ok(c) ==> c@.len() == max || c@ == old(self).remaining(),
            max == 0 ==> r is Ok,
            old(self).at_end() ==> r is Ok,
            old(self).kept().len() >= max ==> r is Ok,
    {
        let ghost all = self.remaining();
        let mut out: Vec<u8> = Vec::new();
        while out.len() < max && !self.ended
            invariant
                out@.len() <= max,
                out@ + self.remaining() == all,
                all == old(self).remaining(),
                self.chunks.reliable() == old(self).chunks.reliable(),
                old(self).ended ==> self.ended,
                pending(old(self).current).len() >= max ==> (out@.len() == 0 && self.current
                    == old(self).current && self.chunks == old(self).chunks) || out@.len() == max,
            decreases max - out@.len(), if self.ended { 0int } else { 1int },
        {
            let ghost before = self.remaining();
            let (buffer, start) = match self.pop() {
                Ok(x) => x,
                Err(e) => {
                    proof {
                        assert(self.remaining() == self.chunks.remaining());
                        assert(self.remaining() =~= all.subrange(
                            all.len() - self.remaining().len(),
                            all.len() as int,
                        ));
                    }
                    return Err(e);
                },
            };
            if buffer.len() == start {
                self.ended = true;
                assert(out@ == all);
            } else {
                let blen = buffer.len();
                let want = max - out.len();
                let have = blen - start;
                let take = if have < want { have } else { want };
                let ghost rest = buffer@.subrange(start as int, buffer@.len() as int);
                let mut i: usize = 0;
                let ghost base = out@;
                while i < take
                    invariant
                        blen == buffer@.len(),
                        start <= blen,
                        i <= take <= blen - start,
                        out@ == base + rest.subrange(0, i as int),
                        rest == buffer@.subrange(start as int, buffer@.len() as int),
                    decreases take - i,
                {
                    out.push(buffer[start + i]);
                    i = i + 1;
                }
                if start + take < blen {
                    self.current = Some((buffer, start + take));
                    assert(pending(self.current) =~= rest.subrange(take as int, rest.len() as int));
                }
                assert(rest =~= rest.subrange(0, take as int) + rest.subrange(take as int, rest.len() as int));
                assert(out@ + self.remaining() =~= all);
            }
        }
        if self.ended {
            assert(self.remaining() == Seq::<u8>::empty());
            assert(out@ =~= all);
        }
        assert(out@ =~= all.subrange(0, out@.len() as int));
        assert(self.remaining() =~= all.subrange(out@.len() as int, all.len() as int));
        Ok(out)
    }
}

} // verus!
