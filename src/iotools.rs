//! Byte streams: sinks that take bytes, sources that hand them out, and the
//! adapters that join them (either of two, a tee, a siphon, a validator).

use vstd::prelude::*;

verus! {

/// Why a stream operation failed.
#[derive(Clone, Debug, PartialEq, Eq)]
pub enum IoError {
    /// The data read was not what was expected.
    InvalidData,
    /// A sink accepted no bytes of a non-empty buffer.
    WriteZero,
    /// Any other failure, with its description.
    Other(String),
}

/// `new` is `old` extended by a prefix of `more`.
pub open spec fn grows_within(old: Seq<u8>, new: Seq<u8>, more: Seq<u8>) -> bool {
    old.len() <= new.len() <= old.len() + more.len() && new == old + more.subrange(
        0,
        new.len() - old.len(),
    )
}

/// What was appended to `old` to make `new`.
pub open spec fn growth(old: Seq<u8>, new: Seq<u8>) -> Seq<u8> {
    new.subrange(old.len() as int, new.len() as int)
}

/// `new` is what is left of `old` once a prefix was taken from its front.
pub open spec fn drained(old: Seq<u8>, new: Seq<u8>) -> bool {
    new.len() <= old.len() && new == old.subrange(old.len() - new.len(), old.len() as int)
}

/// The prefix of `old` taken to leave `new`.
pub open spec fn taken(old: Seq<u8>, new: Seq<u8>) -> Seq<u8> {
    old.subrange(0, old.len() - new.len())
}

pub proof fn lemma_grows_exact(old: Seq<u8>, more: Seq<u8>, n: int)
    requires
        0 <= n <= more.len(),
    ensures
        grows_within(old, old + more.subrange(0, n), more),
        growth(old, old + more.subrange(0, n)) == more.subrange(0, n),
{
    assert((old + more.subrange(0, n)).subrange(old.len() as int, old.len() + n) =~= more.subrange(0, n));
}

pub proof fn lemma_grows_compose(o: Seq<u8>, d: Seq<u8>, fin: Seq<u8>, rest: Seq<u8>)
    requires
        grows_within(o + d, fin, rest),
    ensures
        grows_within(o, fin, d + rest),
        growth(o, fin) == d + growth(o + d, fin),
{
    let k = fin.len() - (o + d).len();
    assert((d + rest).subrange(0, d.len() + k) =~= d + rest.subrange(0, k));
    assert(fin =~= o + (d + rest).subrange(0, d.len() + k));
    assert(growth(o, fin) =~= d + growth(o + d, fin));
}

pub proof fn lemma_grows_widen(old: Seq<u8>, new: Seq<u8>, a: Seq<u8>, b: Seq<u8>)
    requires
        grows_within(old, new, a),
        a.len() <= b.len(),
        a == b.subrange(0, a.len() as int),
    ensures
        grows_within(old, new, b),
{
    assert(a.subrange(0, new.len() - old.len()) =~= b.subrange(0, new.len() - old.len()));
}

pub proof fn lemma_drained_compose(a: Seq<u8>, b: Seq<u8>, c: Seq<u8>)
    requires
        drained(a, b),
        drained(b, c),
    ensures
        drained(a, c),
        taken(a, c) == taken(a, b) + taken(b, c),
{
    assert(c =~= a.subrange(a.len() - c.len(), a.len() as int));
    assert(taken(a, c) =~= taken(a, b) + taken(b, c));
}

/// Something that takes bytes, like a file or a buffer being written.
///
/// Types outside the verified library keep the default bodies of the spec
/// functions (nothing accepted, never reliable): for them the contracts
/// below are not checked, and what is proved of the adapters says nothing
/// about them.
pub trait ByteSink {
    /// Every byte the sink has accepted, in order.
    closed spec fn accepted(&self) -> Seq<u8> {
        Seq::empty()
    }

    /// Whether the sink takes every buffer whole and never fails.
    closed spec fn reliable(&self) -> bool {
        false
    }

    /// Offers `buf`; on success the sink took its first `n` bytes. On failure
    /// it took at most a prefix of `buf`.
    fn write(&mut self, buf: &[u8]) -> (r: Result<usize, IoError>)
        ensures
            final(self).reliable() == old(self).reliable(),
            old(self).reliable() ==> r == Ok::<usize, IoError>(buf@.len() as usize),
            grows_within(old(self).accepted(), final(self).accepted(), buf@),
            r matches Ok(n) ==> n <= buf@.len() && final(self).accepted() == old(self).accepted()
                + buf@.subrange(0, n as int),
    ;

    /// Pushes out anything buffered; accepts nothing new.
    fn flush(&mut self) -> (r: Result<(), IoError>)
        ensures
            final(self).reliable() == old(self).reliable(),
            old(self).reliable() ==> r is Ok,
            final(self).accepted() == old(self).accepted(),
    ;
}

/// Something that hands out bytes, like a file or a network body being read.
///
/// Types outside the verified library keep the default bodies of the spec
/// functions (nothing remaining, never reliable): for them the contracts
/// below are not checked, and what is proved of the adapters says nothing
/// about them.
pub trait ByteSource {
    /// The bytes the source has yet to hand out, in order.
    closed spec fn remaining(&self) -> Seq<u8> {
        Seq::empty()
    }

    /// Whether every read succeeds.
    closed spec fn reliable(&self) -> bool {
        false
    }

    /// Hands out the next at most `max` bytes. An empty chunk for a positive
    /// `max` means the end. On failure some bytes may have been consumed.
    fn read(&mut self, max: usize) -> (r: Result<Vec<u8>, IoError>)
        ensures
            final(self).reliable() == old(self).reliable(),
            old(self).reliable() ==> r is Ok,
            drained(old(self).remaining(), final(self).remaining()),
            r matches Ok(c) ==> c@.len() <= max && c@ == taken(
                old(self).remaining(),
                final(self).remaining(),
            ) && (c@.len() == 0 && max > 0 ==> old(self).remaining().len() == 0),
    ;
}

/// A sink that can tell whether what it received is valid.
pub trait Validatable: ByteSink {
    /// Whether the input so far is valid.
    spec fn is_valid(&self) -> bool;

    /// Whether the input so far is valid.
    fn validate(&self) -> (r: bool)
        ensures
            r == self.is_valid(),
    ;
}

/// The outcome of a write that took `n` bytes of a non-empty buffer: no
/// byte taken is an error.
pub fn progress(n: usize) -> (r: Result<usize, IoError>)
    ensures
        n == 0 ==> r == Err::<usize, IoError>(IoError::WriteZero),
        n > 0 ==> r == Ok::<usize, IoError>(n),
{
    if n == 0 {
        Err(IoError::WriteZero)
    } else {
        Ok(n)
    }
}

/// Offers all of `buf` to `w` until it is taken or `w` fails.
pub fn write_all<W: ByteSink>(w: &mut W, buf: &[u8]) -> (r: Result<(), IoError>)
    ensures
        buf@.len() == 0 ==> r is Ok && *final(w) == *old(w),
        final(w).reliable() == old(w).reliable(),
        old(w).reliable() ==> r is Ok,
        grows_within(old(w).accepted(), final(w).accepted(), buf@),
        r is Ok ==> final(w).accepted() == old(w).accepted() + buf@,
{
    let ghost start = w.accepted();
    let mut done: usize = 0;
    proof { lemma_grows_exact(start, buf@, 0); }
    while done < buf.len()
        invariant
            done <= buf@.len(),
            w.accepted() == start + buf@.subrange(0, done as int),
            start == old(w).accepted(),
            w.reliable() == old(w).reliable(),
            buf@.len() == 0 ==> *w == *old(w),
        decreases buf@.len() - done,
    {
        let rest = slice_from(buf, done);
        let ghost before = w.accepted();
        proof {
            assert(buf@ =~= buf@.subrange(0, done as int) + rest@);
        }
        let n = match w.write(rest.as_slice()) {
            Ok(n) => n,
            Err(e) => {
                proof { lemma_grows_compose(start, buf@.subrange(0, done as int), w.accepted(), rest@); }
                return Err(e);
            },
        };
        match progress(n) {
            Ok(_) => {},
            Err(e) => {
                proof {
                    assert(w.accepted() == before);
                    lemma_grows_exact(start, buf@, done as int);
                }
                return Err(e);
            },
        }
        assert(buf@.subrange(0, (done + n) as int) =~= buf@.subrange(0, done as int)
            + rest@.subrange(0, n as int));
        done = done + n;
    }
    assert(buf@.subrange(0, done as int) == buf@);
    proof { lemma_grows_exact(start, buf@, done as int); }
    Ok(())
}

fn slice_from(buf: &[u8], from: usize) -> (r: Vec<u8>)
    requires
        from <= buf@.len(),
    ensures
        r@ == buf@.subrange(from as int, buf@.len() as int),
{
    let mut out: Vec<u8> = Vec::new();
    let mut i: usize = from;
    while i < buf.len()
        invariant
            from <= i <= buf@.len(),
            out@ == buf@.subrange(from as int, i as int),
        decreases buf@.len() - i,
    {
        out.push(buf[i]);
        i = i + 1;
    }
    out
}

fn prefix_of(buf: &[u8], n: usize) -> (r: Vec<u8>)
    requires
        n <= buf@.len(),
    ensures
        r@ == buf@.subrange(0, n as int),
{
    let mut out: Vec<u8> = Vec::new();
    let mut i: usize = 0;
    while i < n
        invariant
            i <= n <= buf@.len(),
            out@ == buf@.subrange(0, i as int),
        decreases n - i,
    {
        out.push(buf[i]);
        i = i + 1;
    }
    out
}

fn append_bytes(out: &mut Vec<u8>, b: &[u8])
    ensures
        final(out)@ == old(out)@ + b@,
{
    let mut i: usize = 0;
    while i < b.len()
        invariant
            i <= b@.len(),
            out@ == old(out)@ + b@.subrange(0, i as int),
        decreases b@.len() - i,
    {
        out.push(b[i]);
        i = i + 1;
    }
    assert(b@.subrange(0, i as int) == b@);
}

impl ByteSink for Vec<u8> {
    open spec fn accepted(&self) -> Seq<u8> {
        self@
    }

    open spec fn reliable(&self) -> bool {
        true
    }

    fn write(&mut self, buf: &[u8]) -> (r: Result<usize, IoError>)
        ensures
            r == Ok::<usize, IoError>(buf@.len() as usize),
            final(self)@ == old(self)@ + buf@,
    {
        append_bytes(self, buf);
        proof { lemma_grows_exact(old(self)@, buf@, buf@.len() as int); }
        assert(buf@.subrange(0, buf@.len() as int) == buf@);
        Ok(buf.len())
    }

    fn flush(&mut self) -> (r: Result<(), IoError>) {
        Ok(())
    }
}

/// A source that hands out the bytes of a buffer.
pub struct BufferSource {
    data: Vec<u8>,
    pos: usize,
}

impl BufferSource {
    /// A source holding `data`.
    pub fn new(data: Vec<u8>) -> (r: BufferSource)
        ensures
            r.remaining() == data@,
            r.reliable(),
    {
        let r = BufferSource { data, pos: 0 };
        assert(r.data@.subrange(0, r.data@.len() as int) == r.data@);
        r
    }
}

impl ByteSource for BufferSource {
    closed spec fn remaining(&self) -> Seq<u8> {
        if self.pos <= self.data@.len() {
            self.data@.subrange(self.pos as int, self.data@.len() as int)
        } else {
            Seq::empty()
        }
    }

    open spec fn reliable(&self) -> bool {
        true
    }

    fn read(&mut self, max: usize) -> (r: Result<Vec<u8>, IoError>)
        ensures
            r matches Ok(c) && (c@.len() == max || c@ == old(self).remaining()),
    {
        if self.pos > self.data.len() {
            self.pos = self.data.len();
        }
        let ghost rem = old(self).remaining();
        assert(self.remaining() == rem);
        let mut out: Vec<u8> = Vec::new();
        while out.len() < max && self.pos < self.data.len()
            invariant
                self.pos <= self.data@.len(),
                out@.len() <= rem.len(),
                self.data == old(self).data,
                out@.len() <= max,
                out@ + self.remaining() == rem,
            decreases self.data@.len() - self.pos,
        {
            out.push(self.data[self.pos]);
            self.pos = self.pos + 1;
            assert(out@ + self.remaining() =~= rem);
        }
        assert(out@ == rem.subrange(0, out@.len() as int));
        assert(self.remaining() =~= rem.subrange(out@.len() as int, rem.len() as int));
        Ok(out)
    }
}

/// Reads `src` to its end, appending to `out`; gives the count read. On
/// failure, `out` holds a prefix of what was taken from the source.
pub fn read_to_end<S: ByteSource>(src: &mut S, out: &mut Vec<u8>) -> (r: Result<usize, IoError>)
    ensures
        old(src).reliable() ==> r is Ok,
        drained(old(src).remaining(), final(src).remaining()),
        grows_within(old(out)@, final(out)@, taken(old(src).remaining(), final(src).remaining())),
        r matches Ok(n) ==> n == old(src).remaining().len() && final(out)@ == old(out)@ + old(
            src,
        ).remaining() && final(src).remaining().len() == 0,
{
    let ghost all = src.remaining();
    let start = out.len();
    assert(all.subrange(0, all.len() as int) =~= all);
    assert(taken(all, all) =~= Seq::<u8>::empty());
    assert(old(out)@ + Seq::<u8>::empty() =~= old(out)@);
    loop
        invariant
            drained(all, src.remaining()),
            out@ == old(out)@ + taken(all, src.remaining()),
            start == old(out)@.len(),
            all == old(src).remaining(),
            src.reliable() == old(src).reliable(),
        decreases src.remaining().len(),
    {
        let ghost before = src.remaining();
        let got = src.read(8192);
        proof { lemma_drained_compose(all, before, src.remaining()); }
        let chunk = match got {
            Ok(c) => c,
            Err(e) => {
                proof {
                    lemma_grows_exact(old(out)@, taken(all, src.remaining()), taken(all, before).len() as int);
                    assert(taken(all, src.remaining()).subrange(0, taken(all, before).len() as int)
                        =~= taken(all, before));
                }
                return Err(e);
            },
        };
        if chunk.len() == 0 {
            proof { lemma_grows_exact(old(out)@, taken(all, src.remaining()), taken(all, src.remaining()).len() as int); }
            assert(taken(all, src.remaining()) =~= all);
            return Ok(out.len() - start);
        }
        append_bytes(out, chunk.as_slice());
    }
}

/// Reads from or writes into either of two streams.
pub enum Either<O, T> {
    One(O),
    Two(T),
}

impl<O: ByteSource, T: ByteSource> ByteSource for Either<O, T> {
    open spec fn remaining(&self) -> Seq<u8> {
        match self {
            Either::One(x) => x.remaining(),
            Either::Two(x) => x.remaining(),
        }
    }

    open spec fn reliable(&self) -> bool {
        match self {
            Either::One(x) => x.reliable(),
            Either::Two(x) => x.reliable(),
        }
    }

    fn read(&mut self, max: usize) -> (r: Result<Vec<u8>, IoError>) {
        match self {
            Either::One(x) => x.read(max),
            Either::Two(x) => x.read(max),
        }
    }
}

impl<O: ByteSink, T: ByteSink> ByteSink for Either<O, T> {
    open spec fn accepted(&self) -> Seq<u8> {
        match self {
            Either::One(x) => x.accepted(),
            Either::Two(x) => x.accepted(),
        }
    }

    open spec fn reliable(&self) -> bool {
        match self {
            Either::One(x) => x.reliable(),
            Either::Two(x) => x.reliable(),
        }
    }

    fn write(&mut self, buf: &[u8]) -> (r: Result<usize, IoError>) {
        match self {
            Either::One(x) => x.write(buf),
            Either::Two(x) => x.write(buf),
        }
    }

    fn flush(&mut self) -> (r: Result<(), IoError>) {
        match self {
            Either::One(x) => x.flush(),
            Either::Two(x) => x.flush(),
        }
    }
}

/// A sink that forwards everything to two sinks.
///
/// Each write goes to the first sink, which decides how many bytes are
/// taken; exactly those bytes are then written in full to the second. Put
/// the less reliable sink first. Whatever happens, the second sink has
/// received a prefix of what the first took.
pub struct Muxer<U, R>(U, R);

impl<U: ByteSink, R: ByteSink> Muxer<U, R> {
    /// The first sink.
    pub closed spec fn primary(&self) -> U {
        self.0
    }

    /// The second sink.
    pub closed spec fn secondary(&self) -> R {
        self.1
    }

    /// A muxer over `unreliable` (first) and `reliable` (second).
    pub fn new(unreliable: U, reliable: R) -> (r: Muxer<U, R>)
        ensures
            r.primary() == unreliable,
            r.secondary() == reliable,
    {
        Muxer(unreliable, reliable)
    }

    /// Gives back the two sinks.
    pub fn into_inner(self) -> (r: (U, R))
        ensures
            r == (self.primary(), self.secondary()),
    {
        (self.0, self.1)
    }

    /// Offers all of `buf` until both sinks have taken it, or one fails.
    pub fn write_all(&mut self, buf: &[u8]) -> (r: Result<(), IoError>)
        ensures
            buf@.len() == 0 ==> r is Ok && *final(self) == *old(self),
            old(self).primary().reliable() && old(self).secondary().reliable() ==> r is Ok,
            grows_within(old(self).primary().accepted(), final(self).primary().accepted(), buf@),
            grows_within(old(self).secondary().accepted(), final(self).secondary().accepted(), buf@),
            grows_within(
                old(self).secondary().accepted(),
                final(self).secondary().accepted(),
                growth(old(self).primary().accepted(), final(self).primary().accepted()),
            ),
            r is Ok ==> final(self).primary().accepted() == old(self).primary().accepted() + buf@
                && final(self).secondary().accepted() == old(self).secondary().accepted() + buf@,
    {
        let ghost p0 = self.0.accepted();
        let ghost s0 = self.1.accepted();
        let mut done: usize = 0;
        proof {
            lemma_grows_exact(p0, buf@, 0);
            lemma_grows_exact(s0, buf@, 0);
        }
        while done < buf.len()
            invariant
                done <= buf@.len(),
                self.0.accepted() == p0 + buf@.subrange(0, done as int),
                self.1.accepted() == s0 + buf@.subrange(0, done as int),
                p0 == old(self).primary().accepted(),
                s0 == old(self).secondary().accepted(),
                self.0.reliable() == old(self).primary().reliable(),
                self.1.reliable() == old(self).secondary().reliable(),
                buf@.len() == 0 ==> *self == *old(self),
            decreases buf@.len() - done,
        {
            let rest = slice_from(buf, done);
            let ghost d = buf@.subrange(0, done as int);
            let ghost pb = self.0.accepted();
            let ghost sb = self.1.accepted();
            proof {
                assert(buf@ =~= d + rest@);
            }
            let n = match self.write(rest.as_slice()) {
                Ok(n) => n,
                Err(e) => {
                    proof {
                        let pf = self.0.accepted();
                        let sf = self.1.accepted();
                        lemma_grows_compose(p0, d, pf, rest@);
                        lemma_grows_compose(s0, d, sf, growth(pb, pf));
                        assert(growth(p0, pf) == d + growth(pb, pf));
                        assert(growth(pb, pf) =~= rest@.subrange(0, pf.len() - pb.len()));
                        assert((d + growth(pb, pf)) =~= buf@.subrange(0, (d + growth(pb, pf)).len() as int));
                        lemma_grows_widen(s0, sf, d + growth(pb, pf), buf@);
                    }
                    return Err(e);
                },
            };
            match progress(n) {
                Ok(_) => {},
                Err(e) => {
                    proof {
                        assert(self.0.accepted() == pb);
                        assert(self.1.accepted() == sb);
                        lemma_grows_exact(p0, buf@, done as int);
                        lemma_grows_exact(s0, buf@, done as int);
                        assert(growth(p0, pb) == d);
                        assert(d =~= buf@.subrange(0, d.len() as int));
                        lemma_grows_exact(s0, d, d.len() as int);
                        assert(d.subrange(0, d.len() as int) == d);
                    }
                    return Err(e);
                },
            }
            assert(buf@.subrange(0, (done + n) as int) =~= d + rest@.subrange(0, n as int));
            done = done + n;
        }
        assert(buf@.subrange(0, done as int) == buf@);
        proof {
            lemma_grows_exact(p0, buf@, done as int);
            lemma_grows_exact(s0, buf@, done as int);
            lemma_grows_exact(s0, buf@, done as int);
            assert(growth(p0, self.0.accepted()) == buf@);
            assert(buf@.subrange(0, buf@.len() as int) == buf@);
        }
        Ok(())
    }
}

impl<U: ByteSink, R: ByteSink> ByteSink for Muxer<U, R> {
    /// What the first sink took: the second takes the same bytes.
    open spec fn accepted(&self) -> Seq<u8> {
        self.primary().accepted()
    }

    open spec fn reliable(&self) -> bool {
        self.primary().reliable() && self.secondary().reliable()
    }

    /// The second sink receives what the first took; where the first fails
    /// the second is left as it was.
    fn write(&mut self, buf: &[u8]) -> (r: Result<usize, IoError>)
        ensures
            final(self).primary().reliable() == old(self).primary().reliable(),
            final(self).secondary().reliable() == old(self).secondary().reliable(),
            grows_within(
                old(self).secondary().accepted(),
                final(self).secondary().accepted(),
                growth(old(self).primary().accepted(), final(self).primary().accepted()),
            ),
            r matches Ok(n) ==> final(self).secondary().accepted() == old(
                self,
            ).secondary().accepted() + buf@.subrange(0, n as int),
    {
        let ghost s0 = self.1.accepted();
        let n = match self.0.write(buf) {
            Ok(n) => n,
            Err(e) => {
                proof { lemma_grows_exact(s0, growth(old(self).0.accepted(), self.0.accepted()), 0); }
                assert(s0 + growth(old(self).0.accepted(), self.0.accepted()).subrange(0, 0) =~= s0);
                return Err(e);
            },
        };
        let took = prefix_of(buf, n);
        proof { lemma_grows_exact(old(self).0.accepted(), buf@, n as int); }
        match write_all(&mut self.1, took.as_slice()) {
            Ok(()) => {
                proof { lemma_grows_exact(s0, took@, took@.len() as int); }
                assert(took@.subrange(0, took@.len() as int) == took@);
                Ok(n)
            },
            Err(e) => Err(e),
        }
    }

    fn flush(&mut self) -> (r: Result<(), IoError>) {
        self.0.flush()?;
        self.1.flush()
    }
}

/// A source that, on every read, writes what it read into a sink.
pub struct Siphon<R, W>(R, W);

impl<R: ByteSource, W: ByteSink> Siphon<R, W> {
    /// The source read from.
    pub closed spec fn source(&self) -> R {
        self.0
    }

    /// The sink written to.
    pub closed spec fn sink(&self) -> W {
        self.1
    }

    /// A siphon from `reader` into `writer`.
    pub fn new(reader: R, writer: W) -> (r: Siphon<R, W>)
        ensures
            r.source() == reader,
            r.sink() == writer,
    {
        Siphon(reader, writer)
    }

    /// The source read from.
    pub fn reader(&self) -> (r: &R)
        ensures
            *r == self.source(),
    {
        &self.0
    }

    /// The sink written to.
    pub fn writer(&self) -> (r: &W)
        ensures
            *r == self.sink(),
    {
        &self.1
    }

    /// Gives back the source and the sink.
    pub fn into_inner(self) -> (r: (R, W))
        ensures
            r == (self.source(), self.sink()),
    {
        (self.0, self.1)
    }

    /// Reads the source to its end into `out`; the sink receives the same
    /// bytes. On failure `out` holds a prefix of what the sink received,
    /// which is a prefix of what was taken from the source.
    pub fn read_to_end(&mut self, out: &mut Vec<u8>) -> (r: Result<usize, IoError>)
        ensures
            old(self).source().reliable() && old(self).sink().reliable() ==> r is Ok,
            drained(old(self).source().remaining(), final(self).source().remaining()),
            grows_within(
                old(self).sink().accepted(),
                final(self).sink().accepted(),
                taken(old(self).source().remaining(), final(self).source().remaining()),
            ),
            grows_within(
                old(out)@,
                final(out)@,
                growth(old(self).sink().accepted(), final(self).sink().accepted()),
            ),
            r matches Ok(n) ==> n == old(self).source().remaining().len() && final(out)@ == old(
                out,
            )@ + old(self).source().remaining() && final(self).sink().accepted() == old(
                self,
            ).sink().accepted() + old(self).source().remaining(),
    {
        let ghost all = self.0.remaining();
        let ghost s0 = self.1.accepted();
        let start = out.len();
        assert(all.subrange(0, all.len() as int) =~= all);
        assert(taken(all, all) =~= Seq::<u8>::empty());
        assert(old(out)@ + Seq::<u8>::empty() =~= old(out)@);
        assert(s0 + Seq::<u8>::empty() =~= s0);
        loop
            invariant
                drained(all, self.0.remaining()),
                out@ == old(out)@ + taken(all, self.0.remaining()),
                self.1.accepted() == s0 + taken(all, self.0.remaining()),
                start == old(out)@.len(),
                all == old(self).source().remaining(),
                s0 == old(self).sink().accepted(),
                self.0.reliable() == old(self).source().reliable(),
                self.1.reliable() == old(self).sink().reliable(),
            decreases self.0.remaining().len(),
        {
            let ghost before = self.0.remaining();
            let ghost sb = self.1.accepted();
            let ghost d = taken(all, before);
            let got = self.read(8192);
            proof { lemma_drained_compose(all, before, self.0.remaining()); }
            let chunk = match got {
                Ok(c) => c,
                Err(e) => {
                    proof {
                        let rem = self.0.remaining();
                        lemma_grows_compose(s0, d, self.1.accepted(), taken(before, rem));
                        assert(growth(s0, self.1.accepted()) == d + growth(sb, self.1.accepted()));
                        lemma_grows_exact(old(out)@, growth(s0, self.1.accepted()), d.len() as int);
                        assert(growth(s0, self.1.accepted()).subrange(0, d.len() as int) =~= d);
                    }
                    return Err(e);
                },
            };
            if chunk.len() == 0 {
                proof {
                    lemma_grows_exact(s0, taken(all, self.0.remaining()), taken(all, self.0.remaining()).len() as int);
                    lemma_grows_exact(old(out)@, growth(s0, self.1.accepted()), growth(s0, self.1.accepted()).len() as int);
                    assert(taken(all, self.0.remaining()) =~= all);
                    assert(taken(all, self.0.remaining()).subrange(0, all.len() as int) == all);
                    assert(growth(s0, self.1.accepted()) =~= all);
                    assert(growth(s0, self.1.accepted()).subrange(0, all.len() as int) == all);
                }
                return Ok(out.len() - start);
            }
            append_bytes(out, chunk.as_slice());
        }
    }
}

impl<R: ByteSource, W: ByteSink> ByteSource for Siphon<R, W> {
    open spec fn remaining(&self) -> Seq<u8> {
        self.source().remaining()
    }

    open spec fn reliable(&self) -> bool {
        self.source().reliable() && self.sink().reliable()
    }

    /// The sink receives what was read; on failure it received a prefix of
    /// what was taken from the source.
    fn read(&mut self, max: usize) -> (r: Result<Vec<u8>, IoError>)
        ensures
            grows_within(
                old(self).sink().accepted(),
                final(self).sink().accepted(),
                taken(old(self).remaining(), final(self).remaining()),
            ),
            final(self).sink().reliable() == old(self).sink().reliable(),
            final(self).source().reliable() == old(self).source().reliable(),
            r matches Ok(c) ==> final(self).sink().accepted() == old(self).sink().accepted() + c@,
            r matches Ok(c) && c@.len() == 0 ==> final(self).sink() == old(self).sink(),
    {
        let ghost s0 = self.1.accepted();
        let chunk = match self.0.read(max) {
            Ok(c) => c,
            Err(e) => {
                proof {
                    lemma_grows_exact(s0, taken(old(self).0.remaining(), self.0.remaining()), 0);
                    assert(s0 + taken(old(self).0.remaining(), self.0.remaining()).subrange(0, 0) =~= s0);
                }
                return Err(e);
            },
        };
        match write_all(&mut self.1, chunk.as_slice()) {
            Ok(()) => Ok(chunk),
            Err(e) => Err(e),
        }
    }
}

/// What a validating read gives once the source has answered with `chunk`:
/// an empty chunk (the end) from input that does not validate is an error.
pub fn settle(chunk: Vec<u8>, valid: bool) -> (r: Result<Vec<u8>, IoError>)
    ensures
        chunk@.len() == 0 && !valid ==> r == Err::<Vec<u8>, IoError>(IoError::InvalidData),
        !(chunk@.len() == 0 && !valid) ==> r == Ok::<Vec<u8>, IoError>(chunk),
{
    if chunk.len() == 0 && !valid {
        Err(IoError::InvalidData)
    } else {
        Ok(chunk)
    }
}

/// A source that checks, at its end, that everything read was valid.
///
/// Every byte read is written into the validating sink. When the end is
/// reached and the sink does not validate, the read fails with
/// `IoError::InvalidData` instead of reporting the end.
pub struct Validator<R, W>(Siphon<R, W>);

impl<R: ByteSource, W: Validatable> Validator<R, W> {
    /// The source read from.
    pub closed spec fn source(&self) -> R {
        self.0.source()
    }

    /// The validating sink.
    pub closed spec fn sink(&self) -> W {
        self.0.sink()
    }

    /// A validator reading `reader` into `writer`.
    pub fn new(reader: R, writer: W) -> (r: Validator<R, W>)
        ensures
            r.source() == reader,
            r.sink() == writer,
    {
        Validator(Siphon::new(reader, writer))
    }

    /// The source read from.
    pub fn reader(&self) -> (r: &R)
        ensures
            *r == self.source(),
    {
        self.0.reader()
    }

    /// The validating sink.
    pub fn writer(&self) -> (r: &W)
        ensures
            *r == self.sink(),
    {
        self.0.writer()
    }

    /// Reads the source to its end into `out`. With a source and a sink that
    /// never fail, this succeeds exactly when what was read validates, and
    /// fails with `IoError::InvalidData` otherwise.
    pub fn read_to_end(&mut self, out: &mut Vec<u8>) -> (r: Result<usize, IoError>)
        ensures
            drained(old(self).source().remaining(), final(self).source().remaining()),
            grows_within(
                old(self).sink().accepted(),
                final(self).sink().accepted(),
                taken(old(self).source().remaining(), final(self).source().remaining()),
            ),
            grows_within(
                old(out)@,
                final(out)@,
                growth(old(self).sink().accepted(), final(self).sink().accepted()),
            ),
            r matches Ok(n) ==> n == old(self).source().remaining().len() && final(out)@ == old(
                out,
            )@ + old(self).source().remaining() && final(self).sink().accepted() == old(
                self,
            ).sink().accepted() + old(self).source().remaining() && final(self).sink().is_valid(),
            old(self).source().reliable() && old(self).sink().reliable() ==> (r is Ok
                <==> final(self).sink().is_valid()) && (r is Ok || r == Err::<usize, IoError>(
                IoError::InvalidData,
            )) && final(self).sink().accepted() == old(self).sink().accepted() + old(
                self,
            ).source().remaining(),
    {
        let ghost all = self.remaining();
        let ghost s0 = self.0.1.accepted();
        let start = out.len();
        assert(all.subrange(0, all.len() as int) =~= all);
        assert(taken(all, all) =~= Seq::<u8>::empty());
        assert(old(out)@ + Seq::<u8>::empty() =~= old(out)@);
        assert(s0 + Seq::<u8>::empty() =~= s0);
        loop
            invariant
                drained(all, self.remaining()),
                out@ == old(out)@ + taken(all, self.remaining()),
                self.sink().accepted() == s0 + taken(all, self.remaining()),
                start == old(out)@.len(),
                all == old(self).source().remaining(),
                s0 == old(self).sink().accepted(),
                self.source().reliable() == old(self).source().reliable(),
                self.sink().reliable() == old(self).sink().reliable(),
            decreases self.remaining().len(),
        {
            let ghost before = self.remaining();
            let ghost sb = self.sink().accepted();
            let ghost d = taken(all, before);
            let got = self.read(8192);
            proof { lemma_drained_compose(all, before, self.remaining()); }
            let chunk = match got {
                Ok(c) => c,
                Err(e) => {
                    proof {
                        let rem = self.remaining();
                        lemma_grows_compose(s0, d, self.sink().accepted(), taken(before, rem));
                        assert(growth(s0, self.sink().accepted()) == d + growth(sb, self.sink().accepted()));
                        lemma_grows_exact(old(out)@, growth(s0, self.sink().accepted()), d.len() as int);
                        assert(growth(s0, self.sink().accepted()).subrange(0, d.len() as int) =~= d);
                        if old(self).source().reliable() && old(self).sink().reliable() {
                            assert(before.len() == 0);
                            assert(taken(all, rem) =~= all);
                        }
                    }
                    return Err(e);
                },
            };
            if chunk.len() == 0 {
                proof {
                    lemma_grows_exact(s0, taken(all, self.remaining()), taken(all, self.remaining()).len() as int);
                    lemma_grows_exact(old(out)@, growth(s0, self.sink().accepted()), growth(s0, self.sink().accepted()).len() as int);
                    assert(taken(all, self.remaining()) =~= all);
                    assert(taken(all, self.remaining()).subrange(0, all.len() as int) == all);
                    assert(growth(s0, self.sink().accepted()) =~= all);
                    assert(growth(s0, self.sink().accepted()).subrange(0, all.len() as int) == all);
                }
                return Ok(out.len() - start);
            }
            append_bytes(out, chunk.as_slice());
        }
    }
}

impl<R: ByteSource, W: Validatable> ByteSource for Validator<R, W> {
    open spec fn remaining(&self) -> Seq<u8> {
        self.source().remaining()
    }

    /// Bytes before the end are handed on as the siphon gives them; at the
    /// end, the outcome is what `settle` makes of the sink's validity.
    fn read(&mut self, max: usize) -> (r: Result<Vec<u8>, IoError>)
        ensures
            final(self).sink().reliable() == old(self).sink().reliable(),
            final(self).source().reliable() == old(self).source().reliable(),
            grows_within(
                old(self).sink().accepted(),
                final(self).sink().accepted(),
                taken(old(self).remaining(), final(self).remaining()),
            ),
            r matches Ok(c) ==> final(self).sink().accepted() == old(self).sink().accepted() + c@,
            r matches Ok(c) && c@.len() == 0 && max > 0 ==> final(self).sink().is_valid(),
            old(self).remaining().len() == 0 && max > 0 && !old(self).sink().is_valid() ==> r is Err,
            old(self).source().reliable() && old(self).sink().reliable() && old(
                self,
            ).remaining().len() > 0 && max > 0 ==> r is Ok,
            old(self).source().reliable() && old(self).sink().reliable() && old(
                self,
            ).remaining().len() == 0 && max > 0 ==> final(self).sink() == old(self).sink() && (
            old(self).sink().is_valid() ==> (r matches Ok(c) && c@.len() == 0)) && (!old(
                self,
            ).sink().is_valid() ==> r == Err::<Vec<u8>, IoError>(IoError::InvalidData)),
    {
        let chunk = self.0.read(max)?;
        if chunk.len() == 0 {
            let valid = self.0.writer().validate();
            settle(chunk, valid)
        } else {
            Ok(chunk)
        }
    }
}

} // verus!
