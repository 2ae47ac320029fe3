use wyrcan::digest::Digest;
use wyrcan::iotools::{read_to_end, BufferSource, ByteSink, ByteSource, Either, IoError, Muxer, Siphon, Validator};
use wyrcan::spool::Spool;

#[test]
fn muxer_muxer() {
    let lhs: Vec<u8> = Vec::new();
    let rhs: Vec<u8> = Vec::new();
    let mut mux = Muxer::new(lhs, rhs);

    mux.write_all(b"0123456789").unwrap();
    let (lhs, rhs) = mux.into_inner();
    assert_eq!(lhs, b"0123456789");
    assert_eq!(rhs, b"0123456789");
}

#[test]
fn siphon_muxer() {
    let arr = b"0123456789";
    let dst: Vec<u8> = Vec::new();
    let mut all = Vec::new();
    let src = BufferSource::new(arr.to_vec());
    let mut sip = Siphon::new(src, dst);

    let len = sip.read_to_end(&mut all).unwrap();
    assert_eq!(len, arr.len());
    assert_eq!(all, arr);
    assert_eq!(sip.writer(), &arr.to_vec());
}

/// A sink that takes at most three bytes per write.
struct Trickle(Vec<u8>);

impl ByteSink for Trickle {
    fn write(&mut self, buf: &[u8]) -> Result<usize, IoError> {
        let n = buf.len().min(3);
        self.0.extend_from_slice(&buf[..n]);
        Ok(n)
    }

    fn flush(&mut self) -> Result<(), IoError> {
        Ok(())
    }
}

#[test]
fn muxer_secondary_gets_what_primary_took() {
    let mut mux = Muxer::new(Trickle(Vec::new()), Vec::new());
    let n = ByteSink::write(&mut mux, b"abcdefgh").unwrap();
    assert_eq!(n, 3);
    mux.write_all(b"XYZW").unwrap();
    let (p, s) = mux.into_inner();
    assert_eq!(p.0, b"abcXYZW".to_vec());
    assert_eq!(s, b"abcXYZW".to_vec());
}

#[test]
fn siphon_reads_in_small_chunks() {
    let mut sip = Siphon::new(BufferSource::new(b"hello world".to_vec()), Vec::new());
    let a = sip.read(4).unwrap();
    let b = sip.read(4).unwrap();
    assert_eq!(a, b"hell".to_vec());
    assert_eq!(b, b"o wo".to_vec());
    let mut rest = Vec::new();
    read_to_end(&mut sip, &mut rest).unwrap();
    assert_eq!(rest, b"rld".to_vec());
    assert_eq!(sip.writer(), &b"hello world".to_vec());
    assert_eq!(sip.read(4).unwrap(), Vec::<u8>::new());
}

const HELLO_SHA256: &str = "sha256:2cf24dba5fb0a30e26e83b2ac5b9e29e1b161e5c1fa7425e73043362938b9824";

#[test]
fn validator_passes_matching_stream() {
    let digest = Digest::parse(HELLO_SHA256).unwrap();
    let mut v = Validator::new(BufferSource::new(b"hello".to_vec()), digest);
    let mut out = Vec::new();
    let n = read_to_end(&mut v, &mut out).unwrap();
    assert_eq!(n, 5);
    assert_eq!(out, b"hello".to_vec());
    assert_eq!(v.read(16).unwrap().len(), 0);
}

#[test]
fn validator_fails_on_flipped_byte() {
    let digest = Digest::parse(HELLO_SHA256).unwrap();
    let mut v = Validator::new(BufferSource::new(b"hellp".to_vec()), digest);
    let first = v.read(16).unwrap();
    assert_eq!(first, b"hellp".to_vec());
    assert_eq!(v.read(16), Err(IoError::InvalidData));
    let mut w = Validator::new(BufferSource::new(b"hellp".to_vec()), Digest::parse(HELLO_SHA256).unwrap());
    let mut out = Vec::new();
    assert_eq!(read_to_end(&mut w, &mut out), Err(IoError::InvalidData));
}

#[test]
fn either_reads_and_writes_through_its_variant() {
    let mut one: Either<BufferSource, BufferSource> = Either::One(BufferSource::new(b"one".to_vec()));
    assert_eq!(one.read(10).unwrap(), b"one".to_vec());
    let mut two: Either<Vec<u8>, Vec<u8>> = Either::Two(Vec::new());
    assert_eq!(ByteSink::write(&mut two, b"xy").unwrap(), 2);
    match two {
        Either::Two(v) => assert_eq!(v, b"xy".to_vec()),
        Either::One(_) => panic!("wrong variant"),
    }
}

/// A chunk stream handing out fixed chunks, as a channel of buffers would.
struct Chunks(Vec<Vec<u8>>);

impl ByteSource for Chunks {
    fn read(&mut self, max: usize) -> Result<Vec<u8>, IoError> {
        if self.0.is_empty() {
            return Ok(Vec::new());
        }
        assert!(self.0[0].len() <= max);
        Ok(self.0.remove(0))
    }
}

#[test]
fn spool_serves_reads_across_chunks() {
    let mut s = Spool::new(Chunks(vec![b"abc".to_vec(), b"defgh".to_vec(), b"i".to_vec()]));
    assert_eq!(s.read(2).unwrap(), b"ab".to_vec());
    assert_eq!(s.read(4).unwrap(), b"cdef".to_vec());
    assert_eq!(s.read(10).unwrap(), b"ghi".to_vec());
    assert_eq!(s.read(10).unwrap(), Vec::<u8>::new());
    assert_eq!(s.read(10).unwrap(), Vec::<u8>::new());
}

/// A sink that refuses every write.
struct Broken;

impl ByteSink for Broken {
    fn write(&mut self, _buf: &[u8]) -> Result<usize, IoError> {
        Err(IoError::Other("broken".to_string()))
    }

    fn flush(&mut self) -> Result<(), IoError> {
        Ok(())
    }
}

#[test]
fn muxer_secondary_untouched_when_primary_fails() {
    let mut mux = Muxer::new(Broken, Vec::new());
    assert!(mux.write_all(b"abc").is_err());
    let (_, s) = mux.into_inner();
    assert!(s.is_empty());
    let mut empty = Muxer::new(Broken, Vec::new());
    assert_eq!(empty.write_all(b""), Ok(()));
}

#[test]
fn muxer_primary_keeps_what_it_took_when_secondary_fails() {
    let mut mux = Muxer::new(Vec::new(), Broken);
    assert!(mux.write_all(b"abc").is_err());
    let (p, _) = mux.into_inner();
    assert_eq!(p, b"abc".to_vec());
}

#[test]
fn zero_progress_is_write_zero() {
    assert_eq!(wyrcan::iotools::progress(0), Err(IoError::WriteZero));
    assert_eq!(wyrcan::iotools::progress(3), Ok(3));
}

#[test]
fn settle_decides_the_end() {
    assert_eq!(wyrcan::iotools::settle(Vec::new(), false), Err(IoError::InvalidData));
    assert_eq!(wyrcan::iotools::settle(Vec::new(), true), Ok(Vec::new()));
    assert_eq!(wyrcan::iotools::settle(b"x".to_vec(), false), Ok(b"x".to_vec()));
}

#[test]
fn validator_read_to_end_reports_mismatch() {
    let good = Digest::parse(HELLO_SHA256).unwrap();
    let mut v = Validator::new(BufferSource::new(b"hello".to_vec()), good);
    let mut out = Vec::new();
    assert_eq!(v.read_to_end(&mut out), Ok(5));
    assert_eq!(out, b"hello".to_vec());
    let bad = Digest::parse(HELLO_SHA256).unwrap();
    let mut w = Validator::new(BufferSource::new(b"jello".to_vec()), bad);
    let mut out = Vec::new();
    assert_eq!(w.read_to_end(&mut out), Err(IoError::InvalidData));
    assert_eq!(out, b"jello".to_vec());
}
