use wyrcan::digest::{dehex, Digest, Invalid};
use wyrcan::iotools::{ByteSink, Validatable};

const HELLO: &str = "2cf24dba5fb0a30e26e83b2ac5b9e29e1b161e5c1fa7425e73043362938b9824";

#[test]
fn parse_and_display_round_trip() {
    let text = format!("sha256:{}", HELLO);
    let d = Digest::parse(&text).unwrap();
    assert_eq!(d.display(), text);
    assert_eq!(d.algorithm(), "sha256");
}

#[test]
fn display_lowercases_algorithm_and_hex() {
    let text = format!("SHA256:{}", HELLO.to_uppercase());
    let d = Digest::parse(&text).unwrap();
    assert_eq!(d.display(), text.to_lowercase());
}

#[test]
fn bare_hex_is_sha256() {
    let d = Digest::parse(HELLO).unwrap();
    assert_eq!(d.algorithm(), "sha256");
    assert_eq!(d.display(), format!("sha256:{}", HELLO));
}

#[test]
fn parse_errors() {
    assert_eq!(Digest::parse("md5:abcd").err(), Some(Invalid::Algorithm));
    assert_eq!(Digest::parse("abc").err(), Some(Invalid::Algorithm));
    assert_eq!(Digest::parse("sha256:abc").err(), Some(Invalid::Length));
    let bad = format!("sha256:{}", "zz".repeat(32));
    assert_eq!(Digest::parse(&bad).err(), Some(Invalid::Encoding));
    assert_eq!(Invalid::Length.describe(), "invalid digest length");
}

#[test]
fn dehex_digits() {
    assert_eq!(dehex('0'), Some(0));
    assert_eq!(dehex('a'), Some(10));
    assert_eq!(dehex('F'), Some(15));
    assert_eq!(dehex('g'), None);
}

#[test]
fn validates_written_bytes() {
    let mut d = Digest::parse(&format!("sha256:{}", HELLO)).unwrap();
    assert!(!d.validate());
    d.write(b"hel").unwrap();
    d.write(b"lo").unwrap();
    assert!(d.validate());
    let mut e = Digest::parse(&format!("sha256:{}", HELLO)).unwrap();
    e.write(b"hellp").unwrap();
    assert!(!e.validate());
}

#[test]
fn other_algorithms_validate() {
    let mut d224 = Digest::parse("sha224:d14a028c2a3a2bc9476102bb288234c415a2b01f828ea62ac5b3e42f").unwrap();
    assert_eq!(d224.algorithm(), "sha224");
    assert!(d224.validate());
    d224.write(b"x").unwrap();
    assert!(!d224.validate());
    let d384 = Digest::parse("sha384:38b060a751ac96384cd9327eb1b1e36a21fdb71114be07434c0cc7bf63f6e1da274edebfe76f65fbd51ad2f14898b95b").unwrap();
    assert!(d384.validate());
    let d512 = Digest::parse("sha512:cf83e1357eefb8bdf1542850d66d8007d620e4050b5715dc83f4a921d36ce9ce47d0d13c5d85f2b0ff8318d2877eec2f63b931bd47417a81a538327af927da3e").unwrap();
    assert!(d512.validate());
}

#[test]
fn fresh_digest_forgets_written_bytes() {
    let mut d = Digest::parse(&format!("sha256:{}", HELLO)).unwrap();
    d.write(b"hello").unwrap();
    let f = d.fresh();
    assert!(d.validate());
    assert!(!f.validate());
    assert_eq!(f.display(), d.display());
}

#[test]
fn empty_and_odd_inputs() {
    assert_eq!(Digest::parse("").err(), Some(Invalid::Algorithm));
    assert_eq!(Digest::parse(":").err(), Some(Invalid::Algorithm));
    assert_eq!(Digest::parse("sha256:").err(), Some(Invalid::Length));
    let text = format!("Sha256:{}", HELLO);
    assert_eq!(Digest::parse(&text).unwrap().display(), format!("sha256:{}", HELLO));
}

#[test]
fn lengths_are_counted_in_bytes() {
    // 63 ASCII characters and one two-byte character: 65 bytes, no ':'.
    let bare = format!("{}é", &HELLO[..63]);
    assert_eq!(Digest::parse(&bare).err(), Some(Invalid::Algorithm));
    // After "sha256:", 64 characters taking 65 bytes.
    let long = format!("sha256:{}é", &HELLO[..63]);
    assert_eq!(Digest::parse(&long).err(), Some(Invalid::Length));
    // After "sha256:", 63 characters taking 64 bytes.
    let short = format!("sha256:{}é", &HELLO[..62]);
    assert_eq!(Digest::parse(&short).err(), Some(Invalid::Encoding));
    // 64 bytes without ':' holding a non-hex character.
    let odd = format!("{}é", &HELLO[..62]);
    assert_eq!(Digest::parse(&odd).err(), Some(Invalid::Encoding));
}
