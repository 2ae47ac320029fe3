//! Converting an image's entries into a `newc` initrd, with look-asides
//! that copy the kernel and its command line into outputs of their own.

use vstd::prelude::*;

use crate::entry::{file_type, type_bits, EntryHeader, TYPE_REGULAR, TYPE_SYMLINK};
use crate::keyset::same_key;
use crate::union::{components, split_components, Key};

verus! {

/// The directory where look-aside files are looked for.
pub open spec fn boot_dir() -> Seq<char> {
    seq!['b', 'o', 'o', 't']
}

/// Whether a link target is relative (it does not start at the root).
pub open spec fn is_relative(t: Seq<char>) -> bool {
    !(t.len() > 0 && t[0] == '/')
}

/// What a look-aside watching `watched` makes of an entry: whether the
/// entry's data goes to the look-aside's output, and the path watched
/// afterwards; or that the entry cannot be used.
pub open spec fn glance_spec(watched: Key, h: EntryHeader) -> Option<(bool, Key)> {
    if components(h.path@) == watched {
        if file_type(h.mode) == TYPE_REGULAR {
            Some((true, watched))
        } else if file_type(h.mode) == TYPE_SYMLINK && h.link_name is Some && is_relative(
            h.link_name->0@,
        ) && components(h.link_name->0@).len() == 1 {
            Some((false, seq![boot_dir()] + components(h.link_name->0@)))
        } else {
            None
        }
    } else {
        Some((false, watched))
    }
}

/// Why an entry cannot be converted.
#[derive(Clone, Debug, PartialEq, Eq)]
pub enum ExtractError {
    /// A look-aside path holds neither a regular file nor a relative
    /// one-component link; the entry's path.
    Unsupported(String),
    /// A header field does not fit in the 32 bits of a `newc` record.
    FieldTooLarge,
}

fn boot_chars() -> (r: Vec<char>)
    ensures
        r@ == boot_dir(),
{
    vec!['b', 'o', 'o', 't']
}

/// Watches one path of an image and routes that entry's data to an output.
///
/// A relative one-component link at the watched path moves the watch to
/// `boot/<target>`, once per link met.
pub struct LookAside<O> {
    symlink: Vec<Vec<char>>,
    output: O,
}

impl<O> LookAside<O> {
    /// The path watched.
    pub closed spec fn watched(&self) -> Key {
        crate::union::key_view(self.symlink)
    }

    /// The output the watched entry's data goes to.
    pub closed spec fn output_spec(&self) -> O {
        self.output
    }

    /// Watches `boot/wyrcan.kernel`.
    pub fn kernel(output: O) -> (r: LookAside<O>)
        ensures
            r.watched() == seq![boot_dir(), "wyrcan.kernel"@],
            r.output_spec() == output,
    {
        let symlink = vec![boot_chars(), crate::text::chars_of("wyrcan.kernel")];
        let r = LookAside { symlink, output };
        assert(r.watched() =~= seq![boot_dir(), "wyrcan.kernel"@]);
        r
    }

    /// Watches `boot/wyrcan.cmdline`.
    pub fn cmdline(output: O) -> (r: LookAside<O>)
        ensures
            r.watched() == seq![boot_dir(), "wyrcan.cmdline"@],
            r.output_spec() == output,
    {
        let symlink = vec![boot_chars(), crate::text::chars_of("wyrcan.cmdline")];
        let r = LookAside { symlink, output };
        assert(r.watched() =~= seq![boot_dir(), "wyrcan.cmdline"@]);
        r
    }

    /// Looks at an entry's header: true where the entry's data belongs to
    /// this look-aside's output. A link at the watched path moves the watch.
    pub fn glance(&mut self, header: &EntryHeader) -> (r: Result<bool, ExtractError>)
        ensures
            final(self).output_spec() == old(self).output_spec(),
            match glance_spec(old(self).watched(), *header) {
                Some((take, next)) => r == Ok::<bool, ExtractError>(take) && final(self).watched()
                    == next,
                None => r matches Err(ExtractError::Unsupported(p)) && p@ == header.path@,
            },
    {
        let path = split_components(header.path.as_str());
        if !same_key(&path, &self.symlink) {
            return Ok(false);
        }
        let kind = type_bits(header.mode);
        if kind == TYPE_REGULAR {
            return Ok(true);
        }
        if kind == TYPE_SYMLINK {
            if let Some(link) = &header.link_name {
                let cs = crate::text::chars_of(link.as_str());
                let absolute = cs.len() > 0 && cs[0] == '/';
                let target = split_components(link.as_str());
                if !absolute && target.len() == 1 {
                    let mut next: Vec<Vec<char>> = vec![boot_chars()];
                    let part = crate::text::slice_of(target[0].as_slice(), 0, target[0].len());
                    proof {
                        assert(target@[0]@.subrange(0, target@[0]@.len() as int) == target@[0]@);
                    }
                    next.push(part);
                    assert(crate::union::key_view(next) =~= seq![boot_dir()] + components(link@));
                    self.symlink = next;
                    return Ok(false);
                }
            }
        }
        Err(ExtractError::Unsupported(header.path.clone()))
    }

    /// The output, to write the watched entry's data into.
    pub fn output_mut(&mut self) -> (r: &mut O)
        ensures
            *r == old(self).output_spec(),
            final(self).output_spec() == *final(r),
            final(self).watched() == old(self).watched(),
    {
        &mut self.output
    }

    /// Gives back the output.
    pub fn into_output(self) -> (r: O)
        ensures
            r == self.output_spec(),
    {
        self.output
    }
}

/// Where an entry's data goes besides the initrd.
#[derive(Clone, Copy, Debug, PartialEq, Eq, Structural)]
pub enum Route {
    Kernel,
    Cmdline,
    Neither,
}

/// What an image is converted into: the kernel and command-line
/// look-asides, the initrd, the image's name and whether to show progress.
pub struct Extract<K, I, C> {
    pub kernel: LookAside<K>,
    pub initrd: I,
    pub cmdline: LookAside<C>,
    pub name: String,
    pub progress: bool,
}

impl<K, I, C> Extract<K, I, C> {
    /// Decides where an entry's data goes besides the initrd: the kernel
    /// look-aside is asked first, the command-line one only if the kernel's
    /// does not take the entry.
    pub fn route(&mut self, header: &EntryHeader) -> (r: Result<Route, ExtractError>)
        ensures
            final(self).initrd == old(self).initrd,
            final(self).name == old(self).name,
            final(self).progress == old(self).progress,
            final(self).kernel.output_spec() == old(self).kernel.output_spec(),
            final(self).cmdline.output_spec() == old(self).cmdline.output_spec(),
            match glance_spec(old(self).kernel.watched(), *header) {
                None => r is Err,
                Some((true, k)) => r == Ok::<Route, ExtractError>(Route::Kernel)
                    && final(self).kernel.watched() == k && final(self).cmdline.watched() == old(
                    self,
                ).cmdline.watched(),
                Some((false, k)) => final(self).kernel.watched() == k && match glance_spec(
                    old(self).cmdline.watched(),
                    *header,
                ) {
                    None => r is Err,
                    Some((take, c)) => r == Ok::<Route, ExtractError>(
                        if take {
                            Route::Cmdline
                        } else {
                            Route::Neither
                        },
                    ) && final(self).cmdline.watched() == c,
                },
            },
    {
        if self.kernel.glance(header)? {
            return Ok(Route::Kernel);
        }
        if self.cmdline.glance(header)? {
            Ok(Route::Cmdline)
        } else {
            Ok(Route::Neither)
        }
    }
}

/// The fields of one `newc` record, and the bytes of a link's target, which
/// stand in for the data of a link.
pub struct NewcRecord {
    pub name: String,
    pub mode: u32,
    pub uid: u32,
    pub gid: u32,
    pub mtime: u32,
    pub dev_major: u32,
    pub dev_minor: u32,
    pub size: u32,
    pub link: Option<Vec<u8>>,
}

/// Whether every 32-bit field of a record can hold the header's value.
pub open spec fn fits_newc(h: EntryHeader) -> bool {
    h.size <= u32::MAX && h.uid <= u32::MAX && h.gid <= u32::MAX && h.mtime <= u32::MAX && (
    file_type(h.mode) == TYPE_SYMLINK ==> link_bytes(h).len() <= u32::MAX)
}

/// The target of a link as bytes; empty where there is none.
pub open spec fn link_bytes(h: EntryHeader) -> Seq<u8> {
    match h.link_name {
        Some(l) => vstd::utf8::encode_utf8(l@),
        None => Seq::empty(),
    }
}

fn copy_bytes(b: &[u8]) -> (r: Vec<u8>)
    ensures
        r@ == b@,
{
    let mut out: Vec<u8> = Vec::new();
    let mut i: usize = 0;
    while i < b.len()
        invariant
            i <= b@.len(),
            out@ == b@.subrange(0, i as int),
        decreases b@.len() - i,
    {
        out.push(b[i]);
        i = i + 1;
    }
    out
}

/// The `newc` record for an entry: a link's size is the length of its
/// target, which also stands for its data; other entries keep the header's
/// size and their own data.
pub fn newc_record(header: &EntryHeader) -> (r: Result<NewcRecord, ExtractError>)
    ensures
        match r {
            Ok(rec) => fits_newc(*header) && rec.name@ == header.path@ && rec.mode == header.mode
                && rec.uid == header.uid && rec.gid == header.gid && rec.mtime == header.mtime
                && rec.dev_major == (match header.device_major {
                Some(v) => v,
                None => 0u32,
            }) && rec.dev_minor == (match header.device_minor {
                Some(v) => v,
                None => 0u32,
            }) && if file_type(header.mode) == TYPE_SYMLINK {
                rec.link matches Some(b) && b@ == link_bytes(*header) && rec.size == b@.len()
            } else {
                rec.link is None && rec.size == header.size
            },
            Err(e) => !fits_newc(*header) && e == ExtractError::FieldTooLarge,
        },
{
    if header.size > 0xffff_ffff || header.uid > 0xffff_ffff || header.gid > 0xffff_ffff
        || header.mtime > 0xffff_ffff {
        return Err(ExtractError::FieldTooLarge);
    }
    let dev_major = match header.device_major {
        Some(v) => v,
        None => 0,
    };
    let dev_minor = match header.device_minor {
        Some(v) => v,
        None => 0,
    };
    let (size, link) = if type_bits(header.mode) == TYPE_SYMLINK {
        let bytes = match &header.link_name {
            Some(l) => copy_bytes(l.as_str().as_bytes()),
            None => Vec::new(),
        };
        if bytes.len() > 0xffff_ffff {
            return Err(ExtractError::FieldTooLarge);
        }
        (bytes.len() as u32, Some(bytes))
    } else {
        (header.size as u32, None)
    };
    Ok(NewcRecord {
        name: header.path.clone(),
        mode: header.mode,
        uid: header.uid as u32,
        gid: header.gid as u32,
        mtime: header.mtime as u32,
        dev_major,
        dev_minor,
        size,
        link,
    })
}

} // verus!
