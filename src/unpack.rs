//! Unpacking an image into a directory: what each surviving entry becomes.

use vstd::prelude::*;

use crate::entry::{
    file_type, type_bits, EntryHeader, TYPE_BLOCK_DEVICE, TYPE_CHAR_DEVICE, TYPE_DIRECTORY,
    TYPE_FIFO, TYPE_REGULAR, TYPE_SOCKET, TYPE_SYMLINK,
};
use crate::union::{components, split_components};

verus! {

/// What to create for an entry below the output directory.
#[derive(Clone, Debug, PartialEq, Eq)]
pub enum Action {
    /// A directory with the mode; its parent exists already.
    MakeDir { mode: u32 },
    /// A new regular file with the mode, filled with the entry's data.
    WriteFile { mode: u32 },
    /// A character or block device node.
    MakeNode { mode: u32, major: u32, minor: u32 },
    /// A named pipe.
    MakeFifo { mode: u32 },
    /// A symbolic link to the target.
    Symlink { target: String },
    /// A socket, which is not created.
    SkipSocket,
}

/// Why an entry cannot be unpacked.
#[derive(Clone, Debug, PartialEq, Eq)]
pub enum UnpackError {
    /// The path is absolute or climbs out with `..`; the path.
    Disallowed(String),
    /// A link without a target; the entry's path.
    NoLinkTarget(String),
    /// The mode names no known file type.
    UnknownMode(u32),
}

/// Whether a path would leave the output directory: it starts at the root
/// or has a `..` component.
pub open spec fn escapes(p: Seq<char>) -> bool {
    (p.len() > 0 && p[0] == '/') || components(p).contains(seq!['.', '.'])
}

/// What an entry becomes, or why it cannot be unpacked.
pub open spec fn plan_spec(h: EntryHeader) -> Result<Action, UnpackError> {
    if escapes(h.path@) {
        Err(UnpackError::Disallowed(h.path))
    } else if file_type(h.mode) == TYPE_DIRECTORY {
        Ok(Action::MakeDir { mode: h.mode })
    } else if file_type(h.mode) == TYPE_REGULAR {
        Ok(Action::WriteFile { mode: h.mode })
    } else if file_type(h.mode) == TYPE_CHAR_DEVICE || file_type(h.mode) == TYPE_BLOCK_DEVICE {
        Ok(
            Action::MakeNode {
                mode: h.mode,
                major: match h.device_major {
                    Some(v) => v,
                    None => 0,
                },
                minor: match h.device_minor {
                    Some(v) => v,
                    None => 0,
                },
            },
        )
    } else if file_type(h.mode) == TYPE_FIFO {
        Ok(Action::MakeFifo { mode: h.mode })
    } else if file_type(h.mode) == TYPE_SYMLINK {
        match h.link_name {
            Some(t) => Ok(Action::Symlink { target: t }),
            None => Err(UnpackError::NoLinkTarget(h.path)),
        }
    } else if file_type(h.mode) == TYPE_SOCKET {
        Ok(Action::SkipSocket)
    } else {
        Err(UnpackError::UnknownMode(h.mode))
    }
}

/// Whether the string views of two results agree.
pub open spec fn same_plan(a: Result<Action, UnpackError>, b: Result<Action, UnpackError>) -> bool {
    match (a, b) {
        (Ok(Action::Symlink { target: x }), Ok(Action::Symlink { target: y })) => x@ == y@,
        (Err(UnpackError::Disallowed(x)), Err(UnpackError::Disallowed(y))) => x@ == y@,
        (Err(UnpackError::NoLinkTarget(x)), Err(UnpackError::NoLinkTarget(y))) => x@ == y@,
        (Ok(Action::Symlink { .. }), _) => false,
        (Err(UnpackError::Disallowed(_)), _) => false,
        (Err(UnpackError::NoLinkTarget(_)), _) => false,
        _ => a == b,
    }
}

fn escapes_exec(path: &str) -> (r: bool)
    ensures
        r == escapes(path@),
{
    let cs = crate::text::chars_of(path);
    if cs.len() > 0 && cs[0] == '/' {
        return true;
    }
    let parts = split_components(path);
    let mut i: usize = 0;
    while i < parts.len()
        invariant
            i <= parts@.len(),
            crate::union::key_view(parts) == components(path@),
            forall|j: int| 0 <= j < i ==> parts@[j]@ != seq!['.', '.'],
        decreases parts@.len() - i,
    {
        let p = &parts[i];
        if p.len() == 2 && p[0] == '.' && p[1] == '.' {
            assert(p@ =~= seq!['.', '.']);
            assert(crate::union::key_view(parts)[i as int] == seq!['.', '.']);
            assert(0 <= i < crate::union::key_view(parts).len());
            let ghost k = crate::union::key_view(parts);
            assert(k == components(path@));
            assert(k[i as int] == seq!['.', '.']);
            assert(k.contains(seq!['.', '.']));
            return true;
        }
        i = i + 1;
    }
    assert forall|j: int| 0 <= j < crate::union::key_view(parts).len() implies #[trigger] crate::union::key_view(parts)[j]
        != seq!['.', '.'] by {
        assert(crate::union::key_view(parts)[j] == parts@[j]@);
    }
    false
}

/// What an entry becomes below the output directory, by its path and the
/// type bits of its mode; or why it cannot be unpacked.
pub fn plan(header: &EntryHeader) -> (r: Result<Action, UnpackError>)
    ensures
        same_plan(r, plan_spec(*header)),
{
    if escapes_exec(header.path.as_str()) {
        return Err(UnpackError::Disallowed(header.path.clone()));
    }
    let kind = type_bits(header.mode);
    if kind == TYPE_DIRECTORY {
        Ok(Action::MakeDir { mode: header.mode })
    } else if kind == TYPE_REGULAR {
        Ok(Action::WriteFile { mode: header.mode })
    } else if kind == TYPE_CHAR_DEVICE || kind == TYPE_BLOCK_DEVICE {
        let major = match header.device_major {
            Some(v) => v,
            None => 0,
        };
        let minor = match header.device_minor {
            Some(v) => v,
            None => 0,
        };
        Ok(Action::MakeNode { mode: header.mode, major, minor })
    } else if kind == TYPE_FIFO {
        Ok(Action::MakeFifo { mode: header.mode })
    } else if kind == TYPE_SYMLINK {
        match &header.link_name {
            Some(t) => Ok(Action::Symlink { target: t.clone() }),
            None => Err(UnpackError::NoLinkTarget(header.path.clone())),
        }
    } else if kind == TYPE_SOCKET {
        Ok(Action::SkipSocket)
    } else {
        Err(UnpackError::UnknownMode(header.mode))
    }
}

} // verus!
