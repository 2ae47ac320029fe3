use wyrcan::entry::EntryHeader;
use wyrcan::unpack::{plan, Action, UnpackError};

fn header(path: &str, mode: u32, link: Option<&str>) -> EntryHeader {
    EntryHeader {
        path: path.to_string(),
        mode,
        uid: 0,
        gid: 0,
        mtime: 0,
        size: 0,
        link_name: link.map(|l| l.to_string()),
        device_major: Some(4),
        device_minor: Some(64),
    }
}

#[test]
fn plans_each_file_type() {
    assert_eq!(plan(&header("etc/", 0o040755, None)), Ok(Action::MakeDir { mode: 0o040755 }));
    assert_eq!(plan(&header("etc/hostname", 0o100644, None)), Ok(Action::WriteFile { mode: 0o100644 }));
    assert_eq!(
        plan(&header("dev/tty0", 0o020620, None)),
        Ok(Action::MakeNode { mode: 0o020620, major: 4, minor: 64 })
    );
    assert_eq!(
        plan(&header("dev/sda", 0o060660, None)),
        Ok(Action::MakeNode { mode: 0o060660, major: 4, minor: 64 })
    );
    assert_eq!(plan(&header("run/p", 0o010644, None)), Ok(Action::MakeFifo { mode: 0o010644 }));
    assert_eq!(
        plan(&header("bin/sh", 0o120777, Some("busybox"))),
        Ok(Action::Symlink { target: "busybox".to_string() })
    );
    assert_eq!(plan(&header("run/s", 0o140755, None)), Ok(Action::SkipSocket));
}

#[test]
fn refuses_escaping_paths() {
    assert_eq!(
        plan(&header("../etc/passwd", 0o100644, None)),
        Err(UnpackError::Disallowed("../etc/passwd".to_string()))
    );
    assert_eq!(
        plan(&header("a/../../b", 0o100644, None)),
        Err(UnpackError::Disallowed("a/../../b".to_string()))
    );
    assert_eq!(
        plan(&header("/etc/passwd", 0o100644, None)),
        Err(UnpackError::Disallowed("/etc/passwd".to_string()))
    );
    assert_eq!(plan(&header("a/..b", 0o100644, None)), Ok(Action::WriteFile { mode: 0o100644 }));
}

#[test]
fn refuses_link_without_target_and_unknown_mode() {
    assert_eq!(
        plan(&header("bin/sh", 0o120777, None)),
        Err(UnpackError::NoLinkTarget("bin/sh".to_string()))
    );
    assert_eq!(plan(&header("x", 0o000644, None)), Err(UnpackError::UnknownMode(0o000644)));
}
