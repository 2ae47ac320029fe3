use wyrcan::entry::EntryHeader;
use wyrcan::extract::{newc_record, Extract, ExtractError, LookAside, Route};

fn header(path: &str, mode: u32, link: Option<&str>, size: u64) -> EntryHeader {
    EntryHeader {
        path: path.to_string(),
        mode,
        uid: 1,
        gid: 2,
        mtime: 3,
        size,
        link_name: link.map(|l| l.to_string()),
        device_major: None,
        device_minor: None,
    }
}

#[test]
fn kernel_lookaside_takes_regular_file() {
    let mut k = LookAside::kernel(Vec::<u8>::new());
    assert_eq!(k.glance(&header("boot/wyrcan.kernel", 0o100644, None, 128)), Ok(true));
    assert_eq!(k.glance(&header("boot/other", 0o100644, None, 1)), Ok(false));
    k.output_mut().extend_from_slice(b"kernel");
    assert_eq!(k.into_output(), b"kernel".to_vec());
}

#[test]
fn lookaside_follows_one_relative_link() {
    let mut k = LookAside::kernel(());
    assert_eq!(k.glance(&header("boot/wyrcan.kernel", 0o120777, Some("vmlinuz-6.1"), 0)), Ok(false));
    assert_eq!(k.glance(&header("boot/wyrcan.kernel", 0o100644, None, 1)), Ok(false));
    assert_eq!(k.glance(&header("boot/vmlinuz-6.1", 0o100644, None, 1)), Ok(true));
}

#[test]
fn lookaside_refuses_other_kinds() {
    let mut c = LookAside::cmdline(());
    assert_eq!(
        c.glance(&header("boot/wyrcan.cmdline", 0o120777, Some("/abs/path"), 0)),
        Err(ExtractError::Unsupported("boot/wyrcan.cmdline".to_string()))
    );
    assert_eq!(
        c.glance(&header("boot/wyrcan.cmdline", 0o120777, Some("a/b"), 0)),
        Err(ExtractError::Unsupported("boot/wyrcan.cmdline".to_string()))
    );
    assert_eq!(
        c.glance(&header("boot/wyrcan.cmdline", 0o040755, None, 0)),
        Err(ExtractError::Unsupported("boot/wyrcan.cmdline".to_string()))
    );
}

#[test]
fn routes_kernel_then_cmdline() {
    let mut e = Extract {
        kernel: LookAside::kernel(()),
        initrd: (),
        cmdline: LookAside::cmdline(()),
        name: "img".to_string(),
        progress: false,
    };
    assert_eq!(e.route(&header("boot/wyrcan.kernel", 0o100644, None, 128)), Ok(Route::Kernel));
    assert_eq!(e.route(&header("boot/wyrcan.cmdline", 0o100644, None, 9)), Ok(Route::Cmdline));
    assert_eq!(e.route(&header("etc/hostname", 0o100644, None, 9)), Ok(Route::Neither));
}

#[test]
fn newc_record_fields() {
    let r = newc_record(&header("bin/sh", 0o120777, Some("busybox"), 0)).unwrap();
    assert_eq!(r.name, "bin/sh");
    assert_eq!(r.size, 7);
    assert_eq!(r.link, Some(b"busybox".to_vec()));
    assert_eq!((r.uid, r.gid, r.mtime, r.dev_major, r.dev_minor), (1, 2, 3, 0, 0));
    let f = newc_record(&header("boot/wyrcan.kernel", 0o100644, None, 128)).unwrap();
    assert_eq!(f.size, 128);
    assert_eq!(f.link, None);
    assert_eq!(f.mode, 0o100644);
    let mut big = header("x", 0o100644, None, 1);
    big.uid = 1 << 40;
    assert!(matches!(newc_record(&big), Err(ExtractError::FieldTooLarge)));
}
