use ncore::ctl::{
    has_uid_result, ioc, ioctl_result, prctl_result, write_str64, KernelOp, FMAC_MAGIC, IOC_ADD_UID,
    IOC_BIND_EVT, IOC_CHK_WRITE, IOC_DEL_UID, IOC_GET_SHM, IOC_HAS_UID,
};
use ncore::error::Error;
use ncore::event::{
    timeout_timespec, wait_after_poll, wait_after_read, wait_timeout_after_poll,
    wait_timeout_after_read, PollOutcome, ReadOutcome, WaitStep,
};
use ncore::fdscan::{contains, find_fd_by_link, parse_i32, FdEntry};
use ncore::ffi::{ctl_status, ctl_step, get_cap_code, has_uid_code, status_code, CtlStep, Resource};

#[test]
fn kernel_op_codes() {
    assert_eq!(KernelOp::from_code(1), Some(KernelOp::Authenticate));
    assert_eq!(KernelOp::from_code(2), Some(KernelOp::GetRoot));
    assert_eq!(KernelOp::from_code(3), Some(KernelOp::Ioctl));
    assert_eq!(KernelOp::from_code(0), None);
    assert_eq!(KernelOp::from_code(4), None);
    assert_eq!(KernelOp::from_code(-1), None);
    assert_eq!(KernelOp::Authenticate.prctl_option(), 201);
    assert_eq!(KernelOp::GetRoot.prctl_option(), 202);
    assert_eq!(KernelOp::Ioctl.prctl_option(), 203);
}

#[test]
fn syscall_results() {
    assert_eq!(prctl_result(201, 5, 0).ok(), Some(5));
    assert!(matches!(prctl_result(202, -1, 1), Err(Error::Prctl { op: 202, errno: 1 })));
    assert!(ioctl_result(IOC_ADD_UID, 0, 0).is_ok());
    assert!(matches!(ioctl_result(7, -1, 22), Err(Error::Ioctl { cmd: 7, errno: 22 })));
}

#[test]
fn ioctl_request_numbers() {
    assert_eq!(IOC_GET_SHM, 0x4600);
    assert_eq!(IOC_BIND_EVT, 0x40044601);
    assert_eq!(IOC_CHK_WRITE, 0x80044602);
    assert_eq!(IOC_ADD_UID, 0x40044603);
    assert_eq!(IOC_DEL_UID, 0x40044604);
    assert_eq!(IOC_HAS_UID, 0xc0044605);
    assert_eq!(ioc(1, FMAC_MAGIC, 3, 4), IOC_ADD_UID);
    assert_eq!(ioc(3, FMAC_MAGIC, 5, 4), IOC_HAS_UID);
    assert_eq!(ioc(1, FMAC_MAGIC, 6, 16), 0x40104606);
}

#[test]
fn write_str64_zero_fills_and_cuts() {
    let mut buf = [0xaau8; 64];
    write_str64(&mut buf, "u:r:su:s0");
    assert_eq!(&buf[..9], b"u:r:su:s0");
    assert!(buf[9..].iter().all(|&b| b == 0));
    let long = "x".repeat(70);
    write_str64(&mut buf, &long);
    assert!(buf.iter().all(|&b| b == b'x'));
    write_str64(&mut buf, "");
    assert!(buf.iter().all(|&b| b == 0));
}

#[test]
fn wait_steps() {
    assert!(matches!(wait_after_poll(PollOutcome::Interrupted), WaitStep::Poll));
    assert!(matches!(wait_after_poll(PollOutcome::Ready(1)), WaitStep::Read));
    assert!(matches!(wait_after_poll(PollOutcome::Failed(9)), WaitStep::Finish(Err(Error::Poll(9)))));
    assert!(matches!(wait_after_read(ReadOutcome::Value(3)), WaitStep::Finish(Ok(3))));
    assert!(matches!(wait_after_read(ReadOutcome::Short), WaitStep::Poll));
    assert!(matches!(wait_after_read(ReadOutcome::Interrupted), WaitStep::Poll));
    assert!(matches!(wait_after_read(ReadOutcome::WouldBlock), WaitStep::Poll));
    assert!(matches!(wait_after_read(ReadOutcome::Failed(5)), WaitStep::Finish(Err(Error::Read(5)))));
}

#[test]
fn wait_timeout_steps() {
    assert!(matches!(wait_timeout_after_poll(PollOutcome::Ready(0)), Some(Ok(None))));
    assert!(matches!(wait_timeout_after_poll(PollOutcome::Interrupted), Some(Ok(None))));
    assert!(wait_timeout_after_poll(PollOutcome::Ready(1)).is_none());
    assert!(matches!(wait_timeout_after_poll(PollOutcome::Failed(4)), Some(Err(Error::Poll(4)))));
    assert!(matches!(wait_timeout_after_read(ReadOutcome::Value(42)), Ok(Some(42))));
    assert!(matches!(wait_timeout_after_read(ReadOutcome::Short), Ok(None)));
    assert!(matches!(wait_timeout_after_read(ReadOutcome::WouldBlock), Ok(None)));
    assert!(matches!(wait_timeout_after_read(ReadOutcome::Failed(2)), Err(Error::Read(2))));
}

#[test]
fn timeouts_split_like_rust_division() {
    assert_eq!(timeout_timespec(1500), (1, 500_000_000));
    assert_eq!(timeout_timespec(999), (0, 999_000_000));
    assert_eq!(timeout_timespec(0), (0, 0));
    assert_eq!(timeout_timespec(-1500), (-1, -500_000_000));
    assert_eq!(timeout_timespec(i64::MIN), (i64::MIN / 1000, (i64::MIN % 1000) * 1_000_000));
}

#[test]
fn descriptor_numbers_read_like_from_str() {
    assert_eq!(parse_i32(b"17"), Some(17));
    assert_eq!(parse_i32(b"+3"), Some(3));
    assert_eq!(parse_i32(b"-2147483648"), Some(i32::MIN));
    assert_eq!(parse_i32(b"2147483647"), Some(i32::MAX));
    assert_eq!(parse_i32(b"2147483648"), None);
    assert_eq!(parse_i32(b"99999999999999"), None);
    assert_eq!(parse_i32(b""), None);
    assert_eq!(parse_i32(b"-"), None);
    assert_eq!(parse_i32(b"1a"), None);
    assert_eq!(parse_i32(b"."), None);
}

#[test]
fn substring_search() {
    assert!(contains(b"anon_inode:[fmac_ctl]", b"[fmac_ctl]"));
    assert!(!contains(b"anon_inode:[fmac_shm]", b"[fmac_ctl]"));
    assert!(contains(b"abc", b""));
    assert!(contains(b"", b""));
    assert!(!contains(b"ab", b"abc"));
}

fn fd(name: Option<&str>, link: Option<&str>) -> FdEntry {
    FdEntry { name: name.map(|s| s.to_string()), link: link.map(|s| s.to_string()) }
}

#[test]
fn find_fd_by_link_takes_the_first_match() {
    let entries = vec![
        fd(Some("0"), Some("/dev/null")),
        fd(Some("."), Some("anon_inode:[fmac_ctl]")),
        fd(None, Some("anon_inode:[fmac_ctl]")),
        fd(Some("7"), None),
        fd(Some("9"), Some("anon_inode:[fmac_ctl]")),
        fd(Some("12"), Some("anon_inode:[fmac_ctl]")),
    ];
    assert_eq!(find_fd_by_link(&entries, "[fmac_ctl]").ok(), Some(9));
    assert!(matches!(find_fd_by_link(&entries, "[fmac_shm]"), Err(Error::FdNotFound("[fmac_shm]"))));
    assert!(matches!(find_fd_by_link(&[], "x"), Err(Error::FdNotFound("x"))));
}

#[test]
fn ctl_entry_point_steps() {
    assert!(matches!(ctl_step(KernelOp::Authenticate, false, false, false), CtlStep::Finish(-1)));
    assert!(matches!(ctl_step(KernelOp::Authenticate, true, false, false), CtlStep::Acquire(Resource::Shm)));
    assert!(matches!(ctl_step(KernelOp::Authenticate, true, true, false), CtlStep::Finish(0)));
    assert!(matches!(ctl_step(KernelOp::Ioctl, true, false, false), CtlStep::Acquire(Resource::Ctl)));
    assert!(matches!(ctl_step(KernelOp::Ioctl, true, false, true), CtlStep::Finish(0)));
    assert!(matches!(ctl_step(KernelOp::GetRoot, true, false, false), CtlStep::Finish(0)));
    assert_eq!(ctl_status(KernelOp::Authenticate, false, true), -1);
    assert_eq!(ctl_status(KernelOp::Ioctl, true, false), -1);
    assert_eq!(ctl_status(KernelOp::GetRoot, false, false), 0);
}

#[test]
fn status_codes() {
    assert_eq!(status_code(true), 0);
    assert_eq!(status_code(false), -1);
    assert_eq!(has_uid_code(&Ok(true)), 1);
    assert_eq!(has_uid_code(&Ok(false)), 0);
    assert_eq!(has_uid_code(&Err(Error::Read(1))), -1);
    assert_eq!(get_cap_code(&Ok(0x30)), 0x30);
    assert_eq!(get_cap_code(&Err(Error::Poll(1))), 0);
}

#[test]
fn has_uid_answers() {
    assert!(matches!(has_uid_result(0, 0, 1), Ok(true)));
    assert!(matches!(has_uid_result(0, 0, 0), Ok(false)));
    assert!(matches!(has_uid_result(-1, 13, 1), Err(Error::Ioctl { cmd, errno: 13 }) if cmd == IOC_HAS_UID));
}

/// The answer of a `ctl` entry point, written out case by case.
fn expected_ctl(value: i32, ok: bool, shm: bool, ctl: bool, shm_after: bool, ctl_after: bool) -> i32 {
    match value {
        1 | 2 | 3 if !ok => -1,
        1 => if shm || shm_after { 0 } else { -1 },
        2 => 0,
        3 => if ctl || ctl_after { 0 } else { -1 },
        _ => -1,
    }
}

#[test]
fn ctl_entry_protocol_answers() {
    for value in -1..5 {
        for bits in 0..32u32 {
            let ok = bits & 1 != 0;
            let shm = bits & 2 != 0;
            let ctl = bits & 4 != 0;
            let found = bits & 8 != 0;
            let found2 = bits & 16 != 0;
            let got = match KernelOp::from_code(value) {
                None => -1,
                Some(op) => match ctl_step(op, ok, shm, ctl) {
                    CtlStep::Finish(c) => c,
                    CtlStep::Acquire(Resource::Shm) => ctl_status(op, found, ctl),
                    CtlStep::Acquire(Resource::Ctl) => ctl_status(op, shm, found2),
                },
            };
            let (shm_after, ctl_after) = (shm || (value == 1 && ok && found), ctl || (value == 3 && ok && found2));
            assert_eq!(got, expected_ctl(value, ok, shm, ctl, shm_after, ctl_after), "value {} bits {}", value, bits);
        }
    }
}
