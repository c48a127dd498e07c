use allox::fanotify::flags::EventFdFlags;
use allox::fanotify::flags::EventFlags;
use allox::fanotify::flags::InitFlags;
use allox::fanotify::flags::MarkFlags;
use allox::fanotify::sys;

#[test]
fn no_flag_is_no_bit() {
    assert_eq!(InitFlags::default().to_bits(), 0);
    assert_eq!(EventFdFlags::default().to_bits(), 0);
    assert_eq!(MarkFlags::default().to_bits(), 0);
    assert_eq!(EventFlags::default().to_bits(), 0);
}

#[test]
fn init_flags_to_bits() {
    let f = InitFlags { cloexec: true, report_dfid_name: true, ..InitFlags::default() };
    assert_eq!(f.to_bits(), 0x0000_0c01);
    // The notification class has no bit of its own.
    let notif = InitFlags { notif: true, ..InitFlags::default() };
    assert_eq!(notif.to_bits(), 0);
    let all = InitFlags {
        pre_content: true,
        content: true,
        notif: true,
        cloexec: true,
        nonblock: true,
        unlimited_queue: true,
        unlimited_marks: true,
        report_tid: true,
        enable_audit: true,
        report_fid: true,
        report_dir_fid: true,
        report_dfid_name: true,
        report_dfid_name_target: true,
        report_pidfd: true,
    };
    assert_eq!(all.to_bits(), 0x0000_1fff);
    let target = InitFlags { report_dfid_name_target: true, ..InitFlags::default() };
    assert_eq!(target.to_bits(), sys::FAN_REPORT_DIR_FID | sys::FAN_REPORT_NAME | sys::FAN_REPORT_FID | sys::FAN_REPORT_TARGET_FID);
}

#[test]
fn event_fd_flags_to_bits() {
    let ro = EventFdFlags { rdonly: true, ..EventFdFlags::default() };
    assert_eq!(ro.to_bits(), 0);
    let f = EventFdFlags { rdwr: true, largefile: true, cloexec: true, ..EventFdFlags::default() };
    assert_eq!(f.to_bits(), 0o2 | 0o100000 | 0o2000000);
    // Synchronised files hold synchronised data.
    let sync = EventFdFlags { sync: true, ..EventFdFlags::default() };
    let both = EventFdFlags { sync: true, dsync: true, ..EventFdFlags::default() };
    assert_eq!(sync.to_bits(), 0o4010000);
    assert_eq!(both.to_bits(), sync.to_bits());
}

#[test]
fn mark_flags_to_bits_and_back() {
    let f = MarkFlags { dont_follow: true, mount: true, evictable: true, ..MarkFlags::default() };
    assert_eq!(f.to_bits(), 0x214);
    assert_eq!(MarkFlags::from_bits(0x214), f);
    assert_eq!(MarkFlags::from_bits(0), MarkFlags::default());
}

#[test]
fn mark_flags_with_a_mask_of_two_bits() {
    let surv = MarkFlags { ignore_surv: true, ..MarkFlags::default() };
    assert_eq!(surv.to_bits(), 0x440);
    // Either bit of the mask sets the flag.
    let back = MarkFlags::from_bits(0x440);
    assert!(back.ignore && back.ignored_surv_modify && back.ignore_surv);
    assert!(MarkFlags::from_bits(0x400).ignore_surv);
    assert!(MarkFlags::from_bits(0x040).ignore_surv);
    assert!(!MarkFlags::from_bits(0x020).ignore_surv);
    // Bits that belong to no flag are dropped.
    assert_eq!(MarkFlags::from_bits(0x83), MarkFlags::default());
}

#[test]
fn event_flags_to_bits_and_back() {
    let f = EventFlags { open: true, close_write: true, ondir: true, ..EventFlags::default() };
    assert_eq!(f.to_bits(), 0x4000_0028);
    let close = EventFlags { close: true, ..EventFlags::default() };
    assert_eq!(close.to_bits(), 0x18);
    let moved = EventFlags { moved: true, ..EventFlags::default() };
    assert_eq!(moved.to_bits(), 0xc0);
    let back = EventFlags::from_bits(0x4000_0028);
    assert!(back.open && back.close_write && back.ondir && back.close);
    assert!(!back.close_nowrite && !back.modify && !back.moved);
    let q = EventFlags::from_bits(sys::FAN_Q_OVERFLOW);
    assert_eq!(q, EventFlags { q_overflow: true, ..EventFlags::default() });
}

#[test]
fn event_flags_of_every_single_bit() {
    for bit in 0..31 {
        let x: i32 = 1 << bit;
        let f = EventFlags::from_bits(x);
        let known = 0x5807_dfff;
        if x & known == 0 {
            assert_eq!(f, EventFlags::default());
        } else {
            assert_eq!(f.to_bits() & x, x);
        }
    }
}
