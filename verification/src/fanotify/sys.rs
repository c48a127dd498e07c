//! The numbers of the fanotify interface of Linux.

use vstd::prelude::*;

verus! {

/// The head of every event that is read from a fanotify descriptor.
#[allow(non_camel_case_types)]
#[derive(Clone, Copy, Debug, PartialEq, Eq, Structural)]
pub struct event_metadata {
    /// The length of the event with its info records, in bytes.
    pub event_len: u32,
    /// The version of this structure.
    pub vers: u8,
    pub _reserved: u8,
    /// The length of this structure.
    pub _metadata_len: u16,
    /// The events that happened.
    pub mask: u64,
    /// A descriptor of the file, to be closed by the reader, or `FAN_NOFD`.
    pub fd: i32,
    /// The process that caused the event.
    pub pid: u32,
}

/// The head of every info record of an event.
#[allow(non_camel_case_types)]
#[derive(Clone, Copy, Debug, PartialEq, Eq, Structural)]
pub struct event_info_header {
    /// One of the `FAN_EVENT_INFO_TYPE` numbers.
    pub info_type: u8,
    pub _pad: u8,
    /// The length of the record with this head, in bytes.
    pub len: u16,
}

/// The id of a filesystem.
#[allow(non_camel_case_types)]
#[derive(Clone, Copy, Debug)]
pub struct fsid_t {
    pub val: [u32; 2],
}

/// The head of a file handle; the bytes of the handle follow it.
#[allow(non_camel_case_types)]
#[derive(Clone, Copy, Debug, PartialEq, Eq, Structural)]
pub struct file_handle {
    /// The number of bytes of the handle.
    pub handle_bytes: u32,
    pub _handle_type: i32,
}

/// An info record that names a file or a directory by its handle.
#[allow(non_camel_case_types)]
#[derive(Clone, Copy, Debug)]
pub struct event_info_fid {
    pub hdr: event_info_header,
    pub fsid: fsid_t,
    pub file_handle: file_handle,
}

/// An info record that holds a pidfd.
#[allow(non_camel_case_types)]
#[derive(Clone, Copy, Debug, PartialEq, Eq, Structural)]
pub struct event_info_pidfd {
    pub hdr: event_info_header,
    /// The pidfd, to be closed by the reader, or `FAN_NOPIDFD`.
    pub pidfd: u32,
}

/// An info record that reports a filesystem error.
#[allow(non_camel_case_types)]
#[derive(Clone, Copy, Debug, PartialEq, Eq, Structural)]
pub struct event_info_error {
    pub hdr: event_info_header,
    /// The kind of error.
    pub error: u32,
    /// The number of errors since the last one was read.
    pub error_count: u32,
}

/// The answer to a permission event.
#[allow(non_camel_case_types)]
#[derive(Clone, Copy, Debug, PartialEq, Eq, Structural)]
pub struct response {
    /// The descriptor that came with the event.
    pub fd: u32,
    /// `FAN_ALLOW` or `FAN_DENY`, with `FAN_AUDIT` where the decision is to be
    /// logged.
    pub response: u32,
}

/// The head of a record that follows an answer.
#[allow(non_camel_case_types)]
#[derive(Clone, Copy, Debug, PartialEq, Eq, Structural)]
pub struct response_info_header {
    pub typ: u8,
    pub pad: u8,
    pub len: u16,
}

/// The audit rule that an answer is logged under.
#[allow(non_camel_case_types)]
#[derive(Clone, Copy, Debug, PartialEq, Eq, Structural)]
pub struct response_info_audit_rule {
    pub hdr: response_info_header,
    pub rule_number: u32,
    pub subj_trust: u32,
    pub obj_trust: u32,
}

/// Open for reading only.
pub const O_RDONLY: i32 = 0o00000000;

/// Open for writing only.
pub const O_WRONLY: i32 = 0o00000001;

/// Open for reading and writing.
pub const O_RDWR: i32 = 0o00000002;

/// Allow files whose size needs 64 bits.
pub const O_LARGEFILE: i32 = 0o00100000;

/// Close the descriptor on exec.
pub const O_CLOEXEC: i32 = 0o02000000;

/// Write at the end.
pub const O_APPEND: i32 = 0o00002000;

/// Writes complete as for synchronised data.
pub const O_DSYNC: i32 = 0o00010000;

/// Leave the access time alone.
pub const O_NOATIME: i32 = 0o01000000;

/// Do not block.
pub const O_NONBLOCK: i32 = 0o00004000;

/// Writes complete as for synchronised files; holds `O_DSYNC`.
pub const O_SYNC: i32 = 0o04010000;

/// File was accessed
pub const FAN_ACCESS: i32 = 0x00000001;

/// File was modified
pub const FAN_MODIFY: i32 = 0x00000002;

/// Metadata changed
pub const FAN_ATTRIB: i32 = 0x00000004;

/// Writable file closed
pub const FAN_CLOSE_WRITE: i32 = 0x00000008;

/// Unwritable file closed
pub const FAN_CLOSE_NOWRITE: i32 = 0x00000010;

/// File was opened
pub const FAN_OPEN: i32 = 0x00000020;

/// File was moved from X
pub const FAN_MOVED_FROM: i32 = 0x00000040;

/// File was moved to Y
pub const FAN_MOVED_TO: i32 = 0x00000080;

/// Subfile was created
pub const FAN_CREATE: i32 = 0x00000100;

/// Subfile was deleted
pub const FAN_DELETE: i32 = 0x00000200;

/// Self was deleted
pub const FAN_DELETE_SELF: i32 = 0x00000400;

/// Self was moved
pub const FAN_MOVE_SELF: i32 = 0x00000800;

/// File was opened for exec
pub const FAN_OPEN_EXEC: i32 = 0x00001000;

/// Event queued overflowed
pub const FAN_Q_OVERFLOW: i32 = 0x00004000;

/// Filesystem error
pub const FAN_FS_ERROR: i32 = 0x00008000;

/// File open in perm check
pub const FAN_OPEN_PERM: i32 = 0x00010000;

/// File accessed in perm check
pub const FAN_ACCESS_PERM: i32 = 0x00020000;

/// File open/exec in perm check
pub const FAN_OPEN_EXEC_PERM: i32 = 0x00040000;

/// Interested in child events
pub const FAN_EVENT_ON_CHILD: i32 = 0x08000000;

/// File was renamed
pub const FAN_RENAME: i32 = 0x10000000;

/// Event occurred against dir
pub const FAN_ONDIR: i32 = 0x40000000;

/// Helper constant for close
pub const FAN_CLOSE: i32 = FAN_CLOSE_WRITE | FAN_CLOSE_NOWRITE;

/// Helper constant for moves
pub const FAN_MOVE: i32 = FAN_MOVED_FROM | FAN_MOVED_TO;

/// Close the fanotify descriptor on exec.
pub const FAN_CLOEXEC: i32 = 0x00000001;

/// Reads of the fanotify descriptor do not block.
pub const FAN_NONBLOCK: i32 = 0x00000002;

/// Notification class: events only. No bit of its own.
pub const FAN_CLASS_NOTIF: i32 = 0x00000000;

/// Notification class: access to content can be decided.
pub const FAN_CLASS_CONTENT: i32 = 0x00000004;

/// Notification class: access can be decided before the content is final.
pub const FAN_CLASS_PRE_CONTENT: i32 = 0x00000008;

/// No limit on the event queue.
pub const FAN_UNLIMITED_QUEUE: i32 = 0x00000010;

/// No limit on the number of marks.
pub const FAN_UNLIMITED_MARKS: i32 = 0x00000020;

/// Log permission decisions to the audit system.
pub const FAN_ENABLE_AUDIT: i32 = 0x00000040;

/// Report pidfd for event->pid
pub const FAN_REPORT_PIDFD: i32 = 0x00000080;

/// event->pid is thread id
pub const FAN_REPORT_TID: i32 = 0x00000100;

/// Report unique file id
pub const FAN_REPORT_FID: i32 = 0x00000200;

/// Report unique directory id
pub const FAN_REPORT_DIR_FID: i32 = 0x00000400;

/// Report events with name
pub const FAN_REPORT_NAME: i32 = 0x00000800;

/// Report dirent target id
pub const FAN_REPORT_TARGET_FID: i32 = 0x00001000;

/// Report directory id and name.
pub const FAN_REPORT_DFID_NAME: i32 = FAN_REPORT_DIR_FID | FAN_REPORT_NAME;

/// Report directory id, name, file id and target id.
pub const FAN_REPORT_DFID_NAME_TARGET: i32 = FAN_REPORT_DFID_NAME | FAN_REPORT_FID | FAN_REPORT_TARGET_FID;

/// Add the events to the mark.
pub const FAN_MARK_ADD: i32 = 0x00000001;

/// Remove the events from the mark.
pub const FAN_MARK_REMOVE: i32 = 0x00000002;

/// Mark a symbolic link itself.
pub const FAN_MARK_DONT_FOLLOW: i32 = 0x00000004;

/// Fail unless the path is a directory.
pub const FAN_MARK_ONLYDIR: i32 = 0x00000008;

/// The events go to the ignore mask.
pub const FAN_MARK_IGNORED_MASK: i32 = 0x00000020;

/// The ignore mask survives modification.
pub const FAN_MARK_IGNORED_SURV_MODIFY: i32 = 0x00000040;

/// Remove all marks of one kind.
pub const FAN_MARK_FLUSH: i32 = 0x00000080;

/// The mark may be dropped under memory pressure.
pub const FAN_MARK_EVICTABLE: i32 = 0x00000200;

/// The events go to the ignore mask, in the newer form.
pub const FAN_MARK_IGNORE: i32 = 0x00000400;

/// Mark one inode. No bit of its own.
pub const FAN_MARK_INODE: i32 = 0x00000000;

/// Mark a whole mount.
pub const FAN_MARK_MOUNT: i32 = 0x00000010;

/// Mark a whole filesystem.
pub const FAN_MARK_FILESYSTEM: i32 = 0x00000100;

/// `FAN_MARK_IGNORE` that survives modification.
pub const FAN_MARK_IGNORE_SURV: i32 = FAN_MARK_IGNORE | FAN_MARK_IGNORED_SURV_MODIFY;

/// The version of the event metadata that this code reads.
pub const FANOTIFY_METADATA_VERSION: i32 = 3;

/// Info record: file id.
pub const FAN_EVENT_INFO_TYPE_FID: i32 = 1;

/// Info record: directory id and name.
pub const FAN_EVENT_INFO_TYPE_DFID_NAME: i32 = 2;

/// Info record: directory id.
pub const FAN_EVENT_INFO_TYPE_DFID: i32 = 3;

/// Info record: pidfd.
pub const FAN_EVENT_INFO_TYPE_PIDFD: i32 = 4;

/// Info record: filesystem error.
pub const FAN_EVENT_INFO_TYPE_ERROR: i32 = 5;

/// Info record of a rename: old directory id and name.
pub const FAN_EVENT_INFO_TYPE_OLD_DFID_NAME: i32 = 10;

/// Info record of a rename: new directory id and name.
pub const FAN_EVENT_INFO_TYPE_NEW_DFID_NAME: i32 = 12;

/// Response carries no further record.
pub const FAN_RESPONSE_INFO_NONE: i32 = 0;

/// Response carries an audit rule.
pub const FAN_RESPONSE_INFO_AUDIT_RULE: i32 = 1;

/// Permission response: allow.
pub const FAN_ALLOW: i32 = 0x01;

/// Permission response: deny.
pub const FAN_DENY: i32 = 0x02;

/// Bitmask to create audit record for result
pub const FAN_AUDIT: i32 = 0x10;

/// Bitmask to indicate additional information
pub const FAN_INFO: i32 = 0x20;

/// No descriptor comes with the event.
pub const FAN_NOFD: i32 = -1;

/// No pidfd comes with the event.
pub const FAN_NOPIDFD: i32 = FAN_NOFD;

/// Making the pidfd failed.
pub const FAN_EPIDFD: i32 = -2;

} // verus!
